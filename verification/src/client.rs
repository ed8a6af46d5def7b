//! What the client for microtak-server's mTLS admin API decides: the data
//! it reads back, the method and URL of each call, and how a response
//! status is judged. The HTTP exchange itself happens outside.

use std::collections::BTreeMap;

use vstd::prelude::*;
use vstd::string::*;

use crate::text::{hex_upper, hex_upper_digit, push_char, trim_trailing, trimmed_len};

verus! {

/// An enrollment invite token as microtak-server reports it.
pub struct EnrollmentToken {
    pub token: String,
    pub created_at_unix: i64,
    pub expires_at_unix: Option<i64>,
    pub note: Option<String>,
    pub used: bool,
    pub used_by_common_name: Option<String>,
    pub used_at_unix: Option<i64>,
    pub revoked: bool,
}

/// A mission as microtak-server reports it; `roles` maps an identity
/// (certificate common name) to its role.
pub struct Mission {
    pub name: String,
    pub description: Option<String>,
    pub creator_uid: String,
    pub roles: BTreeMap<String, String>,
}

// ---------------------------------------------------------------------
// Percent-encoding of path segments
// ---------------------------------------------------------------------

/// Bytes that stand for themselves in a path segment: ASCII letters and
/// digits, `-`, `_`, `.` and `~`.
pub open spec fn is_unreserved(b: u8) -> bool {
    ||| 'A' as u32 <= b <= 'Z' as u32
    ||| 'a' as u32 <= b <= 'z' as u32
    ||| '0' as u32 <= b <= '9' as u32
    ||| b == '-' as u32
    ||| b == '_' as u32
    ||| b == '.' as u32
    ||| b == '~' as u32
}

fn unreserved(b: u8) -> (r: bool)
    ensures
        r == is_unreserved(b),
{
    let n = b as u32;
    ('A' as u32 <= n && n <= 'Z' as u32) || ('a' as u32 <= n && n <= 'z' as u32) || ('0' as u32
        <= n && n <= '9' as u32) || n == '-' as u32 || n == '_' as u32 || n == '.' as u32 || n
        == '~' as u32
}

/// One byte of a path segment: itself when unreserved, `%XX` (uppercase
/// hexadecimal) otherwise.
pub open spec fn percent_encode_byte(b: u8) -> Seq<char> {
    if is_unreserved(b) {
        seq![(b as u32) as char]
    } else {
        seq!['%', hex_upper(b >> 4u8), hex_upper(b & 15u8)]
    }
}

/// Percent-encoding of a byte sequence, byte by byte.
pub open spec fn percent_encode(bytes: Seq<u8>) -> Seq<char>
    decreases bytes.len(),
{
    if bytes.len() == 0 {
        Seq::empty()
    } else {
        percent_encode(bytes.drop_last()) + percent_encode_byte(bytes.last())
    }
}

/// Percent-encodes the UTF-8 bytes of `segment`, so that a mission name
/// or identity (which may hold spaces, `%` or `/`) stands as one path
/// segment.
pub fn urlencoding_light(segment: &str) -> (encoded: String)
    ensures
        encoded@ == percent_encode(segment.spec_bytes()),
{
    let bytes = segment.as_bytes();
    let mut out = String::new();
    let mut i: usize = 0;
    while i < bytes.len()
        invariant
            i <= bytes@.len(),
            bytes@ == segment.spec_bytes(),
            out@ == percent_encode(bytes@.take(i as int)),
        decreases bytes@.len() - i,
    {
        let b = bytes[i];
        proof {
            assert(bytes@.take(i + 1).drop_last() =~= bytes@.take(i as int));
        }
        if unreserved(b) {
            push_char(&mut out, b as char);
        } else {
            assert(b >> 4u8 < 16 && b & 15u8 < 16) by (bit_vector);
            push_char(&mut out, '%');
            push_char(&mut out, hex_upper_digit(b >> 4u8));
            push_char(&mut out, hex_upper_digit(b & 15u8));
            assert(out@ =~= percent_encode(bytes@.take(i as int)) + percent_encode_byte(b));
        }
        i = i + 1;
    }
    assert(bytes@.take(bytes@.len() as int) =~= bytes@);
    out
}

/// Characters that a percent-encoded segment is made of.
pub open spec fn is_segment_char(c: char) -> bool {
    ||| ('A' <= c && c <= 'Z')
    ||| ('a' <= c && c <= 'z')
    ||| ('0' <= c && c <= '9')
    ||| c == '-'
    ||| c == '_'
    ||| c == '.'
    ||| c == '~'
    ||| c == '%'
}

/// Whatever bytes are encoded, the result holds only unreserved ASCII
/// characters and `%`: no `/`, `?`, `#`, space or other character that
/// would end or split a URL path segment.
pub proof fn lemma_percent_encoding_is_one_segment(bytes: Seq<u8>)
    ensures
        forall|i: int|
            0 <= i < percent_encode(bytes).len() ==> is_segment_char(#[trigger] percent_encode(bytes)[i]),
    decreases bytes.len(),
{
    if bytes.len() > 0 {
        lemma_percent_encoding_is_one_segment(bytes.drop_last());
        let prefix = percent_encode(bytes.drop_last());
        let last = percent_encode_byte(bytes.last());
        let b = bytes.last();
        assert(b >> 4u8 < 16 && b & 15u8 < 16) by (bit_vector);
        assert forall|i: int| 0 <= i < last.len() implies is_segment_char(#[trigger] last[i]) by {}
        assert forall|i: int| 0 <= i < percent_encode(bytes).len() implies is_segment_char(
            #[trigger] percent_encode(bytes)[i],
        ) by {
            if i < prefix.len() {
                assert(percent_encode(bytes)[i] == prefix[i]);
            } else {
                assert(percent_encode(bytes)[i] == last[i - prefix.len()]);
            }
        }
    }
}


/// The value of a hexadecimal digit (either case).
pub open spec fn hex_value(c: char) -> Option<u8> {
    let n = c as u32;
    if '0' as u32 <= n <= '9' as u32 {
        Some((n - '0' as u32) as u8)
    } else if 'A' as u32 <= n <= 'F' as u32 {
        Some((n - 'A' as u32 + 10) as u8)
    } else if 'a' as u32 <= n <= 'f' as u32 {
        Some((n - 'a' as u32 + 10) as u8)
    } else {
        None
    }
}

/// Percent-decoding as a server reads a path segment: `%` and two
/// hexadecimal digits stand for one byte, any other (ASCII) character for
/// its own code.
pub open spec fn percent_decode(s: Seq<char>) -> Seq<u8>
    decreases s.len(),
{
    if s.len() == 0 {
        Seq::empty()
    } else if s.len() >= 3 && s[0] == '%' && hex_value(s[1]) is Some && hex_value(s[2]) is Some {
        seq![(hex_value(s[1]).unwrap() * 16 + hex_value(s[2]).unwrap()) as u8] + percent_decode(
            s.skip(3),
        )
    } else {
        seq![(s[0] as u32) as u8] + percent_decode(s.drop_first())
    }
}

proof fn lemma_decode_encoded_byte(x: u8, t: Seq<char>)
    ensures
        percent_decode(percent_encode_byte(x) + t) == seq![x] + percent_decode(t),
{
    let s = percent_encode_byte(x) + t;
    if is_unreserved(x) {
        assert(s[0] == ((x as u32) as char));
        assert(s.drop_first() =~= t);
    } else {
        let hi = x >> 4u8;
        let lo = x & 15u8;
        assert(hi < 16 && lo < 16 && hi * 16 + lo == x) by (bit_vector)
            requires
                hi == x >> 4u8,
                lo == x & 15u8,
        ;
        assert(s[0] == '%');
        assert(s[1] == hex_upper(hi));
        assert(s[2] == hex_upper(lo));
        assert(hex_value(hex_upper(hi)) == Some(hi));
        assert(hex_value(hex_upper(lo)) == Some(lo));
        assert(s.skip(3) =~= t);
    }
}

proof fn lemma_decode_encoded_prefix(b: Seq<u8>, t: Seq<char>)
    ensures
        percent_decode(percent_encode(b) + t) == b + percent_decode(t),
    decreases b.len(),
{
    if b.len() == 0 {
        assert(percent_encode(b) + t =~= t);
        assert(b + percent_decode(t) =~= percent_decode(t));
    } else {
        let front = b.drop_last();
        let x = b.last();
        let rest = percent_encode_byte(x) + t;
        assert(percent_encode(b) + t =~= percent_encode(front) + rest);
        lemma_decode_encoded_prefix(front, rest);
        lemma_decode_encoded_byte(x, t);
        assert(b =~= front + seq![x]);
        assert(front + (seq![x] + percent_decode(t)) =~= b + percent_decode(t));
    }
}

/// Percent-decoding an encoded segment gives back exactly the bytes that
/// were encoded: the server reads the mission name or identity that was
/// sent.
pub proof fn lemma_percent_decode_of_encode(bytes: Seq<u8>)
    ensures
        percent_decode(percent_encode(bytes)) == bytes,
{
    lemma_decode_encoded_prefix(bytes, Seq::empty());
    assert(percent_encode(bytes) + Seq::<char>::empty() =~= percent_encode(bytes));
    assert(bytes + Seq::<u8>::empty() =~= bytes);
}

// ---------------------------------------------------------------------
// Calls of the admin API
// ---------------------------------------------------------------------

/// The base URL that calls are built on: the configured one without its
/// trailing `/` characters.
pub fn normalize_base_url(base_url: &str) -> (normalized: String)
    ensures
        normalized@ == trim_trailing(base_url@, '/'),
{
    let end = trimmed_len(base_url, '/');
    base_url.substring_char(0, end).to_owned()
}

/// Once normalized, a base URL has no trailing `/`, and normalizing it
/// again changes nothing.
pub proof fn lemma_normalized_base_url(s: Seq<char>)
    ensures
        trim_trailing(s, '/').len() == 0 || trim_trailing(s, '/').last() != '/',
        trim_trailing(trim_trailing(s, '/'), '/') == trim_trailing(s, '/'),
    decreases s.len(),
{
    if s.len() > 0 && s.last() == '/' {
        lemma_normalized_base_url(s.drop_last());
    }
}

/// The HTTP methods the client uses.
#[derive(Clone, Copy, Debug, PartialEq, Eq, Structural)]
pub enum HttpMethod {
    Get,
    Post,
    Put,
    Delete,
}

/// One call of microtak-server's admin API, with the values that go into
/// its URL. (Request bodies are JSON written by the caller.)
pub enum ApiCall {
    /// `GET` the enrollment tokens.
    ListTokens,
    /// `POST` a new enrollment token.
    MintToken,
    /// `DELETE` an enrollment token; the token goes into the path as it is.
    RevokeToken(String),
    /// `GET` the missions.
    ListMissions,
    /// `GET` one mission by name.
    GetMission(String),
    /// `PUT` a role on a mission.
    AssignRole(String),
    /// `DELETE` an identity's role on a mission.
    RevokeRole(String, String),
}

/// The path of the enrollment-token collection.
pub open spec fn tokens_path() -> Seq<char> {
    "/Marti/api/admin/enrollmentTokens"@
}

/// The path of the mission collection.
pub open spec fn missions_path() -> Seq<char> {
    "/Marti/api/missions"@
}

/// A string as one percent-encoded path segment.
pub open spec fn segment(s: Seq<char>) -> Seq<char> {
    percent_encode(vstd::utf8::encode_utf8(s))
}

impl ApiCall {
    pub open spec fn spec_method(&self) -> HttpMethod {
        match self {
            ApiCall::ListTokens => HttpMethod::Get,
            ApiCall::MintToken => HttpMethod::Post,
            ApiCall::RevokeToken(_) => HttpMethod::Delete,
            ApiCall::ListMissions => HttpMethod::Get,
            ApiCall::GetMission(_) => HttpMethod::Get,
            ApiCall::AssignRole(_) => HttpMethod::Put,
            ApiCall::RevokeRole(_, _) => HttpMethod::Delete,
        }
    }

    /// The path of the call below the base URL. Mission names and
    /// identities are percent-encoded; a token is not.
    pub open spec fn spec_path(&self) -> Seq<char> {
        match self {
            ApiCall::ListTokens => tokens_path(),
            ApiCall::MintToken => tokens_path(),
            ApiCall::RevokeToken(token) => tokens_path() + "/"@ + token@,
            ApiCall::ListMissions => missions_path(),
            ApiCall::GetMission(name) => missions_path() + "/"@ + segment(name@),
            ApiCall::AssignRole(name) => missions_path() + "/"@ + segment(name@) + "/role"@,
            ApiCall::RevokeRole(name, uid) => missions_path() + "/"@ + segment(name@)
                + "/role/"@ + segment(uid@),
        }
    }

    /// The HTTP method of the call.
    pub fn method(&self) -> (method: HttpMethod)
        ensures
            method == self.spec_method(),
    {
        match self {
            ApiCall::ListTokens => HttpMethod::Get,
            ApiCall::MintToken => HttpMethod::Post,
            ApiCall::RevokeToken(_) => HttpMethod::Delete,
            ApiCall::ListMissions => HttpMethod::Get,
            ApiCall::GetMission(_) => HttpMethod::Get,
            ApiCall::AssignRole(_) => HttpMethod::Put,
            ApiCall::RevokeRole(_, _) => HttpMethod::Delete,
        }
    }

    /// The full URL of the call on the server at `base_url` (normalized,
    /// see [`normalize_base_url`]).
    pub fn url(&self, base_url: &str) -> (url: String)
        ensures
            url@ == base_url@ + self.spec_path(),
            match self {
                ApiCall::ListTokens => url@ == base_url@ + "/Marti/api/admin/enrollmentTokens"@,
                ApiCall::MintToken => url@ == base_url@ + "/Marti/api/admin/enrollmentTokens"@,
                ApiCall::RevokeToken(token) => url@ == base_url@
                    + "/Marti/api/admin/enrollmentTokens"@ + "/"@ + token@,
                ApiCall::ListMissions => url@ == base_url@ + "/Marti/api/missions"@,
                ApiCall::GetMission(name) => url@ == base_url@ + "/Marti/api/missions"@ + "/"@
                    + percent_encode(vstd::utf8::encode_utf8(name@)),
                ApiCall::AssignRole(name) => url@ == base_url@ + "/Marti/api/missions"@ + "/"@
                    + percent_encode(vstd::utf8::encode_utf8(name@)) + "/role"@,
                ApiCall::RevokeRole(name, uid) => url@ == base_url@ + "/Marti/api/missions"@
                    + "/"@ + percent_encode(vstd::utf8::encode_utf8(name@)) + "/role/"@
                    + percent_encode(vstd::utf8::encode_utf8(uid@)),
            },
    {
        let mut url = base_url.to_owned();
        match self {
            ApiCall::ListTokens | ApiCall::MintToken => {
                url.append("/Marti/api/admin/enrollmentTokens");
            },
            ApiCall::RevokeToken(token) => {
                url.append("/Marti/api/admin/enrollmentTokens");
                url.append("/");
                url.append(token.as_str());
            },
            ApiCall::ListMissions => {
                url.append("/Marti/api/missions");
            },
            ApiCall::GetMission(name) => {
                url.append("/Marti/api/missions");
                url.append("/");
                let encoded = urlencoding_light(name.as_str());
                url.append(encoded.as_str());
            },
            ApiCall::AssignRole(name) => {
                url.append("/Marti/api/missions");
                url.append("/");
                let encoded = urlencoding_light(name.as_str());
                url.append(encoded.as_str());
                url.append("/role");
            },
            ApiCall::RevokeRole(name, uid) => {
                url.append("/Marti/api/missions");
                url.append("/");
                let encoded = urlencoding_light(name.as_str());
                url.append(encoded.as_str());
                url.append("/role/");
                let encoded_uid = urlencoding_light(uid.as_str());
                url.append(encoded_uid.as_str());
            },
        }
        proof {
            match self {
                ApiCall::RevokeRole(name, uid) => {
                    assert(url@ =~= base_url@ + self.spec_path());
                },
                ApiCall::AssignRole(name) => {
                    assert(url@ =~= base_url@ + self.spec_path());
                },
                ApiCall::GetMission(name) => {
                    assert(url@ =~= base_url@ + self.spec_path());
                },
                ApiCall::RevokeToken(token) => {
                    assert(url@ =~= base_url@ + self.spec_path());
                },
                _ => {},
            }
        }
        url
    }
}

// ---------------------------------------------------------------------
// Response status
// ---------------------------------------------------------------------

/// How a response status is read.
#[derive(Clone, Copy, Debug, PartialEq, Eq, Structural)]
pub enum StatusClass {
    /// `2xx`.
    Success,
    /// `404`: for a single mission, the mission does not exist.
    NotFound,
    /// Anything else: the server rejected the request.
    Failure,
}

pub open spec fn spec_classify_status(status: u16) -> StatusClass {
    if 200 <= status <= 299 {
        StatusClass::Success
    } else if status == 404 {
        StatusClass::NotFound
    } else {
        StatusClass::Failure
    }
}

/// Classifies an HTTP response status.
pub fn classify_status(status: u16) -> (class: StatusClass)
    ensures
        class == spec_classify_status(status),
        (class == StatusClass::Success) <==> (200 <= status && status <= 299),
        (class == StatusClass::NotFound) <==> status == 404,
        (class == StatusClass::Failure) <==> !(200 <= status && status <= 299) && status != 404,
{
    if 200 <= status && status <= 299 {
        StatusClass::Success
    } else if status == 404 {
        StatusClass::NotFound
    } else {
        StatusClass::Failure
    }
}

/// A request that microtak-server refused: its status and the error
/// message it gave.
pub struct Rejection {
    pub status: u16,
    pub body: String,
}

/// The message shown when a refusal carries no readable error body.
pub open spec fn no_error_detail() -> Seq<char> {
    "(no error detail)"@
}

/// Judges a response: `Ok` exactly for a `2xx` status; otherwise the
/// refusal, with the `error` field of the server's JSON body when it could
/// be read (`error_detail`), or "(no error detail)".
pub fn check_status(status: u16, error_detail: Option<String>) -> (checked: Result<(), Rejection>)
    ensures
        checked is Ok <==> 200 <= status <= 299,
        checked matches Err(rejection) ==> rejection.status == status && rejection.body@
            == match error_detail {
            Some(detail) => detail@,
            None => no_error_detail(),
        },
{
    if 200 <= status && status <= 299 {
        return Ok(());
    }
    let body = match error_detail {
        Some(detail) => detail,
        None => String::from_str("(no error detail)"),
    };
    Err(Rejection { status, body })
}

/// Only `404` reads as "not found" and only `2xx` as success; every other
/// status (`403`, `409`, `500`, ...) is a refusal to be shown.
pub proof fn lemma_status_classes(status: u16)
    ensures
        (spec_classify_status(status) == StatusClass::Success) <==> (200 <= status && status
            <= 299),
        (spec_classify_status(status) == StatusClass::NotFound) <==> status == 404,
        (spec_classify_status(status) == StatusClass::Failure) <==> !(200 <= status && status
            <= 299) && status != 404,
{
}

/// Every call that names a mission puts the name into the URL as one
/// percent-encoded segment, and a role revocation the identity too; the
/// segments hold no `/` and decode back to the UTF-8 bytes of the name and
/// the identity. The token of a revocation goes in as it is.
pub proof fn lemma_api_call_paths(token: String, name: String, uid: String)
    ensures
        ApiCall::ListTokens.spec_path() == "/Marti/api/admin/enrollmentTokens"@,
        ApiCall::MintToken.spec_path() == "/Marti/api/admin/enrollmentTokens"@,
        ApiCall::RevokeToken(token).spec_path() == "/Marti/api/admin/enrollmentTokens"@ + "/"@
            + token@,
        ApiCall::ListMissions.spec_path() == "/Marti/api/missions"@,
        ApiCall::GetMission(name).spec_path() == "/Marti/api/missions"@ + "/"@ + percent_encode(
            vstd::utf8::encode_utf8(name@),
        ),
        ApiCall::AssignRole(name).spec_path() == "/Marti/api/missions"@ + "/"@ + percent_encode(
            vstd::utf8::encode_utf8(name@),
        ) + "/role"@,
        ApiCall::RevokeRole(name, uid).spec_path() == "/Marti/api/missions"@ + "/"@
            + percent_encode(vstd::utf8::encode_utf8(name@)) + "/role/"@ + percent_encode(
            vstd::utf8::encode_utf8(uid@),
        ),
        percent_decode(percent_encode(vstd::utf8::encode_utf8(name@))) == vstd::utf8::encode_utf8(
            name@,
        ),
        percent_decode(percent_encode(vstd::utf8::encode_utf8(uid@))) == vstd::utf8::encode_utf8(
            uid@,
        ),
        !percent_encode(vstd::utf8::encode_utf8(name@)).contains('/'),
        !percent_encode(vstd::utf8::encode_utf8(uid@)).contains('/'),
{
    lemma_percent_decode_of_encode(vstd::utf8::encode_utf8(name@));
    lemma_percent_decode_of_encode(vstd::utf8::encode_utf8(uid@));
    lemma_percent_encoding_is_one_segment(vstd::utf8::encode_utf8(name@));
    lemma_percent_encoding_is_one_segment(vstd::utf8::encode_utf8(uid@));
    assert(!is_segment_char('/'));
}

} // verus!
