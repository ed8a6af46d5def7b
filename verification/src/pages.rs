//! What the HTML pages decide: how an enrollment token is shown, the
//! links and form targets they hold, and how the mint form's optional
//! fields are read. The page markup itself is written outside.

use std::num::ParseIntError;

use vstd::prelude::*;
use vstd::string::*;
use vstd::utf8::*;

use crate::client::{
    is_segment_char, lemma_percent_decode_of_encode, lemma_percent_encoding_is_one_segment,
    percent_decode, percent_encode, segment, urlencoding_light, EnrollmentToken,
};

verus! {

// ---------------------------------------------------------------------
// Token list
// ---------------------------------------------------------------------

/// A token is expired at `now_unix` when it has an expiry time and that
/// time has passed.
pub open spec fn is_expired(token: &EnrollmentToken, now_unix: i64) -> bool {
    token.expires_at_unix matches Some(e) && now_unix > e
}

pub open spec fn spec_status_class(token: &EnrollmentToken, now_unix: i64) -> Seq<char> {
    if token.revoked {
        "revoked"@
    } else if token.used {
        "used"@
    } else if is_expired(token, now_unix) {
        "expired"@
    } else {
        ""@
    }
}

/// The CSS class of a token's status cell at time `now_unix` (Unix
/// seconds): `revoked` before `used` before `expired`, and none for a
/// token that is still usable.
pub fn status_class(token: &EnrollmentToken, now_unix: i64) -> (class: &'static str)
    ensures
        class@ == spec_status_class(token, now_unix),
        token.revoked ==> class@ == "revoked"@,
        !token.revoked && token.used ==> class@ == "used"@,
        !token.revoked && !token.used && (token.expires_at_unix matches Some(e) && now_unix > e)
            ==> class@ == "expired"@,
        !token.revoked && !token.used && !(token.expires_at_unix matches Some(e) && now_unix > e)
            ==> class@ == ""@,
{
    if token.revoked {
        "revoked"
    } else if token.used {
        "used"
    } else if expired(token, now_unix) {
        "expired"
    } else {
        ""
    }
}

pub open spec fn spec_status_text(token: &EnrollmentToken, now_unix: i64) -> Seq<char> {
    if token.revoked {
        "revoked"@
    } else if token.used {
        "used by "@ + match token.used_by_common_name {
            Some(name) => name@,
            None => "?"@,
        }
    } else if is_expired(token, now_unix) {
        "expired"@
    } else {
        "unused"@
    }
}

fn expired(token: &EnrollmentToken, now_unix: i64) -> (e: bool)
    ensures
        e == is_expired(token, now_unix),
{
    match token.expires_at_unix {
        Some(t) => now_unix > t,
        None => false,
    }
}

/// The status of a token at time `now_unix` (Unix seconds), one of four:
/// a revoked token reads `revoked` (even if it was used), a used one
/// `used by <identity>` (`?` when the identity is unknown), an unused one
/// whose expiry time has passed `expired`, any other `unused`.
pub fn status_text(token: &EnrollmentToken, now_unix: i64) -> (text: String)
    ensures
        text@ == spec_status_text(token, now_unix),
        token.revoked ==> text@ == "revoked"@,
        !token.revoked && token.used ==> text@ == "used by "@ + match token.used_by_common_name {
            Some(name) => name@,
            None => "?"@,
        },
        !token.revoked && !token.used && (token.expires_at_unix matches Some(e) && now_unix > e)
            ==> text@ == "expired"@,
        !token.revoked && !token.used && !(token.expires_at_unix matches Some(e) && now_unix > e)
            ==> text@ == "unused"@,
{
    if token.revoked {
        String::from_str("revoked")
    } else if token.used {
        let mut text = String::from_str("used by ");
        match &token.used_by_common_name {
            Some(name) => text.append(name.as_str()),
            None => text.append("?"),
        }
        text
    } else if expired(token, now_unix) {
        String::from_str("expired")
    } else {
        String::from_str("unused")
    }
}

/// Whether the token list offers a "Revoke" button for a token: only for
/// a token that is neither used nor revoked.
pub fn revocable(token: &EnrollmentToken) -> (offered: bool)
    ensures
        offered == (!token.used && !token.revoked),
{
    !token.used && !token.revoked
}

pub open spec fn spec_short(token: Seq<char>) -> Seq<char> {
    let bytes = encode_utf8(token);
    if bytes.len() > 16 {
        decode_utf8(bytes.subrange(0, 8)) + "\u{2026}"@ + decode_utf8(
            bytes.subrange(bytes.len() - 8, bytes.len() as int),
        )
    } else {
        token
    }
}

/// A token shortened for the list: up to 16 bytes it is shown whole;
/// a longer one as its first 8 bytes, an ellipsis and its last 8 bytes.
/// Both cuts must fall on character boundaries (slicing elsewhere
/// panics).
pub fn short(token: &str) -> (shown: String)
    requires
        token.spec_bytes().len() <= usize::MAX,
        token.spec_bytes().len() > 16 ==> is_char_boundary(token.spec_bytes(), 8)
            && is_char_boundary(token.spec_bytes(), token.spec_bytes().len() - 8),
    ensures
        shown@ == spec_short(token@),
        token.spec_bytes().len() <= 16 ==> shown@ == token@,
        token.spec_bytes().len() > 16 ==> shown@ == decode_utf8(token.spec_bytes().subrange(0, 8))
            + "\u{2026}"@ + decode_utf8(
            token.spec_bytes().subrange(
                token.spec_bytes().len() - 8,
                token.spec_bytes().len() as int,
            ),
        ),
        token.spec_bytes().len() > 16 ==> encode_utf8(shown@) == token.spec_bytes().subrange(0, 8)
            + encode_utf8("\u{2026}"@) + token.spec_bytes().subrange(
            token.spec_bytes().len() - 8,
            token.spec_bytes().len() as int,
        ),
{
    let n = token.len();
    if n > 16 {
        let (head, _) = token.split_at(8);
        let (_, tail) = token.split_at(n - 8);
        proof {
            encode_utf8_decode_utf8(head@);
            encode_utf8_decode_utf8(tail@);
        }
        let mut shown = head.to_owned();
        shown.append("\u{2026}");
        shown.append(tail);
        proof {
            lemma_encode_utf8_concat(head@, "\u{2026}"@);
            lemma_encode_utf8_concat(head@ + "\u{2026}"@, tail@);
        }
        shown
    } else {
        token.to_owned()
    }
}

/// A note as the list shows it: an em dash when there is none.
pub fn note_text(note: &Option<String>) -> (text: String)
    ensures
        text@ == match note {
            Some(n) => n@,
            None => "\u{2014}"@,
        },
{
    match note {
        Some(n) => n.clone(),
        None => String::from_str("\u{2014}"),
    }
}

/// The decimal digits of a natural number.
pub open spec fn decimal_digits(n: nat) -> Seq<char>
    decreases n,
{
    if n < 10 {
        seq![((n + '0' as u32) as u32) as char]
    } else {
        decimal_digits(n / 10) + seq![(((n % 10) + '0' as u32) as u32) as char]
    }
}

/// The decimal text of an integer, with `-` before a negative one.
pub open spec fn decimal_text(v: int) -> Seq<char> {
    if v < 0 {
        seq!['-'] + decimal_digits((-v) as nat)
    } else {
        decimal_digits(v as nat)
    }
}

/// `i64::to_string`: the standard library writes an integer in decimal,
/// with a leading `-` when it is negative.
#[verifier::external_body]
fn i64_to_text(v: i64) -> (text: String)
    ensures
        text@ == decimal_text(v as int),
{
    v.to_string()
}

/// An expiry time as the list shows it: the Unix time in decimal, or
/// `never`.
pub fn expires_text(expires_at_unix: Option<i64>) -> (text: String)
    ensures
        text@ == match expires_at_unix {
            Some(t) => decimal_text(t as int),
            None => "never"@,
        },
{
    match expires_at_unix {
        Some(t) => i64_to_text(t),
        None => String::from_str("never"),
    }
}

/// Percent-encodes a mission name or identity for use in a link; the same
/// encoding as [`urlencoding_light`].
pub fn urlencode(segment: &str) -> (encoded: String)
    ensures
        encoded@ == percent_encode(segment.spec_bytes()),
{
    urlencoding_light(segment)
}

// ---------------------------------------------------------------------
// Links and form targets
// ---------------------------------------------------------------------

/// A page of this web UI that a link, a form or a redirect points to.
pub enum PageLink {
    /// The token list (also where `/` redirects).
    Tokens,
    /// The form target that revokes a token; the token goes in as it is.
    RevokeToken(String),
    /// The mission list.
    Missions,
    /// One mission's page, also its role-assignment form target.
    Mission(String),
    /// The form target that revokes an identity's role on a mission.
    RevokeRole(String, String),
}

impl PageLink {
    pub open spec fn spec_path(&self) -> Seq<char> {
        match self {
            PageLink::Tokens => "/tokens"@,
            PageLink::RevokeToken(token) => "/tokens/"@ + token@ + "/revoke"@,
            PageLink::Missions => "/missions"@,
            PageLink::Mission(name) => "/missions/"@ + segment(name@),
            PageLink::RevokeRole(name, uid) => "/missions/"@ + segment(name@) + "/roles/"@
                + segment(uid@) + "/revoke"@,
        }
    }

    /// The path of the page; mission names and identities are
    /// percent-encoded.
    pub fn path(&self) -> (path: String)
        ensures
            path@ == self.spec_path(),
            match self {
                PageLink::Tokens => path@ == "/tokens"@,
                PageLink::RevokeToken(token) => path@ == "/tokens/"@ + token@ + "/revoke"@,
                PageLink::Missions => path@ == "/missions"@,
                PageLink::Mission(name) => path@ == "/missions/"@ + percent_encode(
                    encode_utf8(name@),
                ),
                PageLink::RevokeRole(name, uid) => path@ == "/missions/"@ + percent_encode(
                    encode_utf8(name@),
                ) + "/roles/"@ + percent_encode(encode_utf8(uid@)) + "/revoke"@,
            },
    {
        match self {
            PageLink::Tokens => String::from_str("/tokens"),
            PageLink::RevokeToken(token) => {
                let mut path = String::from_str("/tokens/");
                path.append(token.as_str());
                path.append("/revoke");
                path
            },
            PageLink::Missions => String::from_str("/missions"),
            PageLink::Mission(name) => {
                let mut path = String::from_str("/missions/");
                let encoded = urlencode(name.as_str());
                path.append(encoded.as_str());
                path
            },
            PageLink::RevokeRole(name, uid) => {
                let mut path = String::from_str("/missions/");
                let encoded = urlencode(name.as_str());
                path.append(encoded.as_str());
                path.append("/roles/");
                let encoded_uid = urlencode(uid.as_str());
                path.append(encoded_uid.as_str());
                path.append("/revoke");
                assert(path@ =~= self.spec_path());
                path
            },
        }
    }
}

// ---------------------------------------------------------------------
// Mint form fields
// ---------------------------------------------------------------------

#[verifier::external_type_specification]
#[verifier::external_body]
pub struct ExParseIntError(ParseIntError);

pub open spec fn is_ascii_digit(c: char) -> bool {
    '0' <= c && c <= '9'
}

/// The value of a sequence of decimal digits.
pub open spec fn digits_value(d: Seq<char>) -> int
    decreases d.len(),
{
    if d.len() == 0 {
        0
    } else {
        digits_value(d.drop_last()) * 10 + (d.last() as int - '0' as int)
    }
}

/// Decimal `i64` syntax: an optional `+` or `-`, then one or more ASCII
/// digits and nothing else, with a value in the range of `i64`.
pub open spec fn spec_parse_i64(s: Seq<char>) -> Option<int> {
    let negative = s.len() > 0 && s[0] == '-';
    let digits = if s.len() > 0 && (s[0] == '-' || s[0] == '+') {
        s.drop_first()
    } else {
        s
    };
    if digits.len() > 0 && forall|i: int| 0 <= i < digits.len() ==> is_ascii_digit(#[trigger] digits[i]) {
        let v = if negative {
            -digits_value(digits)
        } else {
            digits_value(digits)
        };
        if i64::MIN <= v <= i64::MAX {
            Some(v)
        } else {
            None
        }
    } else {
        None
    }
}

/// `str::parse::<i64>`: the standard library accepts an optional `+` or
/// `-` followed by only ASCII digits, and fails on anything else and on
/// values out of range.
#[verifier::external_body]
fn parse_i64(s: &str) -> (parsed: Result<i64, ParseIntError>)
    ensures
        parsed is Ok <==> spec_parse_i64(s@) is Some,
        parsed matches Ok(v) ==> spec_parse_i64(s@) == Some(v as int),
{
    s.parse::<i64>()
}

/// Reads the mint form's optional "expires in" field: absent or empty
/// means no expiry; anything else must be a decimal `i64`.
pub fn optional_number_field(raw: Option<&str>) -> (value: Result<Option<i64>, ParseIntError>)
    ensures
        value matches Ok(None) <==> (raw is None || raw.unwrap()@.len() == 0),
        value matches Ok(Some(v)) ==> raw is Some && spec_parse_i64(raw.unwrap()@) == Some(v as int),
        value is Err <==> (raw is Some && raw.unwrap()@.len() != 0 && spec_parse_i64(raw.unwrap()@) is None),
{
    match raw {
        None => Ok(None),
        Some(text) => {
            if text.is_empty() {
                Ok(None)
            } else {
                match parse_i64(text) {
                    Ok(v) => Ok(Some(v)),
                    Err(e) => Err(e),
                }
            }
        },
    }
}

/// Reads the mint form's optional "note" field: absent or empty means no
/// note.
pub fn optional_text_field(raw: Option<String>) -> (value: Option<String>)
    ensures
        value == match raw {
            Some(text) => if text@.len() == 0 {
                None
            } else {
                Some(text)
            },
            None => None,
        },
{
    match raw {
        Some(text) => {
            if text.as_str().is_empty() {
                None
            } else {
                Some(text)
            }
        },
        None => None,
    }
}

proof fn lemma_encode_utf8_concat(a: Seq<char>, b: Seq<char>)
    ensures
        encode_utf8(a + b) == encode_utf8(a) + encode_utf8(b),
    decreases a.len(),
{
    if a.len() == 0 {
        assert(a + b =~= b);
        assert(encode_utf8(a) + encode_utf8(b) =~= encode_utf8(b));
    } else {
        assert((a + b)[0] == a[0]);
        assert((a + b).drop_first() =~= a.drop_first() + b);
        lemma_encode_utf8_concat(a.drop_first(), b);
        assert(encode_utf8(a + b) =~= encode_utf8(a) + encode_utf8(b));
    }
}

/// The status shown for a token, at any time: revoked whenever the token
/// is revoked (used or not, expired or not); otherwise "used by" its
/// identity when it was used; otherwise expired once its expiry time has
/// passed; otherwise unused. The CSS class follows the same order.
pub proof fn lemma_token_status(token: &EnrollmentToken, now_unix: i64)
    ensures
        token.revoked ==> spec_status_text(token, now_unix) == "revoked"@,
        token.revoked ==> spec_status_class(token, now_unix) == "revoked"@,
        !token.revoked && token.used ==> spec_status_text(token, now_unix) == "used by "@
            + match token.used_by_common_name {
            Some(name) => name@,
            None => "?"@,
        },
        !token.revoked && token.used ==> spec_status_class(token, now_unix) == "used"@,
        !token.revoked && !token.used && (token.expires_at_unix matches Some(e) && now_unix > e)
            ==> spec_status_text(token, now_unix) == "expired"@,
        !token.revoked && !token.used && (token.expires_at_unix matches Some(e) && now_unix > e)
            ==> spec_status_class(token, now_unix) == "expired"@,
        !token.revoked && !token.used && !(token.expires_at_unix matches Some(e) && now_unix > e)
            ==> spec_status_text(token, now_unix) == "unused"@,
        !token.revoked && !token.used && !(token.expires_at_unix matches Some(e) && now_unix > e)
            ==> spec_status_class(token, now_unix) == ""@,
{
}

/// A token longer than 16 bytes is shown as its first 8 bytes, an
/// ellipsis, and its last 8 bytes: the UTF-8 bytes of the shown text are
/// exactly those pieces. A shorter token is shown whole.
pub proof fn lemma_short_keeps_both_ends(token: Seq<char>)
    requires
        encode_utf8(token).len() > 16 ==> is_char_boundary(encode_utf8(token), 8)
            && is_char_boundary(encode_utf8(token), encode_utf8(token).len() - 8),
    ensures
        encode_utf8(token).len() <= 16 ==> spec_short(token) == token,
        encode_utf8(token).len() > 16 ==> encode_utf8(spec_short(token)) == encode_utf8(
            token,
        ).subrange(0, 8) + encode_utf8("\u{2026}"@) + encode_utf8(token).subrange(
            encode_utf8(token).len() - 8,
            encode_utf8(token).len() as int,
        ),
{
    let bytes = encode_utf8(token);
    if bytes.len() > 16 {
        encode_utf8_valid_utf8(token);
        let n = bytes.len() as int;
        valid_utf8_split(bytes, 8);
        valid_utf8_split(bytes, n - 8);
        let head = bytes.subrange(0, 8);
        let tail = bytes.subrange(n - 8, n);
        decode_utf8_encode_utf8(head);
        decode_utf8_encode_utf8(tail);
        lemma_encode_utf8_concat(decode_utf8(head), "\u{2026}"@);
        lemma_encode_utf8_concat(decode_utf8(head) + "\u{2026}"@, decode_utf8(tail));
    }
}

/// Every page link that carries a mission name or an identity puts it in
/// as one percent-encoded segment (no `/`) that decodes back to its UTF-8
/// bytes; a token goes in as it is.
pub proof fn lemma_page_links(token: String, name: String, uid: String)
    ensures
        PageLink::Tokens.spec_path() == "/tokens"@,
        PageLink::RevokeToken(token).spec_path() == "/tokens/"@ + token@ + "/revoke"@,
        PageLink::Missions.spec_path() == "/missions"@,
        PageLink::Mission(name).spec_path() == "/missions/"@ + percent_encode(encode_utf8(name@)),
        PageLink::RevokeRole(name, uid).spec_path() == "/missions/"@ + percent_encode(
            encode_utf8(name@),
        ) + "/roles/"@ + percent_encode(encode_utf8(uid@)) + "/revoke"@,
        percent_decode(percent_encode(encode_utf8(name@))) == encode_utf8(name@),
        percent_decode(percent_encode(encode_utf8(uid@))) == encode_utf8(uid@),
        !percent_encode(encode_utf8(name@)).contains('/'),
        !percent_encode(encode_utf8(uid@)).contains('/'),
{
    lemma_percent_decode_of_encode(encode_utf8(name@));
    lemma_percent_decode_of_encode(encode_utf8(uid@));
    lemma_percent_encoding_is_one_segment(encode_utf8(name@));
    lemma_percent_encoding_is_one_segment(encode_utf8(uid@));
    assert(!is_segment_char('/'));
}

} // verus!
