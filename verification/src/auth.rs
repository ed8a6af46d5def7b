//! HTTP Basic Auth check on every admin page: a single shared password,
//! any username.
//!
//! This is a deliberately small gate (one shared secret, no per-operator
//! identity), meant to run behind real network-level access control.

use vstd::prelude::*;
use vstd::string::*;
use vstd::utf8::*;

use crate::text::{trim_trailing, trimmed_len};

verus! {

// ---------------------------------------------------------------------
// Base64 (standard alphabet, `=` padding)
// ---------------------------------------------------------------------

/// The 6-bit value of a character of the standard base64 alphabet
/// (RFC 4648: `A`-`Z`, `a`-`z`, `0`-`9`, `+`, `/`); `None` for any other
/// character, `=` included.
pub open spec fn base64_sextet(c: char) -> Option<u8> {
    let n = c as u32;
    if 'A' as u32 <= n <= 'Z' as u32 {
        Some((n - 'A' as u32) as u8)
    } else if 'a' as u32 <= n <= 'z' as u32 {
        Some((n - 'a' as u32 + 26) as u8)
    } else if '0' as u32 <= n <= '9' as u32 {
        Some((n - '0' as u32 + 52) as u8)
    } else if c == '+' {
        Some(62u8)
    } else if c == '/' {
        Some(63u8)
    } else {
        None
    }
}

/// `s` without all of its trailing `=` characters.
pub open spec fn trim_padding(s: Seq<char>) -> Seq<char> {
    trim_trailing(s, '=')
}

/// The 6-bit values of the characters of `s`, when all of them belong to
/// the alphabet.
pub open spec fn sextets_of(s: Seq<char>) -> Option<Seq<u8>> {
    if forall|i: int| 0 <= i < s.len() ==> base64_sextet(#[trigger] s[i]) is Some {
        Some(Seq::new(s.len(), |i: int| base64_sextet(s[i]).unwrap()))
    } else {
        None
    }
}

/// First byte of a group: the 6 bits of `a` and the top 2 bits of `b`.
pub open spec fn group_byte_0(a: u8, b: u8) -> u8 {
    (a << 2u8) | (b >> 4u8)
}

/// Second byte of a group: the low 4 bits of `b` and the top 4 bits of `c`.
pub open spec fn group_byte_1(b: u8, c: u8) -> u8 {
    (b << 4u8) | (c >> 2u8)
}

/// Third byte of a group: the low 2 bits of `c` and the 6 bits of `d`.
pub open spec fn group_byte_2(c: u8, d: u8) -> u8 {
    (c << 6u8) | d
}

/// The bytes carried by a sequence of 6-bit values: each full group of
/// four gives three bytes; a final group of three gives two, of two gives
/// one, and a single left-over value gives none (its bits are dropped).
pub open spec fn decode_sextets(v: Seq<u8>) -> Seq<u8>
    decreases v.len(),
{
    if v.len() >= 4 {
        seq![group_byte_0(v[0], v[1]), group_byte_1(v[1], v[2]), group_byte_2(v[2], v[3])]
            + decode_sextets(v.skip(4))
    } else if v.len() == 3 {
        seq![group_byte_0(v[0], v[1]), group_byte_1(v[1], v[2])]
    } else if v.len() == 2 {
        seq![group_byte_0(v[0], v[1])]
    } else {
        Seq::empty()
    }
}

/// Base64 decoding as the Basic Auth gate does it: trailing `=` are
/// dropped, every other character must be in the standard alphabet, and
/// the bit stream is cut into bytes (left-over bits are ignored).
pub open spec fn spec_base64_decode(s: Seq<char>) -> Option<Seq<u8>> {
    match sextets_of(trim_padding(s)) {
        Some(v) => Some(decode_sextets(v)),
        None => None,
    }
}

fn sextet_of(c: char) -> (value: Option<u8>)
    ensures
        value == base64_sextet(c),
{
    let n = c as u32;
    if 'A' as u32 <= n && n <= 'Z' as u32 {
        Some((n - 'A' as u32) as u8)
    } else if 'a' as u32 <= n && n <= 'z' as u32 {
        Some((n - 'a' as u32 + 26) as u8)
    } else if '0' as u32 <= n && n <= '9' as u32 {
        Some((n - '0' as u32 + 52) as u8)
    } else if c == '+' {
        Some(62)
    } else if c == '/' {
        Some(63)
    } else {
        None
    }
}

/// Decodes a sequence of 6-bit values into bytes, group by group.
fn decode_sextet_groups(v: &Vec<u8>) -> (out: Vec<u8>)
    ensures
        out@ == decode_sextets(v@),
{
    let n = v.len();
    let mut out: Vec<u8> = Vec::new();
    let mut i: usize = 0;
    assert(v@.skip(0) =~= v@);
    while n - i >= 4
        invariant
            n == v@.len(),
            i <= n,
            decode_sextets(v@) =~= out@ + decode_sextets(v@.skip(i as int)),
        decreases n - i,
    {
        let a = v[i];
        let b = v[i + 1];
        let c = v[i + 2];
        let d = v[i + 3];
        proof {
            assert(v@.skip(i as int).skip(4) =~= v@.skip(i + 4));
        }
        out.push((a << 2u8) | (b >> 4u8));
        out.push((b << 4u8) | (c >> 2u8));
        out.push((c << 6u8) | d);
        i = i + 4;
    }
    let rest = n - i;
    if rest == 3 {
        let a = v[i];
        let b = v[i + 1];
        let c = v[i + 2];
        out.push((a << 2u8) | (b >> 4u8));
        out.push((b << 4u8) | (c >> 2u8));
    } else if rest == 2 {
        let a = v[i];
        let b = v[i + 1];
        out.push((a << 2u8) | (b >> 4u8));
    }
    out
}

/// Decodes standard base64 (RFC 4648 alphabet, `=` padding), the minimal
/// subset that HTTP Basic Auth needs. Trailing `=` are dropped first; any
/// other character outside the alphabet (an inner `=`, whitespace,
/// non-ASCII) makes the whole input invalid.
pub fn base64_decode(input: &str) -> (decoded: Option<Vec<u8>>)
    ensures
        decoded matches Some(bytes) ==> spec_base64_decode(input@) == Some(bytes@),
        decoded is None ==> spec_base64_decode(input@) is None,
{
    let n = input.unicode_len();
    let end = trimmed_len(input, '=');
    let ghost trimmed = input@.take(end as int);
    let mut values: Vec<u8> = Vec::new();
    let mut i: usize = 0;
    while i < end
        invariant
            n == input@.len(),
            end <= n,
            i <= end,
            trimmed == input@.take(end as int),
            trim_padding(input@) == trimmed,
            values@.len() == i,
            forall|j: int| 0 <= j < i ==> base64_sextet(#[trigger] trimmed[j]) is Some,
            forall|j: int| 0 <= j < i ==> values@[j] == base64_sextet(#[trigger] trimmed[j]).unwrap(),
        decreases end - i,
    {
        let c = input.get_char(i);
        match sextet_of(c) {
            Some(value) => {
                values.push(value);
            },
            None => {
                assert(trimmed[i as int] == c);
                assert(base64_sextet(trimmed[i as int]) is None);
                assert(!(forall|j: int|
                    0 <= j < trimmed.len() ==> base64_sextet(#[trigger] trimmed[j]) is Some));
                return None;
            },
        }
        i = i + 1;
    }
    assert(values@ =~= Seq::new(trimmed.len(), |j: int| base64_sextet(trimmed[j]).unwrap()));
    Some(decode_sextet_groups(&values))
}


/// Bit `i` (0 = least significant) of `x`, as 0 or 1.
pub open spec fn bit(x: u8, i: u8) -> int {
    ((x >> i) & 1u8) as int
}

/// Bit `j` of the bit stream formed by writing each value of `v` on 6
/// bits, most significant first (bit 0 is the top bit of `v[0]`).
pub open spec fn stream_bit(v: Seq<u8>, j: int) -> int {
    bit(v[j / 6], (5 - j % 6) as u8)
}

/// The byte made of bits `8k` to `8k + 7` of that stream, the first of
/// them most significant.
pub open spec fn stream_byte(v: Seq<u8>, k: int) -> int {
    128 * stream_bit(v, 8 * k) + 64 * stream_bit(v, 8 * k + 1) + 32 * stream_bit(v, 8 * k + 2) + 16
        * stream_bit(v, 8 * k + 3) + 8 * stream_bit(v, 8 * k + 4) + 4 * stream_bit(v, 8 * k + 5) + 2
        * stream_bit(v, 8 * k + 6) + stream_bit(v, 8 * k + 7)
}

proof fn lemma_group_bits(a: u8, b: u8, c: u8, d: u8)
    requires
        a < 64,
        b < 64,
        c < 64,
        d < 64,
    ensures
        group_byte_0(a, b) as int == 128 * bit(a, 5) + 64 * bit(a, 4) + 32 * bit(a, 3) + 16 * bit(a, 2)
            + 8 * bit(a, 1) + 4 * bit(a, 0) + 2 * bit(b, 5) + bit(b, 4),
        group_byte_1(b, c) as int == 128 * bit(b, 3) + 64 * bit(b, 2) + 32 * bit(b, 1) + 16 * bit(b, 0)
            + 8 * bit(c, 5) + 4 * bit(c, 4) + 2 * bit(c, 3) + bit(c, 2),
        group_byte_2(c, d) as int == 128 * bit(c, 1) + 64 * bit(c, 0) + 32 * bit(d, 5) + 16 * bit(d, 4)
            + 8 * bit(d, 3) + 4 * bit(d, 2) + 2 * bit(d, 1) + bit(d, 0),
{
    assert(((a << 2u8) | (b >> 4u8)) as int == 128 * ((a >> 5u8) & 1u8) as int + 64 * ((a >> 4u8)
        & 1u8) as int + 32 * ((a >> 3u8) & 1u8) as int + 16 * ((a >> 2u8) & 1u8) as int + 8 * ((a
        >> 1u8) & 1u8) as int + 4 * ((a >> 0u8) & 1u8) as int + 2 * ((b >> 5u8) & 1u8) as int + ((b
        >> 4u8) & 1u8) as int) by (bit_vector)
        requires
            a < 64,
            b < 64,
    ;
    assert(((b << 4u8) | (c >> 2u8)) as int == 128 * ((b >> 3u8) & 1u8) as int + 64 * ((b >> 2u8)
        & 1u8) as int + 32 * ((b >> 1u8) & 1u8) as int + 16 * ((b >> 0u8) & 1u8) as int + 8 * ((c
        >> 5u8) & 1u8) as int + 4 * ((c >> 4u8) & 1u8) as int + 2 * ((c >> 3u8) & 1u8) as int + ((c
        >> 2u8) & 1u8) as int) by (bit_vector)
        requires
            b < 64,
            c < 64,
    ;
    assert(((c << 6u8) | d) as int == 128 * ((c >> 1u8) & 1u8) as int + 64 * ((c >> 0u8) & 1u8)
        as int + 32 * ((d >> 5u8) & 1u8) as int + 16 * ((d >> 4u8) & 1u8) as int + 8 * ((d >> 3u8)
        & 1u8) as int + 4 * ((d >> 2u8) & 1u8) as int + 2 * ((d >> 1u8) & 1u8) as int + ((d >> 0u8)
        & 1u8) as int) by (bit_vector)
        requires
            c < 64,
            d < 64,
    ;
}

proof fn lemma_stream_shift(v: Seq<u8>, j: int)
    requires
        24 <= j,
        j / 6 < v.len(),
    ensures
        stream_bit(v, j) == stream_bit(v.skip(4), j - 24),
{
    assert(j / 6 == (j - 24) / 6 + 4);
    assert(j % 6 == (j - 24) % 6);
}

proof fn lemma_decode_sextets_bit_stream(v: Seq<u8>)
    requires
        forall|i: int| 0 <= i < v.len() ==> #[trigger] v[i] < 64,
    ensures
        decode_sextets(v).len() == (6 * v.len()) / 8,
        forall|k: int|
            0 <= k < decode_sextets(v).len() ==> #[trigger] decode_sextets(v)[k] as int == stream_byte(
                v,
                k,
            ),
    decreases v.len(),
{
    let out = decode_sextets(v);
    if v.len() >= 4 {
        lemma_group_bits(v[0], v[1], v[2], v[3]);
        let rest = v.skip(4);
        lemma_decode_sextets_bit_stream(rest);
        assert forall|k: int| 0 <= k < out.len() implies #[trigger] out[k] as int == stream_byte(v, k) by {
            if k == 0 {
                assert(stream_byte(v, 0) == 128 * bit(v[0], 5) + 64 * bit(v[0], 4) + 32 * bit(v[0], 3)
                    + 16 * bit(v[0], 2) + 8 * bit(v[0], 1) + 4 * bit(v[0], 0) + 2 * bit(v[1], 5) + bit(
                    v[1],
                    4,
                ));
            } else if k == 1 {
                assert(stream_byte(v, 1) == 128 * bit(v[1], 3) + 64 * bit(v[1], 2) + 32 * bit(v[1], 1)
                    + 16 * bit(v[1], 0) + 8 * bit(v[2], 5) + 4 * bit(v[2], 4) + 2 * bit(v[2], 3) + bit(
                    v[2],
                    2,
                ));
            } else if k == 2 {
                assert(stream_byte(v, 2) == 128 * bit(v[2], 1) + 64 * bit(v[2], 0) + 32 * bit(v[3], 5)
                    + 16 * bit(v[3], 4) + 8 * bit(v[3], 3) + 4 * bit(v[3], 2) + 2 * bit(v[3], 1) + bit(
                    v[3],
                    0,
                ));
            } else {
                assert(out[k] == decode_sextets(rest)[k - 3]);
                assert((8 * k + 7) / 6 < v.len());
                lemma_stream_shift(v, 8 * k);
                lemma_stream_shift(v, 8 * k + 1);
                lemma_stream_shift(v, 8 * k + 2);
                lemma_stream_shift(v, 8 * k + 3);
                lemma_stream_shift(v, 8 * k + 4);
                lemma_stream_shift(v, 8 * k + 5);
                lemma_stream_shift(v, 8 * k + 6);
                lemma_stream_shift(v, 8 * k + 7);
                assert(8 * (k - 3) == 8 * k - 24);
            }
        }
    } else if v.len() == 3 {
        lemma_group_bits(v[0], v[1], v[2], 0u8);
        assert(stream_byte(v, 0) == 128 * bit(v[0], 5) + 64 * bit(v[0], 4) + 32 * bit(v[0], 3) + 16
            * bit(v[0], 2) + 8 * bit(v[0], 1) + 4 * bit(v[0], 0) + 2 * bit(v[1], 5) + bit(v[1], 4));
        assert(stream_byte(v, 1) == 128 * bit(v[1], 3) + 64 * bit(v[1], 2) + 32 * bit(v[1], 1) + 16
            * bit(v[1], 0) + 8 * bit(v[2], 5) + 4 * bit(v[2], 4) + 2 * bit(v[2], 3) + bit(v[2], 2));
    } else if v.len() == 2 {
        lemma_group_bits(v[0], v[1], 0u8, 0u8);
        assert(stream_byte(v, 0) == 128 * bit(v[0], 5) + 64 * bit(v[0], 4) + 32 * bit(v[0], 3) + 16
            * bit(v[0], 2) + 8 * bit(v[0], 1) + 4 * bit(v[0], 0) + 2 * bit(v[1], 5) + bit(v[1], 4));
    }
}

/// The decoded bytes are the bit stream of the input's 6-bit values cut
/// into bytes: for `n` characters left once trailing `=` are dropped
/// (values `v`), there are `6n / 8` bytes (integer division; left-over
/// bits are dropped), and byte `k` is made of stream bits `8k` to
/// `8k + 7`.
pub proof fn lemma_base64_decode_bit_stream(s: Seq<char>)
    ensures
        spec_base64_decode(s) matches Some(out) ==> {
            let v = sextets_of(trim_padding(s)).unwrap();
            &&& v.len() == trim_padding(s).len()
            &&& out.len() == (6 * v.len()) / 8
            &&& forall|k: int| 0 <= k < out.len() ==> #[trigger] out[k] as int == stream_byte(v, k)
        },
{
    let t = trim_padding(s);
    if let Some(v) = sextets_of(t) {
        assert forall|i: int| 0 <= i < v.len() implies #[trigger] v[i] < 64 by {
            assert(base64_sextet(t[i]) is Some);
        }
        lemma_decode_sextets_bit_stream(v);
    }
}

// ---------------------------------------------------------------------
// Basic Auth header
// ---------------------------------------------------------------------

/// The scheme prefix of a Basic Auth header value, space included.
pub open spec fn basic_scheme() -> Seq<char> {
    seq!['B', 'a', 's', 'i', 'c', ' ']
}

/// `i` is the position of the first `:` of `text`.
pub open spec fn is_first_colon(text: Seq<char>, i: int) -> bool {
    &&& 0 <= i < text.len()
    &&& text[i] == ':'
    &&& forall|j: int| 0 <= j < i ==> text[j] != ':'
}

/// What follows the first `:` of `user:password` credentials; `None`
/// when there is no `:`. The username before it is ignored.
pub open spec fn spec_password_from_credentials(text: Seq<char>) -> Option<Seq<char>> {
    if exists|i: int| is_first_colon(text, i) {
        Some(text.skip((choose|i: int| is_first_colon(text, i)) + 1))
    } else {
        None
    }
}

/// The password that a Basic Auth header value carries: the value starts
/// with `Basic `, the rest is base64, it decodes to valid UTF-8 text, and
/// that text holds a `:`.
pub open spec fn spec_parse_basic_auth_password(header_value: Seq<char>) -> Option<Seq<char>> {
    if header_value.len() >= 6 && header_value.take(6) == basic_scheme() {
        match spec_base64_decode(header_value.skip(6)) {
            Some(bytes) => if valid_utf8(bytes) {
                spec_password_from_credentials(decode_utf8(bytes))
            } else {
                None
            },
            None => None,
        }
    } else {
        None
    }
}

/// `String::from_utf8`, with the error dropped: the standard library
/// documents that it succeeds exactly when the bytes are valid UTF-8, and
/// the string then holds the characters they encode.
#[verifier::external_body]
fn string_from_utf8(bytes: Vec<u8>) -> (text: Option<String>)
    ensures
        text is Some <==> valid_utf8(bytes@),
        text matches Some(t) ==> t@ == decode_utf8(bytes@),
{
    String::from_utf8(bytes).ok()
}

/// Splits `user:password` credentials at the first `:` and returns the
/// password; `None` when there is no `:`. Any username is accepted.
pub fn password_from_credentials(text: &str) -> (password: Option<String>)
    ensures
        password matches Some(p) ==> spec_password_from_credentials(text@) == Some(p@),
        password is None ==> spec_password_from_credentials(text@) is None,
{
    let n = text.unicode_len();
    let mut i: usize = 0;
    while i < n
        invariant
            n == text@.len(),
            i <= n,
            forall|j: int| 0 <= j < i ==> text@[j] != ':',
        decreases n - i,
    {
        if text.get_char(i) == ':' {
            proof {
                assert(is_first_colon(text@, i as int));
                let k = choose|k: int| is_first_colon(text@, k);
                assert(k == i) by {
                    if k < i {
                        assert(text@[k] != ':');
                    } else if k > i {
                        assert(text@[i as int] != ':');
                    }
                }
            }
            let rest = text.substring_char(i + 1, n);
            assert(rest@ =~= text@.skip(i + 1));
            return Some(rest.to_owned());
        }
        i = i + 1;
    }
    assert(!exists|k: int| is_first_colon(text@, k)) by {
        if exists|k: int| is_first_colon(text@, k) {
            let k = choose|k: int| is_first_colon(text@, k);
            assert(text@[k] != ':');
        }
    }
    None
}

/// Extracts the password from an `Authorization` header value of the
/// form `Basic base64(user:password)`; `None` for any other scheme, for
/// invalid base64, for bytes that are not UTF-8, or for credentials
/// without a `:`.
pub fn parse_basic_auth_password(header_value: &str) -> (password: Option<String>)
    ensures
        password matches Some(p) ==> spec_parse_basic_auth_password(header_value@) == Some(p@),
        password is None ==> spec_parse_basic_auth_password(header_value@) is None,
{
    let n = header_value.unicode_len();
    if n < 6 {
        return None;
    }
    let has_scheme = header_value.get_char(0) == 'B' && header_value.get_char(1) == 'a'
        && header_value.get_char(2) == 's' && header_value.get_char(3) == 'i'
        && header_value.get_char(4) == 'c' && header_value.get_char(5) == ' ';
    if !has_scheme {
        proof {
            if header_value@.take(6) == basic_scheme() {
                assert(header_value@.take(6)[0] == 'B');
                assert(header_value@.take(6)[1] == 'a');
                assert(header_value@.take(6)[2] == 's');
                assert(header_value@.take(6)[3] == 'i');
                assert(header_value@.take(6)[4] == 'c');
                assert(header_value@.take(6)[5] == ' ');
            }
        }
        return None;
    }
    assert(header_value@.take(6) =~= basic_scheme());
    let encoded = header_value.substring_char(6, n);
    assert(encoded@ =~= header_value@.skip(6));
    let decoded = match base64_decode(encoded) {
        Some(bytes) => bytes,
        None => return None,
    };
    let text = match string_from_utf8(decoded) {
        Some(t) => t,
        None => return None,
    };
    password_from_credentials(text.as_str())
}

/// The decision of the Basic Auth gate: a request passes exactly when its
/// `Authorization` header value (`None` when absent or not readable as
/// text) carries Basic credentials whose password equals `expected`,
/// whatever the username. The password bytes are compared with
/// [`constant_time_eq`].
pub fn password_accepted(header_value: Option<&str>, expected: &str) -> (accepted: bool)
    ensures
        accepted == match header_value {
            Some(h) => spec_parse_basic_auth_password(h@) == Some(expected@),
            None => false,
        },
{
    let provided = match header_value {
        Some(h) => parse_basic_auth_password(h),
        None => None,
    };
    match provided {
        Some(password) => {
            let equal = constant_time_eq(password.as_str().as_bytes(), expected.as_bytes());
            proof {
                encode_utf8_decode_utf8(password@);
                encode_utf8_decode_utf8(expected@);
            }
            equal
        },
        None => false,
    }
}

/// Compares two byte slices without stopping at the first differing byte,
/// so that the time taken does not tell how much of a guess was right.
/// Slices of different lengths are unequal.
pub fn constant_time_eq(a: &[u8], b: &[u8]) -> (equal: bool)
    ensures
        equal == (a@ == b@),
{
    if a.len() != b.len() {
        return false;
    }
    let mut diff: u8 = 0;
    let mut i: usize = 0;
    while i < a.len()
        invariant
            a.len() == b.len(),
            i <= a.len(),
            (diff == 0) <==> (forall|j: int| 0 <= j < i ==> a@[j] == b@[j]),
        decreases a.len() - i,
    {
        let x = a[i];
        let y = b[i];
        let next = diff | (x ^ y);
        assert((next == 0) <==> (diff == 0 && x == y)) by (bit_vector)
            requires
                next == diff | (x ^ y),
        ;
        diff = next;
        i = i + 1;
    }
    assert(diff == 0 ==> a@ =~= b@);
    diff == 0
}

// ---------------------------------------------------------------------
// Laws
// ---------------------------------------------------------------------

/// The character of the standard base64 alphabet for a 6-bit value.
pub open spec fn base64_char(v: u8) -> char {
    if v < 26 {
        ((v + 'A' as u32) as u32) as char
    } else if v < 52 {
        ((v - 26 + 'a' as u32) as u32) as char
    } else if v < 62 {
        ((v - 52 + '0' as u32) as u32) as char
    } else if v == 62 {
        '+'
    } else {
        '/'
    }
}

/// The 6-bit values of the standard base64 encoding of `b`, without
/// padding: three bytes give four values, two bytes three, one byte two.
pub open spec fn encode_sextets(b: Seq<u8>) -> Seq<u8>
    decreases b.len(),
{
    if b.len() >= 3 {
        seq![
            b[0] >> 2u8,
            ((b[0] & 3u8) << 4u8) | (b[1] >> 4u8),
            ((b[1] & 15u8) << 2u8) | (b[2] >> 6u8),
            b[2] & 63u8,
        ] + encode_sextets(b.skip(3))
    } else if b.len() == 2 {
        seq![b[0] >> 2u8, ((b[0] & 3u8) << 4u8) | (b[1] >> 4u8), (b[1] & 15u8) << 2u8]
    } else if b.len() == 1 {
        seq![b[0] >> 2u8, (b[0] & 3u8) << 4u8]
    } else {
        Seq::empty()
    }
}

/// The `=` characters that pad an encoding of `n` bytes to a multiple of
/// four characters.
pub open spec fn base64_padding(n: nat) -> Seq<char> {
    if n % 3 == 1 {
        seq!['=', '=']
    } else if n % 3 == 2 {
        seq!['=']
    } else {
        Seq::empty()
    }
}

/// Standard base64 encoding (RFC 4648) of `b`, with `=` padding.
pub open spec fn spec_base64_encode(b: Seq<u8>) -> Seq<char> {
    encode_sextets(b).map_values(|v: u8| base64_char(v)) + base64_padding(b.len())
}

proof fn lemma_base64_char_value(v: u8)
    requires
        v < 64,
    ensures
        base64_sextet(base64_char(v)) == Some(v),
        base64_char(v) != '=',
{
}

proof fn lemma_group_roundtrip(x: u8, y: u8, z: u8)
    ensures
        group_byte_0(x >> 2u8, ((x & 3u8) << 4u8) | (y >> 4u8)) == x,
        group_byte_1(((x & 3u8) << 4u8) | (y >> 4u8), ((y & 15u8) << 2u8) | (z >> 6u8)) == y,
        group_byte_2(((y & 15u8) << 2u8) | (z >> 6u8), z & 63u8) == z,
        x >> 2u8 < 64,
        ((x & 3u8) << 4u8) | (y >> 4u8) < 64,
        ((y & 15u8) << 2u8) | (z >> 6u8) < 64,
        z & 63u8 < 64,
        (x & 3u8) << 4u8 < 64,
        (y & 15u8) << 2u8 < 64,
{
    assert(((x >> 2u8) << 2u8) | ((((x & 3u8) << 4u8) | (y >> 4u8)) >> 4u8) == x) by (bit_vector);
    assert(((((x & 3u8) << 4u8) | (y >> 4u8)) << 4u8) | ((((y & 15u8) << 2u8) | (z >> 6u8)) >> 2u8)
        == y) by (bit_vector);
    assert(((((y & 15u8) << 2u8) | (z >> 6u8)) << 6u8) | (z & 63u8) == z) by (bit_vector);
    assert(x >> 2u8 < 64) by (bit_vector);
    assert(((x & 3u8) << 4u8) | (y >> 4u8) < 64) by (bit_vector);
    assert(((y & 15u8) << 2u8) | (z >> 6u8) < 64) by (bit_vector);
    assert(z & 63u8 < 64) by (bit_vector);
    assert((x & 3u8) << 4u8 < 64) by (bit_vector);
    assert((y & 15u8) << 2u8 < 64) by (bit_vector);
}

proof fn lemma_encode_sextets(b: Seq<u8>)
    ensures
        decode_sextets(encode_sextets(b)) == b,
        forall|i: int| 0 <= i < encode_sextets(b).len() ==> #[trigger] encode_sextets(b)[i] < 64,
    decreases b.len(),
{
    let e = encode_sextets(b);
    if b.len() >= 3 {
        lemma_group_roundtrip(b[0], b[1], b[2]);
        lemma_encode_sextets(b.skip(3));
        let head = seq![
            b[0] >> 2u8,
            ((b[0] & 3u8) << 4u8) | (b[1] >> 4u8),
            ((b[1] & 15u8) << 2u8) | (b[2] >> 6u8),
            b[2] & 63u8,
        ];
        assert(e == head + encode_sextets(b.skip(3)));
        assert(e.skip(4) =~= encode_sextets(b.skip(3)));
        assert(b =~= seq![b[0], b[1], b[2]] + b.skip(3));
        assert forall|i: int| 0 <= i < e.len() implies #[trigger] e[i] < 64 by {
            if i >= 4 {
                assert(e[i] == encode_sextets(b.skip(3))[i - 4]);
            }
        }
    } else if b.len() == 2 {
        lemma_group_roundtrip(b[0], b[1], 0u8);
        assert(group_byte_1(((b[0] & 3u8) << 4u8) | (b[1] >> 4u8), (b[1] & 15u8) << 2u8) == b[1])
            by {
            let x = b[0];
            let y = b[1];
            assert(((((x & 3u8) << 4u8) | (y >> 4u8)) << 4u8) | (((y & 15u8) << 2u8) >> 2u8) == y)
                by (bit_vector);
        }
        assert(b =~= seq![b[0], b[1]]);
    } else if b.len() == 1 {
        lemma_group_roundtrip(b[0], 0u8, 0u8);
        assert(group_byte_0(b[0] >> 2u8, (b[0] & 3u8) << 4u8) == b[0]) by {
            let x = b[0];
            assert(((x >> 2u8) << 2u8) | (((x & 3u8) << 4u8) >> 4u8) == x) by (bit_vector);
        }
        assert(b =~= seq![b[0]]);
    } else {
        assert(b =~= Seq::<u8>::empty());
    }
}

proof fn lemma_trim_padding_of_encoding(chars: Seq<char>, pad: Seq<char>)
    requires
        chars.len() == 0 || chars.last() != '=',
        forall|i: int| 0 <= i < pad.len() ==> pad[i] == '=',
    ensures
        trim_padding(chars + pad) == chars,
    decreases pad.len(),
{
    if pad.len() == 0 {
        assert(chars + pad =~= chars);
    } else {
        assert((chars + pad).drop_last() =~= chars + pad.drop_last());
        assert(trim_padding(chars + pad) == trim_padding((chars + pad).drop_last()));
        lemma_trim_padding_of_encoding(chars, pad.drop_last());
    }
}

/// Decoding gives back what standard base64 encoding (RFC 4648, with `=`
/// padding) encoded, for every byte sequence.
pub proof fn lemma_base64_decode_of_encode(b: Seq<u8>)
    ensures
        spec_base64_decode(spec_base64_encode(b)) == Some(b),
{
    let e = encode_sextets(b);
    lemma_encode_sextets(b);
    let chars = e.map_values(|v: u8| base64_char(v));
    let pad = base64_padding(b.len());
    if chars.len() > 0 {
        lemma_base64_char_value(e[e.len() - 1]);
    }
    lemma_trim_padding_of_encoding(chars, pad);
    assert forall|i: int| 0 <= i < chars.len() implies base64_sextet(#[trigger] chars[i])
        == Some(e[i]) by {
        lemma_base64_char_value(e[i]);
    }
    assert(sextets_of(chars) == Some(e)) by {
        assert(Seq::new(chars.len(), |i: int| base64_sextet(chars[i]).unwrap()) =~= e);
    }
}

/// The Basic Auth gate reads back the password of any `user:password`
/// credentials whose username holds no `:`, sent as `Basic ` followed by
/// the standard base64 encoding of their UTF-8 bytes; so such a request
/// passes exactly when its password equals the configured one, whatever
/// the username.
pub proof fn lemma_basic_auth_reads_password(user: Seq<char>, password: Seq<char>, expected: Seq<char>)
    requires
        forall|i: int| 0 <= i < user.len() ==> user[i] != ':',
    ensures
        spec_parse_basic_auth_password(
            basic_scheme() + spec_base64_encode(encode_utf8(user + seq![':'] + password)),
        ) == Some(password),
        (spec_parse_basic_auth_password(
            basic_scheme() + spec_base64_encode(encode_utf8(user + seq![':'] + password)),
        ) == Some(expected)) == (password == expected),
{
    let text = user + seq![':'] + password;
    let header = basic_scheme() + spec_base64_encode(encode_utf8(text));
    assert(header.take(6) =~= basic_scheme());
    assert(header.skip(6) =~= spec_base64_encode(encode_utf8(text)));
    lemma_base64_decode_of_encode(encode_utf8(text));
    encode_utf8_valid_utf8(text);
    encode_utf8_decode_utf8(text);
    let k = user.len() as int;
    assert(is_first_colon(text, k));
    let c = choose|c: int| is_first_colon(text, c);
    assert(c == k) by {
        if c < k {
            assert(text[c] == user[c]);
        } else if c > k {
            assert(text[k] != ':');
        }
    }
    assert(text.skip(k + 1) =~= password);
}

} // verus!
