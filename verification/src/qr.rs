//! The enrollment QR code: a token (and, when configured, the
//! enrollment URL) as a small JSON payload, rendered as an inline SVG QR
//! code.
//!
//! Payload scheme, this project's own: the JSON object
//! `{"microtakEnroll": {"enrollmentUrl": "<url>", "token": "<token>"}}`,
//! where `enrollmentUrl` is present only when it is configured.

use vstd::prelude::*;
use vstd::string::*;

use crate::client::hex_value;
use crate::text::hex_lower;

verus! {

/// A freshly minted token and, when configured, the enrollment endpoint
/// a provisioning client should use.
pub struct EnrollmentQr {
    pub token: String,
    pub enrollment_url: Option<String>,
}

/// JSON escape of one character: `"` and `\` are backslashed; backspace,
/// tab, line feed, form feed and carriage return get their short escapes;
/// other control characters below `0x20` become `\u00XX` (lowercase hex);
/// every other character stands for itself.
pub open spec fn json_escape_char(c: char) -> Seq<char> {
    let n = c as u32;
    if c == '"' {
        seq!['\\', '"']
    } else if c == '\\' {
        seq!['\\', '\\']
    } else if n == 8 {
        seq!['\\', 'b']
    } else if n == 9 {
        seq!['\\', 't']
    } else if n == 10 {
        seq!['\\', 'n']
    } else if n == 12 {
        seq!['\\', 'f']
    } else if n == 13 {
        seq!['\\', 'r']
    } else if n < 32 {
        seq!['\\', 'u', '0', '0', hex_lower((n / 16) as u8), hex_lower((n % 16) as u8)]
    } else {
        seq![c]
    }
}

/// JSON escape of a character sequence, character by character.
pub open spec fn json_escape(s: Seq<char>) -> Seq<char>
    decreases s.len(),
{
    if s.len() == 0 {
        Seq::empty()
    } else {
        json_escape(s.drop_last()) + json_escape_char(s.last())
    }
}

/// A JSON string literal holding `s`.
pub open spec fn json_quote(s: Seq<char>) -> Seq<char> {
    seq!['"'] + json_escape(s) + seq!['"']
}

/// `serde_json::to_string` on a string slice: a JSON string literal with
/// the escapes of [`json_escape_char`] (serde_json's `ESCAPE` table and
/// `write_char_escape`). Serializing a `str` into memory does not fail.
#[verifier::external_body]
fn json_string(s: &str) -> (quoted: String)
    ensures
        quoted@ == json_quote(s@),
{
    serde_json::to_string(s).unwrap_or_default()
}

/// The SVG markup that the `qrcode` crate renders for `data` (QR code at
/// the default error-correction level, then its SVG renderer with the given
/// minimum size and colors), or `None` when the data does not fit in a QR
/// code.
pub uninterp spec fn qr_svg_markup(data: Seq<char>, min_size: u32, dark: Seq<char>, light: Seq<char>) -> Option<Seq<char>>;

/// `qrcode::QrCode::new` on the UTF-8 bytes of `data`, then
/// `render::<svg::Color>()` with `min_dimensions`, `dark_color`,
/// `light_color` and `build`. Its result is given a name only: it depends
/// on the arguments alone. The size is bounded: `min_dimensions` and
/// `build` compute pixel sizes in `u32` (a QR code is at most 185 modules
/// across with its quiet zone), which overflows for sizes near `u32::MAX`.
#[verifier::external_body]
fn qr_svg(data: &str, min_size: u32, dark: &str, light: &str) -> (svg: Option<String>)
    requires
        min_size <= 4096,
    ensures
        match svg {
            Some(markup) => qr_svg_markup(data@, min_size, dark@, light@) == Some(markup@),
            None => qr_svg_markup(data@, min_size, dark@, light@) is None,
        },
{
    match qrcode::QrCode::new(data.as_bytes()) {
        Ok(code) => Some(
            code.render::<qrcode::render::svg::Color>().min_dimensions(min_size, min_size).dark_color(
                qrcode::render::svg::Color(dark),
            ).light_color(qrcode::render::svg::Color(light)).build(),
        ),
        Err(_) => None,
    }
}

/// The QR payload for a token and an optional enrollment URL.
pub open spec fn spec_payload(token: Seq<char>, enrollment_url: Option<Seq<char>>) -> Seq<char> {
    "{\"microtakEnroll\":{"@ + match enrollment_url {
        Some(url) => "\"enrollmentUrl\":"@ + json_quote(url) + ","@,
        None => Seq::empty(),
    } + "\"token\":"@ + json_quote(token) + "}}"@
}

impl EnrollmentQr {
    pub open spec fn spec_payload(&self) -> Seq<char> {
        spec_payload(
            self.token@,
            match self.enrollment_url {
                Some(url) => Some(url@),
                None => None,
            },
        )
    }

    /// The JSON payload that the QR code carries. `enrollmentUrl` is
    /// present exactly when an enrollment URL is configured.
    pub fn payload(&self) -> (payload: String)
        ensures
            payload@ == self.spec_payload(),
    {
        let mut payload = String::from_str("{\"microtakEnroll\":{");
        match &self.enrollment_url {
            Some(url) => {
                payload.append("\"enrollmentUrl\":");
                let quoted = json_string(url.as_str());
                payload.append(quoted.as_str());
                payload.append(",");
            },
            None => {},
        }
        payload.append("\"token\":");
        let quoted_token = json_string(self.token.as_str());
        payload.append(quoted_token.as_str());
        payload.append("}}");
        proof {
            match &self.enrollment_url {
                Some(url) => {
                    assert(payload@ =~= self.spec_payload());
                },
                None => {
                    assert(payload@ =~= self.spec_payload());
                },
            }
        }
        payload
    }

    /// The payload rendered as an inline SVG QR code (at least 240 pixels
    /// square, black on white); `None` when the payload does not fit in a
    /// QR code.
    pub fn render_svg(&self) -> (svg: Option<String>)
        ensures
            match svg {
                Some(markup) => qr_svg_markup(self.spec_payload(), 240, "#000000"@, "#ffffff"@)
                    == Some(markup@),
                None => qr_svg_markup(self.spec_payload(), 240, "#000000"@, "#ffffff"@) is None,
            },
    {
        let payload = self.payload();
        qr_svg(payload.as_str(), 240, "#000000", "#ffffff")
    }
}

// ---------------------------------------------------------------------
// Reading the payload back
// ---------------------------------------------------------------------

/// The character that a JSON escape sequence at the front of `s` (which
/// starts with `\`) stands for: `\"`, `\\`, `\/`, `\b`, `\f`, `\n`, `\r`,
/// `\t`, or `\u` with four hexadecimal digits naming a character outside
/// the surrogate range (surrogate pairs are not read here).
pub open spec fn json_escape_value(s: Seq<char>) -> Option<char> {
    if s.len() >= 2 {
        let e = s[1];
        if e == '"' {
            Some('"')
        } else if e == '\\' {
            Some('\\')
        } else if e == '/' {
            Some('/')
        } else if e == 'b' {
            Some((8u32) as char)
        } else if e == 'f' {
            Some((12u32) as char)
        } else if e == 'n' {
            Some((10u32) as char)
        } else if e == 'r' {
            Some((13u32) as char)
        } else if e == 't' {
            Some((9u32) as char)
        } else if e == 'u' && s.len() >= 6 && hex_value(s[2]) is Some && hex_value(s[3]) is Some
            && hex_value(s[4]) is Some && hex_value(s[5]) is Some {
            let v = hex_value(s[2]).unwrap() * 4096 + hex_value(s[3]).unwrap() * 256 + hex_value(
                s[4],
            ).unwrap() * 16 + hex_value(s[5]).unwrap();
            if 0xD800 <= v <= 0xDFFF {
                None
            } else {
                Some((v as u32) as char)
            }
        } else {
            None
        }
    } else {
        None
    }
}

/// Reads the rest of a JSON string literal (after its opening quote):
/// the characters it holds and what follows its closing quote. Unescaped
/// control characters below `0x20` are not allowed.
pub open spec fn json_unescape_body(s: Seq<char>) -> Option<(Seq<char>, Seq<char>)>
    decreases s.len(),
{
    if s.len() == 0 {
        None
    } else if s[0] == '"' {
        Some((Seq::empty(), s.drop_first()))
    } else if s[0] == '\\' {
        let k: int = if s.len() >= 2 && s[1] == 'u' {
            6
        } else {
            2
        };
        if s.len() >= k {
            match json_escape_value(s) {
                Some(c) => match json_unescape_body(s.skip(k)) {
                    Some((v, r)) => Some((seq![c] + v, r)),
                    None => None,
                },
                None => None,
            }
        } else {
            None
        }
    } else if (s[0] as u32) < 32 {
        None
    } else {
        match json_unescape_body(s.drop_first()) {
            Some((v, r)) => Some((seq![s[0]] + v, r)),
            None => None,
        }
    }
}

/// Reads a JSON string literal at the front of `s`: its value and what
/// follows it.
pub open spec fn read_json_string(s: Seq<char>) -> Option<(Seq<char>, Seq<char>)> {
    if s.len() > 0 && s[0] == '"' {
        json_unescape_body(s.drop_first())
    } else {
        None
    }
}

pub open spec fn starts_with(s: Seq<char>, prefix: Seq<char>) -> bool {
    prefix.len() <= s.len() && s.take(prefix.len() as int) == prefix
}

/// Reads `"token":<string>}}` up to the end of the text.
pub open spec fn read_token_member(s: Seq<char>) -> Option<Seq<char>> {
    let key = "\"token\":"@;
    if starts_with(s, key) {
        match read_json_string(s.skip(key.len() as int)) {
            Some((token, r)) => if r == "}}"@ {
                Some(token)
            } else {
                None
            },
            None => None,
        }
    } else {
        None
    }
}

/// Reads a payload text as the JSON object
/// `{"microtakEnroll":{"enrollmentUrl":<string>,"token":<string>}}`, the
/// `enrollmentUrl` member being optional: the token and the URL, or `None`
/// for any other text.
pub open spec fn read_payload(text: Seq<char>) -> Option<(Seq<char>, Option<Seq<char>>)> {
    let open = "{\"microtakEnroll\":{"@;
    let url_key = "\"enrollmentUrl\":"@;
    if starts_with(text, open) {
        let body = text.skip(open.len() as int);
        if starts_with(body, url_key) {
            match read_json_string(body.skip(url_key.len() as int)) {
                Some((url, r)) => if r.len() > 0 && r[0] == ',' {
                    match read_token_member(r.drop_first()) {
                        Some(token) => Some((token, Some(url))),
                        None => None,
                    }
                } else {
                    None
                },
                None => None,
            }
        } else {
            match read_token_member(body) {
                Some(token) => Some((token, None)),
                None => None,
            }
        }
    } else {
        None
    }
}

proof fn lemma_json_escape_concat(a: Seq<char>, b: Seq<char>)
    ensures
        json_escape(a + b) == json_escape(a) + json_escape(b),
    decreases b.len(),
{
    if b.len() == 0 {
        assert(a + b =~= a);
        assert(json_escape(a) + json_escape(b) =~= json_escape(a));
    } else {
        assert((a + b).drop_last() =~= a + b.drop_last());
        assert((a + b).last() == b.last());
        lemma_json_escape_concat(a, b.drop_last());
        assert(json_escape(a) + json_escape(b) =~= json_escape(a) + json_escape(b.drop_last())
            + json_escape_char(b.last()));
    }
}

proof fn lemma_hex_lower_value(v: u8)
    requires
        v < 16,
    ensures
        hex_value(hex_lower(v)) == Some(v),
{
}

proof fn lemma_unescape_char(c: char, r: Seq<char>)
    ensures
        json_unescape_body(json_escape_char(c) + r) == match json_unescape_body(r) {
            Some((v, rest)) => Some((seq![c] + v, rest)),
            None => None,
        },
{
    let s = json_escape_char(c) + r;
    let n = c as u32;
    vstd::utf8::char_u32_cast(c, n);
    if c == '"' || c == '\\' || n == 8 || n == 9 || n == 10 || n == 12 || n == 13 {
        assert(s[0] == '\\');
        assert(s.skip(2) =~= r);
    } else if n < 32 {
        let hi = (n / 16) as u8;
        let lo = (n % 16) as u8;
        lemma_hex_lower_value(hi);
        lemma_hex_lower_value(lo);
        assert(s[0] == '\\');
        assert(s[1] == 'u');
        assert(s[2] == '0' && s[3] == '0');
        assert(s[4] == hex_lower(hi) && s[5] == hex_lower(lo));
        assert(json_escape_value(s) == Some(c));
        assert(s.skip(6) =~= r);
    } else {
        assert(s[0] == c);
        assert(s.drop_first() =~= r);
    }
}

proof fn lemma_unescape_escaped(v: Seq<char>, rest: Seq<char>)
    ensures
        json_unescape_body(json_escape(v) + seq!['"'] + rest) == Some((v, rest)),
    decreases v.len(),
{
    if v.len() == 0 {
        let s = json_escape(v) + seq!['"'] + rest;
        assert(s =~= seq!['"'] + rest);
        assert(s.drop_first() =~= rest);
    } else {
        let c = v[0];
        let tail = v.drop_first();
        lemma_json_escape_concat(seq![c], tail);
        assert(v =~= seq![c] + tail);
        assert(json_escape(seq![c]) =~= json_escape_char(c)) by {
            assert(seq![c].drop_last() =~= Seq::<char>::empty());
            assert(seq![c].last() == c);
            assert(json_escape(Seq::<char>::empty()) =~= Seq::<char>::empty());
            assert(Seq::<char>::empty() + json_escape_char(c) =~= json_escape_char(c));
        }
        let r = json_escape(tail) + seq!['"'] + rest;
        assert(json_escape(v) + seq!['"'] + rest =~= json_escape_char(c) + r);
        lemma_unescape_escaped(tail, rest);
        lemma_unescape_char(c, r);
        assert(seq![c] + tail =~= v);
    }
}

/// A JSON string literal written by [`json_quote`] reads back as the
/// characters it was written from, whatever they are, and the reader stops
/// right after its closing quote.
pub proof fn lemma_read_json_quote(v: Seq<char>, rest: Seq<char>)
    ensures
        read_json_string(json_quote(v) + rest) == Some((v, rest)),
{
    let s = json_quote(v) + rest;
    assert(s.drop_first() =~= json_escape(v) + seq!['"'] + rest);
    lemma_unescape_escaped(v, rest);
}

/// The payload reads back, as the JSON object
/// `{"microtakEnroll":{"enrollmentUrl":<string>,"token":<string>}}`, to
/// exactly the token and, when one is configured (and only then), the
/// enrollment URL, for any strings: quotes, backslashes, control and
/// non-ASCII characters included.
pub proof fn lemma_payload_reads_back(token: Seq<char>, enrollment_url: Option<Seq<char>>)
    ensures
        read_payload(spec_payload(token, enrollment_url)) == Some((token, enrollment_url)),
{
    reveal_strlit("{\"microtakEnroll\":{");
    reveal_strlit("\"enrollmentUrl\":");
    reveal_strlit("\"token\":");
    reveal_strlit("}}");
    reveal_strlit(",");
    let open = "{\"microtakEnroll\":{"@;
    let url_key = "\"enrollmentUrl\":"@;
    let token_key = "\"token\":"@;
    let close = "}}"@;
    let token_part = token_key + json_quote(token) + close;
    lemma_read_json_quote(token, close);
    assert(token_part.take(token_key.len() as int) =~= token_key);
    assert(token_part.skip(token_key.len() as int) =~= json_quote(token) + close);
    assert(read_token_member(token_part) == Some(token));
    let text = spec_payload(token, enrollment_url);
    match enrollment_url {
        Some(url) => {
            let after_url = seq![','] + token_part;
            assert(text =~= open + (url_key + (json_quote(url) + after_url)));
            assert(text.take(open.len() as int) =~= open);
            let body = text.skip(open.len() as int);
            assert(body =~= url_key + (json_quote(url) + after_url));
            assert(body.take(url_key.len() as int) =~= url_key);
            assert(body.skip(url_key.len() as int) =~= json_quote(url) + after_url);
            lemma_read_json_quote(url, after_url);
            assert(after_url.drop_first() =~= token_part);
        },
        None => {
            assert(text =~= open + token_part);
            assert(text.take(open.len() as int) =~= open);
            let body = text.skip(open.len() as int);
            assert(body =~= token_part);
            assert(body[1] == 't');
            assert(!starts_with(body, url_key)) by {
                if starts_with(body, url_key) {
                    assert(body.take(url_key.len() as int)[1] == url_key[1]);
                }
            }
        },
    }
}

} // verus!
