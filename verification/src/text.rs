//! Small character-level helpers shared by the other modules.

use vstd::prelude::*;
use vstd::string::*;

verus! {

/// `s` without all of its trailing `c` characters.
pub open spec fn trim_trailing(s: Seq<char>, c: char) -> Seq<char>
    decreases s.len(),
{
    if s.len() > 0 && s.last() == c {
        trim_trailing(s.drop_last(), c)
    } else {
        s
    }
}

/// The number of characters of `s` that remain once its trailing `c`
/// characters are dropped.
pub fn trimmed_len(s: &str, c: char) -> (end: usize)
    ensures
        end <= s@.len(),
        trim_trailing(s@, c) == s@.take(end as int),
{
    let n = s.unicode_len();
    let mut end: usize = n;
    assert(s@.take(n as int) =~= s@);
    loop
        invariant
            n == s@.len(),
            end <= n,
            trim_trailing(s@, c) == trim_trailing(s@.take(end as int), c),
        ensures
            end <= n,
            trim_trailing(s@, c) == s@.take(end as int),
        decreases end,
    {
        if end == 0 {
            break;
        }
        if s.get_char(end - 1) != c {
            break;
        }
        proof {
            assert(s@.take(end as int).drop_last() =~= s@.take(end - 1));
        }
        end = end - 1;
    }
    end
}

/// The standard library's `String::push`: afterwards the string holds its
/// old characters followed by `c`.
#[verifier::external_body]
pub fn push_char(s: &mut String, c: char)
    ensures
        final(s)@ == old(s)@.push(c),
{
    s.push(c);
}

/// The uppercase hexadecimal digit of a value below 16.
pub open spec fn hex_upper(v: u8) -> char {
    if v < 10 {
        ((v + '0' as u32) as u32) as char
    } else {
        ((v - 10 + 'A' as u32) as u32) as char
    }
}

/// The lowercase hexadecimal digit of a value below 16.
pub open spec fn hex_lower(v: u8) -> char {
    if v < 10 {
        ((v + '0' as u32) as u32) as char
    } else {
        ((v - 10 + 'a' as u32) as u32) as char
    }
}

/// The uppercase hexadecimal digit of a value below 16.
pub fn hex_upper_digit(v: u8) -> (c: char)
    requires
        v < 16,
    ensures
        c == hex_upper(v),
{
    if v < 10 {
        ((v as u32 + '0' as u32) as u8) as char
    } else {
        ((v as u32 - 10 + 'A' as u32) as u8) as char
    }
}

} // verus!
