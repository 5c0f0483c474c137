//! Color lab command helpers: normalizing hex color arguments.
use vstd::prelude::*;
use vstd::string::*;
use vstd::utf8::encode_utf8;

use crate::text::{trim_end_ws, trim_start_ws, trim_ws, utf8_len};

verus! {

/// A generated palette color, as sent to the color lab.
#[derive(Debug, Clone)]
pub struct GeneratedColorDto {
    pub hex: String,
    pub r: u8,
    pub g: u8,
    pub b: u8,
}

/// `s` without any leading `#`.
pub open spec fn strip_hashes(s: Seq<char>) -> Seq<char>
    decreases s.len(),
{
    if s.len() > 0 && s[0] == '#' {
        strip_hashes(s.drop_first())
    } else {
        s
    }
}

/// The color digits of a hex argument: whitespace trimmed on both ends,
/// then leading `#` removed.
pub open spec fn hex_body(s: Seq<char>) -> Seq<char> {
    strip_hashes(trim_end_ws(trim_start_ws(s)))
}

/// An ASCII hexadecimal digit.
pub open spec fn is_hex_digit(c: char) -> bool {
    ||| '0' <= c <= '9'
    ||| 'a' <= c <= 'f'
    ||| 'A' <= c <= 'F'
}

/// The views of a string result.
pub open spec fn result_view(r: Result<String, String>) -> Result<Seq<char>, Seq<char>> {
    match r {
        Ok(s) => Ok(s@),
        Err(e) => Err(e@),
    }
}

/// Verdict on upper-cased color digits `u`: exactly six bytes of UTF-8, all
/// ASCII hexadecimal digits.
pub open spec fn hex6_outcome(u: Seq<char>) -> Result<Seq<char>, Seq<char>> {
    if encode_utf8(u).len() != 6 {
        Err("Hex color must be exactly 6 characters (optionally prefixed with #)"@)
    } else if !(forall|i: int| 0 <= i < u.len() ==> is_hex_digit(#[trigger] u[i])) {
        Err("Hex color contains invalid characters"@)
    } else {
        Ok(u)
    }
}

/// What `str::to_uppercase` returns for `s`: the Unicode upper-case mapping.
pub uninterp spec fn uppercase(s: Seq<char>) -> Seq<char>;

/// Calls `str::to_uppercase`. Claimed: the result is [`uppercase`] of the
/// argument.
#[verifier::external_body]
fn to_upper(s: &str) -> (r: String)
    ensures
        r@ == uppercase(s@),
{
    s.to_uppercase()
}

fn is_hex_char(c: char) -> (r: bool)
    ensures
        r == is_hex_digit(c),
{
    ('0' <= c && c <= '9') || ('a' <= c && c <= 'f') || ('A' <= c && c <= 'F')
}

/// The color digits of a hex argument (see [`hex_body`]).
pub fn hex_arg_body(hex: &str) -> (r: &str)
    ensures
        r@ == hex_body(hex@),
{
    let t = trim_ws(hex);
    let n = t.unicode_len();
    let mut i: usize = 0;
    assert(t@.subrange(0, n as int) =~= t@);
    while i < n && t.get_char(i) == '#'
        invariant
            i <= n,
            n == t@.len(),
            strip_hashes(t@) == strip_hashes(t@.subrange(i as int, n as int)),
        decreases n - i,
    {
        assert(t@.subrange(i as int, n as int).drop_first() =~= t@.subrange(i + 1, n as int));
        i = i + 1;
    }
    t.substring_char(i, n)
}

/// Accept upper-cased color digits that are exactly six bytes, all ASCII
/// hexadecimal digits.
pub fn check_hex6(candidate: String) -> (r: Result<String, String>)
    ensures
        result_view(r) == hex6_outcome(candidate@),
{
    let s = candidate.as_str();
    if utf8_len(s) != 6 {
        return Err(
            String::from_str("Hex color must be exactly 6 characters (optionally prefixed with #)"),
        );
    }
    let n = s.unicode_len();
    let mut i: usize = 0;
    while i < n
        invariant
            i <= n,
            n == s@.len(),
            s@ == candidate@,
            encode_utf8(candidate@).len() == 6,
            forall|k: int| 0 <= k < i ==> is_hex_digit(#[trigger] s@[k]),
        decreases n - i,
    {
        let c = s.get_char(i);
        if !is_hex_char(c) {
            assert(!is_hex_digit(candidate@[i as int]));
            return Err(String::from_str("Hex color contains invalid characters"));
        }
        i = i + 1;
    }
    Ok(candidate)
}

/// Normalize a hex color argument: trim whitespace, drop leading `#`,
/// upper-case, and require exactly six hexadecimal digits.
pub fn normalize_hex_arg(hex: &str) -> (r: Result<String, String>)
    ensures
        result_view(r) == hex6_outcome(uppercase(hex_body(hex@))),
{
    let body = hex_arg_body(hex);
    let upper = to_upper(body);
    check_hex6(upper)
}

} // verus!
