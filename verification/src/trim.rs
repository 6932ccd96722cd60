//! White space at the ends of a text. The text is taken as UTF-8, and white
//! space is what Unicode calls so: besides the ASCII blanks, a handful of
//! characters of two and three bytes.

use vstd::prelude::*;
use vstd::slice::{slice_subrange, slice_to_vec};

verus! {

/// Whether a byte is an ASCII white-space character: tab, line feed,
/// vertical tab, form feed, carriage return or space.
pub open spec fn is_blank(b: u8) -> bool {
    9 <= b <= 13 || b == 32
}

/// Whether two bytes encode a white-space character: U+0085 or U+00A0.
pub open spec fn is_blank_pair(a: u8, b: u8) -> bool {
    a == 0xC2 && (b == 0x85 || b == 0xA0)
}

/// Whether three bytes encode a white-space character: U+1680, U+2000 to
/// U+200A, U+2028, U+2029, U+202F, U+205F or U+3000.
pub open spec fn is_blank_triple(a: u8, b: u8, c: u8) -> bool {
    ||| a == 0xE1 && b == 0x9A && c == 0x80
    ||| a == 0xE2 && b == 0x80 && (0x80 <= c <= 0x8A || c == 0xA8 || c == 0xA9 || c == 0xAF)
    ||| a == 0xE2 && b == 0x81 && c == 0x9F
    ||| a == 0xE3 && b == 0x80 && c == 0x80
}

/// How many bytes the white-space character takes that `s` begins with; 0
/// when it begins with none.
pub open spec fn leading_space(s: Seq<u8>) -> int {
    if s.len() >= 1 && is_blank(s[0]) {
        1
    } else if s.len() >= 2 && is_blank_pair(s[0], s[1]) {
        2
    } else if s.len() >= 3 && is_blank_triple(s[0], s[1], s[2]) {
        3
    } else {
        0
    }
}

/// How many bytes the white-space character takes that `s` ends with; 0
/// when it ends with none.
pub open spec fn trailing_space(s: Seq<u8>) -> int {
    let n = s.len() as int;
    if n >= 1 && is_blank(s[n - 1]) {
        1
    } else if n >= 2 && is_blank_pair(s[n - 2], s[n - 1]) {
        2
    } else if n >= 3 && is_blank_triple(s[n - 3], s[n - 2], s[n - 1]) {
        3
    } else {
        0
    }
}

/// The text without the white space it begins with.
pub open spec fn trim_start(s: Seq<u8>) -> Seq<u8>
    decreases s.len(),
{
    if leading_space(s) == 0 {
        s
    } else {
        trim_start(s.subrange(leading_space(s), s.len() as int))
    }
}

/// The text without the white space it ends with.
pub open spec fn trim_end(s: Seq<u8>) -> Seq<u8>
    decreases s.len(),
{
    if trailing_space(s) == 0 {
        s
    } else {
        trim_end(s.subrange(0, s.len() - trailing_space(s)))
    }
}

/// The text without the white space at either end.
pub open spec fn trim(s: Seq<u8>) -> Seq<u8> {
    trim_end(trim_start(s))
}

/// How many bytes of white space `s` begins with, one character at most.
fn leading(s: &[u8]) -> (n: usize)
    ensures
        n == leading_space(s@),
        n <= s@.len(),
{
    let len = s.len();
    if len >= 1 && (9 <= s[0] && s[0] <= 13 || s[0] == 32) {
        1
    } else if len >= 2 && s[0] == 0xC2 && (s[1] == 0x85 || s[1] == 0xA0) {
        2
    } else if len >= 3 && wide(s[0], s[1], s[2]) {
        3
    } else {
        0
    }
}

/// How many bytes of white space `s` ends with, one character at most.
fn trailing(s: &[u8]) -> (n: usize)
    ensures
        n == trailing_space(s@),
        n <= s@.len(),
{
    let len = s.len();
    if len >= 1 && (9 <= s[len - 1] && s[len - 1] <= 13 || s[len - 1] == 32) {
        1
    } else if len >= 2 && s[len - 2] == 0xC2 && (s[len - 1] == 0x85 || s[len - 1] == 0xA0) {
        2
    } else if len >= 3 && wide(s[len - 3], s[len - 2], s[len - 1]) {
        3
    } else {
        0
    }
}

/// Whether three bytes encode a white-space character.
fn wide(a: u8, b: u8, c: u8) -> (yes: bool)
    ensures
        yes == is_blank_triple(a, b, c),
{
    a == 0xE1 && b == 0x9A && c == 0x80 || a == 0xE2 && b == 0x80 && (0x80 <= c && c <= 0x8A || c
        == 0xA8 || c == 0xA9 || c == 0xAF) || a == 0xE2 && b == 0x81 && c == 0x9F || a == 0xE3 && b
        == 0x80 && c == 0x80
}

/// The text without the white space at either end.
pub fn trim_bytes(s: &[u8]) -> (kept: Vec<u8>)
    ensures
        kept@ == trim(s@),
{
    let mut rest: &[u8] = s;
    let mut n: usize = leading(rest);
    while n > 0
        invariant
            n == leading_space(rest@),
            n <= rest@.len(),
            trim_start(rest@) == trim_start(s@),
        decreases rest@.len(),
    {
        rest = slice_subrange(rest, n, rest.len());
        n = leading(rest);
    }
    let ghost inner = rest@;
    let mut m: usize = trailing(rest);
    while m > 0
        invariant
            m == trailing_space(rest@),
            m <= rest@.len(),
            trim_end(rest@) == trim_end(inner),
        decreases rest@.len(),
    {
        rest = slice_subrange(rest, 0, rest.len() - m);
        m = trailing(rest);
    }
    slice_to_vec(rest)
}

} // verus!
