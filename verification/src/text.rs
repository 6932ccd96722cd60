//! Byte strings: the wire carries bytes, so every text in this crate is a
//! sequence of bytes. This module finds delimiters, compares and searches.

use vstd::prelude::*;
use vstd::slice::slice_subrange;
use vstd::string::*;

verus! {

/// The bytes of a text made of ASCII characters only.
pub open spec fn ascii(s: &str) -> Seq<u8> {
    Seq::new(s@.len(), |i: int| s@[i] as u8)
}

/// The byte ` `, which separates the tokens of a protocol line.
pub const SPACE: u8 = 32;

/// The byte `:`, the sigil that opens a source prefix.
pub const COLON: u8 = 58;

/// The byte `!`, which ends the nickname in a source prefix.
pub const BANG: u8 = 33;

/// The byte `\n`.
pub const NEWLINE: u8 = 10;

/// The first position at or after `i` where `s` holds `b`; the length of `s`
/// when there is none.
pub open spec fn index_from(s: Seq<u8>, b: u8, i: int) -> int
    decreases s.len() - i,
{
    if i < 0 || i >= s.len() {
        s.len() as int
    } else if s[i] == b {
        i
    } else {
        index_from(s, b, i + 1)
    }
}

/// The first position where `s` holds `b`; the length of `s` when it holds none.
pub open spec fn index_of(s: Seq<u8>, b: u8) -> int {
    index_from(s, b, 0)
}

/// What `s` holds before the first `b`: all of `s` when it holds no `b`.
pub open spec fn before(s: Seq<u8>, b: u8) -> Seq<u8> {
    s.subrange(0, index_of(s, b))
}

/// What `s` holds after the first `b`, if it holds one.
pub open spec fn after(s: Seq<u8>, b: u8) -> Option<Seq<u8>> {
    if index_of(s, b) < s.len() {
        Some(s.subrange(index_of(s, b) + 1, s.len() as int))
    } else {
        None
    }
}

/// `needle` stands in `hay` at position `i`.
pub open spec fn occurs_at(hay: Seq<u8>, needle: Seq<u8>, i: int) -> bool {
    0 <= i && i + needle.len() <= hay.len() && hay.subrange(i, i + needle.len()) == needle
}

/// `needle` stands somewhere in `hay`. The empty needle stands in every text.
pub open spec fn contains_seq(hay: Seq<u8>, needle: Seq<u8>) -> bool {
    exists|i: int| occurs_at(hay, needle, i)
}

/// `index_from` finds the least position that holds `b`.
pub proof fn lemma_index_from(s: Seq<u8>, b: u8, i: int)
    requires
        0 <= i <= s.len(),
    ensures
        i <= index_from(s, b, i) <= s.len(),
        forall|j: int| i <= j < index_from(s, b, i) ==> s[j] != b,
        index_from(s, b, i) < s.len() ==> s[index_from(s, b, i)] == b,
    decreases s.len() - i,
{
    if i < s.len() && s[i] != b {
        lemma_index_from(s, b, i + 1);
    }
}

/// A position that holds `b` with no `b` before it is the one `index_of` finds.
pub proof fn lemma_index_of_is(s: Seq<u8>, b: u8, k: int)
    requires
        0 <= k <= s.len(),
        forall|j: int| 0 <= j < k ==> s[j] != b,
        k < s.len() ==> s[k] == b,
    ensures
        index_of(s, b) == k,
{
    lemma_index_from(s, b, 0);
}

/// A text made of a part without `b`, then `b`, then a rest, is cut at that
/// `b`: the part stands before it and the rest after it.
pub proof fn lemma_cut(head: Seq<u8>, b: u8, rest: Seq<u8>)
    requires
        !head.contains(b),
    ensures
        index_of(head + seq![b] + rest, b) == head.len(),
        before(head + seq![b] + rest, b) == head,
        after(head + seq![b] + rest, b) == Some(rest),
{
    let s = head + seq![b] + rest;
    assert forall|j: int| 0 <= j < head.len() implies s[j] != b by {
        assert(head.contains(head[j]));
    }
    lemma_index_of_is(s, b, head.len() as int);
    assert(s.subrange(0, head.len() as int) =~= head);
    assert(s.subrange(head.len() as int + 1, s.len() as int) =~= rest);
}

/// A text without `b` is not cut: all of it stands before the first `b`.
pub proof fn lemma_uncut(s: Seq<u8>, b: u8)
    requires
        !s.contains(b),
    ensures
        index_of(s, b) == s.len(),
        before(s, b) == s,
        after(s, b) is None,
{
    assert forall|j: int| 0 <= j < s.len() implies s[j] != b by {
        assert(s.contains(s[j]));
    }
    lemma_index_of_is(s, b, s.len() as int);
    assert(s.subrange(0, s.len() as int) =~= s);
}

/// The bytes of an ASCII text.
pub(crate) fn ascii_bytes(s: &str) -> (v: Vec<u8>)
    requires
        is_ascii(s),
    ensures
        v@ == ascii(s),
{
    broadcast use is_ascii_spec_bytes;

    s.as_bytes_vec()
}

/// Whether two byte strings hold the same bytes.
pub fn bytes_eq(a: &[u8], b: &[u8]) -> (same: bool)
    ensures
        same == (a@ == b@),
{
    if a.len() != b.len() {
        return false;
    }
    let mut i: usize = 0;
    while i < a.len()
        invariant
            a@.len() == b@.len(),
            0 <= i <= a@.len(),
            forall|j: int| 0 <= j < i ==> a@[j] == b@[j],
        decreases a.len() - i,
    {
        if a[i] != b[i] {
            return false;
        }
        i += 1;
    }
    assert(a@ =~= b@);
    true
}

/// Whether a byte string is the given ASCII text.
pub(crate) fn is_text(a: &[u8], s: &str) -> (same: bool)
    requires
        is_ascii(s),
    ensures
        same == (a@ == ascii(s)),
{
    let t = ascii_bytes(s);
    bytes_eq(a, t.as_slice())
}

/// The first position of `b` in `s`, or the length of `s`.
pub fn find_byte(s: &[u8], b: u8) -> (i: usize)
    ensures
        i == index_of(s@, b),
        i <= s@.len(),
{
    let mut i: usize = 0;
    while i < s.len() && s[i] != b
        invariant
            0 <= i <= s@.len(),
            index_from(s@, b, 0) == index_from(s@, b, i as int),
        decreases s.len() - i,
    {
        i += 1;
    }
    i
}

/// Cuts `s` at its first `b`: what stands before it, and what stands after it
/// if there is a `b` at all.
pub fn split_at_byte<'a>(s: &'a [u8], b: u8) -> (parts: (&'a [u8], Option<&'a [u8]>))
    ensures
        parts.0@ == before(s@, b),
        match parts.1 {
            Some(rest) => after(s@, b) == Some(rest@),
            None => after(s@, b) is None,
        },
{
    let i = find_byte(s, b);
    let head = slice_subrange(s, 0, i);
    if i < s.len() {
        let rest = slice_subrange(s, i + 1, s.len());
        (head, Some(rest))
    } else {
        (head, None)
    }
}

/// Whether `needle` stands in `hay` at position `i`.
pub fn stands_at(hay: &[u8], needle: &[u8], i: usize) -> (found: bool)
    ensures
        found == occurs_at(hay@, needle@, i as int),
{
    if i > hay.len() || needle.len() > hay.len() - i {
        return false;
    }
    let mut k: usize = 0;
    while k < needle.len()
        invariant
            i + needle@.len() <= hay@.len() <= usize::MAX,
            0 <= k <= needle@.len(),
            forall|j: int| 0 <= j < k ==> hay@[i + j] == needle@[j],
        decreases needle.len() - k,
    {
        if hay[i + k] != needle[k] {
            assert(hay@.subrange(i as int, i + needle@.len())[k as int] != needle@[k as int]);
            return false;
        }
        k += 1;
    }
    assert(hay@.subrange(i as int, i + needle@.len()) =~= needle@);
    true
}

/// Whether `needle` stands somewhere in `hay`.
pub fn contains(hay: &[u8], needle: &[u8]) -> (found: bool)
    ensures
        found == contains_seq(hay@, needle@),
{
    if needle.len() > hay.len() {
        return false;
    }
    let last: usize = hay.len() - needle.len();
    let mut i: usize = 0;
    loop
        invariant
            last == hay@.len() - needle@.len(),
            0 <= i <= last,
            forall|j: int| 0 <= j < i ==> !occurs_at(hay@, needle@, j),
        decreases last - i,
    {
        if stands_at(hay, needle, i) {
            return true;
        }
        if i == last {
            return false;
        }
        i += 1;
    }
}

} // verus!
