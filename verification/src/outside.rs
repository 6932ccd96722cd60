//! The two calls that leave this crate: base64 encoding and regular
//! expression matching. Their contracts are believed, not proved.

use vstd::prelude::*;

verus! {

/// The standard base64 text, with padding, of `input`.
pub uninterp spec fn base64_text(input: Seq<u8>) -> Seq<u8>;

/// What the regular expression `pattern` captures in `haystack`: nothing
/// when the pattern does not compile or matches nowhere; else, for
/// the leftmost match, the bytes of every group that took part in it. Group
/// 0 is the whole match, the others follow in the order of their opening
/// parentheses.
pub uninterp spec fn regex_captures(pattern: Seq<char>, haystack: Seq<u8>) -> Option<
    Seq<Option<Seq<u8>>>,
>;

/// The length of the base64 text of `len` bytes: four characters for every
/// three bytes, the last group padded.
pub open spec fn base64_len(len: int) -> int {
    4 * ((len + 2) / 3)
}

/// What a list of captured groups holds.
pub open spec fn groups_view(groups: Seq<Option<Vec<u8>>>) -> Seq<Option<Seq<u8>>> {
    Seq::new(
        groups.len(),
        |i: int|
            match groups[i] {
                Some(g) => Some(g@),
                None => None,
            },
    )
}

/// What the result of a match holds.
pub open spec fn captures_view(captures: Option<Vec<Option<Vec<u8>>>>) -> Option<
    Seq<Option<Seq<u8>>>,
> {
    match captures {
        Some(groups) => Some(groups_view(groups@)),
        None => None,
    }
}

/// Calls `base64::encode`. Believed of it: the result is a function of the
/// input alone, and it is as long as the encoder's own size computation
/// says. The encoder panics when that size does not fit the machine word,
/// so such inputs are left out.
#[verifier::external_body]
pub(crate) fn base64_encode(input: &[u8]) -> (text: Vec<u8>)
    requires
        base64_len(input@.len() as int) <= usize::MAX,
    ensures
        text@ == base64_text(input@),
        text@.len() == base64_len(input@.len() as int),
{
    base64::encode(input).into_bytes()
}

/// Compiles `pattern` with `regex::bytes::Regex::new` and runs `captures` on
/// `haystack`. Believed of it: the result is a function of the pattern and
/// the haystack alone.
#[verifier::external_body]
pub(crate) fn captures(pattern: &str, haystack: &[u8]) -> (found: Option<Vec<Option<Vec<u8>>>>)
    ensures
        captures_view(found) == regex_captures(pattern@, haystack@),
{
    let re = regex::bytes::Regex::new(pattern).ok()?;
    let caps = re.captures(haystack)?;
    Some(caps.iter().map(|m| m.map(|g| g.as_bytes().to_vec())).collect())
}

} // verus!
