//! Preparing a string for comparison: case folding and canonical
//! decomposition, both optional, folding first.

use unicode_normalization::UnicodeNormalization;
use vstd::prelude::*;

verus! {

/// The lowercase form of a string, as `str::to_lowercase` gives it: Unicode's
/// lowercase mapping, under which one character may become several.
pub uninterp spec fn lowercase(s: Seq<char>) -> Seq<char>;

/// The first code point of the canonical decomposition (normalization form D)
/// of the one character `c`, as the crate `unicode-normalization` computes
/// it, or `None` where the decomposition yields nothing.
pub uninterp spec fn decomposition_head(c: char) -> Option<char>;

/// `str::to_lowercase` returns the lowercase equivalent of the string as a
/// new `String`. The result depends on the characters alone and is what
/// [`lowercase`] names; nothing is claimed of its length.
pub assume_specification[ str::to_lowercase ](s: &str) -> (lowered: String)
    ensures
        lowered@ == lowercase(s@),
;

/// Makes the decomposing iterator of `unicode-normalization` over the single
/// character `c` (`UnicodeNormalization::nfd` on a `char`) and takes its
/// first item. The iterator depends on `c` alone, so its first item is what
/// [`decomposition_head`] names.
#[verifier::external_body]
fn first_of_decomposition(c: char) -> (head: Option<char>)
    ensures
        head == decomposition_head(c),
{
    c.nfd().next()
}

/// The base of a character: the head of its canonical decomposition, which
/// for an accented letter is the letter without the accent. A character
/// whose decomposition yields nothing is its own base.
pub open spec fn base_of(c: char) -> char {
    match decomposition_head(c) {
        Some(head) => head,
        None => c,
    }
}

/// A string made ready for comparison: lowercased unless the comparison is
/// case sensitive, then, if asked, each character replaced by its base.
pub open spec fn prepared(s: Seq<char>, case_sensitive: bool, normalize: bool) -> Seq<char> {
    let folded = if case_sensitive {
        s
    } else {
        lowercase(s)
    };
    if normalize {
        folded.map_values(|c: char| base_of(c))
    } else {
        folded
    }
}

/// Replaces a character by its base.
pub fn normalize_rune(r: char) -> (base: char)
    ensures
        base == base_of(r),
{
    match first_of_decomposition(r) {
        Some(head) => head,
        None => r,
    }
}

/// The characters of `s`, each replaced by its base if `normalize` is set.
fn collect_chars(s: &str, normalize: bool) -> (chars: Vec<char>)
    ensures
        chars@ == prepared(s@, true, normalize),
{
    let mut chars: Vec<char> = Vec::new();
    for c in it: s.chars()
        invariant
            it.seq() == s@,
            chars.len() == it.index(),
            forall|k: int|
                0 <= k < chars.len() ==> #[trigger] chars[k] == (if normalize {
                    base_of(s@[k])
                } else {
                    s@[k]
                }),
    {
        if normalize {
            chars.push(normalize_rune(c));
        } else {
            chars.push(c);
        }
    }
    assert(chars@ =~= prepared(s@, true, normalize));
    chars
}

/// Makes `s` ready for comparison and returns its characters.
pub fn prepare(s: &str, case_sensitive: bool, normalize: bool) -> (chars: Vec<char>)
    ensures
        chars@ == prepared(s@, case_sensitive, normalize),
{
    if case_sensitive {
        collect_chars(s, normalize)
    } else {
        let lowered = s.to_lowercase();
        collect_chars(lowered.as_str(), normalize)
    }
}

} // verus!
