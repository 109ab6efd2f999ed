//! Grapheme-cluster and word segmentation, provided by the `unicode-segmentation` crate.
use vstd::prelude::*;
use unicode_segmentation::UnicodeSegmentation;
use crate::text::{is_utf8_boundary, utf8_len};

verus! {

/// Byte offset of the last extended grapheme cluster of `s`, as found by
/// `UnicodeSegmentation::grapheme_indices(true)` iterated from the back.
pub uninterp spec fn last_grapheme_start(s: Seq<char>) -> Option<usize>;

/// Byte offset of the second extended grapheme cluster of `s`, as found by
/// `UnicodeSegmentation::grapheme_indices(true)` iterated from the front.
pub uninterp spec fn second_grapheme_start(s: Seq<char>) -> Option<usize>;

/// The words of `s` found by `UnicodeSegmentation::unicode_word_indices`, each as
/// its byte offset and its length in bytes.
pub uninterp spec fn word_spans(s: Seq<char>) -> Seq<(usize, usize)>;

/// `s.grapheme_indices(true).next_back()`, keeping the offset.
///
/// Trusted: the iterator yields consecutive non-empty slices of `s` cut at character
/// boundaries, so the last one exists exactly when `s` is non-empty and starts at a
/// character boundary strictly inside `s`. Which boundary that is depends on `s`
/// alone and is left unstated (`last_grapheme_start`).
#[verifier::external_body]
pub fn grapheme_last_start(s: &str) -> (r: Option<usize>)
    ensures
        r == last_grapheme_start(s@),
        r is None <==> s@.len() == 0,
        r matches Some(i) ==> i < utf8_len(s@) && is_utf8_boundary(s@, i as int),
{
    s.grapheme_indices(true).next_back().map(|(i, _)| i)
}

/// `s.grapheme_indices(true).nth(1)`, keeping the offset.
///
/// Trusted: the first cluster starts at offset 0 and clusters are non-empty and cut at
/// character boundaries, so a second one starts at a boundary strictly inside `s`
/// after offset 0. Which boundary, and whether there is one, depends on `s` alone and
/// is left unstated (`second_grapheme_start`).
#[verifier::external_body]
pub fn grapheme_second_start(s: &str) -> (r: Option<usize>)
    ensures
        r == second_grapheme_start(s@),
        s@.len() == 0 ==> r is None,
        r matches Some(i) ==> 0 < i < utf8_len(s@) && is_utf8_boundary(s@, i as int),
{
    s.grapheme_indices(true).nth(1).map(|(i, _)| i)
}

/// `s.unicode_word_indices()`, each word given by its offset and byte length.
///
/// Trusted: the words are slices of `s` taken from consecutive word-boundary segments,
/// in order; each contains an alphanumeric character (so it is non-empty) and both of
/// its ends are character boundaries. Which words are found depends on `s` alone and
/// is left unstated (`word_spans`).
#[verifier::external_body]
pub fn word_indices(s: &str) -> (r: Vec<(usize, usize)>)
    ensures
        r@ == word_spans(s@),
        forall|i: int|
            0 <= i < r@.len() ==> {
                &&& (#[trigger] r@[i]).1 > 0
                &&& r@[i].0 + r@[i].1 <= utf8_len(s@)
                &&& is_utf8_boundary(s@, r@[i].0 as int)
                &&& is_utf8_boundary(s@, r@[i].0 + r@[i].1)
            },
        forall|i: int, j: int|
            0 <= i < j < r@.len() ==> #[trigger] r@[i].0 + r@[i].1 <= #[trigger] r@[j].0,
{
    let mut v = Vec::new();
    for (i, w) in s.unicode_word_indices() {
        v.push((i, w.len()));
    }
    v
}

} // verus!
