//! Grapheme clusters and words, as the `unicode-segmentation` crate finds them.

use vstd::prelude::*;
use vstd::utf8::*;

use unicode_segmentation::UnicodeSegmentation;

use crate::text::at_boundary;

verus! {

/// First byte and length of each extended grapheme cluster of a text, as
/// `UnicodeSegmentation::grapheme_indices` finds them.
pub uninterp spec fn clusters(b: Seq<u8>) -> Seq<(usize, usize)>;

/// First byte and length of each word of a text, first to last, as
/// `UnicodeSegmentation::unicode_word_indices` finds them.
pub uninterp spec fn words(b: Seq<u8>) -> Seq<(usize, usize)>;

/// First byte of each word of a text, last to first, as
/// `UnicodeSegmentation::unicode_word_indices` finds them from the back.
pub uninterp spec fn word_starts_back(b: Seq<u8>) -> Seq<usize>;

/// Whether the pieces `p` cut a text of `n` bytes into parts that are not
/// empty, without a gap.
pub open spec fn tiles(p: Seq<(usize, usize)>, n: int) -> bool {
    &&& p.len() == 0 <==> n == 0
    &&& p.len() > 0 ==> p[0].0 == 0 && p.last().0 + p.last().1 == n
    &&& forall|i: int| 0 <= i < p.len() ==> (#[trigger] p[i]).1 > 0 && p[i].0 + p[i].1 <= n
    &&& forall|i: int| 0 <= i < p.len() - 1 ==> #[trigger] meets(p, i)
}

/// Whether piece `i` ends where the next one starts.
pub open spec fn meets(p: Seq<(usize, usize)>, i: int) -> bool {
    p[i].0 + p[i].1 == p[i + 1].0
}

/// Calls `UnicodeSegmentation::grapheme_indices` for extended clusters. The
/// clusters are contiguous and cover the text, none is empty, and each starts
/// between two characters.
#[verifier::external_body]
pub(crate) fn cluster_indices(s: &str) -> (r: Vec<(usize, usize)>)
    ensures
        r@ == clusters(encode_utf8(s@)),
        tiles(r@, encode_utf8(s@).len() as int),
        forall|i: int| 0 <= i < r@.len() ==> at_boundary(encode_utf8(s@), (#[trigger] r@[i]).0 as int),
{
    s.grapheme_indices(true).map(|(i, c)| (i, c.len())).collect()
}

/// Calls `UnicodeSegmentation::unicode_word_indices` and walks it forward. A
/// word starts and ends between two characters of the text.
#[verifier::external_body]
pub(crate) fn word_indices(s: &str) -> (r: Vec<(usize, usize)>)
    ensures
        r@ == words(encode_utf8(s@)),
        forall|i: int|
            0 <= i < r@.len() ==> at_boundary(encode_utf8(s@), (#[trigger] r@[i]).0 as int)
                && at_boundary(encode_utf8(s@), r@[i].0 + r@[i].1),
{
    s.unicode_word_indices().map(|(i, w)| (i, w.len())).collect()
}

/// Calls `UnicodeSegmentation::unicode_word_indices` and walks it from the
/// back. A word starts between two characters of the text.
#[verifier::external_body]
pub(crate) fn word_indices_back(s: &str) -> (r: Vec<usize>)
    ensures
        r@ == word_starts_back(encode_utf8(s@)),
        forall|i: int| 0 <= i < r@.len() ==> at_boundary(encode_utf8(s@), (#[trigger] r@[i]) as int),
{
    s.unicode_word_indices().rev().map(|(i, _)| i).collect()
}

} // verus!
