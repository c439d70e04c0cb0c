//! Cutting a text into paragraphs at the characters that separate them.

use vstd::prelude::*;
use vstd::utf8::*;

use crate::text::{at_boundary, lemma_after_ascii, lemma_next_boundary};

verus! {

/// Number of bytes of the paragraph separator at position `i` of `b`; 0 if
/// there is none. Separators are LF, CR, FS, GS, RS, NEL and PS.
pub open spec fn separator_at(b: Seq<u8>, i: int) -> int {
    if i < 0 || i >= b.len() {
        0
    } else if b[i] == 0x0a || b[i] == 0x0d || 0x1c <= b[i] <= 0x1e {
        1
    } else if i + 1 < b.len() && b[i] == 0xc2 && b[i + 1] == 0x85 {
        2
    } else if i + 2 < b.len() && b[i] == 0xe2 && b[i + 1] == 0x80 && b[i + 2] == 0xa9 {
        3
    } else {
        0
    }
}

/// The first position of `b`, from `i` on, with a separator; the end if there
/// is none.
pub open spec fn next_separator(b: Seq<u8>, i: int) -> int
    decreases b.len() - i,
{
    if i >= b.len() {
        b.len() as int
    } else if separator_at(b, i) > 0 {
        i
    } else {
        next_separator(b, i + 1)
    }
}

/// Start and end of each paragraph of `b` from position `i` on, separators
/// left out. There is none behind a separator at the end.
pub open spec fn paragraphs(b: Seq<u8>, i: int) -> Seq<(int, int)>
    decreases b.len() - i,
{
    if i < 0 || i >= b.len() {
        seq![]
    } else {
        proof {
            lemma_next_separator(b, i);
        }
        let j = next_separator(b, i);
        if j >= b.len() {
            seq![(i, b.len() as int)]
        } else {
            seq![(i, j)] + paragraphs(b, j + separator_at(b, j))
        }
    }
}

/// A separator is found at or behind the position from which it is looked for.
pub proof fn lemma_next_separator(b: Seq<u8>, i: int)
    requires
        0 <= i <= b.len(),
    ensures
        i <= next_separator(b, i) <= b.len(),
        next_separator(b, i) < b.len() ==> separator_at(b, next_separator(b, i)) > 0,
        forall|k: int| i <= k < next_separator(b, i) ==> #[trigger] separator_at(b, k) == 0,
    decreases b.len() - i,
{
    if i < b.len() && separator_at(b, i) == 0 {
        lemma_next_separator(b, i + 1);
    }
}

/// A separator begins and ends between two characters.
pub proof fn lemma_separator_boundary(b: Seq<u8>, i: int)
    requires
        valid_utf8(b),
        separator_at(b, i) > 0,
    ensures
        at_boundary(b, i),
        at_boundary(b, i + separator_at(b, i)),
{
    if separator_at(b, i) == 1 {
        lemma_after_ascii(b, i);
    } else {
        lemma_next_boundary(b, i);
    }
}

/// Paragraphs lie within the text, one behind the other, and begin and end
/// between two characters.
pub proof fn lemma_paragraphs(b: Seq<u8>, i: int)
    requires
        valid_utf8(b),
        at_boundary(b, i),
    ensures
        paragraphs(b, i).len() <= b.len() - i,
        paragraphs(b, i).len() == 0 <==> i == b.len(),
        forall|k: int|
            0 <= k < paragraphs(b, i).len() ==> i <= (#[trigger] paragraphs(b, i)[k]).0
                <= paragraphs(b, i)[k].1 <= b.len() && at_boundary(b, paragraphs(b, i)[k].0)
                && at_boundary(b, paragraphs(b, i)[k].1),
        forall|k: int, l: int|
            0 <= k < l < paragraphs(b, i).len() ==> (#[trigger] paragraphs(b, i)[k]).1 < (
            #[trigger] paragraphs(b, i)[l]).0,
    decreases b.len() - i,
{
    if i < b.len() {
        let all = paragraphs(b, i);
        let j = next_separator(b, i);
        lemma_next_separator(b, i);
        if j < b.len() {
            lemma_separator_boundary(b, j);
            let next = j + separator_at(b, j);
            let rest = paragraphs(b, next);
            lemma_paragraphs(b, next);
            assert forall|k: int| 0 <= k < all.len() implies i <= (#[trigger] all[k]).0 <= all[k].1
                <= b.len() && at_boundary(b, all[k].0) && at_boundary(b, all[k].1) by {
                if k > 0 {
                    assert(all[k] == rest[k - 1]);
                }
            }
            assert forall|k: int, l: int| 0 <= k < l < all.len() implies (#[trigger] all[k]).1 < (
            #[trigger] all[l]).0 by {
                assert(all[l] == rest[l - 1]);
                if k > 0 {
                    assert(all[k] == rest[k - 1]);
                }
            }
        }
    }
}

/// Number of bytes of the separator at position `i`.
fn separator_len(bytes: &[u8], i: usize) -> (r: usize)
    requires
        i < bytes@.len(),
    ensures
        r == separator_at(bytes@, i as int),
        i + r <= bytes@.len(),
{
    let a = bytes[i];
    if a == 0x0a || a == 0x0d || (0x1c <= a && a <= 0x1e) {
        1
    } else if bytes.len() - i >= 2 && a == 0xc2 && bytes[i + 1] == 0x85 {
        2
    } else if bytes.len() - i >= 3 && a == 0xe2 && bytes[i + 1] == 0x80 && bytes[i + 2] == 0xa9 {
        3
    } else {
        0
    }
}

/// Finds the paragraphs of a text.
pub fn find_paragraphs(text: &str) -> (r: Vec<(usize, usize)>)
    ensures
        r@.len() == paragraphs(encode_utf8(text@), 0).len(),
        forall|k: int|
            0 <= k < r@.len() ==> ((#[trigger] r@[k]).0 as int, r@[k].1 as int) == paragraphs(
                encode_utf8(text@),
                0,
            )[k],
{
    let bytes = text.as_bytes();
    let ghost b = encode_utf8(text@);
    let ghost all = paragraphs(b, 0);
    let mut r: Vec<(usize, usize)> = Vec::new();
    let mut start: usize = 0;
    assert(all.skip(0) =~= all);
    while start < bytes.len()
        invariant
            bytes@ == b,
            all == paragraphs(b, 0),
            start <= bytes@.len(),
            r@.len() <= all.len(),
            paragraphs(b, start as int) == all.skip(r@.len() as int),
            forall|k: int|
                0 <= k < r@.len() ==> ((#[trigger] r@[k]).0 as int, r@[k].1 as int) == all[k],
        decreases bytes@.len() - start,
    {
        let mut end: usize = start;
        proof {
            lemma_next_separator(b, start as int);
        }
        let mut n = separator_len(bytes, end);
        while n == 0 && end < bytes.len()
            invariant
                bytes@ == b,
                start <= end <= bytes@.len(),
                n == separator_at(b, end as int),
                end + n <= bytes@.len(),
                next_separator(b, start as int) == next_separator(b, end as int),
            decreases bytes@.len() - end,
        {
            end = end + 1;
            n = if end < bytes.len() {
                separator_len(bytes, end)
            } else {
                0
            };
        }
        proof {
            let rest = all.skip(r@.len() as int);
            assert(rest == paragraphs(b, start as int));
            assert(rest.len() >= 1);
            assert(rest[0] == all[r@.len() as int]);
            if end < b.len() {
                assert(rest.skip(1) =~= paragraphs(b, end + n));
            } else {
                assert(rest.skip(1) =~= seq![]);
            }
            assert(rest.skip(1) =~= all.skip((r@.len() + 1) as int));
        }
        r.push((start, end));
        start = end + n;
    }
    r
}

} // verus!
