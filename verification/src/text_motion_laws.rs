//! What holds of motions through the text.

use vstd::prelude::*;

use crate::buffer::Page;
use crate::cursor::{Affinity, Cursor, Motion};
use crate::motion::{
    blank_at, end_of_piece, first_below, first_end, first_ink, last_start, moved,
};
use crate::pixel::{PixelMath, Px};
use crate::segmentation::{clusters, meets, tiles, word_starts_back, words};

verus! {

/// Whether `a` is behind `b` in the text.
pub open spec fn is_behind(a: Cursor, b: Cursor) -> bool {
    a.line > b.line || (a.line == b.line && a.index > b.index)
}

/// Whether a cursor is at the end of the last line, or behind it.
pub open spec fn is_at_the_end(page: Page, cursor: Cursor) -> bool {
    cursor.line == page.texts.len() - 1 && cursor.index >= page.texts[cursor.line as int].len()
}

proof fn lemma_end_of_piece(pieces: Seq<(usize, usize)>, index: int, from: int)
    requires
        0 <= from <= pieces.len(),
    ensures
        match end_of_piece(pieces, index, from) {
            Some(end) => exists|k: int|
                {
                    &&& from <= k < pieces.len()
                    &&& (#[trigger] pieces[k]).0 == index
                    &&& end == pieces[k].0 + pieces[k].1
                },
            None => forall|k: int| from <= k < pieces.len() ==> (#[trigger] pieces[k]).0 != index,
        },
    decreases pieces.len() - from,
{
    if from < pieces.len() && pieces[from].0 != index {
        lemma_end_of_piece(pieces, index, from + 1);
    }
}

proof fn lemma_last_start(pieces: Seq<(usize, usize)>, limit: int)
    ensures
        ({
            let r = last_start(pieces, limit);
            ||| exists|k: int|
                {
                    &&& 0 <= k < pieces.len()
                    &&& (#[trigger] pieces[k]).0 == r
                    &&& r < limit
                    &&& forall|j: int| k < j < pieces.len() ==> (#[trigger] pieces[j]).0 >= limit
                }
            ||| r == 0 && forall|k: int|
                0 <= k < pieces.len() ==> (#[trigger] pieces[k]).0 >= limit
        }),
    decreases pieces.len(),
{
    if pieces.len() > 0 {
        let front = pieces.drop_last();
        if pieces.last().0 < limit {
            assert(pieces[pieces.len() - 1].0 == last_start(pieces, limit));
        } else {
            lemma_last_start(front, limit);
            let r = last_start(front, limit);
            if exists|k: int|
                {
                    &&& 0 <= k < front.len()
                    &&& (#[trigger] front[k]).0 == r
                    &&& r < limit
                    &&& forall|j: int| k < j < front.len() ==> (#[trigger] front[j]).0 >= limit
                } {
                let k = choose|k: int|
                    {
                        &&& 0 <= k < front.len()
                        &&& (#[trigger] front[k]).0 == r
                        &&& r < limit
                        &&& forall|j: int| k < j < front.len() ==> (#[trigger] front[j]).0 >= limit
                    };
                assert(pieces[k].0 == r);
                assert forall|j: int| k < j < pieces.len() implies (#[trigger] pieces[j]).0 >= limit by {
                    if j < front.len() {
                        assert(front[j] == pieces[j]);
                    }
                }
            } else {
                assert forall|j: int| 0 <= j < pieces.len() implies (#[trigger] pieces[j]).0 >= limit by {
                    if j < front.len() {
                        assert(front[j] == pieces[j]);
                    }
                }
            }
        }
    }
}

proof fn lemma_first_end(pieces: Seq<(usize, usize)>, index: int, from: int)
    requires
        0 <= from <= pieces.len(),
    ensures
        match first_end(pieces, index, from) {
            Some(end) => exists|k: int|
                {
                    &&& from <= k < pieces.len()
                    &&& end == (#[trigger] pieces[k]).0 + pieces[k].1
                    &&& end > index
                    &&& forall|j: int|
                        from <= j < k ==> (#[trigger] pieces[j]).0 + pieces[j].1 <= index
                },
            None => forall|j: int|
                from <= j < pieces.len() ==> (#[trigger] pieces[j]).0 + pieces[j].1 <= index,
        },
    decreases pieces.len() - from,
{
    if from < pieces.len() && pieces[from].0 + pieces[from].1 <= index {
        lemma_first_end(pieces, index, from + 1);
    }
}

proof fn lemma_first_below(starts: Seq<usize>, limit: int, from: int)
    requires
        0 <= from <= starts.len(),
    ensures
        ({
            let r = first_below(starts, limit, from);
            ||| exists|k: int|
                {
                    &&& from <= k < starts.len()
                    &&& #[trigger] starts[k] == r
                    &&& r < limit
                    &&& forall|j: int| from <= j < k ==> #[trigger] starts[j] >= limit
                }
            ||| r == 0 && forall|k: int| from <= k < starts.len() ==> #[trigger] starts[k] >= limit
        }),
    decreases starts.len() - from,
{
    if from < starts.len() {
        if starts[from] < limit {
            assert(starts[from] == first_below(starts, limit, from));
        } else {
            lemma_first_below(starts, limit, from + 1);
        }
    }
}

/// Going one cluster forth leads to the end of the cluster that starts at the
/// cursor. From the end of a line it leads to the start of the next line, and
/// at the very end it stays. No column is kept to.
pub proof fn law_next_passes_one_cluster<M: PixelMath>(
    page: Page,
    height_opt: Option<Px>,
    line_height: Px,
    cursor: Cursor,
    x_opt: Option<i32>,
)
    requires
        cursor.line < page.texts.len() <= usize::MAX,
        page.texts[cursor.line as int].len() <= usize::MAX,
        tiles(clusters(page.texts[cursor.line as int]), page.texts[cursor.line as int].len() as int),
    ensures
        ({
            let text = page.texts[cursor.line as int];
            let pieces = clusters(text);
            &&& moved::<M>(
                page,
                height_opt,
                line_height,
                cursor,
                x_opt,
                Motion::Next,
            ) matches Some((there, x)) && {
                &&& x is None
                &&& forall|k: int|
                    0 <= k < pieces.len() && (#[trigger] pieces[k]).0 == cursor.index ==> there == (
                    Cursor {
                        line: cursor.line,
                        index: (pieces[k].0 + pieces[k].1) as usize,
                        affinity: Affinity::Before,
                    }) && there.index > cursor.index
                &&& cursor.index >= text.len() && cursor.line + 1 < page.texts.len() ==> there == (
                Cursor {
                    line: (cursor.line + 1) as usize,
                    index: 0,
                    affinity: Affinity::Before,
                })
                &&& is_at_the_end(page, cursor) ==> there == cursor
            }
        }),
{
    let text = page.texts[cursor.line as int];
    let pieces = clusters(text);
    let n = text.len() as int;
    lemma_end_of_piece(pieces, cursor.index as int, 0);
    assert forall|k: int|
        0 <= k < pieces.len() && (#[trigger] pieces[k]).0 == cursor.index implies cursor.index < n
        && end_of_piece(pieces, cursor.index as int, 0) == Some(pieces[k].0 + pieces[k].1) by {
        let end = end_of_piece(pieces, cursor.index as int, 0).unwrap();
        let j = choose|j: int|
            {
                &&& 0 <= j < pieces.len()
                &&& (#[trigger] pieces[j]).0 == cursor.index
                &&& end == pieces[j].0 + pieces[j].1
            };
        if j < k {
            lemma_in_order(pieces, n, j, k);
        } else if k < j {
            lemma_in_order(pieces, n, k, j);
        }
    }
}

/// Pieces without gaps start one behind the other.
proof fn lemma_in_order(pieces: Seq<(usize, usize)>, n: int, i: int, k: int)
    requires
        tiles(pieces, n),
        0 <= i < k < pieces.len(),
    ensures
        pieces[i].0 < pieces[k].0,
    decreases k - i,
{
    assert(meets(pieces, i));
    assert(pieces[i].1 > 0);
    if i + 1 < k {
        lemma_in_order(pieces, n, i + 1, k);
    }
}

/// Going one cluster back leads to the start of the cluster in front of the
/// cursor: the nearest start of a cluster there is. From the start of a line it
/// leads to the end of the line in front of it, and at the very start it stays.
/// No column is kept to.
pub proof fn law_previous_passes_one_cluster<M: PixelMath>(
    page: Page,
    height_opt: Option<Px>,
    line_height: Px,
    cursor: Cursor,
    x_opt: Option<i32>,
)
    requires
        cursor.line < page.texts.len(),
        tiles(clusters(page.texts[cursor.line as int]), page.texts[cursor.line as int].len() as int),
        cursor.index <= page.texts[cursor.line as int].len(),
    ensures
        ({
            let pieces = clusters(page.texts[cursor.line as int]);
            &&& moved::<M>(
                page,
                height_opt,
                line_height,
                cursor,
                x_opt,
                Motion::Previous,
            ) matches Some((there, x)) && {
                &&& x is None
                &&& cursor.index > 0 ==> {
                    &&& there.line == cursor.line
                    &&& there.index < cursor.index
                    &&& there.affinity == Affinity::After
                    &&& exists|k: int|
                        0 <= k < pieces.len() && (#[trigger] pieces[k]).0 == there.index
                    &&& forall|k: int|
                        0 <= k < pieces.len() ==> !(there.index < (#[trigger] pieces[k]).0
                            < cursor.index)
                }
                &&& cursor.index == 0 && cursor.line > 0 ==> there == (Cursor {
                    line: (cursor.line - 1) as usize,
                    index: page.texts[cursor.line - 1].len() as usize,
                    affinity: Affinity::After,
                })
                &&& cursor.index == 0 && cursor.line == 0 ==> there == cursor
            }
        }),
{
    let text = page.texts[cursor.line as int];
    let pieces = clusters(text);
    if cursor.index > 0 {
        let r = last_start(pieces, cursor.index as int);
        lemma_last_start(pieces, cursor.index as int);
        assert(pieces[0].0 == 0);
        let k = choose|k: int|
            {
                &&& 0 <= k < pieces.len()
                &&& (#[trigger] pieces[k]).0 == r
                &&& r < cursor.index
                &&& forall|j: int| k < j < pieces.len() ==> (#[trigger] pieces[j]).0 >= cursor.index
            };
        assert(pieces[k].0 == r);
        assert forall|j: int| 0 <= j < pieces.len() implies !(r < (#[trigger] pieces[j]).0
            < cursor.index) by {
            if j < k {
                lemma_in_order(pieces, text.len() as int, j, k);
            }
        }
    }
}

/// Going one word forth leads to an end of a word behind the cursor, with none
/// in front of it in the row of words that is; to the end of the line if no word
/// ends behind the cursor. From the end of a line it leads to the start of the
/// next line, and at the very end it stays. No column is kept to.
pub proof fn law_next_word_ends_a_word<M: PixelMath>(
    page: Page,
    height_opt: Option<Px>,
    line_height: Px,
    cursor: Cursor,
    x_opt: Option<i32>,
)
    requires
        cursor.line < page.texts.len() <= usize::MAX,
        page.texts[cursor.line as int].len() <= usize::MAX,
        forall|k: int|
            0 <= k < words(page.texts[cursor.line as int]).len() ==> (#[trigger] words(
                page.texts[cursor.line as int],
            )[k]).0 + words(page.texts[cursor.line as int])[k].1 <= page.texts[cursor.line as int].len(),
    ensures
        ({
            let text = page.texts[cursor.line as int];
            let pieces = words(text);
            &&& moved::<M>(
                page,
                height_opt,
                line_height,
                cursor,
                x_opt,
                Motion::NextWord,
            ) matches Some((there, x)) && {
                &&& x is None
                &&& there.affinity == cursor.affinity
                &&& !is_at_the_end(page, cursor) ==> is_behind(there, cursor)
                &&& is_at_the_end(page, cursor) ==> there == cursor
                &&& cursor.index < text.len() ==> {
                    &&& there.line == cursor.line
                    &&& there.index <= text.len()
                    &&& there.index == text.len() || exists|k: int|
                        0 <= k < pieces.len() && (#[trigger] pieces[k]).0 + pieces[k].1 == there.index
                    &&& forall|k: int|
                        0 <= k < pieces.len() && (#[trigger] pieces[k]).0 + pieces[k].1
                            > cursor.index ==> exists|j: int|
                            0 <= j <= k && (#[trigger] pieces[j]).0 + pieces[j].1 == there.index
                }
                &&& cursor.index >= text.len() && cursor.line + 1 < page.texts.len() ==> there.line
                    == cursor.line + 1 && there.index == 0
            }
        }),
{
    let text = page.texts[cursor.line as int];
    let pieces = words(text);
    lemma_first_end(pieces, cursor.index as int, 0);
    if cursor.index < text.len() {
        if let Some(end) = first_end(pieces, cursor.index as int, 0) {
            let m = choose|k: int|
                {
                    &&& 0 <= k < pieces.len()
                    &&& end == (#[trigger] pieces[k]).0 + pieces[k].1
                    &&& end > cursor.index
                    &&& forall|j: int|
                        0 <= j < k ==> (#[trigger] pieces[j]).0 + pieces[j].1 <= cursor.index
                };
            assert(pieces[m].0 + pieces[m].1 == end);
            assert forall|k: int|
                0 <= k < pieces.len() && (#[trigger] pieces[k]).0 + pieces[k].1
                    > cursor.index implies exists|j: int|
                0 <= j <= k && (#[trigger] pieces[j]).0 + pieces[j].1 == end by {
                assert(m <= k);
                assert(pieces[m].0 + pieces[m].1 == end);
            }
        }
    }
}

/// Going one word back leads to a start of a word in front of the cursor, with
/// none in front of it in the row of words from the back; to the start of the
/// line if no word starts there. From the start of a line it leads to the end
/// of the line in front of it, and at the very start it stays. No column is
/// kept to.
pub proof fn law_previous_word_starts_a_word<M: PixelMath>(
    page: Page,
    height_opt: Option<Px>,
    line_height: Px,
    cursor: Cursor,
    x_opt: Option<i32>,
)
    requires
        cursor.line < page.texts.len(),
        cursor.line > 0 ==> page.texts[cursor.line - 1].len() <= usize::MAX,
    ensures
        ({
            let starts = word_starts_back(page.texts[cursor.line as int]);
            &&& moved::<M>(
                page,
                height_opt,
                line_height,
                cursor,
                x_opt,
                Motion::PreviousWord,
            ) matches Some((there, x)) && {
                &&& x is None
                &&& there.affinity == cursor.affinity
                &&& cursor.line > 0 || cursor.index > 0 ==> is_behind(cursor, there)
                &&& cursor.line == 0 && cursor.index == 0 ==> there == cursor
                &&& cursor.index > 0 ==> {
                    &&& there.line == cursor.line
                    &&& there.index == 0 || exists|k: int|
                        0 <= k < starts.len() && #[trigger] starts[k] == there.index
                    &&& forall|k: int|
                        0 <= k < starts.len() && #[trigger] starts[k] < cursor.index ==> exists|j: int|
                            0 <= j <= k && #[trigger] starts[j] == there.index
                }
                &&& cursor.index == 0 && cursor.line > 0 ==> there.line == cursor.line - 1
                    && there.index == page.texts[cursor.line - 1].len()
            }
        }),
{
    let starts = word_starts_back(page.texts[cursor.line as int]);
    if cursor.index > 0 {
        let r = first_below(starts, cursor.index as int, 0);
        lemma_first_below(starts, cursor.index as int, 0);
        if exists|k: int| 0 <= k < starts.len() && #[trigger] starts[k] < cursor.index {
            let m = choose|k: int|
                {
                    &&& 0 <= k < starts.len()
                    &&& #[trigger] starts[k] == r
                    &&& r < cursor.index
                    &&& forall|j: int| 0 <= j < k ==> #[trigger] starts[j] >= cursor.index
                };
            assert(starts[m] == r);
            assert forall|k: int|
                0 <= k < starts.len() && #[trigger] starts[k] < cursor.index implies exists|j: int|
                0 <= j <= k && #[trigger] starts[j] == r by {
                assert(m <= k);
                assert(starts[m] == r);
            }
        }
    }
}

/// Motions to the start and to the end of a line stay on the line, and those to
/// the start and to the end of the text lead to its first and to its last line.
/// The affinity stays, and no column is kept to.
pub proof fn law_motions_to_the_ends<M: PixelMath>(
    page: Page,
    height_opt: Option<Px>,
    line_height: Px,
    cursor: Cursor,
    x_opt: Option<i32>,
    motion: Motion,
)
    requires
        cursor.line < page.texts.len() <= usize::MAX,
        forall|l: int| 0 <= l < page.texts.len() ==> (#[trigger] page.texts[l]).len() <= usize::MAX,
        motion is Home || motion is ParagraphStart || motion is End || motion is ParagraphEnd
            || motion is BufferStart || motion is BufferEnd,
    ensures
        moved::<M>(page, height_opt, line_height, cursor, x_opt, motion) matches Some((there, x)) && {
            &&& x is None
            &&& there.affinity == cursor.affinity
            &&& motion is Home || motion is ParagraphStart ==> there.line == cursor.line
                && there.index == 0
            &&& motion is End || motion is ParagraphEnd ==> there.line == cursor.line && there.index
                == page.texts[cursor.line as int].len()
            &&& motion is BufferStart ==> there.line == 0 && there.index == 0
            &&& motion is BufferEnd ==> there.line == page.texts.len() - 1 && there.index
                == page.texts[page.texts.len() - 1].len()
        },
{
    assert(page.texts[cursor.line as int].len() <= usize::MAX);
    assert(page.texts[page.texts.len() - 1].len() <= usize::MAX);
}

/// Whether there is white space, character by character, from `i` up to `to`.
pub open spec fn is_blank_up_to(text: Seq<u8>, i: int, to: int) -> bool
    decreases to - i,
{
    if i >= to || blank_at(text, i) <= 0 || i + blank_at(text, i) > to {
        i == to
    } else {
        is_blank_up_to(text, i + blank_at(text, i), to)
    }
}

proof fn lemma_first_ink(text: Seq<u8>, i: int)
    requires
        0 <= i <= text.len(),
    ensures
        ({
            let r = first_ink(text, i);
            ||| i <= r < text.len() && is_blank_up_to(text, i, r) && blank_at(text, r) == 0
            ||| r == 0 && is_blank_up_to(text, i, text.len() as int)
        }),
    decreases text.len() - i,
{
    if i < text.len() && blank_at(text, i) > 0 {
        lemma_first_ink(text, i + blank_at(text, i));
    }
}

/// The motion to the first ink of a line leads to where the white space at its
/// start ends; to the start of a line that has nothing but white space.
pub proof fn law_soft_home_skips_the_blanks<M: PixelMath>(
    page: Page,
    height_opt: Option<Px>,
    line_height: Px,
    cursor: Cursor,
    x_opt: Option<i32>,
)
    requires
        cursor.line < page.texts.len(),
        page.texts[cursor.line as int].len() <= usize::MAX,
    ensures
        ({
            let text = page.texts[cursor.line as int];
            &&& moved::<M>(
                page,
                height_opt,
                line_height,
                cursor,
                x_opt,
                Motion::SoftHome,
            ) matches Some((there, x)) && {
                &&& x is None
                &&& there.line == cursor.line
                &&& there.affinity == cursor.affinity
                &&& there.index < text.len() && is_blank_up_to(text, 0, there.index as int)
                    && blank_at(text, there.index as int) == 0 || there.index == 0 && is_blank_up_to(
                    text,
                    0,
                    text.len() as int,
                )
            }
        }),
{
    lemma_first_ink(page.texts[cursor.line as int], 0);
}

/// White space is: the controls from TAB to CR, the space, NEL, the no-break
/// space, the Ogham space mark, the spaces from U+2000 to U+200A, the line and
/// the paragraph separator, the narrow no-break space, the medium mathematical
/// space and the ideographic space. Nothing else is.
pub proof fn law_blanks_are_white_space(b: Seq<u8>, i: int)
    requires
        0 <= i < b.len(),
    ensures
        blank_at(b, i) == 1 <==> 0x09 <= b[i] <= 0x0d || b[i] == 0x20,
        blank_at(b, i) == 2 <==> i + 1 < b.len() && b[i] == 0xc2 && (b[i + 1] == 0x85 || b[i + 1]
            == 0xa0),
        blank_at(b, i) == 3 <==> i + 2 < b.len() && {
            ||| b[i] == 0xe1 && b[i + 1] == 0x9a && b[i + 2] == 0x80
            ||| b[i] == 0xe2 && b[i + 1] == 0x80 && 0x80 <= b[i + 2] <= 0x8a
            ||| b[i] == 0xe2 && b[i + 1] == 0x80 && (b[i + 2] == 0xa8 || b[i + 2] == 0xa9)
            ||| b[i] == 0xe2 && b[i + 1] == 0x80 && b[i + 2] == 0xaf
            ||| b[i] == 0xe2 && b[i + 1] == 0x81 && b[i + 2] == 0x9f
            ||| b[i] == 0xe3 && b[i + 1] == 0x80 && b[i + 2] == 0x80
        },
        0 <= blank_at(b, i) <= 3,
{
}

} // verus!
