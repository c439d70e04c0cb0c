//! What holds of where a cursor is shown.

use vstd::prelude::*;

use crate::cursor::{Affinity, Cursor};
use crate::hit::shown_at;
use crate::layout::LayoutGlyph;
use crate::pixel::{zero, PixelMath, Px};
use crate::runs::{glyph_around, glyph_clusters, glyph_ending, pieces_before, RunView};
use crate::segmentation::clusters;

verus! {

/// Whether an index is at the start of a glyph or inside of it.
pub open spec fn is_inside(glyph: LayoutGlyph, index: int) -> bool {
    index == glyph.start || glyph.start < index < glyph.end
}

/// Whether glyph `g` is the first one, from the left, at whose start an index is
/// or inside of which it is.
pub open spec fn is_first_around(run: RunView, index: int, g: int) -> bool {
    &&& 0 <= g < run.glyphs.len()
    &&& is_inside(run.glyphs[g], index)
    &&& forall|k: int| 0 <= k < g ==> !is_inside(#[trigger] run.glyphs[k], index)
}

/// Whether glyph `g` is the first one, from the left, that ends at an index
/// which is at the start of no glyph and inside of none.
pub open spec fn is_first_ending(run: RunView, index: int, g: int) -> bool {
    &&& 0 <= g < run.glyphs.len()
    &&& run.glyphs[g].end == index
    &&& forall|k: int| 0 <= k < g ==> (#[trigger] run.glyphs[k]).end != index
    &&& forall|k: int| 0 <= k < run.glyphs.len() ==> !is_inside(#[trigger] run.glyphs[k], index)
}

proof fn lemma_around(glyphs: Seq<LayoutGlyph>, index: int, i: int)
    requires
        0 <= i <= glyphs.len(),
    ensures
        match glyph_around(glyphs, index, i) {
            Some(g) => {
                &&& i <= g < glyphs.len()
                &&& is_inside(glyphs[g], index)
                &&& forall|k: int| i <= k < g ==> !is_inside(#[trigger] glyphs[k], index)
            },
            None => forall|k: int| i <= k < glyphs.len() ==> !is_inside(#[trigger] glyphs[k], index),
        },
    decreases glyphs.len() - i,
{
    if i < glyphs.len() && !is_inside(glyphs[i], index) {
        lemma_around(glyphs, index, i + 1);
    }
}

proof fn lemma_ending(glyphs: Seq<LayoutGlyph>, index: int, i: int)
    requires
        0 <= i <= glyphs.len(),
    ensures
        match glyph_ending(glyphs, index, i) {
            Some(g) => {
                &&& i <= g < glyphs.len()
                &&& glyphs[g].end == index
                &&& forall|k: int| i <= k < g ==> (#[trigger] glyphs[k]).end != index
            },
            None => forall|k: int| i <= k < glyphs.len() ==> (#[trigger] glyphs[k]).end != index,
        },
    decreases glyphs.len() - i,
{
    if i < glyphs.len() && glyphs[i].end != index {
        lemma_ending(glyphs, index, i + 1);
    }
}

/// Pieces of which the first `m` start in front of `limit`, and no others do,
/// are `m` in front of it.
proof fn lemma_pieces_before(pieces: Seq<(usize, usize)>, limit: int, m: int)
    requires
        0 <= m <= pieces.len(),
        forall|k: int| 0 <= k < m ==> (#[trigger] pieces[k]).0 < limit,
        forall|k: int| m <= k < pieces.len() ==> (#[trigger] pieces[k]).0 >= limit,
    ensures
        pieces_before(pieces, limit) == m,
    decreases pieces.len(),
{
    if pieces.len() > 0 {
        let front = pieces.drop_last();
        assert(pieces.last() == pieces[pieces.len() - 1]);
        lemma_pieces_before(
            front,
            limit,
            if m == pieces.len() {
                m - 1
            } else {
                m
            },
        );
    }
}

/// The distance from the left edge of something that is `offset` into a glyph:
/// counted from the left in a glyph from left to right, and from the right in
/// one from right to left.
pub open spec fn is_into<M: PixelMath>(glyph: LayoutGlyph, offset: Px, x: Px) -> bool {
    &&& !glyph.rtl ==> x == M::sum(glyph.x, offset)
    &&& glyph.rtl ==> x == M::difference(M::sum(glyph.x, glyph.w), offset)
}

/// A cursor at the start of a glyph is shown at the edge at which the glyph
/// begins.
pub proof fn law_cursor_in_front_of_a_glyph<M: PixelMath>(run: RunView, cursor: Cursor, g: int)
    requires
        cursor.line == run.line_i,
        is_first_around(run, cursor.index as int, g),
        run.glyphs.len() <= usize::MAX,
        cursor.index == run.glyphs[g].start,
    ensures
        run.glyph_of::<M>(cursor) == Some((g as usize, zero())),
        run.x_of::<M>(cursor) matches Some(x) && is_into::<M>(run.glyphs[g], zero(), x),
{
    lemma_around(run.glyphs, cursor.index as int, 0);
    assert(is_inside(run.glyphs[g], cursor.index as int));
}

/// A cursor inside of a glyph that stands for `n` clusters, behind `m` of them,
/// is shown `m` of `n` parts of its width into it.
pub proof fn law_cursor_inside_of_a_glyph<M: PixelMath>(
    run: RunView,
    cursor: Cursor,
    g: int,
    m: int,
)
    requires
        cursor.line == run.line_i,
        is_first_around(run, cursor.index as int, g),
        run.glyphs.len() <= usize::MAX,
        run.glyphs[g].start < cursor.index < run.glyphs[g].end,
        ({
            let glyph = run.glyphs[g];
            let pieces = clusters(run.text.subrange(glyph.start as int, glyph.end as int));
            &&& 0 <= m <= pieces.len() <= usize::MAX
            &&& forall|k: int| 0 <= k < m ==> glyph.start + (#[trigger] pieces[k]).0 < cursor.index
            &&& forall|k: int|
                m <= k < pieces.len() ==> glyph.start + (#[trigger] pieces[k]).0 >= cursor.index
        }),
    ensures
        ({
            let glyph = run.glyphs[g];
            let n = clusters(run.text.subrange(glyph.start as int, glyph.end as int)).len();
            let offset = M::quotient(
                M::product(glyph.w, M::counted(m as usize)),
                M::counted(n as usize),
            );
            &&& run.glyph_of::<M>(cursor) == Some((g as usize, offset))
            &&& run.x_of::<M>(cursor) matches Some(x) && is_into::<M>(glyph, offset, x)
        }),
{
    let glyph = run.glyphs[g];
    lemma_around(run.glyphs, cursor.index as int, 0);
    assert(is_inside(run.glyphs[g], cursor.index as int));
    lemma_pieces_before(glyph_clusters(run.text, glyph), cursor.index - glyph.start, m);
}

/// A cursor behind a glyph, with no other glyph there, is shown at the edge at
/// which the glyph ends.
pub proof fn law_cursor_behind_a_glyph<M: PixelMath>(run: RunView, cursor: Cursor, g: int)
    requires
        cursor.line == run.line_i,
        is_first_ending(run, cursor.index as int, g),
        run.glyphs.len() <= usize::MAX,
    ensures
        run.glyph_of::<M>(cursor) == Some((g as usize, run.glyphs[g].w)),
        run.x_of::<M>(cursor) matches Some(x) && is_into::<M>(run.glyphs[g], run.glyphs[g].w, x),
{
    lemma_around(run.glyphs, cursor.index as int, 0);
    lemma_ending(run.glyphs, cursor.index as int, 0);
    assert(run.glyphs[g].end == cursor.index);
}

/// A cursor is on a visual line of its own line if it is at a glyph of it or if
/// there is no glyph at all, and on no other; on an empty one it is at the left
/// edge.
pub proof fn law_cursor_is_on_its_row<M: PixelMath>(run: RunView, cursor: Cursor)
    ensures
        run.x_of::<M>(cursor) is Some <==> run.glyph_of::<M>(cursor) is Some,
        run.x_of::<M>(cursor) is Some <==> cursor.line == run.line_i && (run.glyphs.len() == 0
            || exists|g: int|
            0 <= g < run.glyphs.len() && (is_inside(
                #[trigger] run.glyphs[g],
                cursor.index as int,
            ) || run.glyphs[g].end == cursor.index)),
        cursor.line == run.line_i && run.glyphs.len() == 0 ==> run.x_of::<M>(cursor) == Some(zero()),
{
    lemma_around(run.glyphs, cursor.index as int, 0);
    lemma_ending(run.glyphs, cursor.index as int, 0);
}

/// The view shows a cursor on the first visual line that it is on: at the
/// distance from the left edge that it has there, and at the top of that visual
/// line.
pub proof fn law_cursor_is_shown_on_the_first_row<M: PixelMath>(
    runs: Seq<RunView>,
    cursor: Cursor,
    from: int,
    i: int,
)
    requires
        0 <= from <= i < runs.len(),
        runs[i].x_of::<M>(cursor) is Some,
        forall|k: int| from <= k < i ==> (#[trigger] runs[k]).x_of::<M>(cursor) is None,
    ensures
        shown_at::<M>(runs, cursor, from) == Some(
            (runs[i].x_of::<M>(cursor).unwrap(), runs[i].line_top),
        ),
    decreases i - from,
{
    if from < i {
        assert(runs[from].x_of::<M>(cursor) is None);
        law_cursor_is_shown_on_the_first_row::<M>(runs, cursor, from + 1, i);
    }
}

/// The view does not show a cursor that is on none of its visual lines.
pub proof fn law_cursor_is_not_shown<M: PixelMath>(runs: Seq<RunView>, cursor: Cursor, from: int)
    requires
        0 <= from <= runs.len(),
        forall|k: int| from <= k < runs.len() ==> (#[trigger] runs[k]).x_of::<M>(cursor) is None,
    ensures
        shown_at::<M>(runs, cursor, from) is None,
    decreases runs.len() - from,
{
    if from < runs.len() {
        assert(runs[from].x_of::<M>(cursor) is None);
        law_cursor_is_not_shown::<M>(runs, cursor, from + 1);
    }
}

/// The edges of a glyph are cursors in front of it and behind it. On a line from
/// left to right the left edge is in front of it, on one from right to left the
/// right edge is.
pub proof fn law_cursors_at_the_edges(run: RunView, glyph: LayoutGlyph)
    ensures
        ({
            let (left, right) = (run.left_of(glyph), run.right_of(glyph));
            let (front, back) = if run.rtl {
                (right, left)
            } else {
                (left, right)
            };
            &&& front.line == run.line_i && back.line == run.line_i
            &&& front.index == glyph.start && front.affinity == Affinity::After
            &&& back.index == glyph.end && back.affinity == Affinity::Before
        }),
{
}

} // verus!
