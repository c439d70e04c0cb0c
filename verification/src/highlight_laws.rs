//! What holds of the highlighted part of a visual line.

use vstd::prelude::*;

use crate::cell_font::CellFont;
use crate::cursor::Cursor;
use crate::pixel::{zero, PixelMath, Px};
use crate::runs::{cluster_x, RunView, Sweep};
use crate::segmentation::clusters;
use crate::whole_pixels::{law_pixels_keep_the_order, law_whole_undoes_pixels, pixels, whole, LARGEST};

verus! {

/// The clusters of the part of the text that glyph `g` stands for.
pub open spec fn pieces_of(run: RunView, g: int) -> Seq<(usize, usize)> {
    clusters(run.text.subrange(run.glyphs[g].start as int, run.glyphs[g].end as int))
}

/// Whether glyph `g` has a `j`th cluster from the left.
pub open spec fn has_cluster(run: RunView, g: int, j: int) -> bool {
    0 <= g < run.glyphs.len() && 0 <= j < pieces_of(run, g).len()
}

/// First byte, and the byte behind the last one, of the `j`th cluster from the
/// left of glyph `g`. In a glyph from right to left the first cluster of the
/// text is the last one from the left.
pub open spec fn bytes_of(run: RunView, g: int, j: int) -> (int, int) {
    let pieces = pieces_of(run, g);
    let piece = if run.glyphs[g].rtl {
        pieces[pieces.len() - 1 - j]
    } else {
        pieces[j]
    };
    let from = run.glyphs[g].start + piece.0;
    (from, from + piece.1)
}

/// Whether the `j`th cluster of glyph `g` is between two cursors: it ends behind
/// the first one and starts in front of the second one. A cursor on another
/// line sets no limit.
#[verifier::opaque]
pub open spec fn is_picked(run: RunView, start: Cursor, end: Cursor, g: int, j: int) -> bool {
    let (from, to) = bytes_of(run, g, j);
    &&& start.line == run.line_i ==> to > start.index
    &&& end.line == run.line_i ==> from < end.index
}

/// The width that each cluster of glyph `g` has.
pub open spec fn share_in(run: RunView, g: int) -> Px {
    CellFont::quotient(run.glyphs[g].w, CellFont::counted(pieces_of(run, g).len() as usize))
}

/// Left edge of the `j`th cluster of glyph `g`: that of the glyph, and as many
/// shares behind it as there are clusters to the left.
pub open spec fn left_edge(run: RunView, g: int, j: int) -> Px {
    cluster_x::<CellFont>(run.glyphs[g].x, share_in(run, g), j)
}

/// Left edge in pixels.
#[verifier::opaque]
pub open spec fn left_px(run: RunView, g: int, j: int) -> int {
    whole(left_edge(run, g, j))
}

/// Right edge of the `j`th cluster of glyph `g` in pixels.
#[verifier::opaque]
pub open spec fn right_px(run: RunView, g: int, j: int) -> int {
    whole(CellFont::sum(left_edge(run, g, j), share_in(run, g)))
}

/// Whether cluster `i` of glyph `h` is to the left of cluster `j` of glyph `g`.
pub open spec fn is_left_of(h: int, i: int, g: int, j: int) -> bool {
    h < g || (h == g && i < j)
}

/// Whether the clusters stand side by side: each is at least a pixel wide, and
/// none reaches over one further to the right.
pub open spec fn stands_in_order(run: RunView) -> bool {
    &&& forall|g: int, j: int| #[trigger]
        has_cluster(run, g, j) ==> left_edge(run, g, j) == pixels(left_px(run, g, j)) && 0 <= left_px(
            run,
            g,
            j,
        ) < right_px(run, g, j) <= LARGEST
    &&& forall|g: int, j: int, h: int, i: int| #[trigger]
        has_cluster(run, g, j) && #[trigger] has_cluster(run, h, i) && is_left_of(g, j, h, i)
            ==> right_px(run, g, j) <= left_px(run, h, i)
}

/// Whether a span begins at the left edge of a cluster that is between the
/// cursors.
#[verifier::opaque]
pub open spec fn begins_picked(run: RunView, start: Cursor, end: Cursor, left: int) -> bool {
    exists|g: int, j: int| #[trigger]
        has_cluster(run, g, j) && is_picked(run, start, end, g, j) && left == left_px(run, g, j)
}

/// Whether a span ends at the right edge of a cluster that is between the
/// cursors.
#[verifier::opaque]
pub open spec fn ends_picked(run: RunView, start: Cursor, end: Cursor, right: int) -> bool {
    exists|g: int, j: int| #[trigger]
        has_cluster(run, g, j) && is_picked(run, start, end, g, j) && right == right_px(run, g, j)
}

/// Left edge of a span in pixels.
pub open spec fn from_px(span: (Px, Px)) -> int {
    whole(span.0)
}

/// Right edge of a span in pixels: its width behind its left edge.
pub open spec fn to_px(span: (Px, Px)) -> int {
    whole(span.0) + whole(span.1)
}

/// Whether a cluster is within one of the spans.
pub open spec fn is_within(spans: Seq<(Px, Px)>, left: int, right: int) -> bool {
    exists|k: int|
        0 <= k < spans.len() && from_px(#[trigger] spans[k]) <= left && right <= to_px(spans[k])
}

/// Whether the clusters to the left of cluster `j` of glyph `g` have been looked
/// at rightly.
spec fn swept_well(run: RunView, start: Cursor, end: Cursor, sweep: Sweep, g: int, j: int) -> bool {
    &&& forall|k: int|
        0 <= k < sweep.spans.len() ==> from_px(#[trigger] sweep.spans[k]) < to_px(sweep.spans[k])
            && begins_picked(run, start, end, from_px(sweep.spans[k])) && ends_picked(
            run,
            start,
            end,
            to_px(sweep.spans[k]),
        )
    &&& sweep.open matches Some((l, r)) ==> {
        &&& l == pixels(whole(l)) && r == pixels(whole(r))
        &&& 0 <= whole(l) < whole(r) <= LARGEST
        &&& begins_picked(run, start, end, whole(l))
        &&& ends_picked(run, start, end, whole(r))
    }
    &&& forall|h: int, i: int| #[trigger]
        has_cluster(run, h, i) && is_left_of(h, i, g, j) && is_picked(run, start, end, h, i) ==> {
            ||| sweep.open matches Some((l, r)) && whole(l) <= left_px(run, h, i) && right_px(
                run,
                h,
                i,
            ) <= whole(r)
            ||| is_within(sweep.spans, left_px(run, h, i), right_px(run, h, i))
        }
    &&& forall|h: int, i: int, k: int|
        #![trigger has_cluster(run, h, i), sweep.spans[k]]
        has_cluster(run, h, i) && is_left_of(h, i, g, j) && !is_picked(run, start, end, h, i) && 0
            <= k < sweep.spans.len() ==> right_px(run, h, i) <= from_px(sweep.spans[k]) || to_px(
            sweep.spans[k],
        ) <= left_px(run, h, i)
    &&& forall|h: int, i: int| #[trigger]
        has_cluster(run, h, i) && is_left_of(h, i, g, j) && !is_picked(run, start, end, h, i) ==> (
        sweep.open matches Some((l, r)) ==> right_px(run, h, i) <= whole(l))
    &&& forall|h: int, i: int, k: int|
        #![trigger has_cluster(run, h, i), sweep.spans[k]]
        has_cluster(run, h, i) && !is_left_of(h, i, g, j) && 0 <= k < sweep.spans.len() ==> to_px(
            sweep.spans[k],
        ) <= left_px(run, h, i)
    &&& forall|h: int, i: int| #[trigger]
        has_cluster(run, h, i) && !is_left_of(h, i, g, j) ==> (sweep.open matches Some((l, r))
            ==> whole(r) <= left_px(run, h, i))
}

/// Closing the open span keeps what has been looked at.
proof fn lemma_closed(run: RunView, start: Cursor, end: Cursor, sweep: Sweep, g: int, j: int)
    requires
        stands_in_order(run),
        swept_well(run, start, end, sweep, g, j),
    ensures
        swept_well(
            run,
            start,
            end,
            Sweep { spans: sweep.closed::<CellFont>(), open: None },
            g,
            j,
        ),
{
    if let Some((l, r)) = sweep.open {
        let after = sweep.closed::<CellFont>();
        law_whole_undoes_pixels(whole(r) - whole(l));
        law_pixels_keep_the_order(0, whole(r) - whole(l));
        assert(zero() == pixels(0));
        let n = sweep.spans.len() as int;
        assert(after == sweep.spans.push((l, CellFont::difference(r, l))));
        assert(from_px(after[n]) == whole(l) && to_px(after[n]) == whole(r));
        assert forall|h: int, i: int| #[trigger]
            has_cluster(run, h, i) && is_left_of(h, i, g, j) && is_picked(
                run,
                start,
                end,
                h,
                i,
            ) implies is_within(after, left_px(run, h, i), right_px(run, h, i)) by {
            if is_within(sweep.spans, left_px(run, h, i), right_px(run, h, i)) {
                let k = choose|k: int|
                    0 <= k < sweep.spans.len() && from_px(#[trigger] sweep.spans[k]) <= left_px(
                        run,
                        h,
                        i,
                    ) && right_px(run, h, i) <= to_px(sweep.spans[k]);
                assert(after[k] == sweep.spans[k]);
            } else {
                assert(from_px(after[n]) <= left_px(run, h, i));
            }
        }
        assert forall|k: int| 0 <= k < after.len() implies from_px(#[trigger] after[k]) < to_px(
            after[k],
        ) && begins_picked(run, start, end, from_px(after[k])) && ends_picked(
            run,
            start,
            end,
            to_px(after[k]),
        ) by {
            if k < n {
                assert(after[k] == sweep.spans[k]);
            }
        }
        assert forall|h: int, i: int, k: int|
            #![trigger has_cluster(run, h, i), after[k]]
            has_cluster(run, h, i) && is_left_of(h, i, g, j) && !is_picked(run, start, end, h, i) && 0
                <= k < after.len() implies right_px(run, h, i) <= from_px(after[k]) || to_px(after[k])
            <= left_px(run, h, i) by {
            if k < n {
                assert(after[k] == sweep.spans[k]);
            }
        }
        assert forall|h: int, i: int, k: int|
            #![trigger has_cluster(run, h, i), after[k]]
            has_cluster(run, h, i) && !is_left_of(h, i, g, j) && 0 <= k < after.len() implies to_px(
            after[k],
        ) <= left_px(run, h, i) by {
            if k < n {
                assert(after[k] == sweep.spans[k]);
            }
        }
    }
}

/// Looking at one more cluster.
proof fn lemma_one_more(run: RunView, start: Cursor, end: Cursor, sweep: Sweep, g: int, j: int)
    requires
        stands_in_order(run),
        has_cluster(run, g, j),
        swept_well(run, start, end, sweep, g, j),
    ensures
        swept_well(
            run,
            start,
            end,
            sweep.swept::<CellFont>(
                is_picked(run, start, end, g, j),
                left_edge(run, g, j),
                CellFont::sum(left_edge(run, g, j), share_in(run, g)),
            ),
            g,
            j + 1,
        ),
{
    reveal(left_px);
    reveal(right_px);
    reveal(begins_picked);
    reveal(ends_picked);
    let left = left_edge(run, g, j);
    let right = CellFont::sum(left, share_in(run, g));
    let (a, b) = (left_px(run, g, j), right_px(run, g, j));
    law_whole_undoes_pixels(whole(left) + whole(share_in(run, g)));
    assert(right == pixels(b));
    assert(left == pixels(a));
    assert forall|h: int, i: int| #[trigger] has_cluster(run, h, i) implies (is_left_of(
        h,
        i,
        g,
        j + 1,
    ) <==> is_left_of(h, i, g, j) || (h == g && i == j)) by {}
    if is_picked(run, start, end, g, j) {
        let after = sweep.swept::<CellFont>(true, left, right);
        if let Some((l, r)) = sweep.open {
            law_pixels_keep_the_order(a, whole(l));
            law_pixels_keep_the_order(whole(r), b);
            assert(whole(r) <= a);
            assert(after.open == Some((l, right)));
        } else {
            assert(begins_picked(run, start, end, a));
        }
        assert(ends_picked(run, start, end, b));
        assert forall|h: int, i: int| #[trigger]
            has_cluster(run, h, i) && !is_left_of(h, i, g, j + 1) implies b <= left_px(run, h, i) by {
            assert(is_left_of(g, j, h, i));
        }
        assert forall|h: int, i: int| #[trigger]
            has_cluster(run, h, i) && is_left_of(h, i, g, j) implies right_px(run, h, i) <= a by {}
    } else {
        lemma_closed(run, start, end, sweep, g, j);
        let after = Sweep { spans: sweep.closed::<CellFont>(), open: None };
        assert(after == sweep.swept::<CellFont>(false, left, right));
        assert forall|h: int, i: int, k: int|
            #![trigger has_cluster(run, h, i), after.spans[k]]
            has_cluster(run, h, i) && is_left_of(h, i, g, j + 1) && !is_picked(
                run,
                start,
                end,
                h,
                i,
            ) && 0 <= k < after.spans.len() implies right_px(run, h, i) <= from_px(after.spans[k])
            || to_px(after.spans[k]) <= left_px(run, h, i) by {}
    }
}

proof fn lemma_glyph_swept(run: RunView, start: Cursor, end: Cursor, sweep: Sweep, g: int, j: int)
    requires
        stands_in_order(run),
        0 <= g < run.glyphs.len(),
        0 <= j <= pieces_of(run, g).len(),
        swept_well(run, start, end, sweep, g, 0),
    ensures
        swept_well(
            run,
            start,
            end,
            run.sweep_clusters::<CellFont>(sweep, start, end, run.glyphs[g], j),
            g,
            j,
        ),
    decreases j,
{
    if j > 0 {
        lemma_glyph_swept(run, start, end, sweep, g, j - 1);
        assert(has_cluster(run, g, j - 1));
        reveal(is_picked);
        let before = run.sweep_clusters::<CellFont>(sweep, start, end, run.glyphs[g], j - 1);
        lemma_one_more(run, start, end, before, g, j - 1);
        assert(crate::runs::share_of::<CellFont>(run.glyphs[g], pieces_of(run, g).len()) == share_in(
            run,
            g,
        ));
    }
}

proof fn lemma_run_swept(run: RunView, start: Cursor, end: Cursor, g: int)
    requires
        stands_in_order(run),
        0 <= g <= run.glyphs.len(),
    ensures
        swept_well(run, start, end, run.sweep_glyphs::<CellFont>(start, end, g), g, 0),
    decreases g,
{
    if g > 0 {
        lemma_run_swept(run, start, end, g - 1);
        let n = pieces_of(run, g - 1).len() as int;
        let before = run.sweep_glyphs::<CellFont>(start, end, g - 1);
        lemma_glyph_swept(run, start, end, before, g - 1, n);
        assert forall|h: int, i: int| #[trigger] has_cluster(run, h, i) implies (is_left_of(
            h,
            i,
            g,
            0,
        ) <==> is_left_of(h, i, g - 1, n)) by {}
    }
}

/// Where the clusters of a visual line stand side by side, the highlighted spans
/// cover each cluster that is between the cursors, and touch none that is not.
/// Each begins at the left edge of one that is between them and ends at the
/// right edge of one.
pub proof fn law_highlight_covers_what_is_between(run: RunView, start: Cursor, end: Cursor)
    requires
        stands_in_order(run),
        start.line <= run.line_i <= end.line,
    ensures
        ({
            let spans = run.highlighted::<CellFont>(start, end);
            &&& forall|g: int, j: int| #[trigger]
                has_cluster(run, g, j) && is_picked(run, start, end, g, j) ==> is_within(
                    spans,
                    left_px(run, g, j),
                    right_px(run, g, j),
                )
            &&& forall|g: int, j: int, k: int|
                #![trigger has_cluster(run, g, j), spans[k]]
                has_cluster(run, g, j) && !is_picked(run, start, end, g, j) && 0 <= k < spans.len()
                    ==> right_px(run, g, j) <= from_px(spans[k]) || to_px(spans[k]) <= left_px(
                    run,
                    g,
                    j,
                )
            &&& forall|k: int|
                0 <= k < spans.len() ==> from_px(#[trigger] spans[k]) < to_px(spans[k])
                    && begins_picked(run, start, end, from_px(spans[k])) && ends_picked(
                    run,
                    start,
                    end,
                    to_px(spans[k]),
                )
        }),
{
    let n = run.glyphs.len() as int;
    lemma_run_swept(run, start, end, n);
    lemma_closed(run, start, end, run.sweep_glyphs::<CellFont>(start, end, n), n, 0);
    let sweep = run.sweep_glyphs::<CellFont>(start, end, n);
    let spans = run.highlighted::<CellFont>(start, end);
    let done = Sweep { spans: sweep.closed::<CellFont>(), open: None };
    assert(done.spans == spans);
    assert(swept_well(run, start, end, done, n, 0));
    assert forall|g: int, j: int| #[trigger]
        has_cluster(run, g, j) && is_picked(run, start, end, g, j) implies is_within(
        spans,
        left_px(run, g, j),
        right_px(run, g, j),
    ) by {
        assert(is_left_of(g, j, n, 0));
    }
    assert forall|g: int, j: int, k: int|
        #![trigger has_cluster(run, g, j), spans[k]]
        has_cluster(run, g, j) && !is_picked(run, start, end, g, j) && 0 <= k
            < spans.len() implies right_px(run, g, j) <= from_px(spans[k]) || to_px(spans[k]) <= left_px(
        run,
        g,
        j,
    ) by {
        assert(is_left_of(g, j, n, 0));
        assert(done.spans[k] == spans[k]);
    }
    assert forall|k: int| 0 <= k < spans.len() implies from_px(#[trigger] spans[k]) < to_px(spans[k])
        && begins_picked(run, start, end, from_px(spans[k])) && ends_picked(
        run,
        start,
        end,
        to_px(spans[k]),
    ) by {
        assert(done.spans[k] == spans[k]);
    }
}

/// Nothing is highlighted of a visual line that is not on the lines between the
/// cursors.
pub proof fn law_nothing_else_is_highlighted<M: PixelMath>(run: RunView, start: Cursor, end: Cursor)
    requires
        run.line_i < start.line || end.line < run.line_i,
    ensures
        run.highlighted::<M>(start, end).len() == 0,
{
}

/// The clusters that share the width of a glyph stand one share behind the
/// other, the first one at the left edge of the glyph.
pub proof fn law_clusters_share_the_width<M: PixelMath>(x: Px, share: Px, j: int)
    requires
        j >= 0,
    ensures
        cluster_x::<M>(x, share, 0) == x,
        cluster_x::<M>(x, share, j + 1) == M::sum(cluster_x::<M>(x, share, j), share),
{
}

} // verus!
