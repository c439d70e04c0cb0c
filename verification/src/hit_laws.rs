//! What holds of the cursor at a point of the view.

use vstd::prelude::*;

use crate::cell_font::CellFont;
use crate::cursor::{Affinity, Cursor};
use crate::hit::{byte_at, cluster_at, glyph_at, hit_from, last_end};
use crate::layout::LayoutGlyph;
use crate::pixel::{zero, PixelMath, Px};
use crate::run_laws::lemma_two;
use crate::runs::{cluster_x, glyph_clusters, RunView};
use crate::segmentation::{clusters, tiles};
use crate::whole_pixels::{law_pixels_keep_the_order, law_whole_undoes_pixels, pixels, whole, LARGEST};

verus! {

/// Whether `x` is on a glyph, its edges taken in.
pub open spec fn is_over<M: PixelMath>(glyph: LayoutGlyph, x: Px) -> bool {
    glyph.x.le(x) && x.le(M::sum(glyph.x, glyph.w))
}

/// Whether glyph `g` of a visual line is the first one, from the left, that `x`
/// is on.
pub open spec fn is_first_over<M: PixelMath>(run: RunView, x: Px, g: int) -> bool {
    &&& 0 <= g < run.glyphs.len()
    &&& is_over::<M>(run.glyphs[g], x)
    &&& forall|k: int| 0 <= k < g ==> !is_over::<M>(#[trigger] run.glyphs[k], x)
}

/// Whether `x`, which is on no glyph, is on the side of the visual line at which
/// it begins.
pub open spec fn is_in_front(run: RunView, x: Px) -> bool {
    run.glyphs.len() > 0 && if run.rtl {
        run.glyphs[0].x.lt(x)
    } else {
        x.lt(zero())
    }
}

/// Whether a cluster of the part of `text` that a glyph stands for starts at
/// `index`; the glyph starts one in any case.
pub open spec fn starts_cluster(text: Seq<u8>, glyph: LayoutGlyph, index: int) -> bool {
    let pieces = clusters(text.subrange(glyph.start as int, glyph.end as int));
    index == glyph.start || exists|j: int|
        0 <= j < pieces.len() && glyph.start + (#[trigger] pieces[j]).0 == index
}

/// Whether a cluster of the part of `text` that a glyph stands for ends at
/// `index`; the glyph ends one in any case.
pub open spec fn ends_cluster(text: Seq<u8>, glyph: LayoutGlyph, index: int) -> bool {
    let pieces = clusters(text.subrange(glyph.start as int, glyph.end as int));
    index == glyph.end || exists|j: int|
        0 <= j < pieces.len() && glyph.start + (#[trigger] pieces[j]).0 + pieces[j].1 == index
}

/// Whether a cursor is at `x` on a visual line: on the glyph that `x` is on, or
/// at the side of the visual line that `x` is at.
pub open spec fn is_at<M: PixelMath>(run: RunView, x: Px, cursor: Cursor) -> bool {
    &&& cursor.line == run.line_i
    &&& forall|g: int| #[trigger]
        is_first_over::<M>(run, x, g) ==> {
            let glyph = run.glyphs[g];
            &&& glyph.start <= cursor.index <= glyph.end
            &&& cursor.affinity == Affinity::After ==> starts_cluster(
                run.text,
                glyph,
                cursor.index as int,
            )
            &&& cursor.affinity == Affinity::Before ==> ends_cluster(
                run.text,
                glyph,
                cursor.index as int,
            )
        }
    &&& (forall|g: int| 0 <= g < run.glyphs.len() ==> !is_over::<M>(#[trigger] run.glyphs[g], x))
        ==> {
        &&& is_in_front(run, x) ==> cursor.index == run.glyphs[0].start && cursor.affinity
            == Affinity::After
        &&& !is_in_front(run, x) ==> cursor.affinity == Affinity::Before
        &&& !is_in_front(run, x) && run.glyphs.len() > 0 ==> {
            &&& exists|g: int|
                0 <= g < run.glyphs.len() && (#[trigger] run.glyphs[g]).end == cursor.index
            &&& forall|g: int|
                0 <= g < run.glyphs.len() ==> (#[trigger] run.glyphs[g]).end <= cursor.index
        }
        &&& run.glyphs.len() == 0 ==> cursor.index == 0
    }
}

/// Whether `y` is on a visual line: at its top or below, and above its bottom.
pub open spec fn is_beside<M: PixelMath>(run: RunView, y: Px) -> bool {
    run.line_top.le(y) && y.lt(M::sum(run.line_top, run.line_height))
}

/// The glyph that is found is the first one that `x` is on.
proof fn lemma_glyph_at<M: PixelMath>(glyphs: Seq<LayoutGlyph>, x: Px, i: int)
    requires
        0 <= i <= glyphs.len(),
    ensures
        match glyph_at::<M>(glyphs, x, i) {
            Some(g) => {
                &&& i <= g < glyphs.len()
                &&& is_over::<M>(glyphs[g], x)
                &&& forall|k: int| i <= k < g ==> !is_over::<M>(#[trigger] glyphs[k], x)
            },
            None => forall|k: int|
                i <= k < glyphs.len() ==> !is_over::<M>(#[trigger] glyphs[k], x),
        },
    decreases glyphs.len() - i,
{
    if i < glyphs.len() && !is_over::<M>(glyphs[i], x) {
        lemma_glyph_at::<M>(glyphs, x, i + 1);
    }
}

/// The last end is that of a glyph, and none ends behind it.
proof fn lemma_last_end(glyphs: Seq<LayoutGlyph>)
    ensures
        glyphs.len() == 0 ==> last_end(glyphs) == 0,
        glyphs.len() > 0 ==> exists|g: int|
            0 <= g < glyphs.len() && (#[trigger] glyphs[g]).end == last_end(glyphs),
        forall|g: int| 0 <= g < glyphs.len() ==> (#[trigger] glyphs[g]).end <= last_end(glyphs),
    decreases glyphs.len(),
{
    if glyphs.len() > 0 {
        let front = glyphs.drop_last();
        lemma_last_end(front);
        assert forall|g: int| 0 <= g < glyphs.len() implies (#[trigger] glyphs[g]).end <= last_end(
            glyphs,
        ) by {
            if g < glyphs.len() - 1 {
                assert(front[g] == glyphs[g]);
            }
        }
        if glyphs.last().end > last_end(front) || front.len() == 0 {
            assert(glyphs[glyphs.len() - 1].end == last_end(glyphs));
        } else {
            let g = choose|g: int|
                0 <= g < front.len() && (#[trigger] front[g]).end == last_end(front);
            assert(glyphs[g].end == last_end(glyphs));
        }
    }
}

/// The cluster that is found is one of the glyph.
proof fn lemma_cluster_at<M: PixelMath>(glyph: LayoutGlyph, n: int, share: Px, x: Px, j: int)
    requires
        0 <= j <= n,
    ensures
        match cluster_at::<M>(glyph, n, share, x, j) {
            Some(k) => j <= k < n,
            None => true,
        },
    decreases n - j,
{
    if j < n {
        lemma_cluster_at::<M>(glyph, n, share, x, j + 1);
    }
}

/// The cursor at `x` on a visual line is on the glyph that `x` is on. If there
/// is none it is at the start of the first glyph, in front of it, and behind
/// the glyph that ends last otherwise. The clusters of each glyph are without
/// gaps.
pub proof fn law_cursor_is_where_x_is<M: PixelMath>(run: RunView, x: Px)
    requires
        run.wf(),
        forall|g: int|
            0 <= g < run.glyphs.len() ==> tiles(
                clusters(
                    run.text.subrange((#[trigger] run.glyphs[g]).start as int, run.glyphs[g].end as int),
                ),
                run.glyphs[g].end - run.glyphs[g].start,
            ),
    ensures
        is_at::<M>(run, x, run.cursor_at::<M>(x)),
{
    let cursor = run.cursor_at::<M>(x);
    lemma_glyph_at::<M>(run.glyphs, x, 0);
    lemma_last_end(run.glyphs);
    assert forall|g: int| #[trigger] is_first_over::<M>(run, x, g) implies {
        let glyph = run.glyphs[g];
        &&& glyph.start <= cursor.index <= glyph.end
        &&& cursor.affinity == Affinity::After ==> starts_cluster(
            run.text,
            glyph,
            cursor.index as int,
        )
        &&& cursor.affinity == Affinity::Before ==> ends_cluster(
            run.text,
            glyph,
            cursor.index as int,
        )
    } by {
        let glyph = run.glyphs[g];
        let found = glyph_at::<M>(run.glyphs, x, 0);
        assert(is_over::<M>(run.glyphs[g], x));
        assert(found == Some(g));
        let pieces = glyph_clusters(run.text, glyph);
        let share = M::quotient(glyph.w, M::counted(pieces.len() as usize));
        lemma_cluster_at::<M>(glyph, pieces.len() as int, share, x, 0);
        if let Some(j) = cluster_at::<M>(glyph, pieces.len() as int, share, x, 0) {
            assert(pieces[j].0 + pieces[j].1 <= glyph.end - glyph.start);
            assert(glyph.start + pieces[j].0 <= glyph.end);
        }
    }
}

/// Neither is `y` both above something and at its top or below.
proof fn lemma_not_both(y: Px, top: Px)
    ensures
        !(y.lt(top) && top.le(y)),
{
}

/// What the visual lines from `i` on come to if `y` is on none of them.
proof fn lemma_beside_none<M: PixelMath>(
    runs: Seq<RunView>,
    i: int,
    first: bool,
    found: Option<Cursor>,
    x: Px,
    y: Px,
    at: int,
)
    requires
        0 <= i <= at <= runs.len(),
        forall|k: int| i <= k < at ==> !is_beside::<M>(#[trigger] runs[k], y),
        first ==> forall|k: int| i <= k < at ==> !y.lt((#[trigger] runs[k]).line_top),
        at == runs.len() && i < at ==> !runs.last().line_y.lt(y),
    ensures
        hit_from::<M>(runs, i, first, found, x, y) == hit_from::<M>(runs, at, first, found, x, y),
    decreases at - i,
{
    if i < at {
        assert(!is_beside::<M>(runs[i], y));
        lemma_beside_none::<M>(runs, i + 1, first, found, x, y, at);
    }
}

/// Up to visual line `at` nothing is hit but, perhaps, a visual line that is
/// below the point.
proof fn lemma_up_to<M: PixelMath>(
    runs: Seq<RunView>,
    i: int,
    first: bool,
    found: Option<Cursor>,
    x: Px,
    y: Px,
    at: int,
) -> (r: (bool, Option<Cursor>))
    requires
        0 <= i <= at < runs.len(),
        forall|k: int| i <= k < at ==> !is_beside::<M>(#[trigger] runs[k], y),
    ensures
        hit_from::<M>(runs, i, first, found, x, y) == hit_from::<M>(runs, at, r.0, r.1, x, y),
    decreases at - i,
{
    if i < at {
        let run = runs[i];
        assert(!is_beside::<M>(run, y));
        if first && y.lt(run.line_top) {
            lemma_up_to::<M>(
                runs,
                i + 1,
                false,
                Some(Cursor { line: run.line_i, index: 0, affinity: Affinity::Before }),
                x,
                y,
                at,
            )
        } else {
            lemma_up_to::<M>(runs, i + 1, first, found, x, y, at)
        }
    } else {
        (first, found)
    }
}

/// A point that is on a visual line is at a cursor of that visual line: of the
/// first one that it is on, at its `x`.
pub proof fn law_hit_is_on_the_row<M: PixelMath>(runs: Seq<RunView>, x: Px, y: Px, i: int)
    requires
        0 <= i < runs.len(),
        is_beside::<M>(runs[i], y),
        forall|k: int| 0 <= k < i ==> !is_beside::<M>(#[trigger] runs[k], y),
        runs[i].wf(),
        forall|g: int|
            0 <= g < runs[i].glyphs.len() ==> tiles(
                clusters(
                    runs[i].text.subrange(
                        (#[trigger] runs[i].glyphs[g]).start as int,
                        runs[i].glyphs[g].end as int,
                    ),
                ),
                runs[i].glyphs[g].end - runs[i].glyphs[g].start,
            ),
    ensures
        hit_from::<M>(runs, 0, true, None, x, y) matches Some(cursor) && is_at::<M>(
            runs[i],
            x,
            cursor,
        ),
        hit_from::<M>(runs, 0, true, None, x, y) == Some(runs[i].cursor_at::<M>(x)),
{
    let (first, found) = lemma_up_to::<M>(runs, 0, true, None, x, y, i);
    lemma_not_both(y, runs[i].line_top);
    law_cursor_is_where_x_is::<M>(runs[i], x);
    assert(hit_from::<M>(runs, i, first, found, x, y) == Some(runs[i].cursor_at::<M>(x)));
}

/// A point that is on no visual line and above visual line `i`, but not above
/// the ones in front of that, is at the start of the line of visual line `i`,
/// unless it is below the baseline of the last one.
pub proof fn law_hit_above_is_the_start<M: PixelMath>(runs: Seq<RunView>, x: Px, y: Px, i: int)
    requires
        0 <= i < runs.len(),
        y.lt(runs[i].line_top),
        forall|k: int| 0 <= k < i ==> !y.lt((#[trigger] runs[k]).line_top),
        forall|k: int| 0 <= k < runs.len() ==> !is_beside::<M>(#[trigger] runs[k], y),
        i + 1 < runs.len() ==> !runs.last().line_y.lt(y),
    ensures
        hit_from::<M>(runs, 0, true, None, x, y) == Some(
            Cursor { line: runs[i].line_i, index: 0, affinity: Affinity::Before },
        ),
{
    let start = Some(Cursor { line: runs[i].line_i, index: 0, affinity: Affinity::Before });
    lemma_beside_none::<M>(runs, 0, true, None, x, y, i);
    assert(hit_from::<M>(runs, i, true, None, x, y) == hit_from::<M>(
        runs,
        i + 1,
        false,
        start,
        x,
        y,
    ));
    lemma_beside_none::<M>(runs, i + 1, false, start, x, y, runs.len() as int);
}

/// A point below the baseline of the last visual line that is on no visual line,
/// and above none, is at the end of the text of the last line.
pub proof fn law_hit_below_is_the_end<M: PixelMath>(runs: Seq<RunView>, x: Px, y: Px)
    requires
        runs.len() > 0,
        runs.last().line_y.lt(y),
        forall|k: int| 0 <= k < runs.len() ==> !y.lt((#[trigger] runs[k]).line_top),
        forall|k: int| 0 <= k < runs.len() ==> !is_beside::<M>(#[trigger] runs[k], y),
    ensures
        hit_from::<M>(runs, 0, true, None, x, y) == Some(
            Cursor {
                line: runs.last().line_i,
                index: runs.last().text.len() as usize,
                affinity: Affinity::Before,
            },
        ),
{
    let at = runs.len() - 1;
    lemma_beside_none::<M>(runs, 0, true, None, x, y, at);
    assert(!is_beside::<M>(runs[at], y));
}

/// A point that is on no visual line, above none, and not below the baseline of
/// the last one is at no cursor; so is every point where nothing is shown.
pub proof fn law_hit_of_nothing<M: PixelMath>(runs: Seq<RunView>, x: Px, y: Px)
    requires
        runs.len() > 0 ==> !runs.last().line_y.lt(y),
        forall|k: int| 0 <= k < runs.len() ==> !y.lt((#[trigger] runs[k]).line_top),
        forall|k: int| 0 <= k < runs.len() ==> !is_beside::<M>(#[trigger] runs[k], y),
    ensures
        hit_from::<M>(runs, 0, true, None, x, y) is None,
{
    lemma_beside_none::<M>(runs, 0, true, None, x, y, runs.len() as int);
}

/// Where the clusters that share the width of a glyph begin, in pixels.
proof fn lemma_cluster_x(glyph: LayoutGlyph, share: Px, s: int, j: int)
    requires
        glyph.x == pixels(whole(glyph.x)),
        share == pixels(s),
        0 <= s <= LARGEST,
        0 <= j,
        0 <= whole(glyph.x),
        whole(glyph.x) + j * s <= LARGEST,
    ensures
        cluster_x::<CellFont>(glyph.x, share, j) == pixels(whole(glyph.x) + j * s),
    decreases j,
{
    law_whole_undoes_pixels(s);
    if j > 0 {
        assert((j - 1) * s + s == j * s) by (nonlinear_arith);
        assert((j - 1) * s >= 0) by (nonlinear_arith)
            requires
                j > 0,
                s >= 0,
        ;
        lemma_cluster_x(glyph, share, s, j - 1);
        law_whole_undoes_pixels(whole(glyph.x) + (j - 1) * s);
    } else {
        assert(0 * s == 0) by (nonlinear_arith);
    }
}

/// The cluster in whose share of the width a point is.
proof fn lemma_in_share(glyph: LayoutGlyph, n: int, share: Px, s: int, x: Px, j: int, from: int)
    requires
        glyph.x == pixels(whole(glyph.x)),
        x == pixels(whole(x)),
        share == pixels(s),
        0 < s <= LARGEST,
        0 <= from <= j < n,
        0 <= whole(glyph.x),
        whole(glyph.x) + n * s <= LARGEST,
        whole(glyph.x) + j * s < whole(x) < whole(glyph.x) + (j + 1) * s,
    ensures
        cluster_at::<CellFont>(glyph, n, share, x, from) == Some(j),
    decreases j - from,
{
    let gx = whole(glyph.x);
    assert((j + 1) * s <= n * s && (from + 1) * s <= n * s && 0 <= from * s <= n * s) by (nonlinear_arith)
        requires
            0 <= from <= j < n,
            s > 0,
    ;
    assert((from + 1) * s == from * s + s) by (nonlinear_arith);
    assert(0 <= j * s) by (nonlinear_arith)
        requires
            0 <= j,
            s > 0,
    ;
    lemma_cluster_x(glyph, share, s, from);
    law_whole_undoes_pixels(gx + from * s);
    law_whole_undoes_pixels(s);
    law_pixels_keep_the_order(gx + from * s, whole(x));
    law_pixels_keep_the_order(whole(x), gx + (from + 1) * s);
    if from < j {
        assert((from + 1) * s <= j * s) by (nonlinear_arith)
            requires
                from < j,
                s > 0,
        ;
        lemma_in_share(glyph, n, share, s, x, j, from + 1);
    }
}

/// Where the width of a glyph is shared out evenly, a point within the share of
/// a cluster is at the start of that cluster, or at its end, whichever is
/// nearer: in a glyph from left to right the start is on the left, in one from
/// right to left it is on the right. `s` is the width of a share.
pub proof fn law_hit_goes_to_the_nearer_edge(run: RunView, x: Px, g: int, j: int, s: int)
    requires
        is_first_over::<CellFont>(run, x, g),
        ({
            let glyph = run.glyphs[g];
            let pieces = clusters(run.text.subrange(glyph.start as int, glyph.end as int));
            &&& glyph.x == pixels(whole(glyph.x))
            &&& x == pixels(whole(x))
            &&& tiles(pieces, glyph.end - glyph.start)
            &&& 0 <= j < pieces.len() <= LARGEST
            &&& s > 0
            &&& whole(glyph.w) == pieces.len() * s
            &&& 0 <= whole(glyph.x)
            &&& whole(glyph.x) + pieces.len() * s <= LARGEST
            &&& whole(glyph.x) + j * s < whole(x) < whole(glyph.x) + (j + 1) * s
        }),
    ensures
        ({
            let glyph = run.glyphs[g];
            let piece = clusters(run.text.subrange(glyph.start as int, glyph.end as int))[j];
            let on_the_right = whole(x) - (whole(glyph.x) + j * s) >= s / 2;
            let cursor = run.cursor_at::<CellFont>(x);
            if on_the_right != glyph.rtl {
                cursor.index == glyph.start + piece.0 + piece.1 && cursor.affinity
                    == Affinity::Before
            } else {
                cursor.index == glyph.start + piece.0 && cursor.affinity == Affinity::After
            }
        }),
{
    let glyph = run.glyphs[g];
    let pieces = clusters(run.text.subrange(glyph.start as int, glyph.end as int));
    let n = pieces.len() as int;
    let gx = whole(glyph.x);
    lemma_glyph_at::<CellFont>(run.glyphs, x, 0);
    assert(is_over::<CellFont>(run.glyphs[g], x));
    assert(glyph_at::<CellFont>(run.glyphs, x, 0) == Some(g));
    law_whole_undoes_pixels(n);
    assert((n * s) / n == s && n * s >= 0 && s <= n * s) by (nonlinear_arith)
        requires
            n > 0,
            s > 0,
    ;
    let share = CellFont::quotient(glyph.w, CellFont::counted(pieces.len() as usize));
    assert(share == pixels(s));
    lemma_in_share(glyph, n, share, s, x, j, 0);
    assert((j + 1) * s == j * s + s && 0 <= j * s && (j + 1) * s <= n * s) by (nonlinear_arith)
        requires
            0 <= j < n,
            s > 0,
    ;
    lemma_cluster_x(glyph, share, s, j);
    law_whole_undoes_pixels(gx + j * s);
    law_whole_undoes_pixels(s);
    lemma_two();
    law_whole_undoes_pixels(s / 2);
    law_pixels_keep_the_order(gx + j * s + s / 2, whole(x));
    assert(pieces[j].0 + pieces[j].1 <= glyph.end - glyph.start);
}

} // verus!
