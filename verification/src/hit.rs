//! Which position of the text a point of the view is at, and the other way
//! round.

use vstd::prelude::*;
use vstd::utf8::*;

use crate::buffer::Buffer;
use crate::cursor::{Affinity, Cursor};
use crate::layout::LayoutGlyph;
use crate::pixel::{two, zero, PixelMath, Px};
use crate::run_iter::{law_runs_show_lines_of_the_text, lemma_count_fits, run_views};
use crate::runs::{cluster_x, glyph_clusters, LayoutRun, RunView};
use crate::segmentation::{cluster_indices, meets, tiles};
use crate::text::{at_boundary, byte_len, lemma_first_byte, slice_str};

verus! {

/// Whether `x` is between the edges of something at `left` that is `width`
/// wide.
pub open spec fn spans<M: PixelMath>(x: Px, left: Px, width: Px) -> bool {
    left.le(x) && x.le(M::sum(left, width))
}

/// Whether `x` is in the right half of something at `left` that is `width`
/// wide.
pub open spec fn in_right_half<M: PixelMath>(x: Px, left: Px, width: Px) -> bool {
    M::sum(left, M::quotient(width, two())).le(x)
}

/// The first glyph, from `i` on, that `x` is on.
pub open spec fn glyph_at<M: PixelMath>(glyphs: Seq<LayoutGlyph>, x: Px, i: int) -> Option<int>
    decreases glyphs.len() - i,
{
    if i < 0 || i >= glyphs.len() {
        None
    } else if spans::<M>(x, glyphs[i].x, glyphs[i].w) {
        Some(i)
    } else {
        glyph_at::<M>(glyphs, x, i + 1)
    }
}

/// The first of the `n` clusters of a glyph, from `j` on, that `x` is on.
pub open spec fn cluster_at<M: PixelMath>(glyph: LayoutGlyph, n: int, share: Px, x: Px, j: int) -> Option<
    int,
>
    decreases n - j,
{
    if j < 0 || j >= n {
        None
    } else if spans::<M>(x, cluster_x::<M>(glyph.x, share, j), share) {
        Some(j)
    } else {
        cluster_at::<M>(glyph, n, share, x, j + 1)
    }
}

/// The byte within a glyph that `x` is nearest to, and the affinity there. A
/// point in the half of a cluster at which the cluster ends is behind it.
pub open spec fn byte_at<M: PixelMath>(text: Seq<u8>, glyph: LayoutGlyph, x: Px) -> (int, Affinity) {
    let pieces = glyph_clusters(text, glyph);
    let share = M::quotient(glyph.w, M::counted(pieces.len() as usize));
    match cluster_at::<M>(glyph, pieces.len() as int, share, x, 0) {
        Some(j) => if in_right_half::<M>(x, cluster_x::<M>(glyph.x, share, j), share) != glyph.rtl {
            (pieces[j].0 + pieces[j].1, Affinity::Before)
        } else {
            (pieces[j].0 as int, Affinity::After)
        },
        None => if in_right_half::<M>(x, glyph.x, glyph.w) != glyph.rtl {
            (glyph.end - glyph.start, Affinity::Before)
        } else {
            (0, Affinity::After)
        },
    }
}

/// The last end of a glyph.
pub open spec fn last_end(glyphs: Seq<LayoutGlyph>) -> usize
    decreases glyphs.len(),
{
    if glyphs.len() == 0 {
        0
    } else {
        let rest = last_end(glyphs.drop_last());
        if glyphs.last().end > rest {
            glyphs.last().end
        } else {
            rest
        }
    }
}

impl RunView {
    /// The cursor at `x` on the visual line. In front of the first glyph it is
    /// the start of that glyph; behind the last one it is the end of the
    /// visual line.
    pub open spec fn cursor_at<M: PixelMath>(self, x: Px) -> Cursor {
        match glyph_at::<M>(self.glyphs, x, 0) {
            Some(i) => {
                let (byte, affinity) = byte_at::<M>(self.text, self.glyphs[i], x);
                Cursor {
                    line: self.line_i,
                    index: (self.glyphs[i].start + byte) as usize,
                    affinity,
                }
            },
            None => if self.glyphs.len() > 0 && ((self.rtl && self.glyphs[0].x.lt(x)) || (!self.rtl
                && x.lt(zero()))) {
                Cursor {
                    line: self.line_i,
                    index: self.glyphs[0].start,
                    affinity: Affinity::After,
                }
            } else {
                Cursor {
                    line: self.line_i,
                    index: last_end(self.glyphs),
                    affinity: Affinity::Before,
                }
            },
        }
    }

    /// Whether `y` is on the visual line.
    pub open spec fn has_y<M: PixelMath>(self, y: Px) -> bool {
        self.line_top.le(y) && y.lt(M::sum(self.line_top, self.line_height))
    }
}

/// The cursor at a point of the view, by the visual lines from `i` on. A point
/// above the first visual line is at its start, one below the last visual line
/// is at the end of the text of its line. `first` tells whether no visual line
/// has been found to be below the point, and `found` is the cursor so far.
pub open spec fn hit_from<M: PixelMath>(
    runs: Seq<RunView>,
    i: int,
    first: bool,
    found: Option<Cursor>,
    x: Px,
    y: Px,
) -> Option<Cursor>
    decreases runs.len() - i,
{
    if i < 0 || i >= runs.len() {
        found
    } else {
        let run = runs[i];
        if first && y.lt(run.line_top) {
            hit_from::<M>(
                runs,
                i + 1,
                false,
                Some(Cursor { line: run.line_i, index: 0, affinity: Affinity::Before }),
                x,
                y,
            )
        } else if run.has_y::<M>(y) {
            Some(run.cursor_at::<M>(x))
        } else if i + 1 == runs.len() && run.line_y.lt(y) {
            Some(
                Cursor {
                    line: run.line_i,
                    index: run.text.len() as usize,
                    affinity: Affinity::Before,
                },
            )
        } else {
            hit_from::<M>(runs, i + 1, first, found, x, y)
        }
    }
}

/// A boundary of a part of a text is one of the text.
proof fn lemma_part_boundary(text: Seq<u8>, from: int, to: int, i: int)
    requires
        0 <= from <= to <= text.len(),
        at_boundary(text, to),
        at_boundary(text.subrange(from, to), i),
    ensures
        at_boundary(text, from + i),
{
    if i < to - from {
        assert(text.subrange(from, to)[i] == text[from + i]);
    }
}

/// Finds the byte within a glyph that `x` is nearest to.
fn find_byte<M: PixelMath>(text: &str, glyph: &LayoutGlyph, x: Px) -> (r: (usize, Affinity))
    requires
        glyph.start <= glyph.end,
        at_boundary(encode_utf8(text@), glyph.start as int),
        at_boundary(encode_utf8(text@), glyph.end as int),
    ensures
        (r.0 as int, r.1) == byte_at::<M>(encode_utf8(text@), *glyph, x),
        glyph.start + r.0 <= glyph.end,
        at_boundary(encode_utf8(text@), glyph.start + r.0),
{
    let cluster = slice_str(text, glyph.start, glyph.end);
    let ghost part = encode_utf8(cluster@);
    let pieces = cluster_indices(cluster);
    let ghost n = pieces@.len() as int;
    let share = M::over(glyph.w, M::count(pieces.len()));
    let mut left = glyph.x;
    let mut j: usize = 0;
    while j < pieces.len()
        invariant
            n == pieces@.len(),
            glyph.start <= glyph.end,
            at_boundary(encode_utf8(text@), glyph.end as int),
            part == encode_utf8(text@).subrange(glyph.start as int, glyph.end as int),
            forall|k: int|
                0 <= k < pieces@.len() ==> at_boundary(part, (#[trigger] pieces@[k]).0 as int),
            pieces@ == glyph_clusters(encode_utf8(text@), *glyph),
            tiles(pieces@, glyph.end - glyph.start),
            share == M::quotient(glyph.w, M::counted(pieces@.len() as usize)),
            j <= pieces@.len(),
            left == cluster_x::<M>(glyph.x, share, j as int),
            cluster_at::<M>(*glyph, n, share, x, 0) == cluster_at::<M>(
                *glyph,
                n,
                share,
                x,
                j as int,
            ),
        decreases pieces@.len() - j,
    {
        if left.at_most(x) && x.at_most(M::plus(left, share)) {
            let (at, len) = pieces[j];
            assert(pieces@[j as int].0 + pieces@[j as int].1 <= glyph.end - glyph.start);
            proof {
                assert(at_boundary(part, pieces@[j as int].0 as int));
                if j + 1 < pieces@.len() {
                    assert(meets(pieces@, j as int));
                    assert(at_boundary(part, pieces@[j + 1].0 as int));
                }
                lemma_part_boundary(
                    encode_utf8(text@),
                    glyph.start as int,
                    glyph.end as int,
                    at as int,
                );
                lemma_part_boundary(
                    encode_utf8(text@),
                    glyph.start as int,
                    glyph.end as int,
                    at + len,
                );
            }
            let right_half = M::plus(left, M::over(share, Px { bits: 0x4000_0000 })).at_most(x);
            return if right_half != glyph.rtl {
                (at + len, Affinity::Before)
            } else {
                (at, Affinity::After)
            };
        }
        left = M::plus(left, share);
        j = j + 1;
    }
    let right_half = M::plus(glyph.x, M::over(glyph.w, Px { bits: 0x4000_0000 })).at_most(x);
    if right_half != glyph.rtl {
        (glyph.end - glyph.start, Affinity::Before)
    } else {
        (0, Affinity::After)
    }
}

/// Finds the last end of a glyph.
fn find_last_end(glyphs: &[LayoutGlyph]) -> (r: usize)
    ensures
        r == last_end(glyphs@),
        r == 0 || exists|k: int| 0 <= k < glyphs@.len() && r == (#[trigger] glyphs@[k]).end,
{
    let mut r: usize = 0;
    let mut i: usize = 0;
    while i < glyphs.len()
        invariant
            i <= glyphs@.len(),
            r == last_end(glyphs@.take(i as int)),
            r == 0 || exists|k: int| 0 <= k < glyphs@.len() && r == (#[trigger] glyphs@[k]).end,
        decreases glyphs@.len() - i,
    {
        proof {
            assert(glyphs@.take(i + 1).drop_last() =~= glyphs@.take(i as int));
            assert(glyphs@.take(i + 1).last() == glyphs@[i as int]);
        }
        if glyphs[i].end > r {
            r = glyphs[i].end;
            assert(r == glyphs@[i as int].end);
        }
        i = i + 1;
    }
    assert(glyphs@.take(i as int) =~= glyphs@);
    r
}

/// Finds the cursor at `x` on a visual line.
fn find_cursor_at<M: PixelMath>(run: &LayoutRun, x: Px) -> (r: Cursor)
    requires
        run@.wf(),
    ensures
        r == run@.cursor_at::<M>(x),
        r.line == run.line_i,
        at_boundary(run@.text, r.index as int),
{
    proof {
        encode_utf8_valid_utf8(run.text@);
        lemma_first_byte(run@.text);
    }
    let mut i: usize = 0;
    while i < run.glyphs.len()
        invariant
            run@.wf(),
            at_boundary(run@.text, 0),
            i <= run.glyphs@.len(),
            glyph_at::<M>(run.glyphs@, x, 0) == glyph_at::<M>(run.glyphs@, x, i as int),
        decreases run.glyphs@.len() - i,
    {
        let glyph = run.glyphs[i];
        if glyph.x.at_most(x) && x.at_most(M::plus(glyph.x, glyph.w)) {
            let (byte, affinity) = find_byte::<M>(run.text, &glyph, x);
            return Cursor::new_with_affinity(run.line_i, glyph.start + byte, affinity);
        }
        i = i + 1;
    }
    if run.glyphs.len() > 0 {
        let glyph = run.glyphs[0];
        if (run.rtl && glyph.x.less(x)) || (!run.rtl && x.less(Px::nothing())) {
            return Cursor::new_with_affinity(run.line_i, glyph.start, Affinity::After);
        }
    }
    Cursor::new_with_affinity(run.line_i, find_last_end(run.glyphs), Affinity::Before)
}

/// Where the first of `runs`, from `i` on, that a cursor is on shows it: the
/// distance from the left edge and the top of the visual line.
pub open spec fn shown_at<M: PixelMath>(runs: Seq<RunView>, cursor: Cursor, i: int) -> Option<(Px, Px)>
    decreases runs.len() - i,
{
    if i < 0 || i >= runs.len() {
        None
    } else {
        match runs[i].x_of::<M>(cursor) {
            Some(x) => Some((x, runs[i].line_top)),
            None => shown_at::<M>(runs, cursor, i + 1),
        }
    }
}

impl Buffer {
    /// Finds the cursor at a point of the view. The view should be brought up
    /// to date first.
    pub fn hit<M: PixelMath>(&self, x: Px, y: Px) -> (r: Option<Cursor>)
        requires
            self.wf(),
        ensures
            r == hit_from::<M>(self.runs::<M>(), 0, true, None, x, y),
            r matches Some(cursor) ==> self.store.holds(cursor),
    {
        let runs = self.visible_runs::<M>();
        let ghost views = run_views(runs@);
        proof {
            lemma_count_fits(self);
        }
        let mut found: Option<Cursor> = None;
        let mut first = true;
        let mut i: usize = 0;
        while i < runs.len()
            invariant
                views == run_views(runs@),
                views == self.runs::<M>(),
                forall|k: int| 0 <= k < runs@.len() ==> (#[trigger] runs@[k])@.wf(),
                self.wf(),
                self.count() <= usize::MAX,
                found matches Some(cursor) ==> self.store.holds(cursor),
                i <= runs@.len(),
                hit_from::<M>(views, 0, true, None, x, y) == hit_from::<M>(
                    views,
                    i as int,
                    first,
                    found,
                    x,
                    y,
                ),
            decreases runs@.len() - i,
        {
            let run = &runs[i];
            assert(views[i as int] == run@);
            proof {
                law_runs_show_lines_of_the_text::<M>(self, i as int);
                encode_utf8_valid_utf8(run.text@);
                lemma_first_byte(run@.text);
            }
            if first && y.less(run.line_top) {
                first = false;
                found = Some(Cursor::new(run.line_i, 0));
            } else if run.line_top.at_most(y) && y.less(M::plus(run.line_top, run.line_height)) {
                return Some(find_cursor_at::<M>(run, x));
            } else if i + 1 == runs.len() && run.line_y.less(y) {
                // Below the last visual line.
                let len = byte_len(run.text);
                return Some(Cursor::new_with_affinity(run.line_i, len, Affinity::Before));
            }
            i = i + 1;
        }
        found
    }

    /// Where the view shows a cursor: the distance from its left edge and the
    /// top of the visual line.
    pub fn cursor_position<M: PixelMath>(&self, cursor: &Cursor) -> (r: Option<(Px, Px)>)
        requires
            self.wf(),
        ensures
            r == shown_at::<M>(self.runs::<M>(), *cursor, 0),
    {
        let runs = self.visible_runs::<M>();
        let ghost views = run_views(runs@);
        let mut i: usize = 0;
        while i < runs.len()
            invariant
                views == run_views(runs@),
                views == self.runs::<M>(),
                forall|k: int| 0 <= k < runs@.len() ==> (#[trigger] runs@[k])@.wf(),
                i <= runs@.len(),
                shown_at::<M>(views, *cursor, 0) == shown_at::<M>(views, *cursor, i as int),
            decreases runs@.len() - i,
        {
            let run = &runs[i];
            assert(views[i as int] == run@);
            if run.line_i == cursor.line {
                if let Some(x) = run.cursor_position::<M>(cursor) {
                    return Some((x, run.line_top));
                }
            }
            i = i + 1;
        }
        None
    }
}

} // verus!
