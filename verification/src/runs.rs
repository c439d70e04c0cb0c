//! Visual lines, ready to be drawn.

use vstd::prelude::*;
use vstd::utf8::*;

use crate::cursor::{Affinity, Cursor};
use crate::layout::{line_fits, DecorationSpan, LayoutGlyph};
use crate::pixel::{zero, PixelMath, Px};
use crate::segmentation::{cluster_indices, clusters, meets, tiles};
use crate::text::slice_str;

verus! {

/// What a [`LayoutRun`] shows.
#[verifier::ext_equal]
pub struct RunView {
    /// Index of the line of text.
    pub line_i: usize,
    /// The text of the line.
    pub text: Seq<u8>,
    /// Whether the line runs right to left.
    pub rtl: bool,
    /// The glyphs, from left to right.
    pub glyphs: Seq<LayoutGlyph>,
    /// The decorations.
    pub decorations: Seq<DecorationSpan>,
    /// Top edge of the view to the baseline.
    pub line_y: Px,
    /// Top edge of the view to the top of the visual line.
    pub line_top: Px,
    /// Height of the visual line.
    pub line_height: Px,
    /// Width of the visual line.
    pub line_w: Px,
}

/// A visual line of a line of text.
#[derive(Debug)]
pub struct LayoutRun<'a> {
    /// Index of the line of text.
    pub line_i: usize,
    /// The text of the line.
    pub text: &'a str,
    /// Whether the line runs right to left.
    pub rtl: bool,
    /// The glyphs, from left to right.
    pub glyphs: &'a [LayoutGlyph],
    /// The decorations.
    pub decorations: &'a [DecorationSpan],
    /// Top edge of the view to the baseline.
    pub line_y: Px,
    /// Top edge of the view to the top of the visual line.
    pub line_top: Px,
    /// Height of the visual line.
    pub line_height: Px,
    /// Width of the visual line.
    pub line_w: Px,
}

impl<'a> View for LayoutRun<'a> {
    type V = RunView;

    open spec fn view(&self) -> RunView {
        RunView {
            line_i: self.line_i,
            text: encode_utf8(self.text@),
            rtl: self.rtl,
            glyphs: self.glyphs@,
            decorations: self.decorations@,
            line_y: self.line_y,
            line_top: self.line_top,
            line_height: self.line_height,
            line_w: self.line_w,
        }
    }
}

/// The clusters of the part of a text that a glyph stands for.
pub open spec fn glyph_clusters(text: Seq<u8>, glyph: LayoutGlyph) -> Seq<(usize, usize)> {
    clusters(text.subrange(glyph.start as int, glyph.end as int))
}

/// The first glyph, from `i` on, that starts at `index` or has it inside.
pub open spec fn glyph_around(glyphs: Seq<LayoutGlyph>, index: int, i: int) -> Option<int>
    decreases glyphs.len() - i,
{
    if i < 0 || i >= glyphs.len() {
        None
    } else if index == glyphs[i].start || glyphs[i].start < index < glyphs[i].end {
        Some(i)
    } else {
        glyph_around(glyphs, index, i + 1)
    }
}

/// The first glyph, from `i` on, that ends at `index`.
pub open spec fn glyph_ending(glyphs: Seq<LayoutGlyph>, index: int, i: int) -> Option<int>
    decreases glyphs.len() - i,
{
    if i < 0 || i >= glyphs.len() {
        None
    } else if index == glyphs[i].end {
        Some(i)
    } else {
        glyph_ending(glyphs, index, i + 1)
    }
}

/// How many of the pieces start in front of `limit`.
pub open spec fn pieces_before(pieces: Seq<(usize, usize)>, limit: int) -> nat
    decreases pieces.len(),
{
    if pieces.len() == 0 {
        0
    } else if pieces.last().0 < limit {
        pieces_before(pieces.drop_last(), limit) + 1
    } else {
        pieces_before(pieces.drop_last(), limit)
    }
}

impl RunView {
    /// Every glyph stands for a part of the text.
    pub open spec fn wf(self) -> bool {
        line_fits(self.text, self.glyphs)
    }

    /// The glyph at which a cursor is, and how far it is into the glyph. Inside
    /// a glyph that stands for more than one cluster the width is shared out
    /// evenly.
    pub open spec fn glyph_of<M: PixelMath>(self, cursor: Cursor) -> Option<(usize, Px)> {
        if cursor.line != self.line_i {
            None
        } else if let Some(i) = glyph_around(self.glyphs, cursor.index as int, 0) {
            let glyph = self.glyphs[i];
            let pieces = glyph_clusters(self.text, glyph);
            if cursor.index == glyph.start {
                Some((i as usize, zero()))
            } else {
                Some(
                    (
                        i as usize,
                        M::quotient(
                            M::product(
                                glyph.w,
                                M::counted(
                                    pieces_before(pieces, cursor.index - glyph.start) as usize,
                                ),
                            ),
                            M::counted(pieces.len() as usize),
                        ),
                    ),
                )
            }
        } else if let Some(i) = glyph_ending(self.glyphs, cursor.index as int, 0) {
            Some((i as usize, self.glyphs[i].w))
        } else if self.glyphs.len() == 0 {
            Some((0, zero()))
        } else {
            None
        }
    }

    /// The distance of a cursor from the left edge.
    pub open spec fn x_of<M: PixelMath>(self, cursor: Cursor) -> Option<Px> {
        match self.glyph_of::<M>(cursor) {
            Some((i, offset)) => Some(
                if i < self.glyphs.len() {
                    let glyph = self.glyphs[i as int];
                    if glyph.rtl {
                        M::difference(M::sum(glyph.x, glyph.w), offset)
                    } else {
                        M::sum(glyph.x, offset)
                    }
                } else {
                    zero()
                },
            ),
            None => None,
        }
    }

    /// The cursor at the left edge of a glyph.
    pub open spec fn left_of(self, glyph: LayoutGlyph) -> Cursor {
        if self.rtl {
            Cursor { line: self.line_i, index: glyph.end, affinity: Affinity::Before }
        } else {
            Cursor { line: self.line_i, index: glyph.start, affinity: Affinity::After }
        }
    }

    /// The cursor at the right edge of a glyph.
    pub open spec fn right_of(self, glyph: LayoutGlyph) -> Cursor {
        if self.rtl {
            Cursor { line: self.line_i, index: glyph.start, affinity: Affinity::After }
        } else {
            Cursor { line: self.line_i, index: glyph.end, affinity: Affinity::Before }
        }
    }

    /// Whether the cluster from byte `from` to byte `to` is between two cursors.
    pub open spec fn between(self, start: Cursor, end: Cursor, from: int, to: int) -> bool {
        (start.line != self.line_i || to > start.index) && (end.line != self.line_i || from < end.index)
    }
}

impl RunView {
    /// Whether the glyphs, from left to right, go forth in the text.
    pub open spec fn ascends(self) -> bool {
        forall|i: int, k: int|
            0 <= i < k < self.glyphs.len() ==> (#[trigger] self.glyphs[i]).end <= (
            #[trigger] self.glyphs[k]).start
    }

    /// Whether the glyphs, from left to right, go back in the text.
    pub open spec fn descends(self) -> bool {
        forall|i: int, k: int|
            0 <= i < k < self.glyphs.len() ==> (#[trigger] self.glyphs[k]).end <= (
            #[trigger] self.glyphs[i]).start
    }

    /// Whether the run is one from left to right: the glyphs are, and they go
    /// forth in the text.
    pub open spec fn all_ltr(self) -> bool {
        &&& self.ascends()
        &&& forall|i: int| 0 <= i < self.glyphs.len() ==> !(#[trigger] self.glyphs[i]).rtl
    }

    /// Whether the run is one from right to left: the glyphs are, and they go
    /// back in the text.
    pub open spec fn all_rtl(self) -> bool {
        &&& self.descends()
        &&& forall|i: int| 0 <= i < self.glyphs.len() ==> (#[trigger] self.glyphs[i]).rtl
    }

    /// Whether the clusters of glyph `i` are without gaps.
    pub open spec fn tiled(self, i: int) -> bool {
        tiles(
            glyph_clusters(self.text, self.glyphs[i]),
            self.glyphs[i].end - self.glyphs[i].start,
        )
    }
}

/// Spans that are highlighted, and one that may still grow.
pub struct Sweep {
    /// Left edge and width of each span.
    pub spans: Seq<(Px, Px)>,
    /// Left and right edge of the span that may still grow.
    pub open: Option<(Px, Px)>,
}

impl Sweep {
    /// The spans once the open one has been closed. One without width is left
    /// out.
    pub open spec fn closed<M: PixelMath>(self) -> Seq<(Px, Px)> {
        match self.open {
            Some((left, right)) => if zero().lt(M::difference(right, left)) {
                self.spans.push((left, M::difference(right, left)))
            } else {
                self.spans
            },
            None => self.spans,
        }
    }

    /// The spans once one more cluster, from `left` to `right`, has been looked
    /// at.
    pub open spec fn swept<M: PixelMath>(self, selected: bool, left: Px, right: Px) -> Sweep {
        if selected {
            Sweep {
                spans: self.spans,
                open: Some(
                    match self.open {
                        Some((min, max)) => (min.smaller(left), max.larger(right)),
                        None => (left, right),
                    },
                ),
            }
        } else {
            Sweep { spans: self.closed::<M>(), open: None }
        }
    }
}

/// Left edge of the `j`th of the clusters that share the width of a glyph.
pub open spec fn cluster_x<M: PixelMath>(x: Px, share: Px, j: int) -> Px
    decreases j,
{
    if j <= 0 {
        x
    } else {
        M::sum(cluster_x::<M>(x, share, j - 1), share)
    }
}

/// The part of a glyph's width that each of its clusters gets.
pub open spec fn share_of<M: PixelMath>(glyph: LayoutGlyph, n: nat) -> Px {
    M::quotient(
        glyph.w,
        M::counted(
            if n == 0 {
                1
            } else {
                n as usize
            },
        ),
    )
}

/// Which of the `n` clusters of a glyph is the `j`th from the left.
pub open spec fn from_left(glyph: LayoutGlyph, n: int, j: int) -> int {
    if glyph.rtl {
        n - 1 - j
    } else {
        j
    }
}

impl RunView {
    /// The highlighted spans once the first `j` clusters of a glyph, from the
    /// left, have been looked at.
    pub open spec fn sweep_clusters<M: PixelMath>(
        self,
        sweep: Sweep,
        start: Cursor,
        end: Cursor,
        glyph: LayoutGlyph,
        j: int,
    ) -> Sweep
        decreases j,
    {
        if j <= 0 {
            sweep
        } else {
            let pieces = glyph_clusters(self.text, glyph);
            let share = share_of::<M>(glyph, pieces.len());
            let left = cluster_x::<M>(glyph.x, share, j - 1);
            let piece = pieces[from_left(glyph, pieces.len() as int, j - 1)];
            let from = glyph.start + piece.0;
            self.sweep_clusters::<M>(sweep, start, end, glyph, j - 1).swept::<M>(
                self.between(start, end, from, from + piece.1),
                left,
                M::sum(left, share),
            )
        }
    }

    /// The highlighted spans once the first `i` glyphs have been looked at.
    pub open spec fn sweep_glyphs<M: PixelMath>(self, start: Cursor, end: Cursor, i: int) -> Sweep
        decreases i,
    {
        if i <= 0 {
            Sweep { spans: seq![], open: None }
        } else {
            let glyph = self.glyphs[i - 1];
            self.sweep_clusters::<M>(
                self.sweep_glyphs::<M>(start, end, i - 1),
                start,
                end,
                glyph,
                glyph_clusters(self.text, glyph).len() as int,
            )
        }
    }
}

impl RunView {
    /// The spans, by left edge and width, that are between two cursors.
    pub open spec fn highlighted<M: PixelMath>(self, start: Cursor, end: Cursor) -> Seq<(Px, Px)> {
        if self.line_i < start.line || end.line < self.line_i {
            seq![]
        } else {
            self.sweep_glyphs::<M>(start, end, self.glyphs.len() as int).closed::<M>()
        }
    }
}

/// Counts the pieces that start in front of `limit`.
fn count_before(pieces: &Vec<(usize, usize)>, limit: usize) -> (r: usize)
    ensures
        r == pieces_before(pieces@, limit as int),
{
    let mut r: usize = 0;
    let mut i: usize = 0;
    while i < pieces.len()
        invariant
            i <= pieces@.len(),
            r <= i,
            r == pieces_before(pieces@.take(i as int), limit as int),
        decreases pieces@.len() - i,
    {
        proof {
            assert(pieces@.take(i + 1).drop_last() =~= pieces@.take(i as int));
            assert(pieces@.take(i + 1).last() == pieces@[i as int]);
        }
        if pieces[i].0 < limit {
            r = r + 1;
        }
        i = i + 1;
    }
    assert(pieces@.take(i as int) =~= pieces@);
    r
}

impl<'a> LayoutRun<'a> {
    /// Tells at which glyph of the run a cursor is, and how far it is into the
    /// glyph; `None` if it is not on the run.
    pub fn cursor_glyph<M: PixelMath>(&self, cursor: &Cursor) -> (r: Option<(usize, Px)>)
        requires
            self@.wf(),
        ensures
            r == self@.glyph_of::<M>(*cursor),
            r matches Some((i, _)) ==> i < self@.glyphs.len() || self@.glyphs.len() == 0,
    {
        if cursor.line != self.line_i {
            return None;
        }
        let mut i: usize = 0;
        while i < self.glyphs.len()
            invariant
                self@.wf(),
                cursor.line == self.line_i,
                i <= self.glyphs@.len(),
                glyph_around(self.glyphs@, cursor.index as int, 0) == glyph_around(
                    self.glyphs@,
                    cursor.index as int,
                    i as int,
                ),
            decreases self.glyphs@.len() - i,
        {
            let glyph = self.glyphs[i];
            if cursor.index == glyph.start {
                return Some((i, Px::nothing()));
            } else if cursor.index > glyph.start && cursor.index < glyph.end {
                // The clusters of the glyph share its width.
                let cluster = slice_str(self.text, glyph.start, glyph.end);
                let pieces = cluster_indices(cluster);
                let before = count_before(&pieces, cursor.index - glyph.start);
                let total = pieces.len();
                let offset = M::over(M::times(glyph.w, M::count(before)), M::count(total));
                return Some((i, offset));
            }
            i = i + 1;
        }
        // The last glyph of the text need not be the last one from the left.
        let mut k: usize = 0;
        while k < self.glyphs.len()
            invariant
                cursor.line == self.line_i,
                glyph_around(self.glyphs@, cursor.index as int, 0) is None,
                k <= self.glyphs@.len(),
                glyph_ending(self.glyphs@, cursor.index as int, 0) == glyph_ending(
                    self.glyphs@,
                    cursor.index as int,
                    k as int,
                ),
            decreases self.glyphs@.len() - k,
        {
            let glyph = self.glyphs[k];
            if cursor.index == glyph.end {
                return Some((k, glyph.w));
            }
            k = k + 1;
        }
        if self.glyphs.len() == 0 {
            return Some((0, Px::nothing()));
        }
        None
    }

    /// The distance of a cursor from the left edge of the run; `None` if it is
    /// not on the run.
    pub fn cursor_position<M: PixelMath>(&self, cursor: &Cursor) -> (r: Option<Px>)
        requires
            self@.wf(),
        ensures
            r == self@.x_of::<M>(*cursor),
    {
        match self.cursor_glyph::<M>(cursor) {
            Some((i, offset)) => {
                if i < self.glyphs.len() {
                    let glyph = self.glyphs[i];
                    if glyph.rtl {
                        Some(M::minus(M::plus(glyph.x, glyph.w), offset))
                    } else {
                        Some(M::plus(glyph.x, offset))
                    }
                } else {
                    Some(Px::nothing())
                }
            },
            None => None,
        }
    }

    /// The cursor at the left edge of a glyph.
    pub fn cursor_from_glyph_left(&self, glyph: &LayoutGlyph) -> (r: Cursor)
        ensures
            r == self@.left_of(*glyph),
    {
        if self.rtl {
            Cursor::new_with_affinity(self.line_i, glyph.end, Affinity::Before)
        } else {
            Cursor::new_with_affinity(self.line_i, glyph.start, Affinity::After)
        }
    }

    /// The cursor at the right edge of a glyph.
    pub fn cursor_from_glyph_right(&self, glyph: &LayoutGlyph) -> (r: Cursor)
        ensures
            r == self@.right_of(*glyph),
    {
        if self.rtl {
            Cursor::new_with_affinity(self.line_i, glyph.start, Affinity::After)
        } else {
            Cursor::new_with_affinity(self.line_i, glyph.end, Affinity::Before)
        }
    }
}

/// Looks at one more cluster.
fn sweep_on<M: PixelMath>(
    spans: &mut Vec<(Px, Px)>,
    open: Option<(Px, Px)>,
    selected: bool,
    left: Px,
    right: Px,
) -> (r: Option<(Px, Px)>)
    ensures
        (Sweep { spans: final(spans)@, open: r }) == (Sweep {
            spans: old(spans)@,
            open,
        }).swept::<M>(selected, left, right),
{
    if selected {
        match open {
            Some((min, max)) => Some((min.min_with(left), max.max_with(right))),
            None => Some((left, right)),
        }
    } else {
        close::<M>(spans, open);
        None
    }
}

/// Closes the open span.
fn close<M: PixelMath>(spans: &mut Vec<(Px, Px)>, open: Option<(Px, Px)>)
    ensures
        final(spans)@ == (Sweep { spans: old(spans)@, open }).closed::<M>(),
{
    if let Some((left, right)) = open {
        let width = M::minus(right, left);
        if Px::nothing().less(width) {
            spans.push((left, width));
        }
    }
}

impl<'a> LayoutRun<'a> {
    /// The spans of the run, by left edge and width, that are between two
    /// cursors. There is at most one where all glyphs run from left to right,
    /// and where all run from right to left. There is none if the run is not
    /// between the cursors.
    pub fn highlight<M: PixelMath>(&self, cursor_start: Cursor, cursor_end: Cursor) -> (r: Vec<(Px, Px)>)
        requires
            self@.wf(),
        ensures
            r@ == self@.highlighted::<M>(cursor_start, cursor_end),
            self@.all_ltr() || self@.all_rtl() ==> r@.len() <= 1,
    {
        let line_i = self.line_i;
        let ghost run = self@;
        let mut spans: Vec<(Px, Px)> = Vec::new();
        if line_i < cursor_start.line || cursor_end.line < line_i {
            return spans;
        }
        let mut open: Option<(Px, Px)> = None;
        let mut i: usize = 0;
        while i < self.glyphs.len()
            invariant
                run == self@,
                run.wf(),
                line_i == run.line_i,
                i <= self.glyphs@.len(),
                forall|k: int| 0 <= k < i ==> #[trigger] run.tiled(k),
                (Sweep { spans: spans@, open }) == run.sweep_glyphs::<M>(
                    cursor_start,
                    cursor_end,
                    i as int,
                ),
            decreases self.glyphs@.len() - i,
        {
            let glyph = self.glyphs[i];
            let cluster = slice_str(self.text, glyph.start, glyph.end);
            let pieces = cluster_indices(cluster);
            assert(run.tiled(i as int));
            let ghost before = Sweep { spans: spans@, open };
            let total = if pieces.len() == 0 {
                1
            } else {
                pieces.len()
            };
            let share = M::over(glyph.w, M::count(total));
            let mut left = glyph.x;
            let mut j: usize = 0;
            while j < pieces.len()
                invariant
                    run == self@,
                    run.wf(),
                    line_i == run.line_i,
                    i < self.glyphs@.len(),
                    glyph == run.glyphs[i as int],
                    pieces@ == glyph_clusters(run.text, glyph),
                    tiles(pieces@, glyph.end - glyph.start),
                    glyph.start <= glyph.end,
                    share == share_of::<M>(glyph, pieces@.len()),
                    j <= pieces@.len(),
                    left == cluster_x::<M>(glyph.x, share, j as int),
                    (Sweep { spans: spans@, open }) == run.sweep_clusters::<M>(
                        before,
                        cursor_start,
                        cursor_end,
                        glyph,
                        j as int,
                    ),
                decreases pieces@.len() - j,
            {
                let nth = if glyph.rtl {
                    pieces.len() - 1 - j
                } else {
                    j
                };
                let (at, len) = pieces[nth];
                assert(pieces@[nth as int].0 + pieces@[nth as int].1 <= glyph.end - glyph.start);
                let from = glyph.start + at;
                let to = from + len;
                let selected = (cursor_start.line != line_i || to > cursor_start.index) && (
                cursor_end.line != line_i || from < cursor_end.index);
                let right = M::plus(left, share);
                open = sweep_on::<M>(&mut spans, open, selected, left, right);
                left = right;
                j = j + 1;
            }
            i = i + 1;
        }
        proof {
            if run.all_ltr() {
                lemma_one_span_forth::<M>(run, cursor_start, cursor_end, i as int);
            } else if run.all_rtl() {
                lemma_one_span_back::<M>(run, cursor_start, cursor_end, i as int);
            }
        }
        close::<M>(&mut spans, open);
        spans
    }
}

/// A sweep that goes forth in the text and has come to byte `last`: a span that
/// is closed has the end behind it, and one that is open has the start behind
/// it.
spec fn swept_forth(run: RunView, sweep: Sweep, start: Cursor, end: Cursor, last: int) -> bool {
    &&& sweep.spans.len() <= 1
    &&& sweep.spans.len() == 1 ==> sweep.open is None && end.line == run.line_i && end.index <= last
    &&& sweep.open is Some && start.line == run.line_i ==> start.index < last
}

/// A sweep that goes back in the text and has come to byte `first`.
spec fn swept_back(run: RunView, sweep: Sweep, start: Cursor, end: Cursor, first: int) -> bool {
    &&& sweep.spans.len() <= 1
    &&& sweep.spans.len() == 1 ==> sweep.open is None && start.line == run.line_i && first
        <= start.index
    &&& sweep.open is Some && end.line == run.line_i ==> first < end.index
}

/// The clusters of one glyph, forth in the text.
proof fn lemma_clusters_forth<M: PixelMath>(
    run: RunView,
    sweep: Sweep,
    start: Cursor,
    end: Cursor,
    g: int,
    j: int,
)
    requires
        run.tiled(g),
        0 <= g < run.glyphs.len(),
        !run.glyphs[g].rtl,
        run.glyphs[g].start <= run.glyphs[g].end,
        swept_forth(run, sweep, start, end, run.glyphs[g].start as int),
        0 <= j <= glyph_clusters(run.text, run.glyphs[g]).len(),
    ensures
        ({
            let pieces = glyph_clusters(run.text, run.glyphs[g]);
            swept_forth(
                run,
                run.sweep_clusters::<M>(sweep, start, end, run.glyphs[g], j),
                start,
                end,
                run.glyphs[g].start + if j == 0 {
                    0
                } else {
                    pieces[j - 1].0 + pieces[j - 1].1
                },
            )
        }),
    decreases j,
{
    if j > 0 {
        lemma_clusters_forth::<M>(run, sweep, start, end, g, j - 1);
        let pieces = glyph_clusters(run.text, run.glyphs[g]);
        assert(pieces[j - 1].1 > 0);
        if j > 1 {
            assert(meets(pieces, j - 2));
        }
    }
}

/// Glyphs that go forth in the text.
proof fn lemma_one_span_forth<M: PixelMath>(run: RunView, start: Cursor, end: Cursor, i: int)
    requires
        run.wf(),
        run.all_ltr(),
        0 <= i <= run.glyphs.len(),
        forall|k: int| 0 <= k < i ==> #[trigger] run.tiled(k),
    ensures
        swept_forth(
            run,
            run.sweep_glyphs::<M>(start, end, i),
            start,
            end,
            if i == 0 {
                0
            } else {
                run.glyphs[i - 1].end as int
            },
        ),
    decreases i,
{
    if i > 0 {
        lemma_one_span_forth::<M>(run, start, end, i - 1);
        let g = i - 1;
        let pieces = glyph_clusters(run.text, run.glyphs[g]);
        let before = run.sweep_glyphs::<M>(start, end, g);
        assert(run.tiled(g));
        assert(run.glyphs[g].start <= run.glyphs[g].end);
        if g > 0 {
            assert(run.glyphs[g - 1].end <= run.glyphs[g].start);
        }
        assert(swept_forth(run, before, start, end, run.glyphs[g].start as int));
        lemma_clusters_forth::<M>(run, before, start, end, g, pieces.len() as int);
    }
}

/// The clusters of one glyph, back in the text.
proof fn lemma_clusters_back<M: PixelMath>(
    run: RunView,
    sweep: Sweep,
    start: Cursor,
    end: Cursor,
    g: int,
    j: int,
)
    requires
        run.tiled(g),
        0 <= g < run.glyphs.len(),
        run.glyphs[g].rtl,
        run.glyphs[g].start <= run.glyphs[g].end,
        swept_back(run, sweep, start, end, run.glyphs[g].end as int),
        0 <= j <= glyph_clusters(run.text, run.glyphs[g]).len(),
    ensures
        ({
            let pieces = glyph_clusters(run.text, run.glyphs[g]);
            swept_back(
                run,
                run.sweep_clusters::<M>(sweep, start, end, run.glyphs[g], j),
                start,
                end,
                if j == 0 {
                    run.glyphs[g].end as int
                } else {
                    run.glyphs[g].start + pieces[pieces.len() - j].0
                },
            )
        }),
    decreases j,
{
    if j > 0 {
        lemma_clusters_back::<M>(run, sweep, start, end, g, j - 1);
        let pieces = glyph_clusters(run.text, run.glyphs[g]);
        assert(pieces[pieces.len() - j].1 > 0);
        if j > 1 {
            assert(meets(pieces, pieces.len() - j));
        }
    }
}

/// Glyphs that go back in the text.
proof fn lemma_one_span_back<M: PixelMath>(run: RunView, start: Cursor, end: Cursor, i: int)
    requires
        run.wf(),
        run.all_rtl(),
        0 <= i <= run.glyphs.len(),
        forall|k: int| 0 <= k < i ==> #[trigger] run.tiled(k),
    ensures
        i == 0 ==> run.sweep_glyphs::<M>(start, end, i) == (Sweep { spans: seq![], open: None }),
        i > 0 ==> swept_back(
            run,
            run.sweep_glyphs::<M>(start, end, i),
            start,
            end,
            run.glyphs[i - 1].start as int,
        ),
    decreases i,
{
    if i > 0 {
        lemma_one_span_back::<M>(run, start, end, i - 1);
        let g = i - 1;
        let glyph = run.glyphs[g];
        let pieces = glyph_clusters(run.text, glyph);
        let before = run.sweep_glyphs::<M>(start, end, g);
        assert(run.tiled(g));
        assert(glyph.start <= glyph.end);
        if g > 0 {
            assert(glyph.end <= run.glyphs[g - 1].start);
        }
        assert(swept_back(run, before, start, end, glyph.end as int));
        lemma_clusters_back::<M>(run, before, start, end, g, pieces.len() as int);
    }
}

} // verus!
