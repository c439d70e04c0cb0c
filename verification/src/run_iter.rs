//! Walking over the visual lines of a view.

use vstd::prelude::*;
use vstd::utf8::*;

use crate::breaks::line_total;
use crate::buffer::{Buffer, LineStore};
use crate::layout::{layout_fits, layout_view, LayoutLine, LayoutLineView};
use crate::line::{BufferLine, LineView};
use crate::pixel::{two, zero, PixelMath, Px};
use crate::rope_store::RopeStore;
use crate::runs::{LayoutRun, RunView};
use crate::scrolling::height_of;

verus! {

/// The lines that a [`LayoutRunIter`] walks over.
#[derive(Clone, Copy)]
pub enum RunSource<'b> {
    /// All lines, one after the other.
    Full(&'b [BufferLine]),
    /// A rope; only the lines that are kept with their results are found.
    Rope(&'b RopeStore),
}

/// A line as a walk finds it.
pub struct RunLine {
    /// The text.
    pub text: Seq<u8>,
    /// Whether the line runs right to left.
    pub rtl: bool,
    /// The visual lines; none if the line is hidden.
    pub layout: Seq<LayoutLineView>,
}

/// A line as a walk finds it; `None` if it is not laid out. A hidden line is
/// found without any visual lines.
pub open spec fn found(line: LineView) -> Option<RunLine> {
    if line.hidden {
        Some(RunLine { text: line.text, rtl: false, layout: seq![] })
    } else {
        match (line.shape, line.layout) {
            (Some(shape), Some(layout)) => Some(
                RunLine { text: line.text, rtl: shape.rtl, layout },
            ),
            _ => None,
        }
    }
}

/// Line `i` of a rope as a walk finds it; `None` if it is not kept with its
/// results.
pub open spec fn found_in(store: &RopeStore, i: int) -> Option<RunLine> {
    match (store.warm(i), store.cache.shape_at(i), store.cache.layout_at(i)) {
        (Some(line), Some(shape), Some(layout)) => Some(
            RunLine { text: line@.text, rtl: shape.rtl, layout },
        ),
        _ => None,
    }
}

impl<'b> RunSource<'b> {
    /// The lines as a walk finds them.
    pub open spec fn lines(self) -> Seq<Option<RunLine>> {
        match self {
            RunSource::Full(lines) => Seq::new(lines@.len(), |i: int| found(lines@[i]@)),
            RunSource::Rope(store) => Seq::new(
                line_total(store.bytes()),
                |i: int| found_in(store, i),
            ),
        }
    }

    /// Every part is in order.
    pub open spec fn wf(self) -> bool {
        match self {
            RunSource::Full(lines) => forall|i: int|
                0 <= i < lines@.len() ==> (#[trigger] lines@[i])@.fits(),
            RunSource::Rope(store) => store.wf() && store.fresh() && store.fits(),
        }
    }
}

/// How far a walk has come.
pub struct RunState {
    /// Index of the line.
    pub line_i: int,
    /// Index of the visual line within the line.
    pub layout_i: int,
    /// Height of the visual lines that were walked over.
    pub total_height: Px,
    /// Top of the next visual line, from the top of the first line.
    pub line_top: Px,
}

/// The view that a walk is for.
pub struct RunFrame {
    /// Height of the view.
    pub height_opt: Option<Px>,
    /// Height of a visual line that has none of its own.
    pub line_height: Px,
    /// How far the view is below the top of the first line.
    pub scroll: Px,
}

impl RunFrame {
    /// A visual line at its place in the view. Its glyphs are centred in its
    /// height.
    pub open spec fn run<M: PixelMath>(self, line_i: int, line: RunLine, row: LayoutLineView, line_top: Px) -> RunView {
        let height = height_of(row, self.line_height);
        let top = M::difference(line_top, self.scroll);
        let centring = M::quotient(
            M::difference(height, M::sum(row.max_ascent, row.max_descent)),
            two(),
        );
        RunView {
            line_i: line_i as usize,
            text: line.text,
            rtl: line.rtl,
            glyphs: row.glyphs,
            decorations: row.decorations,
            line_y: M::sum(M::sum(top, centring), row.max_ascent),
            line_top: top,
            line_height: height,
            line_w: row.w,
        }
    }

    /// Whether a visual line is below the view.
    pub open spec fn below<M: PixelMath>(self, run: RunView, row: LayoutLineView) -> bool {
        self.height_opt matches Some(height) && height.lt(M::difference(run.line_y, row.max_ascent))
    }

    /// Whether a visual line is above the view.
    pub open spec fn above<M: PixelMath>(self, run: RunView, row: LayoutLineView) -> bool {
        M::sum(run.line_y, row.max_descent).lt(zero())
    }
}

/// The next visual line in the view, if there is one, and how far the walk has
/// come then. The walk ends at a line that is not laid out and at a visual
/// line below the view.
pub open spec fn sought<M: PixelMath>(lines: Seq<Option<RunLine>>, frame: RunFrame, state: RunState) -> (
    Option<RunView>,
    RunState,
)
    decreases
            lines.len() - state.line_i,
            match lines[state.line_i] {
                Some(line) => line.layout.len() - state.layout_i,
                None => 0,
            },
{
    if state.line_i < 0 || state.line_i >= lines.len() || state.layout_i < 0 {
        (None, state)
    } else {
        match lines[state.line_i] {
            None => (None, state),
            Some(line) => if state.layout_i >= line.layout.len() {
                sought::<M>(lines, frame, RunState { line_i: state.line_i + 1, layout_i: 0, ..state })
            } else {
                let row = line.layout[state.layout_i];
                let run = frame.run::<M>(state.line_i, line, row, state.line_top);
                let past = RunState {
                    layout_i: state.layout_i + 1,
                    total_height: M::sum(state.total_height, run.line_height),
                    ..state
                };
                let on = RunState { line_top: M::sum(state.line_top, run.line_height), ..past };
                if frame.below::<M>(run, row) {
                    (None, past)
                } else if frame.above::<M>(run, row) {
                    sought::<M>(lines, frame, on)
                } else {
                    (Some(run), on)
                }
            },
        }
    }
}

/// The visual lines in the view, from where a walk has come to.
pub open spec fn runs_from<M: PixelMath>(lines: Seq<Option<RunLine>>, frame: RunFrame, state: RunState) -> Seq<
    RunView,
>
    decreases
            lines.len() - state.line_i,
            match lines[state.line_i] {
                Some(line) => line.layout.len() - state.layout_i,
                None => 0,
            },
{
    if state.line_i < 0 || state.line_i >= lines.len() || state.layout_i < 0 {
        seq![]
    } else {
        match lines[state.line_i] {
            None => seq![],
            Some(line) => if state.layout_i >= line.layout.len() {
                runs_from::<M>(
                    lines,
                    frame,
                    RunState { line_i: state.line_i + 1, layout_i: 0, ..state },
                )
            } else {
                let row = line.layout[state.layout_i];
                let run = frame.run::<M>(state.line_i, line, row, state.line_top);
                let on = RunState {
                    layout_i: state.layout_i + 1,
                    total_height: M::sum(state.total_height, run.line_height),
                    line_top: M::sum(state.line_top, run.line_height),
                    ..state
                };
                if frame.below::<M>(run, row) {
                    seq![]
                } else if frame.above::<M>(run, row) {
                    runs_from::<M>(lines, frame, on)
                } else {
                    seq![run] + runs_from::<M>(lines, frame, on)
                }
            },
        }
    }
}

/// The visual lines in the view are those that a walk finds one after the
/// other.
pub proof fn lemma_runs_are_sought<M: PixelMath>(
    lines: Seq<Option<RunLine>>,
    frame: RunFrame,
    state: RunState,
)
    ensures
        runs_from::<M>(lines, frame, state) == match sought::<M>(lines, frame, state) {
            (Some(run), on) => seq![run] + runs_from::<M>(lines, frame, on),
            (None, _) => seq![],
        },
    decreases
            lines.len() - state.line_i,
            match lines[state.line_i] {
                Some(line) => line.layout.len() - state.layout_i,
                None => 0,
            },
{
    if state.line_i < 0 || state.line_i >= lines.len() || state.layout_i < 0 {
    } else if let Some(line) = lines[state.line_i] {
        if state.layout_i >= line.layout.len() {
            lemma_runs_are_sought::<M>(
                lines,
                frame,
                RunState { line_i: state.line_i + 1, layout_i: 0, ..state },
            );
        } else {
            let row = line.layout[state.layout_i];
            let run = frame.run::<M>(state.line_i, line, row, state.line_top);
            let on = RunState {
                layout_i: state.layout_i + 1,
                total_height: M::sum(state.total_height, run.line_height),
                line_top: M::sum(state.line_top, run.line_height),
                ..state
            };
            lemma_runs_are_sought::<M>(lines, frame, on);
        }
    }
}

/// A walk over the visual lines of a view.
pub struct LayoutRunIter<'b> {
    /// The lines.
    pub source: RunSource<'b>,
    /// Height of the view.
    pub height_opt: Option<Px>,
    /// Height of a visual line that has none of its own.
    pub line_height: Px,
    /// How far the view is below the top of the first line.
    pub scroll: Px,
    /// Index of the line.
    pub line_i: usize,
    /// Index of the visual line within the line.
    pub layout_i: usize,
    /// Height of the visual lines that were walked over.
    pub total_height: Px,
    /// Top of the next visual line, from the top of the first line.
    pub line_top: Px,
}

impl<'b> LayoutRunIter<'b> {
    /// The view that the walk is for.
    pub open spec fn frame(&self) -> RunFrame {
        RunFrame {
            height_opt: self.height_opt,
            line_height: self.line_height,
            scroll: self.scroll,
        }
    }

    /// How far the walk has come.
    pub open spec fn state(&self) -> RunState {
        RunState {
            line_i: self.line_i as int,
            layout_i: self.layout_i as int,
            total_height: self.total_height,
            line_top: self.line_top,
        }
    }

    /// The visual lines that are still to come.
    pub open spec fn rest<M: PixelMath>(&self) -> Seq<RunView> {
        runs_from::<M>(self.source.lines(), self.frame(), self.state())
    }

    /// A walk over the visual lines in the view of a buffer.
    pub fn new(buffer: &'b Buffer) -> (r: LayoutRunIter<'b>)
        requires
            buffer.wf(),
        ensures
            r.source.wf(),
            r.source.lines() == buffer.found_lines(),
            r == run_start(
                r.source,
                buffer.height_opt,
                buffer.metrics.line_height,
                buffer.scroll.vertical,
                buffer.scroll.line,
            ),
    {
        let source = match &buffer.store {
            LineStore::Full(lines) => RunSource::Full(lines.as_slice()),
            LineStore::Rope(store) => RunSource::Rope(store),
        };
        assert(source.lines() =~= buffer.found_lines());
        LayoutRunIter {
            source,
            height_opt: buffer.height_opt,
            line_height: buffer.metrics.line_height,
            scroll: buffer.scroll.vertical,
            line_i: buffer.scroll.line,
            layout_i: 0,
            total_height: Px::nothing(),
            line_top: Px::nothing(),
        }
    }

    /// A walk over the visual lines of the given lines, from line `start` on.
    pub fn from_lines(
        lines: &'b [BufferLine],
        height_opt: Option<Px>,
        line_height: Px,
        scroll: Px,
        start: usize,
    ) -> (r: LayoutRunIter<'b>)
        ensures
            r == run_start(RunSource::Full(lines), height_opt, line_height, scroll, start),
    {
        LayoutRunIter {
            source: RunSource::Full(lines),
            height_opt,
            line_height,
            scroll,
            line_i: start,
            layout_i: 0,
            total_height: Px::nothing(),
            line_top: Px::nothing(),
        }
    }
}

impl<'b> RunSource<'b> {
    /// Looks line `i` up. A hidden line is found without visual lines.
    fn look_up(self, i: usize) -> (r: Option<(&'b str, bool, Option<&'b Vec<LayoutLine>>)>)
        requires
            self.wf(),
        ensures
            match r {
                Some((text, rtl, layout)) => {
                    &&& i < self.lines().len()
                    &&& self.lines()[i as int] == Some(
                        RunLine {
                            text: encode_utf8(text@),
                            rtl,
                            layout: match layout {
                                Some(rows) => layout_view(rows@),
                                None => seq![],
                            },
                        },
                    )
                    &&& layout matches Some(rows) ==> layout_fits(
                        encode_utf8(text@),
                        layout_view(rows@),
                    )
                    &&& i < usize::MAX
                },
                None => i >= self.lines().len() || self.lines()[i as int] is None,
            },
    {
        match self {
            RunSource::Full(lines) => {
                if i >= lines.len() {
                    return None;
                }
                let line = &lines[i];
                if line.hidden() {
                    return Some((line.text(), false, None));
                }
                match (line.shape_opt(), line.layout_opt()) {
                    (Some(shape), Some(layout)) => Some((line.text(), shape.rtl, Some(layout))),
                    _ => None,
                }
            },
            RunSource::Rope(store) => {
                proof {
                    assert(store.text.starts.len() == store.text.starts@.len());
                    assert(store.warm(i as int) is Some ==> store.line_view(i as int)
                        == store.warm(i as int).unwrap()@);
                    assert(store.cache.layout_at(i as int) is Some ==> layout_fits(
                        store.line_view(i as int).text,
                        store.cache.layout_at(i as int).unwrap(),
                    ));
                }
                let line = match store.materialized(i) {
                    Some(line) => line,
                    None => {
                        return None;
                    },
                };
                let shape = match store.cache.shape.peek(i) {
                    Some(shape) => shape,
                    None => {
                        return None;
                    },
                };
                match store.cache.layout.peek(i) {
                    Some(layout) => Some((line.text(), shape.rtl, Some(layout))),
                    None => None,
                }
            },
        }
    }
}

impl<'b> LayoutRunIter<'b> {
    /// The next visual line in the view.
    pub fn next_run<M: PixelMath>(&mut self) -> (r: Option<LayoutRun<'b>>)
        requires
            old(self).source.wf(),
        ensures
            final(self).source == old(self).source,
            final(self).frame() == old(self).frame(),
            (
                match r {
                    Some(run) => Some(run@),
                    None => None,
                },
                final(self).state(),
            ) == sought::<M>(old(self).source.lines(), old(self).frame(), old(self).state()),
            r matches Some(run) ==> run@.wf(),
    {
        let ghost source = self.source;
        let ghost lines = source.lines();
        let ghost frame = self.frame();
        loop
            invariant
                self.source == source,
                self.frame() == frame,
                source.wf(),
                source == old(self).source,
                lines == source.lines(),
                frame == old(self).frame(),
                sought::<M>(lines, frame, self.state()) == sought::<M>(
                    lines,
                    frame,
                    old(self).state(),
                ),
            decreases
                    lines.len() - self.line_i,
                    match lines[self.line_i as int] {
                        Some(line) => line.layout.len() - self.layout_i,
                        None => 0,
                    },
        {
            let (text, rtl, layout) = match self.source.look_up(self.line_i) {
                Some(found) => found,
                None => {
                    return None;
                },
            };
            let ghost line = lines[self.line_i as int].unwrap();
            if let Some(rows) = layout {
                if self.layout_i < rows.len() {
                    let row = &rows[self.layout_i];
                    let ghost row_view = line.layout[self.layout_i as int];
                    assert(row_view == row@);
                    let ghost before = self.state();
                    self.layout_i = self.layout_i + 1;
                    let line_height = match row.line_height_opt {
                        Some(height) => height,
                        None => self.line_height,
                    };
                    self.total_height = M::plus(self.total_height, line_height);
                    let line_top = M::minus(self.line_top, self.scroll);
                    let glyph_height = M::plus(row.max_ascent, row.max_descent);
                    let centring = M::over(
                        M::minus(line_height, glyph_height),
                        Px { bits: 0x4000_0000 },
                    );
                    let line_y = M::plus(M::plus(line_top, centring), row.max_ascent);
                    let run = LayoutRun {
                        line_i: self.line_i,
                        text,
                        rtl,
                        glyphs: row.glyphs.as_slice(),
                        decorations: row.decorations.as_slice(),
                        line_y,
                        line_top,
                        line_height,
                        line_w: row.w,
                    };
                    assert(run@ =~= frame.run::<M>(before.line_i, line, row_view, before.line_top));
                    if let Some(height) = self.height_opt {
                        if height.less(M::minus(line_y, row.max_ascent)) {
                            return None;
                        }
                    }
                    self.line_top = M::plus(self.line_top, line_height);
                    if M::plus(line_y, row.max_descent).less(Px::nothing()) {
                        continue;
                    }
                    return Some(run);
                }
            }
            self.line_i = self.line_i + 1;
            self.layout_i = 0;
        }
    }

    /// All visual lines in the view that are still to come.
    pub fn collect_runs<M: PixelMath>(self) -> (r: Vec<LayoutRun<'b>>)
        requires
            self.source.wf(),
        ensures
            run_views(r@) == self.rest::<M>(),
            forall|i: int| 0 <= i < r@.len() ==> (#[trigger] r@[i])@.wf(),
    {
        let ghost all = self.rest::<M>();
        let mut iter = self;
        let mut r: Vec<LayoutRun<'b>> = Vec::new();
        assert(run_views(r@) + iter.rest::<M>() =~= all);
        loop
            invariant
                iter.source.wf(),
                all == self.rest::<M>(),
                run_views(r@) + iter.rest::<M>() == all,
                forall|i: int| 0 <= i < r@.len() ==> (#[trigger] r@[i])@.wf(),
            decreases iter.rest::<M>().len(),
        {
            let ghost before = r@;
            let ghost rest = iter.rest::<M>();
            proof {
                lemma_runs_are_sought::<M>(iter.source.lines(), iter.frame(), iter.state());
            }
            match iter.next_run::<M>() {
                Some(run) => {
                    r.push(run);
                    proof {
                        assert(rest =~= seq![run@] + iter.rest::<M>());
                        assert(run_views(r@) =~= run_views(before).push(run@));
                        assert(run_views(r@) + iter.rest::<M>() =~= all);
                    }
                },
                None => {
                    assert(run_views(r@) =~= all);
                    return r;
                },
            }
        }
    }
}

/// What visual lines show.
pub open spec fn run_views(runs: Seq<LayoutRun>) -> Seq<RunView> {
    runs.map_values(|r: LayoutRun| r@)
}

impl Buffer {
    /// The lines as a walk finds them.
    pub open spec fn found_lines(&self) -> Seq<Option<RunLine>> {
        match self.store {
            LineStore::Full(lines) => Seq::new(lines@.len(), |i: int| found(lines@[i]@)),
            LineStore::Rope(store) => Seq::new(
                line_total(store.bytes()),
                |i: int| found_in(&store, i),
            ),
        }
    }

    /// The visual lines in the view.
    pub open spec fn runs<M: PixelMath>(&self) -> Seq<RunView> {
        runs_from::<M>(
            self.found_lines(),
            RunFrame {
                height_opt: self.height_opt,
                line_height: self.metrics.line_height,
                scroll: self.scroll.vertical,
            },
            RunState {
                line_i: self.scroll.line as int,
                layout_i: 0,
                total_height: zero(),
                line_top: zero(),
            },
        )
    }

    /// A walk over the visual lines in the view. Lines that are not laid out
    /// end it, so the view should be brought up to date first.
    pub fn layout_runs(&self) -> (r: LayoutRunIter<'_>)
        requires
            self.wf(),
        ensures
            r.source.wf(),
            r.source.lines() == self.found_lines(),
            r == run_start(
                r.source,
                self.height_opt,
                self.metrics.line_height,
                self.scroll.vertical,
                self.scroll.line,
            ),
    {
        LayoutRunIter::new(self)
    }

    /// The visual lines in the view.
    pub(crate) fn visible_runs<M: PixelMath>(&self) -> (r: Vec<LayoutRun<'_>>)
        requires
            self.wf(),
        ensures
            run_views(r@) == self.runs::<M>(),
            forall|i: int| 0 <= i < r@.len() ==> (#[trigger] r@[i])@.wf(),
    {
        self.layout_runs().collect_runs::<M>()
    }
}

/// A walk that is about to start at line `start`.
pub open spec fn run_start<'b>(
    source: RunSource<'b>,
    height_opt: Option<Px>,
    line_height: Px,
    scroll: Px,
    start: usize,
) -> LayoutRunIter<'b> {
    LayoutRunIter {
        source,
        height_opt,
        line_height,
        scroll,
        line_i: start,
        layout_i: 0,
        total_height: zero(),
        line_top: zero(),
    }
}

/// The visual lines in a view come from lines at or behind the one at which
/// the view begins, in order, and none from a line that is hidden or not laid
/// out.
pub proof fn law_runs_are_in_order<M: PixelMath>(
    lines: Seq<Option<RunLine>>,
    frame: RunFrame,
    state: RunState,
)
    requires
        0 <= state.line_i,
        lines.len() <= usize::MAX,
    ensures
        forall|k: int|
            0 <= k < runs_from::<M>(lines, frame, state).len() ==> {
                let i = (#[trigger] runs_from::<M>(lines, frame, state)[k]).line_i as int;
                &&& state.line_i <= i < lines.len()
                &&& lines[i] matches Some(line) && line.layout.len() > 0 && runs_from::<M>(
                    lines,
                    frame,
                    state,
                )[k].text == line.text && runs_from::<M>(lines, frame, state)[k].rtl == line.rtl
            },
        forall|k: int, l: int|
            0 <= k < l < runs_from::<M>(lines, frame, state).len() ==> (#[trigger] runs_from::<M>(
                lines,
                frame,
                state,
            )[k]).line_i <= (#[trigger] runs_from::<M>(lines, frame, state)[l]).line_i,
    decreases
            lines.len() - state.line_i,
            match lines[state.line_i] {
                Some(line) => line.layout.len() - state.layout_i,
                None => 0,
            },
{
    if state.line_i >= lines.len() || state.layout_i < 0 {
    } else if let Some(line) = lines[state.line_i] {
        if state.layout_i >= line.layout.len() {
            law_runs_are_in_order::<M>(
                lines,
                frame,
                RunState { line_i: state.line_i + 1, layout_i: 0, ..state },
            );
        } else {
            let row = line.layout[state.layout_i];
            let run = frame.run::<M>(state.line_i, line, row, state.line_top);
            let on = RunState {
                layout_i: state.layout_i + 1,
                total_height: M::sum(state.total_height, run.line_height),
                line_top: M::sum(state.line_top, run.line_height),
                ..state
            };
            law_runs_are_in_order::<M>(lines, frame, on);
            let rest = runs_from::<M>(lines, frame, on);
            let all = runs_from::<M>(lines, frame, state);
            if !frame.below::<M>(run, row) && !frame.above::<M>(run, row) {
                assert forall|k: int| 0 <= k < all.len() implies {
                    let i = (#[trigger] all[k]).line_i as int;
                    &&& state.line_i <= i < lines.len()
                    &&& lines[i] matches Some(line) && line.layout.len() > 0 && all[k].text
                        == line.text && all[k].rtl == line.rtl
                } by {
                    if k > 0 {
                        assert(all[k] == rest[k - 1]);
                    }
                }
                assert forall|k: int, l: int| 0 <= k < l < all.len() implies (
                #[trigger] all[k]).line_i <= (#[trigger] all[l]).line_i by {
                    assert(all[l] == rest[l - 1]);
                    if k > 0 {
                        assert(all[k] == rest[k - 1]);
                    }
                }
            }
        }
    }
}

/// The number of lines is an index.
pub proof fn lemma_count_fits(buffer: &Buffer)
    requires
        buffer.wf(),
    ensures
        buffer.count() <= usize::MAX,
{
    match &buffer.store {
        LineStore::Full(lines) => {
            assert(buffer.store == LineStore::Full(*lines));
            assert(lines.len() == lines@.len());
        },
        LineStore::Rope(store) => {
            assert(buffer.store == LineStore::Rope(*store));
            assert(store.text.starts.len() == store.text.starts@.len());
        },
    }
}

/// Each visual line in the view of a buffer shows the text of the line that it
/// names, by its index in the whole text. It is not in front of the line at
/// which the view begins, and not hidden.
pub proof fn law_runs_show_lines_of_the_text<M: PixelMath>(buffer: &Buffer, k: int)
    requires
        buffer.wf(),
        0 <= k < buffer.runs::<M>().len(),
    ensures
        buffer.scroll.line <= buffer.runs::<M>()[k].line_i < buffer.count(),
        !buffer.store.line_at(buffer.runs::<M>()[k].line_i as int).hidden,
        buffer.runs::<M>()[k].text == buffer.store.line_at(
            buffer.runs::<M>()[k].line_i as int,
        ).text,
{
    let lines = buffer.found_lines();
    let frame = RunFrame {
        height_opt: buffer.height_opt,
        line_height: buffer.metrics.line_height,
        scroll: buffer.scroll.vertical,
    };
    let state = RunState {
        line_i: buffer.scroll.line as int,
        layout_i: 0,
        total_height: zero(),
        line_top: zero(),
    };
    lemma_count_fits(buffer);
    law_runs_are_in_order::<M>(lines, frame, state);
    let run = runs_from::<M>(lines, frame, state)[k];
    let i = run.line_i as int;
    assert(lines[i] is Some);
    match &buffer.store {
        LineStore::Full(_) => {},
        LineStore::Rope(store) => {
            assert(buffer.store == LineStore::Rope(*store));
            assert(store.warm(i) is Some ==> store.line_view(i) == store.warm(i).unwrap()@);
        },
    }
}

} // verus!
