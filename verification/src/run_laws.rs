//! What holds of a walk over the visual lines of a view.

use vstd::prelude::*;

use crate::buffer::Buffer;
use crate::cell_font::CellFont;
use crate::layout::LayoutLineView;
use crate::pixel::{two, zero, PixelMath, Px};
use crate::run_iter::{
    law_runs_are_in_order, lemma_count_fits, runs_from, RunFrame, RunLine, RunState,
};
use crate::runs::RunView;
use crate::scrolling::height_of;
use crate::whole_pixels::{
    law_pixels_keep_the_order, law_whole_undoes_pixels, pixels, quotient_of, whole, LARGEST,
};

verus! {

/// A visual line that a walk comes across, in the view or above it.
pub struct PlacedRow {
    /// Index of its line.
    pub line_i: int,
    /// Its index within the line.
    pub layout_i: int,
    /// Its top, from the top of the first line.
    pub top: Px,
    /// The visual line at its place in the view.
    pub run: RunView,
    /// Whether it is above the view.
    pub above: bool,
}

/// The visual lines that a walk comes across, from where it has come to.
pub open spec fn rows_from<M: PixelMath>(
    lines: Seq<Option<RunLine>>,
    frame: RunFrame,
    state: RunState,
) -> Seq<PlacedRow>
    decreases
            lines.len() - state.line_i,
            match lines[state.line_i] {
                Some(line) => line.layout.len() - state.layout_i,
                None => 0,
            },
{
    if state.line_i < 0 || state.line_i >= lines.len() || state.layout_i < 0 {
        seq![]
    } else {
        match lines[state.line_i] {
            None => seq![],
            Some(line) => if state.layout_i >= line.layout.len() {
                rows_from::<M>(
                    lines,
                    frame,
                    RunState { line_i: state.line_i + 1, layout_i: 0, ..state },
                )
            } else {
                let row = line.layout[state.layout_i];
                let run = frame.run::<M>(state.line_i, line, row, state.line_top);
                if frame.below::<M>(run, row) {
                    seq![]
                } else {
                    seq![
                        PlacedRow {
                            line_i: state.line_i,
                            layout_i: state.layout_i,
                            top: state.line_top,
                            run,
                            above: frame.above::<M>(run, row),
                        },
                    ] + rows_from::<M>(lines, frame, stepped::<M>(state, run.line_height))
                }
            },
        }
    }
}

/// A walk that has come past a visual line of the given height.
pub open spec fn stepped<M: PixelMath>(state: RunState, height: Px) -> RunState {
    RunState {
        layout_i: state.layout_i + 1,
        total_height: M::sum(state.total_height, height),
        line_top: M::sum(state.line_top, height),
        ..state
    }
}

/// Those of the visual lines that are not above the view.
pub open spec fn not_above(rows: Seq<PlacedRow>) -> Seq<RunView>
    decreases rows.len(),
{
    if rows.len() == 0 {
        seq![]
    } else if rows[0].above {
        not_above(rows.skip(1))
    } else {
        seq![rows[0].run] + not_above(rows.skip(1))
    }
}

/// Whether no visual line is above the view behind one that is not.
pub open spec fn in_one_piece(rows: Seq<PlacedRow>) -> bool {
    forall|k: int, l: int|
        0 <= k < l < rows.len() && !(#[trigger] rows[k]).above ==> !(#[trigger] rows[l]).above
}

/// The visual lines in the view are those that the walk comes across and that
/// are not above the view.
pub proof fn law_runs_are_the_rows_in_view<M: PixelMath>(
    lines: Seq<Option<RunLine>>,
    frame: RunFrame,
    state: RunState,
)
    ensures
        runs_from::<M>(lines, frame, state) == not_above(rows_from::<M>(lines, frame, state)),
    decreases
            lines.len() - state.line_i,
            match lines[state.line_i] {
                Some(line) => line.layout.len() - state.layout_i,
                None => 0,
            },
{
    if state.line_i < 0 || state.line_i >= lines.len() || state.layout_i < 0 {
    } else if let Some(line) = lines[state.line_i] {
        if state.layout_i >= line.layout.len() {
            law_runs_are_the_rows_in_view::<M>(
                lines,
                frame,
                RunState { line_i: state.line_i + 1, layout_i: 0, ..state },
            );
        } else {
            let row = line.layout[state.layout_i];
            let run = frame.run::<M>(state.line_i, line, row, state.line_top);
            let on = stepped::<M>(state, run.line_height);
            law_runs_are_the_rows_in_view::<M>(lines, frame, on);
            let rows = rows_from::<M>(lines, frame, state);
            if !frame.below::<M>(run, row) {
                assert(rows.skip(1) =~= rows_from::<M>(lines, frame, on));
            }
        }
    }
}

/// A walk goes on with a visual line at or behind the place that it has come
/// to; the lines in between have no visual lines.
proof fn lemma_first_row<M: PixelMath>(
    lines: Seq<Option<RunLine>>,
    frame: RunFrame,
    state: RunState,
)
    requires
        rows_from::<M>(lines, frame, state).len() > 0,
    ensures
        ({
            let first = rows_from::<M>(lines, frame, state)[0];
            &&& first.top == state.line_top
            &&& state.line_i <= first.line_i
            &&& forall|j: int|
                state.line_i < j < first.line_i ==> (#[trigger] lines[j] matches Some(line)
                    && line.layout.len() == 0)
        }),
    decreases
            lines.len() - state.line_i,
            match lines[state.line_i] {
                Some(line) => line.layout.len() - state.layout_i,
                None => 0,
            },
{
    let line = lines[state.line_i].unwrap();
    if state.layout_i >= line.layout.len() {
        let next = RunState { line_i: state.line_i + 1, layout_i: 0, ..state };
        lemma_first_row::<M>(lines, frame, next);
        let first = rows_from::<M>(lines, frame, next)[0];
        assert forall|j: int| state.line_i < j < first.line_i implies (#[trigger] lines[j] matches Some(
            line,
        ) && line.layout.len() == 0) by {
            if j == next.line_i {
                let at = lines[j].unwrap();
                if at.layout.len() > 0 {
                    let row = at.layout[0];
                    assert(first.line_i == j);
                }
            }
        }
    }
}

/// A visual line that a walk comes across is one of its line, at the place that
/// it has in the view.
pub proof fn law_rows_stand_in_their_place<M: PixelMath>(
    lines: Seq<Option<RunLine>>,
    frame: RunFrame,
    state: RunState,
    k: int,
)
    requires
        0 <= k < rows_from::<M>(lines, frame, state).len(),
    ensures
        ({
            let at = rows_from::<M>(lines, frame, state)[k];
            &&& state.line_i <= at.line_i < lines.len()
            &&& lines[at.line_i] matches Some(line) && {
                let row = line.layout[at.layout_i];
                &&& 0 <= at.layout_i < line.layout.len()
                &&& at.run == frame.run::<M>(at.line_i, line, row, at.top)
                &&& at.run.line_height == height_of(row, frame.line_height)
                &&& at.run.line_top == M::difference(at.top, frame.scroll)
                &&& at.above == frame.above::<M>(at.run, row)
                &&& !frame.below::<M>(at.run, row)
            }
        }),
    decreases
            lines.len() - state.line_i,
            match lines[state.line_i] {
                Some(line) => line.layout.len() - state.layout_i,
                None => 0,
            },
{
    let line = lines[state.line_i].unwrap();
    if state.layout_i >= line.layout.len() {
        law_rows_stand_in_their_place::<M>(
            lines,
            frame,
            RunState { line_i: state.line_i + 1, layout_i: 0, ..state },
            k,
        );
    } else if k > 0 {
        let row = line.layout[state.layout_i];
        let run = frame.run::<M>(state.line_i, line, row, state.line_top);
        law_rows_stand_in_their_place::<M>(
            lines,
            frame,
            stepped::<M>(state, run.line_height),
            k - 1,
        );
    }
}

/// A walk comes across one visual line after the other: the next one is on the
/// same line or on the next line that has any, and begins where the one before
/// it ends.
pub proof fn law_rows_follow_each_other<M: PixelMath>(
    lines: Seq<Option<RunLine>>,
    frame: RunFrame,
    state: RunState,
    k: int,
)
    requires
        0 <= k < rows_from::<M>(lines, frame, state).len() - 1,
    ensures
        ({
            let at = rows_from::<M>(lines, frame, state)[k];
            let next = rows_from::<M>(lines, frame, state)[k + 1];
            &&& at.line_i <= next.line_i
            &&& forall|j: int|
                at.line_i < j < next.line_i ==> (#[trigger] lines[j] matches Some(line)
                    && line.layout.len() == 0)
            &&& next.top == M::sum(at.top, at.run.line_height)
        }),
    decreases
            lines.len() - state.line_i,
            match lines[state.line_i] {
                Some(line) => line.layout.len() - state.layout_i,
                None => 0,
            },
{
    let line = lines[state.line_i].unwrap();
    if state.layout_i >= line.layout.len() {
        law_rows_follow_each_other::<M>(
            lines,
            frame,
            RunState { line_i: state.line_i + 1, layout_i: 0, ..state },
            k,
        );
    } else {
        let row = line.layout[state.layout_i];
        let run = frame.run::<M>(state.line_i, line, row, state.line_top);
        let on = stepped::<M>(state, run.line_height);
        if k == 0 {
            lemma_first_row::<M>(lines, frame, on);
        } else {
            law_rows_follow_each_other::<M>(lines, frame, on, k - 1);
        }
    }
}

/// The number of visual lines in front of the first one that is not above the
/// view.
pub open spec fn hidden_above(rows: Seq<PlacedRow>) -> int
    decreases rows.len(),
{
    if rows.len() == 0 || !rows[0].above {
        0
    } else {
        1 + hidden_above(rows.skip(1))
    }
}

/// What is shown in one piece is the end of what the walk comes across.
proof fn lemma_one_piece(rows: Seq<PlacedRow>)
    requires
        in_one_piece(rows),
    ensures
        0 <= hidden_above(rows) <= rows.len(),
        not_above(rows).len() == rows.len() - hidden_above(rows),
        forall|k: int|
            0 <= k < not_above(rows).len() ==> #[trigger] not_above(rows)[k] == rows[hidden_above(rows)
                + k].run,
    decreases rows.len(),
{
    if rows.len() > 0 {
        let rest = rows.skip(1);
        assert forall|k: int, l: int|
            0 <= k < l < rest.len() && !(#[trigger] rest[k]).above implies !(#[trigger] rest[l]).above by {
            assert(rest[k] == rows[k + 1] && rest[l] == rows[l + 1]);
        }
        lemma_one_piece(rest);
        if !rows[0].above {
            if rest.len() > 0 {
                assert(!rows[1].above);
                assert(rest[0] == rows[1]);
            }
            assert(hidden_above(rest) == 0);
            assert forall|k: int| 0 <= k < not_above(rows).len() implies #[trigger] not_above(rows)[k]
                == rows[k].run by {
                if k > 0 {
                    assert(not_above(rows)[k] == not_above(rest)[k - 1]);
                }
            }
        }
    }
}

/// Where the visual lines are shown in one piece, each is on the line of the
/// one before it or on the next line that has visual lines, and begins where
/// the one before it ends.
pub proof fn law_runs_follow_each_other<M: PixelMath>(
    lines: Seq<Option<RunLine>>,
    frame: RunFrame,
    state: RunState,
    k: int,
)
    requires
        0 <= state.line_i,
        lines.len() <= usize::MAX,
        in_one_piece(rows_from::<M>(lines, frame, state)),
        0 <= k < runs_from::<M>(lines, frame, state).len() - 1,
    ensures
        ({
            let run = runs_from::<M>(lines, frame, state)[k];
            let next = runs_from::<M>(lines, frame, state)[k + 1];
            &&& run.line_i <= next.line_i
            &&& forall|j: int|
                run.line_i < j < next.line_i ==> (#[trigger] lines[j] matches Some(line)
                    && line.layout.len() == 0)
            &&& exists|top: Px|
                run.line_top == M::difference(top, frame.scroll) && next.line_top == M::difference(
                    #[trigger] M::sum(top, run.line_height),
                    frame.scroll,
                )
        }),
{
    let rows = rows_from::<M>(lines, frame, state);
    law_runs_are_the_rows_in_view::<M>(lines, frame, state);
    lemma_one_piece(rows);
    let m = hidden_above(rows) + k;
    law_rows_follow_each_other::<M>(lines, frame, state, m);
    law_rows_stand_in_their_place::<M>(lines, frame, state, m);
    law_rows_stand_in_their_place::<M>(lines, frame, state, m + 1);
    let (run, next) = (rows[m].run, rows[m + 1].run);
    assert(not_above(rows)[k] == run);
    assert(not_above(rows)[k + 1] == next);
    assert(next.line_top == M::difference(M::sum(rows[m].top, run.line_height), frame.scroll));
}

/// Where every line that is laid out has a visual line, and they are shown in
/// one piece, each is on the line of the one before it or on the line after it.
pub proof fn law_runs_skip_no_line<M: PixelMath>(
    lines: Seq<Option<RunLine>>,
    frame: RunFrame,
    state: RunState,
    k: int,
)
    requires
        0 <= state.line_i,
        lines.len() <= usize::MAX,
        in_one_piece(rows_from::<M>(lines, frame, state)),
        0 <= k < runs_from::<M>(lines, frame, state).len() - 1,
        forall|j: int|
            0 <= j < lines.len() ==> (#[trigger] lines[j] matches Some(line) ==> line.layout.len() > 0),
    ensures
        ({
            let run = runs_from::<M>(lines, frame, state)[k];
            let next = runs_from::<M>(lines, frame, state)[k + 1];
            next.line_i == run.line_i || next.line_i == run.line_i + 1
        }),
{
    law_runs_follow_each_other::<M>(lines, frame, state, k);
    law_runs_are_in_order::<M>(lines, frame, state);
    let run = runs_from::<M>(lines, frame, state)[k];
    let next = runs_from::<M>(lines, frame, state)[k + 1];
    if run.line_i + 1 < next.line_i {
        assert(lines[run.line_i + 1] is Some);
    }
}

/// No visual line comes from a line at or behind the first one that is not laid
/// out.
pub proof fn law_runs_end_at_a_gap<M: PixelMath>(
    lines: Seq<Option<RunLine>>,
    frame: RunFrame,
    state: RunState,
    gap: int,
)
    requires
        0 <= state.line_i <= gap < lines.len(),
        lines.len() <= usize::MAX,
        lines[gap] is None,
    ensures
        forall|k: int|
            0 <= k < runs_from::<M>(lines, frame, state).len() ==> (#[trigger] runs_from::<M>(
                lines,
                frame,
                state,
            )[k]).line_i < gap,
    decreases
            lines.len() - state.line_i,
            match lines[state.line_i] {
                Some(line) => line.layout.len() - state.layout_i,
                None => 0,
            },
{
    if state.layout_i < 0 {
        assert(runs_from::<M>(lines, frame, state).len() == 0);
    } else if lines[state.line_i] is None {
        assert(runs_from::<M>(lines, frame, state).len() == 0);
    } else if let Some(line) = lines[state.line_i] {
        if state.layout_i >= line.layout.len() {
            let next = RunState { line_i: state.line_i + 1, layout_i: 0, ..state };
            law_runs_end_at_a_gap::<M>(lines, frame, next, gap);
            assert(runs_from::<M>(lines, frame, state) == runs_from::<M>(lines, frame, next));
        } else {
            let row = line.layout[state.layout_i];
            let run = frame.run::<M>(state.line_i, line, row, state.line_top);
            let on = stepped::<M>(state, run.line_height);
            law_runs_end_at_a_gap::<M>(lines, frame, on, gap);
            let rest = runs_from::<M>(lines, frame, on);
            let all = runs_from::<M>(lines, frame, state);
            if frame.below::<M>(run, row) {
                assert(all.len() == 0);
            } else if frame.above::<M>(run, row) {
                assert(all == rest);
            } else {
                assert(run.line_i == state.line_i);
                assert(state.line_i < gap);
                assert(all == seq![run] + rest);
                assert forall|k: int| 0 <= k < all.len() implies (#[trigger] all[k]).line_i < gap by {
                    if k > 0 {
                        assert(all[k] == rest[k - 1]);
                    }
                }
            }
        }
    }
}

impl Buffer {
    /// The view that a walk over the visual lines of a buffer is for.
    pub open spec fn run_frame(&self) -> RunFrame {
        RunFrame {
            height_opt: self.height_opt,
            line_height: self.metrics.line_height,
            scroll: self.scroll.vertical,
        }
    }

    /// Where a walk over the visual lines of a buffer starts.
    pub open spec fn run_begin(&self) -> RunState {
        RunState {
            line_i: self.scroll.line as int,
            layout_i: 0,
            total_height: zero(),
            line_top: zero(),
        }
    }

    /// The visual lines that a walk over those of a buffer comes across.
    pub open spec fn rows<M: PixelMath>(&self) -> Seq<PlacedRow> {
        rows_from::<M>(self.found_lines(), self.run_frame(), self.run_begin())
    }
}

/// Where the visual lines of a buffer are shown in one piece, each is on the
/// line of the one before it or on the next line that has visual lines, and
/// begins where the one before it ends.
pub proof fn law_views_show_one_row_after_the_other<M: PixelMath>(buffer: &Buffer, k: int)
    requires
        buffer.wf(),
        in_one_piece(buffer.rows::<M>()),
        0 <= k < buffer.runs::<M>().len() - 1,
    ensures
        ({
            let run = buffer.runs::<M>()[k];
            let next = buffer.runs::<M>()[k + 1];
            &&& run.line_i <= next.line_i
            &&& forall|j: int|
                run.line_i < j < next.line_i ==> (#[trigger] buffer.found_lines()[j] matches Some(line)
                    && line.layout.len() == 0)
            &&& exists|top: Px|
                run.line_top == M::difference(top, buffer.scroll.vertical) && next.line_top
                    == M::difference(
                    #[trigger] M::sum(top, run.line_height),
                    buffer.scroll.vertical,
                )
        }),
{
    lemma_count_fits(buffer);
    law_runs_follow_each_other::<M>(
        buffer.found_lines(),
        buffer.run_frame(),
        buffer.run_begin(),
        k,
    );
}

/// A buffer shows no visual line of a line at or behind the first one in its
/// view that is not laid out.
pub proof fn law_views_end_at_a_gap<M: PixelMath>(buffer: &Buffer, gap: int, k: int)
    requires
        buffer.wf(),
        buffer.scroll.line <= gap < buffer.count(),
        buffer.found_lines()[gap] is None,
        0 <= k < buffer.runs::<M>().len(),
    ensures
        buffer.runs::<M>()[k].line_i < gap,
{
    lemma_count_fits(buffer);
    law_runs_end_at_a_gap::<M>(
        buffer.found_lines(),
        buffer.run_frame(),
        buffer.run_begin(),
        gap,
    );
}

/// Whether visual line `k` of line `i` is found.
pub open spec fn has_row(lines: Seq<Option<RunLine>>, i: int, k: int) -> bool {
    0 <= i < lines.len() && (lines[i] matches Some(line) && 0 <= k < line.layout.len())
}

/// Visual line `k` of line `i`.
pub open spec fn row_of(lines: Seq<Option<RunLine>>, i: int, k: int) -> LayoutLineView {
    lines[i].unwrap().layout[k]
}

/// Height of a visual line in pixels: its own, or else `line_height`.
pub open spec fn row_px(row: LayoutLineView, line_height: Px) -> int {
    match row.line_height_opt {
        Some(own) => whole(own),
        None => whole(line_height),
    }
}

/// How far the glyphs of a visual line reach below its top, in pixels.
pub open spec fn reach_px(row: LayoutLineView, line_height: Px) -> int {
    let glyphs = whole(row.max_ascent) + whole(row.max_descent);
    quotient_of(row_px(row, line_height) - glyphs, 2) + glyphs
}

/// Height of the visual lines from visual line `k` of line `i` on, in pixels.
pub open spec fn ahead_px(lines: Seq<Option<RunLine>>, line_height: Px, i: int, k: int) -> int
    decreases
            lines.len() - i,
            match lines[i] {
                Some(line) => line.layout.len() - k,
                None => 0,
            },
{
    if i < 0 || i >= lines.len() || k < 0 {
        0
    } else {
        match lines[i] {
            None => 0,
            Some(line) => if k >= line.layout.len() {
                ahead_px(lines, line_height, i + 1, 0)
            } else {
                row_px(line.layout[k], line_height) + ahead_px(lines, line_height, i, k + 1)
            },
        }
    }
}

/// A number without its sign.
pub open spec fn absolute(n: int) -> int {
    if n < 0 {
        -n
    } else {
        n
    }
}

/// Whether no visual line is taller than `room` pixels or has glyphs that reach
/// further than that above or below their baseline, and the glyphs of none
/// reach further down than those of one that stands below it.
pub open spec fn orderly(lines: Seq<Option<RunLine>>, line_height: Px, room: int) -> bool {
    &&& forall|i: int, k: int| #[trigger]
        has_row(lines, i, k) ==> {
            let row = row_of(lines, i, k);
            &&& 0 <= row_px(row, line_height) <= room
            &&& absolute(whole(row.max_ascent)) <= room
            &&& absolute(whole(row.max_descent)) <= room
        }
    &&& forall|i: int, k: int, j: int, l: int| #[trigger]
        has_row(lines, i, k) && #[trigger] has_row(lines, j, l) ==> reach_px(
            row_of(lines, i, k),
            line_height,
        ) <= row_px(row_of(lines, i, k), line_height) + reach_px(row_of(lines, j, l), line_height)
}

/// Whether a walk over orderly lines adds up to numbers that are held exactly.
pub open spec fn countable_walk(
    lines: Seq<Option<RunLine>>,
    frame: RunFrame,
    state: RunState,
    room: int,
) -> bool {
    &&& orderly(lines, frame.line_height, room)
    &&& 0 <= room
    &&& 0 <= whole(state.line_top)
    &&& whole(state.line_top) + ahead_px(lines, frame.line_height, state.line_i, state.layout_i)
        + absolute(whole(frame.scroll)) + 6 * room <= LARGEST
}

/// Visual lines have no negative height together.
proof fn lemma_ahead(lines: Seq<Option<RunLine>>, line_height: Px, room: int, i: int, k: int)
    requires
        orderly(lines, line_height, room),
    ensures
        ahead_px(lines, line_height, i, k) >= 0,
    decreases
            lines.len() - i,
            match lines[i] {
                Some(line) => line.layout.len() - k,
                None => 0,
            },
{
    if i < 0 || i >= lines.len() || k < 0 {
    } else if let Some(line) = lines[i] {
        if k >= line.layout.len() {
            lemma_ahead(lines, line_height, room, i + 1, 0);
        } else {
            assert(has_row(lines, i, k));
            lemma_ahead(lines, line_height, room, i, k + 1);
        }
    }
}

/// Where the tops of the visual lines are.
proof fn lemma_tops(
    lines: Seq<Option<RunLine>>,
    frame: RunFrame,
    state: RunState,
    room: int,
    k: int,
)
    requires
        countable_walk(lines, frame, state, room),
        0 <= k < rows_from::<CellFont>(lines, frame, state).len(),
    ensures
        ({
            let at = rows_from::<CellFont>(lines, frame, state)[k];
            &&& whole(state.line_top) <= whole(at.top)
            &&& whole(at.top) + whole(at.run.line_height) <= whole(state.line_top) + ahead_px(
                lines,
                frame.line_height,
                state.line_i,
                state.layout_i,
            )
        }),
    decreases
            lines.len() - state.line_i,
            match lines[state.line_i] {
                Some(line) => line.layout.len() - state.layout_i,
                None => 0,
            },
{
    let line = lines[state.line_i].unwrap();
    if state.layout_i >= line.layout.len() {
        let next = RunState { line_i: state.line_i + 1, layout_i: 0, ..state };
        lemma_tops(lines, frame, next, room, k);
    } else {
        let row = line.layout[state.layout_i];
        let run = frame.run::<CellFont>(state.line_i, line, row, state.line_top);
        let on = stepped::<CellFont>(state, run.line_height);
        assert(has_row(lines, state.line_i, state.layout_i));
        lemma_ahead(lines, frame.line_height, room, state.line_i, state.layout_i + 1);
        if k > 0 {
            law_whole_undoes_pixels(whole(state.line_top) + whole(run.line_height));
            lemma_tops(lines, frame, on, room, k - 1);
        }
    }
}

/// Two is two pixels.
pub proof fn lemma_two()
    ensures
        whole(two()) == 2,
        zero() == pixels(0),
{
    reveal_with_fuel(crate::whole_pixels::halved, 30);
}

/// A half is no larger than the whole.
proof fn lemma_half(n: int)
    ensures
        absolute(quotient_of(n, 2)) <= absolute(n),
{
}

/// When a visual line is above the view.
proof fn lemma_above(frame: RunFrame, line_i: int, line: RunLine, row: LayoutLineView, top: Px, room: int)
    requires
        0 <= row_px(row, frame.line_height) <= room,
        absolute(whole(row.max_ascent)) <= room,
        absolute(whole(row.max_descent)) <= room,
        0 <= whole(top),
        whole(top) + absolute(whole(frame.scroll)) + 6 * room <= LARGEST,
    ensures
        ({
            let run = frame.run::<CellFont>(line_i, line, row, top);
            &&& whole(run.line_top) == whole(top) - whole(frame.scroll)
            &&& frame.above::<CellFont>(run, row) <==> whole(top) - whole(frame.scroll) + reach_px(
                row,
                frame.line_height,
            ) < 0
        }),
{
    let h = row_px(row, frame.line_height);
    let a = whole(row.max_ascent);
    let d = whole(row.max_descent);
    let t = whole(top) - whole(frame.scroll);
    let c = quotient_of(h - (a + d), 2);
    lemma_two();
    lemma_half(h - (a + d));
    law_whole_undoes_pixels(t);
    law_whole_undoes_pixels(a + d);
    law_whole_undoes_pixels(h - (a + d));
    law_whole_undoes_pixels(c);
    law_whole_undoes_pixels(t + c);
    law_whole_undoes_pixels(t + c + a);
    law_whole_undoes_pixels(t + c + a + d);
    law_pixels_keep_the_order(t + c + a + d, 0);
}

/// Behind a visual line that is not above the view, none is.
proof fn lemma_stays_in_view(
    lines: Seq<Option<RunLine>>,
    frame: RunFrame,
    state: RunState,
    room: int,
    k: int,
    l: int,
)
    requires
        countable_walk(lines, frame, state, room),
        0 <= k < l < rows_from::<CellFont>(lines, frame, state).len(),
        !rows_from::<CellFont>(lines, frame, state)[k].above,
    ensures
        !rows_from::<CellFont>(lines, frame, state)[l].above,
    decreases l - k,
{
    if k + 1 < l {
        lemma_stays_in_view(lines, frame, state, room, k, l - 1);
        lemma_stays_in_view(lines, frame, state, room, l - 1, l);
    } else {
        lemma_next_row(lines, frame, state, room, k);
    }
}

/// A visual line begins where the one before it ends, and is not above the view
/// if that one is not.
proof fn lemma_next_row(
    lines: Seq<Option<RunLine>>,
    frame: RunFrame,
    state: RunState,
    room: int,
    k: int,
)
    requires
        countable_walk(lines, frame, state, room),
        0 <= k < rows_from::<CellFont>(lines, frame, state).len() - 1,
    ensures
        ({
            let at = rows_from::<CellFont>(lines, frame, state)[k];
            let next = rows_from::<CellFont>(lines, frame, state)[k + 1];
            &&& !at.above ==> !next.above
            &&& whole(next.run.line_top) == whole(at.run.line_top) + whole(at.run.line_height)
        }),
{
    let rows = rows_from::<CellFont>(lines, frame, state);
    let (at, next) = (rows[k], rows[k + 1]);
    law_rows_follow_each_other::<CellFont>(lines, frame, state, k);
    law_rows_stand_in_their_place::<CellFont>(lines, frame, state, k);
    law_rows_stand_in_their_place::<CellFont>(lines, frame, state, k + 1);
    lemma_tops(lines, frame, state, room, k);
    lemma_tops(lines, frame, state, room, k + 1);
    assert(has_row(lines, at.line_i, at.layout_i));
    assert(has_row(lines, next.line_i, next.layout_i));
    let (row, below) = (
        row_of(lines, at.line_i, at.layout_i),
        row_of(lines, next.line_i, next.layout_i),
    );
    law_whole_undoes_pixels(whole(at.top) + whole(at.run.line_height));
    lemma_above(frame, at.line_i, lines[at.line_i].unwrap(), row, at.top, room);
    lemma_above(frame, next.line_i, lines[next.line_i].unwrap(), below, next.top, room);
}

/// Where heights are added up without loss, the visual lines of a view are
/// shown in one piece, each directly below the one before it, unless the glyphs
/// of one reach further down than those of another one that stands below it.
pub proof fn law_orderly_runs_stack_up(
    lines: Seq<Option<RunLine>>,
    frame: RunFrame,
    state: RunState,
    room: int,
)
    requires
        countable_walk(lines, frame, state, room),
    ensures
        in_one_piece(rows_from::<CellFont>(lines, frame, state)),
        forall|k: int|
            0 <= k < runs_from::<CellFont>(lines, frame, state).len() - 1 ==> whole(
                runs_from::<CellFont>(lines, frame, state)[k + 1].line_top,
            ) == whole((#[trigger] runs_from::<CellFont>(lines, frame, state)[k]).line_top) + whole(
                runs_from::<CellFont>(lines, frame, state)[k].line_height,
            ),
{
    let rows = rows_from::<CellFont>(lines, frame, state);
    let runs = runs_from::<CellFont>(lines, frame, state);
    assert forall|k: int, l: int|
        0 <= k < l < rows.len() && !(#[trigger] rows[k]).above implies !(#[trigger] rows[l]).above by {
        lemma_stays_in_view(lines, frame, state, room, k, l);
    }
    law_runs_are_the_rows_in_view::<CellFont>(lines, frame, state);
    lemma_one_piece(rows);
    assert forall|k: int| 0 <= k < runs.len() - 1 implies whole(runs[k + 1].line_top) == whole(
        (#[trigger] runs[k]).line_top,
    ) + whole(runs[k].line_height) by {
        let m = hidden_above(rows) + k;
        assert(not_above(rows)[k] == rows[m].run);
        assert(not_above(rows)[k + 1] == rows[m + 1].run);
        lemma_next_row(lines, frame, state, room, m);
    }
}

/// Whether `run` shows visual line `r` of `line`, which is line `i`: all that it
/// holds is that of the visual line, its height is the one that the visual line
/// has of its own, or else `line_height`, and its baseline is where the glyphs
/// are centred in that height.
pub open spec fn shows<M: PixelMath>(
    run: RunView,
    i: int,
    line: RunLine,
    r: int,
    line_height: Px,
) -> bool {
    let row = line.layout[r];
    &&& 0 <= r < line.layout.len()
    &&& run.line_i == i
    &&& run.text == line.text
    &&& run.rtl == line.rtl
    &&& run.glyphs == row.glyphs
    &&& run.decorations == row.decorations
    &&& run.line_w == row.w
    &&& row.line_height_opt matches Some(own) ==> run.line_height == own
    &&& row.line_height_opt is None ==> run.line_height == line_height
    &&& run.line_y == M::sum(
        M::sum(
            run.line_top,
            M::quotient(
                M::difference(run.line_height, M::sum(row.max_ascent, row.max_descent)),
                two(),
            ),
        ),
        row.max_ascent,
    )
}

/// What is not above the view is one of the visual lines that the walk comes
/// across.
proof fn lemma_not_above(rows: Seq<PlacedRow>, k: int) -> (m: int)
    requires
        0 <= k < not_above(rows).len(),
    ensures
        0 <= m < rows.len(),
        rows[m].run == not_above(rows)[k],
        !rows[m].above,
    decreases rows.len(),
{
    let rest = rows.skip(1);
    if rows[0].above {
        let m = lemma_not_above(rest, k);
        assert(rest[m] == rows[m + 1]);
        m + 1
    } else if k > 0 {
        let m = lemma_not_above(rest, k - 1);
        assert(rest[m] == rows[m + 1]);
        m + 1
    } else {
        0
    }
}

/// Each visual line in the view is one of its line: it has the glyphs, the
/// decorations and the width of it, its own height if it has one and that of
/// the buffer otherwise, and its glyphs are centred in that height. They do not
/// end above the view and do not begin below it.
pub proof fn law_runs_show_rows<M: PixelMath>(
    lines: Seq<Option<RunLine>>,
    frame: RunFrame,
    state: RunState,
    k: int,
)
    requires
        0 <= state.line_i,
        lines.len() <= usize::MAX,
        0 <= k < runs_from::<M>(lines, frame, state).len(),
    ensures
        ({
            let run = runs_from::<M>(lines, frame, state)[k];
            &&& state.line_i <= run.line_i < lines.len()
            &&& lines[run.line_i as int] matches Some(line) && exists|r: int|
                {
                    &&& #[trigger] shows::<M>(run, run.line_i as int, line, r, frame.line_height)
                    &&& !M::sum(run.line_y, line.layout[r].max_descent).lt(zero())
                    &&& frame.height_opt matches Some(height) ==> !height.lt(
                        M::difference(run.line_y, line.layout[r].max_ascent),
                    )
                }
        }),
{
    let rows = rows_from::<M>(lines, frame, state);
    law_runs_are_the_rows_in_view::<M>(lines, frame, state);
    let m = lemma_not_above(rows, k);
    law_rows_stand_in_their_place::<M>(lines, frame, state, m);
    let at = rows[m];
    assert(shows::<M>(at.run, at.line_i, lines[at.line_i].unwrap(), at.layout_i, frame.line_height));
}

/// Each visual line in the view of a buffer is one of its line, with its own
/// height if it has one and the line height of the buffer otherwise.
pub proof fn law_views_show_rows<M: PixelMath>(buffer: &Buffer, k: int)
    requires
        buffer.wf(),
        0 <= k < buffer.runs::<M>().len(),
    ensures
        ({
            let run = buffer.runs::<M>()[k];
            &&& buffer.scroll.line <= run.line_i < buffer.count()
            &&& buffer.found_lines()[run.line_i as int] matches Some(line) && exists|r: int|
                {
                    &&& #[trigger] shows::<M>(
                        run,
                        run.line_i as int,
                        line,
                        r,
                        buffer.metrics.line_height,
                    )
                    &&& !M::sum(run.line_y, line.layout[r].max_descent).lt(zero())
                    &&& buffer.height_opt matches Some(height) ==> !height.lt(
                        M::difference(run.line_y, line.layout[r].max_ascent),
                    )
                }
        }),
{
    lemma_count_fits(buffer);
    law_runs_show_rows::<M>(buffer.found_lines(), buffer.run_frame(), buffer.run_begin(), k);
}

/// How far the glyphs of a visual line begin below its top, in pixels: they are
/// in the middle of it.
pub open spec fn glyphs_px(row: LayoutLineView, line_height: Px) -> int {
    quotient_of(
        row_px(row, line_height) - (whole(row.max_ascent) + whole(row.max_descent)),
        2,
    )
}

/// When a visual line is below the view.
proof fn lemma_below(
    frame: RunFrame,
    line_i: int,
    line: RunLine,
    row: LayoutLineView,
    top: Px,
    room: int,
    height: Px,
)
    requires
        0 <= row_px(row, frame.line_height) <= room,
        absolute(whole(row.max_ascent)) <= room,
        absolute(whole(row.max_descent)) <= room,
        0 <= whole(top),
        whole(top) + absolute(whole(frame.scroll)) + 6 * room <= LARGEST,
        frame.height_opt == Some(height),
        height == pixels(whole(height)),
    ensures
        frame.below::<CellFont>(frame.run::<CellFont>(line_i, line, row, top), row) <==> whole(height)
            < whole(top) - whole(frame.scroll) + glyphs_px(row, frame.line_height),
{
    let h = row_px(row, frame.line_height);
    let a = whole(row.max_ascent);
    let d = whole(row.max_descent);
    let t = whole(top) - whole(frame.scroll);
    let c = quotient_of(h - (a + d), 2);
    lemma_two();
    lemma_half(h - (a + d));
    law_whole_undoes_pixels(t);
    law_whole_undoes_pixels(a + d);
    law_whole_undoes_pixels(h - (a + d));
    law_whole_undoes_pixels(c);
    law_whole_undoes_pixels(t + c);
    law_whole_undoes_pixels(t + c + a);
    law_whole_undoes_pixels(whole(height));
    law_pixels_keep_the_order(whole(height), t + c);
}

/// Whether visual line `r` of line `i` is still to come.
pub open spec fn to_come(state: RunState, i: int, r: int) -> bool {
    state.line_i < i || (state.line_i == i && state.layout_i <= r)
}

/// Where heights are added up without loss, every visual line of which a part is
/// in the view is shown, as far down as the lines are laid out and none of the
/// visual lines begins below the view. It is shown where the heights of those
/// in front of it put it. `end` is the bottom of the last visual line; the
/// result tells which of those in the view it is.
pub proof fn law_rows_in_view_are_shown(
    lines: Seq<Option<RunLine>>,
    frame: RunFrame,
    state: RunState,
    room: int,
    end: int,
    i: int,
    r: int,
) -> (k: int)
    requires
        countable_walk(lines, frame, state, room),
        lines.len() <= usize::MAX,
        0 <= state.line_i,
        0 <= state.layout_i,
        end == whole(state.line_top) + ahead_px(
            lines,
            frame.line_height,
            state.line_i,
            state.layout_i,
        ),
        has_row(lines, i, r),
        to_come(state, i, r),
        forall|j: int| state.line_i <= j <= i ==> (#[trigger] lines[j]) is Some,
        frame.height_opt matches Some(height) ==> height == pixels(whole(height)) && forall|
            j: int,
            q: int,
        | #[trigger]
            has_row(lines, j, q) && to_come(state, j, q) && (j < i || (j == i && q <= r)) ==> end
                - ahead_px(lines, frame.line_height, j, q) - whole(frame.scroll) + glyphs_px(
                row_of(lines, j, q),
                frame.line_height,
            ) <= whole(height),
        end - ahead_px(lines, frame.line_height, i, r) - whole(frame.scroll) + reach_px(
            row_of(lines, i, r),
            frame.line_height,
        ) >= 0,
    ensures
        0 <= k < runs_from::<CellFont>(lines, frame, state).len(),
        shows::<CellFont>(
            runs_from::<CellFont>(lines, frame, state)[k],
            i,
            lines[i].unwrap(),
            r,
            frame.line_height,
        ),
        whole(runs_from::<CellFont>(lines, frame, state)[k].line_top) == end - ahead_px(
            lines,
            frame.line_height,
            i,
            r,
        ) - whole(frame.scroll),
    decreases
            lines.len() - state.line_i,
            match lines[state.line_i] {
                Some(line) => line.layout.len() - state.layout_i,
                None => 0,
            },
{
    assert(lines[state.line_i] is Some);
    let line = lines[state.line_i].unwrap();
    if state.layout_i >= line.layout.len() {
        let next = RunState { line_i: state.line_i + 1, layout_i: 0, ..state };
        assert forall|j: int, q: int| #[trigger]
            has_row(lines, j, q) && to_come(next, j, q) implies to_come(state, j, q) by {}
        assert(runs_from::<CellFont>(lines, frame, state) == runs_from::<CellFont>(
            lines,
            frame,
            next,
        ));
        law_rows_in_view_are_shown(lines, frame, next, room, end, i, r)
    } else {
        let row = line.layout[state.layout_i];
        let run = frame.run::<CellFont>(state.line_i, line, row, state.line_top);
        let on = stepped::<CellFont>(state, run.line_height);
        let all = runs_from::<CellFont>(lines, frame, state);
        let rest = runs_from::<CellFont>(lines, frame, on);
        assert(has_row(lines, state.line_i, state.layout_i));
        assert(row == row_of(lines, state.line_i, state.layout_i));
        lemma_ahead(lines, frame.line_height, room, state.line_i, state.layout_i + 1);
        law_whole_undoes_pixels(whole(state.line_top) + whole(run.line_height));
        lemma_above(frame, state.line_i, line, row, state.line_top, room);
        if let Some(height) = frame.height_opt {
            lemma_below(frame, state.line_i, line, row, state.line_top, room, height);
        }
        assert(!frame.below::<CellFont>(run, row));
        if state.line_i == i && state.layout_i == r {
            assert(all == seq![run] + rest);
            0
        } else {
            assert forall|j: int, q: int| #[trigger]
                has_row(lines, j, q) && to_come(on, j, q) implies to_come(state, j, q) by {}
            let k = law_rows_in_view_are_shown(lines, frame, on, room, end, i, r);
            if frame.above::<CellFont>(run, row) {
                assert(all == rest);
                k
            } else {
                assert(all == seq![run] + rest);
                assert(all[k + 1] == rest[k]);
                k + 1
            }
        }
    }
}

/// The glyphs of a visual line in the view are in the middle of its height, to a
/// pixel.
pub proof fn law_glyphs_are_centred(
    run: RunView,
    i: int,
    line: RunLine,
    r: int,
    line_height: Px,
    room: int,
)
    requires
        shows::<CellFont>(run, i, line, r, line_height),
        0 <= whole(run.line_height) <= room,
        absolute(whole(line.layout[r].max_ascent)) <= room,
        absolute(whole(line.layout[r].max_descent)) <= room,
        absolute(whole(run.line_top)) + 6 * room <= LARGEST,
    ensures
        ({
            let top = whole(run.line_y) - whole(line.layout[r].max_ascent);
            let bottom = whole(run.line_y) + whole(line.layout[r].max_descent);
            let above = top - whole(run.line_top);
            let below = whole(run.line_top) + whole(run.line_height) - bottom;
            -1 <= above - below <= 1
        }),
{
    let h = whole(run.line_height);
    let a = whole(line.layout[r].max_ascent);
    let d = whole(line.layout[r].max_descent);
    let t = whole(run.line_top);
    let c = quotient_of(h - (a + d), 2);
    lemma_two();
    lemma_half(h - (a + d));
    law_whole_undoes_pixels(a + d);
    law_whole_undoes_pixels(h - (a + d));
    law_whole_undoes_pixels(c);
    law_whole_undoes_pixels(t + c);
    law_whole_undoes_pixels(t + c + a);
}

} // verus!
