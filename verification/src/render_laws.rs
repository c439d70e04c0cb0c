//! What holds of drawing whatever is drawn.

use vstd::prelude::*;

use crate::attrs::Color;
use crate::render::{marks, run_marks, DrawList, Drawn, Mark, Renderer};
use crate::runs::RunView;

verus! {

/// How many glyphs and decorations the first `i` of the visual lines have
/// together.
pub open spec fn parts_before(runs: Seq<RunView>, i: int) -> int
    decreases i,
{
    if i <= 0 {
        0
    } else {
        parts_before(runs, i - 1) + runs[i - 1].glyphs.len() + runs[i - 1].decorations.len()
    }
}

/// The visual lines up to the one at `i` have as many parts as among more of
/// them.
proof fn lemma_parts(runs: Seq<RunView>, n: int, i: int)
    requires
        0 <= i <= n <= runs.len(),
    ensures
        parts_before(runs.take(n), i) == parts_before(runs, i),
        parts_before(runs, i) <= parts_before(runs, n),
    decreases i, n - i,
{
    if i > 0 {
        lemma_parts(runs, n, i - 1);
        assert(runs.take(n)[i - 1] == runs[i - 1]);
    }
    if i < n {
        lemma_grows(runs, i, n);
    }
}

proof fn lemma_grows(runs: Seq<RunView>, i: int, n: int)
    requires
        0 <= i <= n,
    ensures
        parts_before(runs, i) <= parts_before(runs, n),
    decreases n - i,
{
    if i < n {
        lemma_grows(runs, i, n - 1);
    }
}

/// Each glyph and each decoration of the view is drawn once, and nothing else.
pub proof fn law_as_much_is_drawn_as_there_is(runs: Seq<RunView>, color: Color)
    ensures
        marks(runs, color).len() == parts_before(runs, runs.len() as int),
    decreases runs.len(),
{
    if runs.len() > 0 {
        let front = runs.drop_last();
        law_as_much_is_drawn_as_there_is(front, color);
        assert(front =~= runs.take(runs.len() - 1));
        lemma_parts(runs, runs.len() - 1, runs.len() - 1);
    }
}

/// Glyph `g` of visual line `i` is drawn on the baseline of that visual line,
/// in its own colour or, if it has none, in the given one. What is in front of
/// it in the view has been drawn before it: the visual lines above, with their
/// decorations, and the glyphs in front of it.
pub proof fn law_each_glyph_is_drawn(runs: Seq<RunView>, color: Color, i: int, g: int)
    requires
        0 <= i < runs.len(),
        0 <= g < runs[i].glyphs.len(),
    ensures
        parts_before(runs, i) + g < marks(runs, color).len(),
        marks(runs, color)[parts_before(runs, i) + g] matches Mark::Glyph {
            glyph,
            line_y,
            color: used,
        } && {
            &&& glyph == runs[i].glyphs[g]
            &&& line_y == runs[i].line_y
            &&& glyph.color_opt matches Some(own) ==> used == own
            &&& glyph.color_opt is None ==> used == color
        },
    decreases runs.len(),
{
    let front = runs.drop_last();
    law_as_much_is_drawn_as_there_is(front, color);
    law_as_much_is_drawn_as_there_is(runs, color);
    assert(front =~= runs.take(runs.len() - 1));
    lemma_parts(runs, runs.len() - 1, i);
    lemma_grows(runs, 0, i);
    if i < runs.len() - 1 {
        assert(front[i] == runs[i]);
        law_each_glyph_is_drawn(front, color, i, g);
        assert(marks(runs, color)[parts_before(runs, i) + g] == marks(front, color)[parts_before(
            runs,
            i,
        ) + g]);
    } else {
        assert(marks(runs, color)[parts_before(runs, i) + g] == run_marks(runs[i], color)[g]);
    }
}

/// Decoration `d` of visual line `i` is drawn over the glyphs of that visual
/// line, on its baseline, behind all of them and in front of the next visual
/// line.
pub proof fn law_each_decoration_is_drawn(runs: Seq<RunView>, color: Color, i: int, d: int)
    requires
        0 <= i < runs.len(),
        0 <= d < runs[i].decorations.len(),
    ensures
        parts_before(runs, i) + runs[i].glyphs.len() + d < marks(runs, color).len(),
        marks(runs, color)[parts_before(runs, i) + runs[i].glyphs.len() + d] == (Mark::Decoration {
            line_y: runs[i].line_y,
            glyphs: runs[i].glyphs,
            span: runs[i].decorations[d],
            color,
        }),
    decreases runs.len(),
{
    let front = runs.drop_last();
    law_as_much_is_drawn_as_there_is(front, color);
    law_as_much_is_drawn_as_there_is(runs, color);
    assert(front =~= runs.take(runs.len() - 1));
    lemma_parts(runs, runs.len() - 1, i);
    lemma_grows(runs, 0, i);
    if i < runs.len() - 1 {
        assert(front[i] == runs[i]);
        law_each_decoration_is_drawn(front, color, i, d);
        assert(marks(runs, color)[parts_before(runs, i) + runs[i].glyphs.len() + d] == marks(front, color)[parts_before(
            runs,
            i,
        ) + runs[i].glyphs.len() + d]);
    } else {
        assert(marks(runs, color)[parts_before(runs, i) + runs[i].glyphs.len() + d] == run_marks(runs[i], color)[runs[i].glyphs.len() + d]);
    }
}

/// What has been drawn on a list is what the list holds, entry by entry.
pub proof fn law_lists_hold_what_is_drawn(list: &DrawList, i: int)
    requires
        0 <= i < list.entries@.len(),
    ensures
        list.drawn().len() == list.entries@.len(),
        match list.entries@[i] {
            Drawn::Glyph { glyph, line_y, color } => list.drawn()[i] == (Mark::Glyph {
                glyph,
                line_y,
                color,
            }),
            Drawn::Decoration { line_y, glyphs, span, color } => list.drawn()[i]
                == (Mark::Decoration { line_y, glyphs: glyphs@, span, color }),
        },
{
}

} // verus!
