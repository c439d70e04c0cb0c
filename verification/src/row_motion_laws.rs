//! What holds of motions from one visual line to another.

use vstd::prelude::*;

use crate::buffer::Page;
use crate::cursor::{Affinity, Cursor, LayoutCursor, Motion};
use crate::layout::{LayoutGlyph, LayoutLineView};
use crate::motion::{
    at_place_on, boundary_from, boundary_in, moved, place_in, ratio, shown_above, shown_below,
};
use crate::motion_laws::{
    law_vertical_is_line_by_line, lemma_shown_above, lemma_shown_below, repeated, whole_page,
};
use crate::pixel::{PixelMath, Px};

verus! {

/// Whether a cursor is at the left edge of a glyph: in front of one from left to
/// right, or behind one from right to left.
pub open spec fn at_left_edge(glyph: LayoutGlyph, cursor: Cursor) -> bool {
    if glyph.rtl {
        cursor.index == glyph.end && cursor.affinity == Affinity::Before
    } else {
        cursor.index == glyph.start && cursor.affinity == Affinity::After
    }
}

/// Whether a cursor is at the right edge of a glyph: behind one from left to
/// right, or in front of one from right to left.
pub open spec fn at_right_edge(glyph: LayoutGlyph, cursor: Cursor) -> bool {
    if glyph.rtl {
        cursor.index == glyph.start && cursor.affinity == Affinity::After
    } else {
        cursor.index == glyph.end && cursor.affinity == Affinity::Before
    }
}

/// Whether a cursor is at an edge of a glyph.
pub open spec fn at_edge(glyph: LayoutGlyph, cursor: Cursor) -> bool {
    at_left_edge(glyph, cursor) || at_right_edge(glyph, cursor)
}

/// Whether a cursor is at an edge of a glyph of a visual line.
pub open spec fn is_on_row(row: LayoutLineView, cursor: Cursor) -> bool {
    exists|g: int| 0 <= g < row.glyphs.len() && at_edge(#[trigger] row.glyphs[g], cursor)
}

/// Whether a cursor is in column `column` of a visual line: in front of the
/// glyph there or, if there are not as many glyphs, behind the last one.
pub open spec fn is_in_column(row: LayoutLineView, column: int, cursor: Cursor) -> bool {
    if 0 <= column < row.glyphs.len() {
        cursor.index == row.glyphs[column].start && cursor.affinity == Affinity::After
    } else if row.glyphs.len() > 0 {
        cursor.index == row.glyphs[row.glyphs.len() - 1].end && cursor.affinity == Affinity::Before
    } else {
        cursor.index == 0 && cursor.affinity == Affinity::After
    }
}

proof fn lemma_boundary_in(glyphs: Seq<LayoutGlyph>, cursor: Cursor, from: int)
    requires
        0 <= from <= glyphs.len(),
    ensures
        match boundary_in(glyphs, cursor, from) {
            Some(b) => exists|g: int|
                {
                    &&& from <= g < glyphs.len()
                    &&& at_edge(#[trigger] glyphs[g], cursor)
                    &&& b == if at_left_edge(glyphs[g], cursor) {
                        g
                    } else {
                        g + 1
                    }
                    &&& forall|k: int| from <= k < g ==> !at_edge(#[trigger] glyphs[k], cursor)
                },
            None => forall|k: int| from <= k < glyphs.len() ==> !at_edge(#[trigger] glyphs[k], cursor),
        },
    decreases glyphs.len() - from,
{
    if from < glyphs.len() {
        if at_edge(glyphs[from], cursor) {
        } else {
            lemma_boundary_in(glyphs, cursor, from + 1);
        }
    }
}

proof fn lemma_boundary_from(rows: Seq<LayoutLineView>, cursor: Cursor, from: int)
    requires
        0 <= from <= rows.len(),
    ensures
        match boundary_from(rows, cursor, from) {
            Some((k, b)) => {
                &&& from <= k < rows.len()
                &&& boundary_in(rows[k].glyphs, cursor, 0) == Some(b)
                &&& is_on_row(rows[k], cursor)
                &&& forall|l: int| from <= l < k ==> !is_on_row(#[trigger] rows[l], cursor)
            },
            None => forall|l: int| from <= l < rows.len() ==> !is_on_row(#[trigger] rows[l], cursor),
        },
    decreases rows.len() - from,
{
    if from < rows.len() {
        lemma_boundary_in(rows[from].glyphs, cursor, 0);
        if boundary_in(rows[from].glyphs, cursor, 0) is None {
            lemma_boundary_from(rows, cursor, from + 1);
        }
    }
}

/// The place of a cursor is on the first visual line of its line on which it is
/// at an edge of a glyph, at that edge: the left edge of glyph `g` is edge `g`,
/// the right one is edge `g + 1`. If it is at no glyph its place is the start
/// of the line.
pub proof fn law_place_of_a_cursor(rows: Seq<LayoutLineView>, cursor: Cursor)
    requires
        rows.len() <= usize::MAX,
        forall|k: int| 0 <= k < rows.len() ==> (#[trigger] rows[k]).glyphs.len() < usize::MAX,
    ensures
        ({
            let place = place_in(rows, cursor);
            &&& place.line == cursor.line
            &&& (exists|k: int| 0 <= k < rows.len() && is_on_row(#[trigger] rows[k], cursor)) ==> {
                &&& place.layout < rows.len()
                &&& forall|k: int|
                    0 <= k < place.layout ==> !is_on_row(#[trigger] rows[k], cursor)
                &&& exists|g: int|
                    {
                        let glyphs = rows[place.layout as int].glyphs;
                        &&& 0 <= g < glyphs.len()
                        &&& at_edge(#[trigger] rows[place.layout as int].glyphs[g], cursor)
                        &&& at_left_edge(glyphs[g], cursor) ==> place.glyph == g
                        &&& !at_left_edge(glyphs[g], cursor) ==> place.glyph == g + 1
                        &&& forall|j: int| 0 <= j < g ==> !at_edge(#[trigger] glyphs[j], cursor)
                    }
            }
            &&& !(exists|k: int| 0 <= k < rows.len() && is_on_row(#[trigger] rows[k], cursor)) ==> {
                &&& place.layout == 0
                &&& place.glyph == 0
            }
        }),
{
    lemma_boundary_from(rows, cursor, 0);
    if let Some((k, b)) = boundary_from(rows, cursor, 0) {
        lemma_boundary_in(rows[k].glyphs, cursor, 0);
        assert(is_on_row(rows[k], cursor));
        let glyphs = rows[k].glyphs;
        let g = choose|g: int|
            {
                &&& 0 <= g < glyphs.len()
                &&& at_edge(#[trigger] glyphs[g], cursor)
                &&& b == if at_left_edge(glyphs[g], cursor) {
                    g
                } else {
                    g + 1
                }
                &&& forall|j: int| 0 <= j < g ==> !at_edge(#[trigger] glyphs[j], cursor)
            };
        assert(at_edge(rows[place_in(rows, cursor).layout as int].glyphs[g], cursor));
    }
}

/// A place in the layout is on the visual line and in the column that it names;
/// on the last visual line if there are not as many.
pub proof fn law_cursor_of_a_place(page: Page, place: LayoutCursor)
    ensures
        match at_place_on(page, place) {
            Some(cursor) => {
                let rows = page.layouts[place.line as int];
                &&& place.line < page.texts.len()
                &&& rows.len() > 0
                &&& cursor.line == place.line
                &&& place.layout < rows.len() ==> is_in_column(
                    rows[place.layout as int],
                    place.glyph as int,
                    cursor,
                )
                &&& place.layout >= rows.len() ==> is_in_column(
                    rows[rows.len() - 1],
                    place.glyph as int,
                    cursor,
                )
            },
            None => place.line >= page.texts.len() || page.layouts[place.line as int].len() == 0,
        },
{
}

/// Whether `to` is the nearest line in front of `from` that is not hidden.
pub open spec fn is_next_above(page: Page, to: int, from: int) -> bool {
    &&& 0 <= to < from
    &&& !page.hidden[to]
    &&& forall|l: int| to < l < from ==> #[trigger] page.hidden[l]
}

/// Whether `to` is the nearest line behind `from` that is not hidden.
pub open spec fn is_next_below(page: Page, to: int, from: int) -> bool {
    &&& from < to < page.texts.len()
    &&& !page.hidden[to]
    &&& forall|l: int| from < l < to ==> #[trigger] page.hidden[l]
}

/// The column that a vertical motion keeps to: the one that it is given, or else
/// the one of the cursor.
pub open spec fn is_column(page: Page, cursor: Cursor, x_opt: Option<i32>, column: i32) -> bool {
    &&& x_opt matches Some(x) ==> column == x
    &&& x_opt is None ==> column == place_in(page.layouts[cursor.line as int], cursor).glyph
    &&& 0 <= column
}

/// Going down leads to the next visual line of the same line, in the column that
/// is kept to. From the last visual line it leads to the first one of the
/// nearest line below that is not hidden, and if there is none it stays on the
/// visual line.
pub proof fn law_down_is_one_row<M: PixelMath>(
    page: Page,
    height_opt: Option<Px>,
    line_height: Px,
    cursor: Cursor,
    x_opt: Option<i32>,
    column: i32,
)
    requires
        whole_page(page),
        cursor.line < page.texts.len(),
        is_column(page, cursor, x_opt, column),
        forall|l: int| 0 <= l < page.texts.len() ==> (#[trigger] page.layouts[l]).len() > 0,
        page.layouts[cursor.line as int].len() <= usize::MAX,
    ensures
        ({
            let line = cursor.line as int;
            let k = place_in(page.layouts[line], cursor).layout as int;
            let last = page.layouts[line].len() - 1;
            &&& moved::<M>(
                page,
                height_opt,
                line_height,
                cursor,
                x_opt,
                Motion::Down,
            ) matches Some((there, x)) && {
                &&& x == Some(column)
                &&& k < last ==> there.line == line && is_in_column(
                    page.layouts[line][k + 1],
                    column as int,
                    there,
                )
                &&& forall|to: int| #[trigger]
                    is_next_below(page, to, line) && k >= last ==> there.line == to && is_in_column(
                        page.layouts[to][0],
                        column as int,
                        there,
                    )
                &&& (forall|l: int| line < l < page.texts.len() ==> #[trigger] page.hidden[l]) && k
                    >= last ==> there.line == line && is_in_column(
                    page.layouts[line][last],
                    column as int,
                    there,
                )
            }
        }),
{
    let line = cursor.line as int;
    lemma_shown_below(page, line);
    lemma_boundary_from(page.layouts[line], cursor, 0);
    assert forall|to: int| #[trigger] is_next_below(page, to, line) implies shown_below(
        page,
        line,
    ) == Some(to) by {
        match shown_below(page, line) {
            Some(below) => {
                if below < to {
                    assert(page.hidden[below]);
                } else if to < below {
                    assert(page.hidden[to]);
                }
            },
            None => {
                assert(page.hidden[to]);
            },
        }
    }
}

/// Going up leads to the visual line in front of the same line, in the column
/// that is kept to. From the first visual line it leads to the last one of the
/// nearest line above that is not hidden, and if there is none it stays on the
/// visual line.
pub proof fn law_up_is_one_row<M: PixelMath>(
    page: Page,
    height_opt: Option<Px>,
    line_height: Px,
    cursor: Cursor,
    x_opt: Option<i32>,
    column: i32,
)
    requires
        whole_page(page),
        cursor.line < page.texts.len(),
        is_column(page, cursor, x_opt, column),
        forall|l: int|
            0 <= l < page.texts.len() ==> 0 < (#[trigger] page.layouts[l]).len() <= usize::MAX,
    ensures
        ({
            let line = cursor.line as int;
            let k = place_in(page.layouts[line], cursor).layout as int;
            &&& moved::<M>(
                page,
                height_opt,
                line_height,
                cursor,
                x_opt,
                Motion::Up,
            ) matches Some((there, x)) && {
                &&& x == Some(column)
                &&& k > 0 ==> there.line == line && is_in_column(
                    page.layouts[line][k - 1],
                    column as int,
                    there,
                )
                &&& forall|to: int| #[trigger]
                    is_next_above(page, to, line) && k == 0 ==> there.line == to && is_in_column(
                        page.layouts[to][page.layouts[to].len() - 1],
                        column as int,
                        there,
                    )
                &&& (forall|l: int| 0 <= l < line ==> #[trigger] page.hidden[l]) && k == 0
                    ==> there.line == line && is_in_column(
                    page.layouts[line][0],
                    column as int,
                    there,
                )
            }
        }),
{
    let line = cursor.line as int;
    lemma_shown_above(page, line);
    lemma_boundary_from(page.layouts[line], cursor, 0);
    assert forall|to: int| #[trigger] is_next_above(page, to, line) implies shown_above(
        page,
        line,
    ) == Some(to) by {
        match shown_above(page, line) {
            Some(above) => {
                if above > to {
                    assert(page.hidden[above]);
                } else if to > above {
                    assert(page.hidden[to]);
                }
            },
            None => {
                assert(page.hidden[to]);
            },
        }
    }
}

/// A motion to a place in the layout leads to the cursor at that place, and the
/// column that is kept to stays.
pub proof fn law_going_to_a_place<M: PixelMath>(
    page: Page,
    height_opt: Option<Px>,
    line_height: Px,
    cursor: Cursor,
    x_opt: Option<i32>,
    place: LayoutCursor,
)
    requires
        place.line < page.texts.len(),
        page.layouts[place.line as int].len() > 0,
    ensures
        ({
            let rows = page.layouts[place.line as int];
            &&& moved::<M>(
                page,
                height_opt,
                line_height,
                cursor,
                x_opt,
                Motion::LayoutCursor(place),
            ) matches Some((there, x)) && {
                &&& x == x_opt
                &&& there.line == place.line
                &&& place.layout < rows.len() ==> is_in_column(
                    rows[place.layout as int],
                    place.glyph as int,
                    there,
                )
                &&& place.layout >= rows.len() ==> is_in_column(
                    rows[rows.len() - 1],
                    place.glyph as int,
                    there,
                )
            }
        }),
{
}

/// A motion to a line leads to the visual line of that line with the index that
/// the one of the cursor has in its own line, in the same column; to the last
/// one if there are not as many.
pub proof fn law_going_to_a_line<M: PixelMath>(
    page: Page,
    height_opt: Option<Px>,
    line_height: Px,
    cursor: Cursor,
    x_opt: Option<i32>,
    to: usize,
)
    requires
        cursor.line < page.texts.len(),
        to < page.texts.len(),
        page.layouts[to as int].len() > 0,
    ensures
        ({
            let place = place_in(page.layouts[cursor.line as int], cursor);
            let rows = page.layouts[to as int];
            &&& moved::<M>(
                page,
                height_opt,
                line_height,
                cursor,
                x_opt,
                Motion::GotoLine(to),
            ) matches Some((there, x)) && {
                &&& x == x_opt
                &&& there.line == to
                &&& place.layout < rows.len() ==> is_in_column(
                    rows[place.layout as int],
                    place.glyph as int,
                    there,
                )
                &&& place.layout >= rows.len() ==> is_in_column(
                    rows[rows.len() - 1],
                    place.glyph as int,
                    there,
                )
            }
        }),
{
}

/// A motion down by a number of pixels that holds `n` whole lines is `n` motions
/// down, and one up by as many is `n` motions up.
pub proof fn law_vertical_counts_whole_lines<M: PixelMath>(
    page: Page,
    height_opt: Option<Px>,
    line_height: Px,
    cursor: Cursor,
    x_opt: Option<i32>,
    px: i32,
    n: nat,
)
    requires
        M::truncated(line_height) > 0,
        px >= 0 ==> n * M::truncated(line_height) <= px < (n + 1) * M::truncated(line_height),
        px < 0 ==> n * M::truncated(line_height) <= -px < (n + 1) * M::truncated(line_height),
    ensures
        moved::<M>(page, height_opt, line_height, cursor, x_opt, Motion::Vertical(px))
            == repeated::<M>(
            page,
            height_opt,
            line_height,
            cursor,
            x_opt,
            if px >= 0 {
                Motion::Down
            } else {
                Motion::Up
            },
            n,
        ),
{
    let l = M::truncated(line_height) as int;
    let size = if px < 0 {
        -px
    } else {
        px as int
    };
    assert(size / l == n) by (nonlinear_arith)
        requires
            l > 0,
            n * l <= size < (n + 1) * l,
            n >= 0,
    ;
    assert(ratio(px as int, l) == if px < 0 {
        -n
    } else {
        n as int
    });
    law_vertical_is_line_by_line::<M>(page, height_opt, line_height, cursor, x_opt, px);
}

} // verus!
