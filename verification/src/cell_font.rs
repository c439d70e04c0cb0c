//! A font of cells: every character is as wide as every other.

use vstd::prelude::*;
use vstd::utf8::*;

use crate::attrs::{attrs_at, AttrsList, AttrsListView};
use crate::layout::{
    layout_view, shape_fits, Direction, FontSystem, LayoutGlyph, LayoutLine, LayoutLineView,
    LayoutParams, ShapeGlyph, ShapeLine, ShapeLineView, Shaping, Wrap,
};
use crate::pixel::{PixelMath, Px};
use crate::text::{at_boundary, has_tab, lemma_first_byte, TAB};
use crate::whole_pixels::{
    divide_whole, from_whole, held, hold, pixels, quotient_of, to_whole, whole, LARGEST,
};

verus! {

/// A font in which every character takes one cell, and a tab as many as the
/// tab width says. A line that does not fit is broken between two cells.
#[derive(Clone, Copy, PartialEq, Eq, Structural, Debug)]
pub struct CellFont {
    /// Width of a cell in pixels.
    pub cell: u16,
}

impl CellFont {
    /// A font with cells of the given width.
    pub fn new(cell: u16) -> (r: CellFont)
        ensures
            r.cell == cell,
    {
        CellFont { cell }
    }
}

impl PixelMath for CellFont {
    open spec fn sum(a: Px, b: Px) -> Px {
        pixels(whole(a) + whole(b))
    }

    open spec fn difference(a: Px, b: Px) -> Px {
        pixels(whole(a) - whole(b))
    }

    open spec fn product(a: Px, b: Px) -> Px {
        pixels(whole(a) * whole(b))
    }

    open spec fn quotient(a: Px, b: Px) -> Px {
        pixels(quotient_of(whole(a), whole(b)))
    }

    open spec fn counted(n: usize) -> Px {
        pixels(n as int)
    }

    open spec fn truncated(a: Px) -> i32 {
        whole(a) as i32
    }

    fn plus(a: Px, b: Px) -> (r: Px) {
        from_whole(to_whole(a) + to_whole(b))
    }

    fn minus(a: Px, b: Px) -> (r: Px) {
        from_whole(to_whole(a) - to_whole(b))
    }

    fn times(a: Px, b: Px) -> (r: Px) {
        let x = to_whole(a);
        let y = to_whole(b);
        assert(-0x1_0000_0000_0000 <= x * y <= 0x1_0000_0000_0000) by (nonlinear_arith)
            requires
                -0xff_ffff <= x <= 0xff_ffff,
                -0xff_ffff <= y <= 0xff_ffff,
        ;
        from_whole(x * y)
    }

    fn over(a: Px, b: Px) -> (r: Px) {
        from_whole(divide_whole(to_whole(a), to_whole(b)))
    }

    fn count(n: usize) -> (r: Px) {
        if n > 0xff_ffff {
            from_whole(LARGEST)
        } else {
            from_whole(n as i64)
        }
    }

    fn truncate(a: Px) -> (r: i32) {
        to_whole(a) as i32
    }
}

/// Where the character at `i` ends.
pub open spec fn char_end(text: Seq<u8>, i: int) -> int
    decreases text.len() - i,
{
    if i + 1 >= text.len() {
        text.len() as int
    } else if at_boundary(text, i + 1) {
        i + 1
    } else {
        char_end(text, i + 1)
    }
}

/// A character ends behind its start, at a boundary.
pub proof fn lemma_char_end(text: Seq<u8>, i: int)
    requires
        0 <= i < text.len(),
    ensures
        i < char_end(text, i) <= text.len(),
        at_boundary(text, char_end(text, i)),
    decreases text.len() - i,
{
    if i + 1 < text.len() && !at_boundary(text, i + 1) {
        lemma_char_end(text, i + 1);
    }
}

/// The character at `i`, shaped.
pub open spec fn cell_at(
    text: Seq<u8>,
    attrs: AttrsListView,
    tab_width: u16,
    rtl: bool,
    i: int,
) -> ShapeGlyph {
    ShapeGlyph {
        start: i as usize,
        end: char_end(text, i) as usize,
        rtl,
        advance: pixels(
            if text[i] == TAB {
                tab_width as int
            } else {
                1
            },
        ),
        color_opt: attrs_at(attrs, i).color_opt,
    }
}

/// The characters from `i` on, shaped.
pub open spec fn cells(
    text: Seq<u8>,
    attrs: AttrsListView,
    tab_width: u16,
    rtl: bool,
    i: int,
) -> Seq<ShapeGlyph>
    decreases text.len() - i,
{
    if i < 0 || i >= text.len() {
        seq![]
    } else {
        proof {
            lemma_char_end(text, i);
        }
        seq![cell_at(text, attrs, tab_width, rtl, i)] + cells(
            text,
            attrs,
            tab_width,
            rtl,
            char_end(text, i),
        )
    }
}

/// Every cell is a part of the text.
proof fn lemma_cells_fit(text: Seq<u8>, attrs: AttrsListView, tab_width: u16, rtl: bool, i: int)
    requires
        at_boundary(text, i),
        text.len() <= usize::MAX,
    ensures
        shape_fits(
            text,
            ShapeLineView { rtl, glyphs: cells(text, attrs, tab_width, rtl, i) },
        ),
    decreases text.len() - i,
{
    if i < text.len() {
        lemma_char_end(text, i);
        lemma_cells_fit(text, attrs, tab_width, rtl, char_end(text, i));
    }
}

/// The tab width matters only where there is a tab.
proof fn lemma_cells_without_tab(
    text: Seq<u8>,
    attrs: AttrsListView,
    tab_width: u16,
    other_width: u16,
    rtl: bool,
    i: int,
)
    requires
        !has_tab(text),
    ensures
        cells(text, attrs, tab_width, rtl, i) == cells(text, attrs, other_width, rtl, i),
    decreases text.len() - i,
{
    if 0 <= i < text.len() {
        lemma_char_end(text, i);
        assert(text[i] != TAB);
        lemma_cells_without_tab(text, attrs, tab_width, other_width, rtl, char_end(text, i));
    }
}

/// A number of pixels between none and the largest.
pub open spec fn room(n: int) -> int {
    if n < 0 {
        0
    } else {
        held(n)
    }
}

/// Width of a shaped character.
pub open spec fn cell_width(glyph: ShapeGlyph, cell: int) -> int {
    room(whole(glyph.advance) * cell)
}

/// Width of the first `k` characters of a row.
pub open spec fn row_width(row: Seq<ShapeGlyph>, k: int, cell: int) -> int
    decreases k,
{
    if k <= 0 {
        0
    } else {
        room(row_width(row, k - 1, cell) + cell_width(row[k - 1], cell))
    }
}

/// Where the row ends that begins at `from`, looked for from `i` on, when the
/// characters up to there take `used` pixels. A row holds at least one.
pub open spec fn row_end(
    glyphs: Seq<ShapeGlyph>,
    from: int,
    i: int,
    used: int,
    cell: int,
    limit: Option<int>,
) -> int
    decreases glyphs.len() - i,
{
    if i >= glyphs.len() {
        glyphs.len() as int
    } else {
        let wider = room(used + cell_width(glyphs[i], cell));
        if i > from && (limit matches Some(most) && most < wider) {
            i
        } else {
            row_end(glyphs, from, i + 1, wider, cell, limit)
        }
    }
}

/// The rows of a shaped line from `from` on.
pub open spec fn rows(
    glyphs: Seq<ShapeGlyph>,
    from: int,
    cell: int,
    limit: Option<int>,
) -> Seq<Seq<ShapeGlyph>>
    decreases glyphs.len() - from,
{
    let end = row_end(glyphs, from, from, 0, cell, limit);
    if end >= glyphs.len() || end <= from {
        seq![glyphs.skip(from)]
    } else {
        seq![glyphs.subrange(from, end)] + rows(glyphs, end, cell, limit)
    }
}

/// The characters of a row from left to right.
pub open spec fn visual(row: Seq<ShapeGlyph>, rtl: bool) -> Seq<ShapeGlyph> {
    if rtl {
        row.reverse()
    } else {
        row
    }
}

/// Character `k` of a row at its place.
pub open spec fn set_at(row: Seq<ShapeGlyph>, k: int, cell: int) -> LayoutGlyph {
    LayoutGlyph {
        start: row[k].start,
        end: row[k].end,
        rtl: row[k].rtl,
        x: pixels(row_width(row, k, cell)),
        w: pixels(cell_width(row[k], cell)),
        color_opt: row[k].color_opt,
    }
}

/// A row, laid out.
pub open spec fn set_row(row: Seq<ShapeGlyph>, cell: int, font_size: Px) -> LayoutLineView {
    LayoutLineView {
        w: pixels(row_width(row, row.len() as int, cell)),
        max_ascent: font_size,
        max_descent: pixels(0),
        line_height_opt: None,
        glyphs: Seq::new(row.len(), |k: int| set_at(row, k, cell)),
        decorations: seq![],
    }
}

/// The width at which a line is broken, if it is.
pub open spec fn limit_of(params: LayoutParams) -> Option<int> {
    match params.width_opt {
        Some(width) if params.wrap != Wrap::Unwrapped => Some(whole(width)),
        _ => None,
    }
}

/// A row ends behind its start.
proof fn lemma_row_end(
    glyphs: Seq<ShapeGlyph>,
    from: int,
    i: int,
    used: int,
    cell: int,
    limit: Option<int>,
)
    requires
        0 <= from <= i <= glyphs.len(),
    ensures
        i <= row_end(glyphs, from, i, used, cell, limit) <= glyphs.len(),
        i == from && i < glyphs.len() ==> i < row_end(glyphs, from, i, used, cell, limit),
    decreases glyphs.len() - i,
{
    if i < glyphs.len() {
        lemma_row_end(
            glyphs,
            from,
            i + 1,
            room(used + cell_width(glyphs[i], cell)),
            cell,
            limit,
        );
    }
}

/// There is at least one row, and every row is made of parts of the text.
proof fn lemma_rows_fit(
    text: Seq<u8>,
    glyphs: Seq<ShapeGlyph>,
    from: int,
    cell: int,
    limit: Option<int>,
)
    requires
        shape_fits(text, ShapeLineView { rtl: false, glyphs }),
        0 <= from <= glyphs.len(),
    ensures
        rows(glyphs, from, cell, limit).len() > 0,
        forall|k: int|
            0 <= k < rows(glyphs, from, cell, limit).len() ==> shape_fits(
                text,
                ShapeLineView { rtl: false, glyphs: #[trigger] rows(glyphs, from, cell, limit)[k] },
            ),
    decreases glyphs.len() - from,
{
    let end = row_end(glyphs, from, from, 0, cell, limit);
    lemma_row_end(glyphs, from, from, 0, cell, limit);
    if !(end >= glyphs.len() || end <= from) {
        lemma_rows_fit(text, glyphs, end, cell, limit);
        let rest = rows(glyphs, end, cell, limit);
        let all = rows(glyphs, from, cell, limit);
        assert forall|k: int| 0 <= k < all.len() implies shape_fits(
            text,
            ShapeLineView { rtl: false, glyphs: #[trigger] all[k] },
        ) by {
            if k > 0 {
                assert(all[k] == rest[k - 1]);
            }
        }
    }
}

/// Makes a number of pixels not be below zero.
fn make_room(n: i64) -> (r: i64)
    ensures
        r == room(n as int),
        0 <= r <= LARGEST,
{
    if n < 0 {
        0
    } else {
        hold(n)
    }
}

fn find_cell_width(glyph: ShapeGlyph, cell: u16) -> (r: i64)
    ensures
        r == cell_width(glyph, cell as int),
        0 <= r <= LARGEST,
{
    let n = to_whole(glyph.advance);
    let c = cell as i64;
    assert(-0x100_0000_0000 <= n * c <= 0x100_0000_0000) by (nonlinear_arith)
        requires
            -0xff_ffff <= n <= 0xff_ffff,
            0 <= c <= 0xffff,
    ;
    make_room(n * c)
}

/// Finds where the row ends that begins at `from`.
fn find_row_end(glyphs: &Vec<ShapeGlyph>, from: usize, cell: u16, limit: Option<i64>) -> (r: usize)
    requires
        from <= glyphs@.len(),
    ensures
        r == row_end(
            glyphs@,
            from as int,
            from as int,
            0,
            cell as int,
            match limit {
                Some(most) => Some(most as int),
                None => None,
            },
        ),
{
    let ghost most_opt: Option<int> = match limit {
        Some(most) => Some(most as int),
        None => None,
    };
    let mut i: usize = from;
    let mut used: i64 = 0;
    while i < glyphs.len()
        invariant
            from <= i <= glyphs@.len(),
            0 <= used <= LARGEST,
            most_opt == (match limit {
                Some(most) => Some(most as int),
                None => None,
            }),
            row_end(glyphs@, from as int, i as int, used as int, cell as int, most_opt) == row_end(
                glyphs@,
                from as int,
                from as int,
                0,
                cell as int,
                most_opt,
            ),
        decreases glyphs@.len() - i,
    {
        let wider = make_room(used + find_cell_width(glyphs[i], cell));
        if i > from {
            if let Some(most) = limit {
                if most < wider {
                    return i;
                }
            }
        }
        used = wider;
        i = i + 1;
    }
    i
}

/// Lays out the row from `from` to `to`.
fn lay_row(
    shape: &ShapeLine,
    from: usize,
    to: usize,
    cell: u16,
    font_size: Px,
) -> (r: LayoutLine)
    requires
        from <= to <= shape.glyphs@.len(),
    ensures
        r@ == set_row(
            visual(shape@.glyphs.subrange(from as int, to as int), shape.rtl),
            cell as int,
            font_size,
        ),
{
    let ghost row = visual(shape@.glyphs.subrange(from as int, to as int), shape.rtl);
    let mut glyphs: Vec<LayoutGlyph> = Vec::new();
    let mut used: i64 = 0;
    let n = to - from;
    let mut k: usize = 0;
    while k < n
        invariant
            from <= to <= shape.glyphs@.len(),
            n == to - from,
            k <= n,
            row == visual(shape@.glyphs.subrange(from as int, to as int), shape.rtl),
            0 <= used <= LARGEST,
            used == row_width(row, k as int, cell as int),
            glyphs@.len() == k,
            forall|j: int| 0 <= j < k ==> #[trigger] glyphs@[j] == set_at(row, j, cell as int),
        decreases n - k,
    {
        let glyph = if shape.rtl {
            shape.glyphs[to - 1 - k]
        } else {
            shape.glyphs[from + k]
        };
        assert(glyph == row[k as int]);
        let width = find_cell_width(glyph, cell);
        glyphs.push(
            LayoutGlyph {
                start: glyph.start,
                end: glyph.end,
                rtl: glyph.rtl,
                x: from_whole(used),
                w: from_whole(width),
                color_opt: glyph.color_opt,
            },
        );
        used = make_room(used + width);
        k = k + 1;
    }
    let r = LayoutLine {
        w: from_whole(used),
        max_ascent: font_size,
        max_descent: from_whole(0),
        line_height_opt: None,
        glyphs,
        decorations: Vec::new(),
    };
    assert(r@.glyphs =~= set_row(row, cell as int, font_size).glyphs);
    assert(r@.decorations =~= seq![]);
    r
}

impl FontSystem for CellFont {
    open spec fn fonts(&self) -> int {
        self.cell as int
    }

    open spec fn shaped(
        fonts: int,
        text: Seq<u8>,
        attrs: AttrsListView,
        shaping: Shaping,
        tab_width: u16,
        direction: Direction,
    ) -> ShapeLineView {
        let rtl = direction == Direction::RightToLeft;
        ShapeLineView {
            rtl,
            glyphs: if text.len() > usize::MAX {
                seq![]
            } else {
                cells(text, attrs, tab_width, rtl, 0)
            },
        }
    }

    open spec fn laid_out(fonts: int, shape: ShapeLineView, params: LayoutParams) -> Seq<
        LayoutLineView,
    > {
        rows(shape.glyphs, 0, fonts, limit_of(params)).map_values(
            |row: Seq<ShapeGlyph>| set_row(visual(row, shape.rtl), fonts, params.font_size),
        )
    }

    proof fn law_shape_fits(
        fonts: int,
        text: Seq<u8>,
        attrs: AttrsListView,
        shaping: Shaping,
        tab_width: u16,
        direction: Direction,
    ) {
        lemma_first_byte(text);
        if text.len() <= usize::MAX {
            lemma_cells_fit(text, attrs, tab_width, direction == Direction::RightToLeft, 0);
        }
    }

    proof fn law_tab_width(
        fonts: int,
        text: Seq<u8>,
        attrs: AttrsListView,
        shaping: Shaping,
        tab_width: u16,
        other_width: u16,
        direction: Direction,
    ) {
        lemma_cells_without_tab(
            text,
            attrs,
            tab_width,
            other_width,
            direction == Direction::RightToLeft,
            0,
        );
    }

    proof fn law_layout_fits(fonts: int, text: Seq<u8>, shape: ShapeLineView, params: LayoutParams) {
        let limit = limit_of(params);
        assert(shape_fits(text, ShapeLineView { rtl: false, glyphs: shape.glyphs }));
        lemma_rows_fit(text, shape.glyphs, 0, fonts, limit);
        let all = rows(shape.glyphs, 0, fonts, limit);
        let lines = Self::laid_out(fonts, shape, params);
        assert forall|k: int| 0 <= k < lines.len() implies crate::layout::line_fits(
            text,
            (#[trigger] lines[k]).glyphs,
        ) by {
            let row = visual(all[k], shape.rtl);
            assert(shape_fits(text, ShapeLineView { rtl: false, glyphs: all[k] }));
            assert forall|j: int| 0 <= j < lines[k].glyphs.len() implies (
            #[trigger] lines[k].glyphs[j]).start <= lines[k].glyphs[j].end && at_boundary(
                text,
                lines[k].glyphs[j].start as int,
            ) && at_boundary(text, lines[k].glyphs[j].end as int) by {
                let from = if shape.rtl {
                    all[k].len() - 1 - j
                } else {
                    j
                };
                assert(row[j] == all[k][from]);
            }
        }
    }

    fn shape(
        &mut self,
        text: &str,
        attrs: &AttrsList,
        shaping: Shaping,
        tab_width: u16,
        direction: Direction,
    ) -> (r: ShapeLine) {
        let bytes = text.as_bytes();
        let ghost b = encode_utf8(text@);
        let rtl = direction == Direction::RightToLeft;
        let ghost all = cells(b, attrs@, tab_width, rtl, 0);
        let mut glyphs: Vec<ShapeGlyph> = Vec::new();
        let mut i: usize = 0;
        assert(glyphs@ + cells(b, attrs@, tab_width, rtl, 0) =~= all);
        while i < bytes.len()
            invariant
                bytes@ == b,
                i <= b.len(),
                glyphs@ + cells(b, attrs@, tab_width, rtl, i as int) == all,
            decreases b.len() - i,
        {
            let ghost before = glyphs@;
            let end = find_char_end(bytes, i);
            let advance = from_whole(
                if bytes[i] == TAB {
                    tab_width as i64
                } else {
                    1
                },
            );
            let color_opt = attrs.get_span(i).color_opt;
            glyphs.push(ShapeGlyph { start: i, end, rtl, advance, color_opt });
            proof {
                lemma_char_end(b, i as int);
                assert(glyphs@ + cells(b, attrs@, tab_width, rtl, end as int) =~= before + cells(
                    b,
                    attrs@,
                    tab_width,
                    rtl,
                    i as int,
                ));
            }
            i = end;
        }
        assert(glyphs@ =~= all);
        assert(bytes.len() == b.len());
        ShapeLine { rtl, glyphs }
    }

    fn layout(&mut self, shape: &ShapeLine, params: LayoutParams) -> (r: Vec<LayoutLine>) {
        let cell = self.cell;
        let limit = match params.width_opt {
            Some(width) => if params.wrap != Wrap::Unwrapped {
                Some(to_whole(width))
            } else {
                None
            },
            None => None,
        };
        let ghost most = limit_of(params);
        let ghost all = Self::laid_out(cell as int, shape@, params);
        let ghost lines = rows(shape@.glyphs, 0, cell as int, most);
        let mut r: Vec<LayoutLine> = Vec::new();
        let mut from: usize = 0;
        assert(layout_view(r@) =~= seq![]);
        loop
            invariant
                cell == self.cell,
                *self == *old(self),
                most == limit_of(params),
                most == (match limit {
                    Some(n) => Some(n as int),
                    None => None,
                }),
                all == Self::laid_out(cell as int, shape@, params),
                lines == rows(shape@.glyphs, 0, cell as int, most),
                from <= shape.glyphs@.len(),
                layout_view(r@).len() + rows(shape@.glyphs, from as int, cell as int, most).len()
                    == lines.len(),
                lines.skip(r@.len() as int) == rows(shape@.glyphs, from as int, cell as int, most),
                layout_view(r@) == all.take(r@.len() as int),
            decreases shape.glyphs@.len() - from,
        {
            let ghost before = r@;
            let ghost rest = rows(shape@.glyphs, from as int, cell as int, most);
            let end = find_row_end(&shape.glyphs, from, cell, limit);
            proof {
                lemma_row_end(shape@.glyphs, from as int, from as int, 0, cell as int, most);
            }
            let line = lay_row(shape, from, end, cell, params.font_size);
            r.push(line);
            proof {
                assert(rest[0] =~= shape@.glyphs.subrange(from as int, end as int));
                assert(lines[before.len() as int] == rest[0]);
                assert(layout_view(r@) =~= layout_view(before).push(line@));
                assert(all[before.len() as int] == line@);
                assert(all.take(r@.len() as int) =~= all.take(before.len() as int).push(line@));
            }
            if end >= shape.glyphs.len() {
                assert(all.take(r@.len() as int) =~= all);
                return r;
            }
            proof {
                let next = rows(shape@.glyphs, end as int, cell as int, most);
                assert(rest =~= seq![rest[0]] + next);
                assert(lines.skip(r@.len() as int) =~= lines.skip(before.len() as int).skip(1));
                assert(rest.skip(1) =~= next);
            }
            from = end;
        }
    }
}

/// Finds where the character at `i` ends.
fn find_char_end(bytes: &[u8], i: usize) -> (r: usize)
    requires
        i < bytes@.len(),
    ensures
        r == char_end(bytes@, i as int),
{
    assert(bytes.len() == bytes@.len());
    let mut end: usize = i + 1;
    while end < bytes.len() && 0x80 <= bytes[end] && bytes[end] <= 0xbf
        invariant
            i < end <= bytes@.len(),
            char_end(bytes@, end - 1) == char_end(bytes@, i as int),
        decreases bytes@.len() - end,
    {
        end = end + 1;
    }
    end
}

} // verus!
