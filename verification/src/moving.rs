//! Moving a cursor through a buffer.

use vstd::prelude::*;
use vstd::utf8::*;

use crate::buffer::{Buffer, LineStore, Page};
use crate::cursor::{Affinity, Cursor, LayoutCursor, Motion};
use crate::layout::{layout_fits, layout_view, line_fits, FontSystem, LayoutGlyph, LayoutLine};
use crate::line::Settings;
use crate::motion::{
    at_place, at_place_on, boundary_from, boundary_in, column_at, divide, down, down_by,
    find_cluster_end, find_ink, find_previous_cluster, find_previous_word, find_word_end, landed,
    moved, next, next_word, pixels, place_above, place_below, place_in, previous, previous_word,
    ratio, shown_above, shown_below, side_of, to_end, up, up_by, vertical, Moved,
};
use crate::pixel::{PixelMath, Px};
use crate::rope_store::lemma_line_text_valid;
use crate::shaping::{lemma_keeps_chain, lemma_keeps_itself, lemma_layout_fits};
use crate::text::{at_boundary, byte_len, lemma_first_byte};

verus! {

/// Tells which side of a glyph a cursor is at.
fn find_side(glyph: &LayoutGlyph, cursor: Cursor) -> (r: Option<usize>)
    ensures
        match r {
            Some(side) => side_of(*glyph, cursor) == Some(side as int) && side <= 1,
            None => side_of(*glyph, cursor) is None,
        },
{
    let end = Cursor::new_with_affinity(cursor.line, glyph.end, Affinity::Before);
    let start = Cursor::new_with_affinity(cursor.line, glyph.start, Affinity::After);
    let (left, right) = if !glyph.rtl {
        (start, end)
    } else {
        (end, start)
    };
    if cursor == left {
        Some(0)
    } else if cursor == right {
        Some(1)
    } else {
        None
    }
}

/// Finds the position of a cursor in the layout of its line.
pub(crate) fn find_place(layout: &[LayoutLine], cursor: Cursor) -> (r: LayoutCursor)
    ensures
        r == place_in(layout_view(layout@), cursor),
        r.layout == 0 || r.layout < layout@.len(),
{
    let ghost v = layout_view(layout@);
    let mut k: usize = 0;
    while k < layout.len()
        invariant
            v == layout_view(layout@),
            k <= layout@.len(),
            boundary_from(v, cursor, 0) == boundary_from(v, cursor, k as int),
        decreases layout@.len() - k,
    {
        let glyphs = &layout[k].glyphs;
        let mut g: usize = 0;
        assert(v[k as int] == layout@[k as int]@);
        while g < glyphs.len()
            invariant
                v == layout_view(layout@),
                k < layout@.len(),
                v[k as int].glyphs == glyphs@,
                g <= glyphs@.len(),
                boundary_from(v, cursor, 0) == boundary_from(v, cursor, k as int),
                boundary_in(glyphs@, cursor, 0) == boundary_in(glyphs@, cursor, g as int),
            decreases glyphs@.len() - g,
        {
            if let Some(side) = find_side(&glyphs[g], cursor) {
                return LayoutCursor::new(cursor.line, k, g + side);
            }
            g = g + 1;
        }
        k = k + 1;
    }
    LayoutCursor::new(cursor.line, 0, 0)
}

/// Finds the cursor at a position in the layout of its line.
fn find_cursor(layout: &[LayoutLine], place: LayoutCursor) -> (r: Option<Cursor>)
    ensures
        r == at_place(layout_view(layout@), place),
        r matches Some(cursor) ==> cursor.line == place.line && forall|text: Seq<u8>|
            valid_utf8(text) && layout_fits(text, layout_view(layout@)) ==> #[trigger] at_boundary(
                text,
                cursor.index as int,
            ),
{
    if layout.len() == 0 {
        return None;
    }
    let k = if place.layout < layout.len() {
        place.layout
    } else {
        layout.len() - 1
    };
    assert(layout_view(layout@)[k as int] == layout@[k as int]@);
    let glyphs = &layout[k].glyphs;
    let (index, affinity) = if place.glyph < glyphs.len() {
        (glyphs[place.glyph].start, Affinity::After)
    } else if glyphs.len() > 0 {
        (glyphs[glyphs.len() - 1].end, Affinity::Before)
    } else {
        (0, Affinity::After)
    };
    proof {
        let lines = layout_view(layout@);
        assert forall|text: Seq<u8>| valid_utf8(text) && layout_fits(text, lines) implies
            #[trigger] at_boundary(text, index as int) by {
            lemma_first_byte(text);
            assert(line_fits(text, lines[k as int].glyphs));
        }
    }
    Some(Cursor::new_with_affinity(place.line, index, affinity))
}

/// The same lines have the same texts, and the same ones are hidden.
proof fn lemma_same_texts<F: FontSystem>(
    a: &LineStore,
    b: &LineStore,
    fonts: int,
    settings: Settings,
)
    requires
        a.same_lines(b),
        a.count() == b.count(),
    ensures
        a.page::<F>(fonts, settings).texts == b.page::<F>(fonts, settings).texts,
        a.page::<F>(fonts, settings).hidden == b.page::<F>(fonts, settings).hidden,
{
    let p = a.page::<F>(fonts, settings);
    let q = b.page::<F>(fonts, settings);
    match (a, b) {
        (LineStore::Full(x), LineStore::Full(y)) => {
            assert forall|i: int| 0 <= i < x@.len() implies p.texts[i] == q.texts[i] && p.hidden[i]
                == q.hidden[i] by {
                assert(x@[i]@.same_line(y@[i]@));
            }
        },
        (LineStore::Rope(x), LineStore::Rope(y)) => {
            assert(forall|i: int| #[trigger] x.line_view(i) == y.line_view(i));
        },
        _ => {},
    }
    assert(p.texts =~= q.texts);
    assert(p.hidden =~= q.hidden);
}

/// What can be gone to after a step can be gone to with the step.
proof fn lemma_goes_on<F: FontSystem>(
    before: &LineStore,
    mid: &LineStore,
    fonts: int,
    settings: Settings,
    cursor: Cursor,
    x_opt: Option<i32>,
    up: bool,
    n: nat,
    moved: Cursor,
    x: Option<i32>,
)
    requires
        n > 0,
        before.steps::<F>(mid, fonts, settings, cursor, x_opt, up, Some((moved, x))),
    ensures
        forall|after: LineStore, r: Moved| #[trigger]
            mid.goes::<F>(&after, fonts, settings, moved, x, up, (n - 1) as nat, r)
                ==> before.goes::<F>(&after, fonts, settings, cursor, x_opt, up, n, r),
{
    reveal(LineStore::goes);
    reveal_with_fuel(LineStore::goes, 2);
}

/// The text of every line is UTF-8.
proof fn lemma_text_valid(store: &LineStore, i: int)
    requires
        store.wf(),
        0 <= i < store.count(),
    ensures
        valid_utf8(store.line_at(i).text),
{
    match store {
        LineStore::Full(lines) => {
            assert(*store == LineStore::Full(*lines));
            assert(lines@[i]@.fits());
        },
        LineStore::Rope(rope) => {
            assert(*store == LineStore::Rope(*rope));
            lemma_line_text_valid(rope, i);
        },
    }
}

/// A line begins and ends between two characters.
proof fn lemma_line_edges(store: &LineStore, i: int)
    requires
        store.wf(),
        0 <= i < store.count(),
    ensures
        at_boundary(store.line_at(i).text, 0),
        at_boundary(store.line_at(i).text, store.line_at(i).text.len() as int),
{
    lemma_text_valid(store, i);
    lemma_first_byte(store.line_at(i).text);
}

/// A cursor that is on the text is on that of the same lines.
proof fn lemma_same_spots(a: &LineStore, b: &LineStore, cursor: Cursor)
    requires
        a.same_lines(b),
        a.count() == b.count(),
    ensures
        a.holds(cursor) == b.holds(cursor),
{
    let i = cursor.line as int;
    match (a, b) {
        (LineStore::Full(x), LineStore::Full(y)) => {
            if i < x@.len() {
                assert(x@[i]@.same_line(y@[i]@));
            }
        },
        (LineStore::Rope(x), LineStore::Rope(y)) => {
            assert(x.line_view(i) == y.line_view(i));
        },
        _ => {},
    }
}

/// Forth or back by a cluster or a word.
pub open spec fn along(page: Page, cursor: Cursor, forth: bool, word: bool) -> Cursor {
    if word {
        if forth {
            next_word(page, cursor)
        } else {
            previous_word(page, cursor)
        }
    } else if forth {
        next(page, cursor)
    } else {
        previous(page, cursor)
    }
}

/// Going to the left or to the right is going forth or back, which only the
/// texts matter for.
proof fn lemma_sideways<M: PixelMath>(
    page: Page,
    other: Page,
    height_opt: Option<Px>,
    line_height: Px,
    cursor: Cursor,
    x_opt: Option<i32>,
    motion: Motion,
)
    requires
        motion is Left || motion is Right || motion is LeftWord || motion is RightWord,
        page.texts == other.texts,
        cursor.line < page.texts.len(),
    ensures
        moved::<M>(page, height_opt, line_height, cursor, x_opt, motion) == Some(
            (
                along(
                    other,
                    cursor,
                    (motion is Left || motion is LeftWord) == page.rtl[cursor.line as int],
                    motion is LeftWord || motion is RightWord,
                ),
                None::<i32>,
            ),
        ),
{
}

impl LineStore {
    /// Whether going one visual line up or down leads to `r` and turns `self`
    /// into `after`. The line of the cursor is laid out first, and then the one
    /// that is gone to; what that one shows is what it shows then.
    #[verifier::opaque]
    pub open spec fn steps<F: FontSystem>(
        &self,
        after: &LineStore,
        fonts: int,
        settings: Settings,
        cursor: Cursor,
        x_opt: Option<i32>,
        up: bool,
        r: Moved,
    ) -> bool {
        if cursor.line >= self.count() {
            r is None && *after == *self
        } else {
            let page = self.page::<F>(fonts, settings);
            let place = if up {
                place_above(page, cursor, x_opt)
            } else {
                place_below(page, cursor, x_opt)
            };
            exists|mid: LineStore|
                {
                    &&& #[trigger] self.lays_out_line::<F>(
                        &mid,
                        fonts,
                        settings,
                        cursor.line as int,
                    )
                    &&& mid.lays_out_line::<F>(after, fonts, settings, place.line as int)
                    &&& r == landed(
                        mid.page::<F>(fonts, settings),
                        place,
                        column_at(page, cursor, x_opt),
                    )
                }
        }
    }

    /// Whether going `n` visual lines up or down, step by step, leads to `r`
    /// and turns `self` into `after`.
    #[verifier::opaque]
    pub open spec fn goes<F: FontSystem>(
        &self,
        after: &LineStore,
        fonts: int,
        settings: Settings,
        cursor: Cursor,
        x_opt: Option<i32>,
        up: bool,
        n: nat,
        r: Moved,
    ) -> bool
        decreases n,
    {
        if n == 0 {
            r == Some((cursor, x_opt)) && *after == *self
        } else {
            exists|mid: LineStore, step: Moved|
                {
                    &&& #[trigger] self.steps::<F>(&mid, fonts, settings, cursor, x_opt, up, step)
                    &&& match step {
                        Some((moved, x)) => mid.goes::<F>(
                            after,
                            fonts,
                            settings,
                            moved,
                            x,
                            up,
                            (n - 1) as nat,
                            r,
                        ),
                        None => r is None && *after == mid,
                    }
                }
        }
    }

    /// Whether going to the place that a cursor has on its line, on line `to`,
    /// leads to `r` and turns `self` into `after`.
    #[verifier::opaque]
    pub open spec fn jumps<F: FontSystem>(
        &self,
        after: &LineStore,
        fonts: int,
        settings: Settings,
        cursor: Cursor,
        to: usize,
        r: Option<Cursor>,
    ) -> bool {
        if cursor.line >= self.count() {
            r is None && *after == *self
        } else {
            let page = self.page::<F>(fonts, settings);
            let place = place_in(page.layouts[cursor.line as int], cursor);
            exists|mid: LineStore|
                {
                    &&& #[trigger] self.lays_out_line::<F>(
                        &mid,
                        fonts,
                        settings,
                        cursor.line as int,
                    )
                    &&& if to < self.count() {
                        mid.lays_out_line::<F>(after, fonts, settings, to as int)
                    } else {
                        *after == mid
                    }
                    &&& r == at_place_on(
                        mid.page::<F>(fonts, settings),
                        LayoutCursor { line: to, ..place },
                    )
                }
        }
    }

    /// Whether a cursor is on the text: on a line that there is, between two
    /// characters.
    pub open spec fn holds(&self, cursor: Cursor) -> bool {
        cursor.line < self.count() && at_boundary(
            self.line_at(cursor.line as int).text,
            cursor.index as int,
        )
    }
}

impl Buffer {
    /// Finds the position of a cursor in the layout.
    pub fn layout_cursor<F: FontSystem>(&mut self, font_system: &mut F, cursor: Cursor) -> (r: Option<
        LayoutCursor,
    >)
        requires
            old(self).wf(),
        ensures
            final(font_system).fonts() == old(font_system).fonts(),
            final(self).wf(),
            final(self).same_frame(old(self)),
            old(self).store.keeps::<F>(
                &final(self).store,
                old(font_system).fonts(),
                old(self).settings(),
            ),
            r == if cursor.line < old(self).count() {
                Some(
                    place_in(
                        old(self).page::<F>(old(font_system).fonts()).layouts[cursor.line as int],
                        cursor,
                    ),
                )
            } else {
                None
            },
            if cursor.line < old(self).count() {
                old(self).store.lays_out_line::<F>(
                    &final(self).store,
                    old(font_system).fonts(),
                    old(self).settings(),
                    cursor.line as int,
                )
            } else {
                *final(self) == *old(self)
            },
    {
        match self.line_layout(font_system, cursor.line) {
            Some(layout) => Some(find_place(layout, cursor)),
            None => None,
        }
    }

    /// Moves to a position in the layout.
    fn move_to_place<F: FontSystem>(&mut self, font_system: &mut F, place: LayoutCursor) -> (r: Option<
        Cursor,
    >)
        requires
            old(self).wf(),
        ensures
            final(font_system).fonts() == old(font_system).fonts(),
            final(self).wf(),
            final(self).same_frame(old(self)),
            old(self).store.keeps::<F>(
                &final(self).store,
                old(font_system).fonts(),
                old(self).settings(),
            ),
            r == at_place_on(old(self).page::<F>(old(font_system).fonts()), place),
            r matches Some(cursor) ==> old(self).store.holds(cursor),
            if place.line < old(self).count() {
                old(self).store.lays_out_line::<F>(
                    &final(self).store,
                    old(font_system).fonts(),
                    old(self).settings(),
                    place.line as int,
                )
            } else {
                *final(self) == *old(self)
            },
    {
        let ghost before = self.store;
        let ghost fonts = font_system.fonts();
        let ghost settings = self.settings();
        match self.line_layout(font_system, place.line) {
            Some(layout) => {
                proof {
                    lemma_layout_fits::<F>(&before, fonts, settings, place.line as int);
                    lemma_text_valid(&before, place.line as int);
                }
                find_cursor(layout, place)
            },
            None => None,
        }
    }

    /// Number of bytes of the text of line `i`.
    fn text_len(&self, i: usize) -> (r: usize)
        requires
            self.wf(),
            i < self.count(),
        ensures
            r == self.store.line_at(i as int).text.len(),
    {
        match self.line_text_cow(i) {
            Some(text) => byte_len(text),
            None => 0,
        }
    }

    /// Moves one cluster back.
    fn move_previous<F: FontSystem>(&self, font_system: &F, cursor: Cursor) -> (r: Option<Cursor>)
        requires
            self.wf(),
        ensures
            r == if cursor.line < self.count() {
                Some(previous(self.page::<F>(font_system.fonts()), cursor))
            } else {
                None
            },
            self.store.holds(cursor) ==> r is Some && self.store.holds(r.unwrap()),
    {
        let ghost page = self.page::<F>(font_system.fonts());
        let text = match self.line_text_cow(cursor.line) {
            Some(text) => text,
            None => {
                return None;
            },
        };
        assert(page.texts[cursor.line as int] == encode_utf8(text@));
        if cursor.index > 0 {
            let index = find_previous_cluster(text, cursor.index);
            Some(Cursor { index, affinity: Affinity::After, ..cursor })
        } else if cursor.line > 0 {
            let line = cursor.line - 1;
            let index = self.text_len(line);
            Some(Cursor { line, index, affinity: Affinity::After })
        } else {
            Some(cursor)
        }
    }

    /// Moves one cluster forth.
    fn move_next<F: FontSystem>(&self, font_system: &F, cursor: Cursor) -> (r: Option<Cursor>)
        requires
            self.wf(),
        ensures
            r == if cursor.line < self.count() {
                Some(next(self.page::<F>(font_system.fonts()), cursor))
            } else {
                None
            },
            self.store.holds(cursor) ==> r is Some && self.store.holds(r.unwrap()),
    {
        let ghost page = self.page::<F>(font_system.fonts());
        let text = match self.line_text_cow(cursor.line) {
            Some(text) => text,
            None => {
                return None;
            },
        };
        assert(page.texts[cursor.line as int] == encode_utf8(text@));
        if cursor.index < byte_len(text) {
            match find_cluster_end(text, cursor.index) {
                Some(index) => Some(Cursor { index, affinity: Affinity::Before, ..cursor }),
                None => Some(cursor),
            }
        } else if cursor.line < self.line_count() - 1 {
            proof {
                lemma_line_edges(&self.store, cursor.line + 1);
            }
            Some(Cursor { line: cursor.line + 1, index: 0, affinity: Affinity::Before })
        } else {
            Some(cursor)
        }
    }

    /// Moves one word back.
    fn move_previous_word<F: FontSystem>(&self, font_system: &F, cursor: Cursor) -> (r: Option<
        Cursor,
    >)
        requires
            self.wf(),
        ensures
            r == if cursor.line < self.count() {
                Some(previous_word(self.page::<F>(font_system.fonts()), cursor))
            } else {
                None
            },
            self.store.holds(cursor) ==> r is Some && self.store.holds(r.unwrap()),
    {
        let ghost page = self.page::<F>(font_system.fonts());
        let text = match self.line_text_cow(cursor.line) {
            Some(text) => text,
            None => {
                return None;
            },
        };
        assert(page.texts[cursor.line as int] == encode_utf8(text@));
        if cursor.index > 0 {
            let index = find_previous_word(text, cursor.index);
            Some(Cursor { index, ..cursor })
        } else if cursor.line > 0 {
            let line = cursor.line - 1;
            let index = self.text_len(line);
            Some(Cursor { line, index, ..cursor })
        } else {
            Some(cursor)
        }
    }

    /// Moves one word forth.
    fn move_next_word<F: FontSystem>(&self, font_system: &F, cursor: Cursor) -> (r: Option<Cursor>)
        requires
            self.wf(),
        ensures
            r == if cursor.line < self.count() {
                Some(next_word(self.page::<F>(font_system.fonts()), cursor))
            } else {
                None
            },
            self.store.holds(cursor) ==> r is Some && self.store.holds(r.unwrap()),
    {
        let ghost page = self.page::<F>(font_system.fonts());
        let text = match self.line_text_cow(cursor.line) {
            Some(text) => text,
            None => {
                return None;
            },
        };
        assert(page.texts[cursor.line as int] == encode_utf8(text@));
        let len = byte_len(text);
        if cursor.index < len {
            let index = match find_word_end(text, cursor.index) {
                Some(index) => index,
                None => len,
            };
            Some(Cursor { index, ..cursor })
        } else if cursor.line < self.line_count() - 1 {
            proof {
                lemma_line_edges(&self.store, cursor.line + 1);
            }
            Some(Cursor { line: cursor.line + 1, index: 0, ..cursor })
        } else {
            Some(cursor)
        }
    }

    /// Finds the nearest line in front of `line` that is not hidden.
    fn visible_above<F: FontSystem>(&self, font_system: &F, line: usize) -> (r: Option<usize>)
        requires
            self.wf(),
            line < self.count(),
        ensures
            match r {
                Some(above) => above < line && shown_above(
                    self.page::<F>(font_system.fonts()),
                    line as int,
                ) == Some(above as int),
                None => shown_above(self.page::<F>(font_system.fonts()), line as int) is None,
            },
    {
        let ghost page = self.page::<F>(font_system.fonts());
        let mut i: usize = line;
        while i > 0
            invariant
                self.wf(),
                i <= line < self.count(),
                page == self.page::<F>(font_system.fonts()),
                shown_above(page, line as int) == shown_above(page, i as int),
            decreases i,
        {
            i = i - 1;
            if !self.line_hidden(i) {
                return Some(i);
            }
        }
        None
    }

    /// Finds the nearest line behind `line` that is not hidden.
    fn visible_below<F: FontSystem>(&self, font_system: &F, line: usize) -> (r: Option<usize>)
        requires
            self.wf(),
            line < self.count(),
        ensures
            match r {
                Some(below) => line < below < self.count() && shown_below(
                    self.page::<F>(font_system.fonts()),
                    line as int,
                ) == Some(below as int),
                None => shown_below(self.page::<F>(font_system.fonts()), line as int) is None,
            },
    {
        let ghost page = self.page::<F>(font_system.fonts());
        let n = self.line_count();
        let mut i: usize = line;
        while i < n - 1
            invariant
                self.wf(),
                line <= i < n,
                n == self.count(),
                page == self.page::<F>(font_system.fonts()),
                shown_below(page, line as int) == shown_below(page, i as int),
            decreases n - i,
        {
            i = i + 1;
            if !self.line_hidden(i) {
                return Some(i);
            }
        }
        None
    }

    /// Moves one visual line up.
    fn move_up<F: FontSystem>(
        &mut self,
        font_system: &mut F,
        cursor: Cursor,
        cursor_x_opt: Option<i32>,
    ) -> (r: Option<(Cursor, Option<i32>)>)
        requires
            old(self).wf(),
        ensures
            final(font_system).fonts() == old(font_system).fonts(),
            final(self).wf(),
            final(self).same_frame(old(self)),
            old(self).store.keeps::<F>(
                &final(self).store,
                old(font_system).fonts(),
                old(self).settings(),
            ),
            old(self).store.steady::<F>(old(font_system).fonts(), old(self).settings()) ==> r == up(
                old(self).page::<F>(old(font_system).fonts()),
                cursor,
                cursor_x_opt,
            ),
            old(self).store.steps::<F>(
                &final(self).store,
                old(font_system).fonts(),
                old(self).settings(),
                cursor,
                cursor_x_opt,
                true,
                r,
            ),
            r matches Some((moved, _)) ==> old(self).store.holds(moved),
    {
        let ghost fonts = font_system.fonts();
        let ghost settings = self.settings();
        let ghost s0 = self.store;
        proof {
            reveal(LineStore::steps);
        }
        let mut place = match self.layout_cursor(font_system, cursor) {
            Some(place) => place,
            None => {
                return None;
            },
        };
        let ghost s1 = self.store;
        let x = match cursor_x_opt {
            Some(x) => x,
            None => #[verifier::truncate]
            (place.glyph as i32),
        };
        if place.layout > 0 {
            place.layout = place.layout - 1;
        } else if let Some(line) = self.visible_above(font_system, place.line) {
            place.line = line;
            place.layout = usize::MAX;
        }
        place.glyph = #[verifier::truncate]
        (x as usize);
        let r = match self.move_to_place(font_system, place) {
            Some(moved) => {
                proof {
                    lemma_same_spots(&s0, &s1, moved);
                }
                Some((moved, Some(x)))
            },
            None => None,
        };
        proof {
            lemma_keeps_chain::<F>(&s0, &s1, &self.store, fonts, settings);
        }
        r
    }

    /// Moves one visual line down.
    fn move_down<F: FontSystem>(
        &mut self,
        font_system: &mut F,
        cursor: Cursor,
        cursor_x_opt: Option<i32>,
    ) -> (r: Option<(Cursor, Option<i32>)>)
        requires
            old(self).wf(),
        ensures
            final(font_system).fonts() == old(font_system).fonts(),
            final(self).wf(),
            final(self).same_frame(old(self)),
            old(self).store.keeps::<F>(
                &final(self).store,
                old(font_system).fonts(),
                old(self).settings(),
            ),
            old(self).store.steady::<F>(old(font_system).fonts(), old(self).settings()) ==> r
                == down(old(self).page::<F>(old(font_system).fonts()), cursor, cursor_x_opt),
            old(self).store.steps::<F>(
                &final(self).store,
                old(font_system).fonts(),
                old(self).settings(),
                cursor,
                cursor_x_opt,
                false,
                r,
            ),
            r matches Some((moved, _)) ==> old(self).store.holds(moved),
    {
        let ghost fonts = font_system.fonts();
        let ghost settings = self.settings();
        let ghost s0 = self.store;
        proof {
            reveal(LineStore::steps);
        }
        let (mut place, layout_len) = match self.line_layout(font_system, cursor.line) {
            Some(layout) => (find_place(layout, cursor), layout.len()),
            None => {
                return None;
            },
        };
        let ghost s1 = self.store;
        proof {
            assert(self.page::<F>(fonts).layouts.len() == self.count());
        }
        let x = match cursor_x_opt {
            Some(x) => x,
            None => #[verifier::truncate]
            (place.glyph as i32),
        };
        if layout_len > 0 && place.layout < layout_len - 1 {
            place.layout = place.layout + 1;
        } else if let Some(line) = self.visible_below(font_system, place.line) {
            place.line = line;
            place.layout = 0;
        }
        place.glyph = #[verifier::truncate]
        (x as usize);
        let r = match self.move_to_place(font_system, place) {
            Some(moved) => {
                proof {
                    lemma_same_spots(&s0, &s1, moved);
                }
                Some((moved, Some(x)))
            },
            None => None,
        };
        proof {
            lemma_keeps_chain::<F>(&s0, &s1, &self.store, fonts, settings);
        }
        r
    }

    /// Moves up or down by a number of visual lines.
    fn move_lines<F: FontSystem>(
        &mut self,
        font_system: &mut F,
        cursor: Cursor,
        cursor_x_opt: Option<i32>,
        lines: i32,
    ) -> (r: Option<(Cursor, Option<i32>)>)
        requires
            old(self).wf(),
            lines > i32::MIN,
        ensures
            final(font_system).fonts() == old(font_system).fonts(),
            final(self).wf(),
            final(self).same_frame(old(self)),
            old(self).store.keeps::<F>(
                &final(self).store,
                old(font_system).fonts(),
                old(self).settings(),
            ),
            old(self).store.steady::<F>(old(font_system).fonts(), old(self).settings()) ==> r
                == if lines < 0 {
                up_by(
                    old(self).page::<F>(old(font_system).fonts()),
                    cursor,
                    cursor_x_opt,
                    (-lines) as nat,
                )
            } else {
                down_by(
                    old(self).page::<F>(old(font_system).fonts()),
                    cursor,
                    cursor_x_opt,
                    lines as nat,
                )
            },
            old(self).store.goes::<F>(
                &final(self).store,
                old(font_system).fonts(),
                old(self).settings(),
                cursor,
                cursor_x_opt,
                lines < 0,
                if lines < 0 {
                    (-lines) as nat
                } else {
                    lines as nat
                },
                r,
            ),
            old(self).store.holds(cursor) && r is Some ==> old(self).store.holds(r.unwrap().0),
    {
        let ghost fonts = font_system.fonts();
        let ghost settings = self.settings();
        let ghost page = self.page::<F>(fonts);
        let ghost s0 = self.store;
        proof {
            lemma_keeps_itself::<F>(&s0, fonts, settings);
        }
        let up = lines < 0;
        let mut left: i32 = if up {
            -lines
        } else {
            lines
        };
        let ghost n = left as nat;
        let mut cursor_now = cursor;
        let mut x_now = cursor_x_opt;
        while left > 0
            invariant
                font_system.fonts() == fonts,
                fonts == old(font_system).fonts(),
                self.wf(),
                self.same_frame(old(self)),
                settings == old(self).settings(),
                s0 == old(self).store,
                s0.keeps::<F>(&self.store, fonts, settings),
                page == s0.page::<F>(fonts, settings),
                0 <= left,
                up == (lines < 0),
                n == if up { -lines as int } else { lines as int },
                s0.holds(cursor) ==> s0.holds(cursor_now),
                forall|after: LineStore, r: Moved| #[trigger]
                    self.store.goes::<F>(
                        &after,
                        fonts,
                        settings,
                        cursor_now,
                        x_now,
                        up,
                        left as nat,
                        r,
                    ) ==> s0.goes::<F>(
                        &after,
                        fonts,
                        settings,
                        cursor,
                        cursor_x_opt,
                        up,
                        n,
                        r,
                    ),
                s0.steady::<F>(fonts, settings) ==> if up {
                    up_by(page, cursor, cursor_x_opt, n) == up_by(
                        page,
                        cursor_now,
                        x_now,
                        left as nat,
                    )
                } else {
                    down_by(page, cursor, cursor_x_opt, n) == down_by(
                        page,
                        cursor_now,
                        x_now,
                        left as nat,
                    )
                },
            decreases left,
        {
            let ghost before = self.store;
            let moved = if up {
                self.move_up(font_system, cursor_now, x_now)
            } else {
                self.move_down(font_system, cursor_now, x_now)
            };
            proof {
                lemma_keeps_chain::<F>(&s0, &before, &self.store, fonts, settings);
                assert(before.steps::<F>(
                    &self.store,
                    fonts,
                    settings,
                    cursor_now,
                    x_now,
                    up,
                    moved,
                ));
            }
            match moved {
                Some((cursor, x)) => {
                    proof {
                        lemma_same_spots(&s0, &before, cursor);
                        lemma_goes_on::<F>(
                            &before,
                            &self.store,
                            fonts,
                            settings,
                            cursor_now,
                            x_now,
                            up,
                            left as nat,
                            cursor,
                            x,
                        );
                    }
                    cursor_now = cursor;
                    x_now = x;
                },
                None => {
                    assert(before.goes::<F>(
                        &self.store,
                        fonts,
                        settings,
                        cursor_now,
                        x_now,
                        up,
                        left as nat,
                        None,
                    )) by {
                        reveal(LineStore::goes);
                    }
                    return None;
                },
            }
            left = left - 1;
        }
        assert(self.store.goes::<F>(
            &self.store,
            fonts,
            settings,
            cursor_now,
            x_now,
            up,
            0,
            Some((cursor_now, x_now)),
        )) by {
            reveal(LineStore::goes);
        }
        Some((cursor_now, x_now))
    }

    /// Whether the vertical part of a motion can be counted in lines.
    pub open spec fn countable<F: PixelMath>(&self, motion: Motion) -> bool {
        pixels::<F>(motion, self.height_opt) matches Some(px) ==> {
            let line_px = F::truncated(self.metrics.line_height) as int;
            line_px != 0 && -0x7fff_ffff <= ratio(px, line_px) <= 0x7fff_ffff
        }
    }

    /// Whether a motion leads to `r` and turns `self` into `after`. Motions
    /// that need more than one line lay them out one after the other.
    pub open spec fn moves<F: FontSystem>(
        &self,
        after: &Buffer,
        fonts: int,
        cursor: Cursor,
        x_opt: Option<i32>,
        motion: Motion,
        r: Moved,
    ) -> bool {
        let settings = self.settings();
        match motion {
            Motion::Up | Motion::Down => self.store.steps::<F>(
                &after.store,
                fonts,
                settings,
                cursor,
                x_opt,
                motion is Up,
                r,
            ),
            Motion::PageUp | Motion::PageDown | Motion::Vertical(_) => match pixels::<F>(
                motion,
                self.height_opt,
            ) {
                Some(px) => {
                    let lines = ratio(px, F::truncated(self.metrics.line_height) as int);
                    self.store.goes::<F>(
                        &after.store,
                        fonts,
                        settings,
                        cursor,
                        x_opt,
                        lines < 0,
                        if lines < 0 {
                            (-lines) as nat
                        } else {
                            lines as nat
                        },
                        r,
                    )
                },
                None => r == Some((cursor, x_opt)) && *after == *self,
            },
            Motion::GotoLine(to) => {
                let there = match r {
                    Some((there, _)) => Some(there),
                    None => None,
                };
                &&& r matches Some((_, x)) ==> x == x_opt
                &&& self.store.jumps::<F>(&after.store, fonts, settings, cursor, to, there)
            },
            _ => {
                &&& r == moved::<F>(
                    self.page::<F>(fonts),
                    self.height_opt,
                    self.metrics.line_height,
                    cursor,
                    x_opt,
                    motion,
                )
                &&& match motion {
                    Motion::LayoutCursor(place) => if place.line < self.count() {
                        self.store.lays_out_line::<F>(
                            &after.store,
                            fonts,
                            settings,
                            place.line as int,
                        )
                    } else {
                        *after == *self
                    },
                    Motion::Left | Motion::Right | Motion::LeftWord | Motion::RightWord => if cursor.line
                        < self.count() {
                        self.store.shapes_line::<F>(
                            &after.store,
                            fonts,
                            settings,
                            cursor.line as int,
                        )
                    } else {
                        *after == *self
                    },
                    _ => *after == *self,
                }
            },
        }
    }

    /// Tells whether a line runs right to left, shaping it if need be.
    fn runs_rtl<F: FontSystem>(&mut self, font_system: &mut F, line: usize) -> (r: Option<bool>)
        requires
            old(self).wf(),
        ensures
            final(font_system).fonts() == old(font_system).fonts(),
            final(self).wf(),
            final(self).same_frame(old(self)),
            old(self).store.keeps::<F>(
                &final(self).store,
                old(font_system).fonts(),
                old(self).settings(),
            ),
            r == if line < old(self).count() {
                Some(old(self).page::<F>(old(font_system).fonts()).rtl[line as int])
            } else {
                None
            },
            if line < old(self).count() {
                old(self).store.shapes_line::<F>(
                    &final(self).store,
                    old(font_system).fonts(),
                    old(self).settings(),
                    line as int,
                )
            } else {
                *final(self) == *old(self)
            },
    {
        match self.line_shape(font_system, line) {
            Some(shape) => Some(shape.rtl),
            None => None,
        }
    }

    /// Moves by the pixels that a motion goes up or down.
    fn move_vertical<F: FontSystem>(
        &mut self,
        font_system: &mut F,
        cursor: Cursor,
        cursor_x_opt: Option<i32>,
        px: i32,
    ) -> (r: Option<(Cursor, Option<i32>)>)
        requires
            old(self).wf(),
            F::truncated(old(self).metrics.line_height) != 0,
            -0x7fff_ffff <= ratio(px as int, F::truncated(old(self).metrics.line_height) as int)
                <= 0x7fff_ffff,
        ensures
            final(font_system).fonts() == old(font_system).fonts(),
            final(self).wf(),
            final(self).same_frame(old(self)),
            old(self).store.keeps::<F>(
                &final(self).store,
                old(font_system).fonts(),
                old(self).settings(),
            ),
            old(self).store.steady::<F>(old(font_system).fonts(), old(self).settings()) ==> r
                == vertical(
                old(self).page::<F>(old(font_system).fonts()),
                cursor,
                cursor_x_opt,
                px as int,
                F::truncated(old(self).metrics.line_height) as int,
            ),
            ({
                let lines = ratio(px as int, F::truncated(old(self).metrics.line_height) as int);
                old(self).store.goes::<F>(
                    &final(self).store,
                    old(font_system).fonts(),
                    old(self).settings(),
                    cursor,
                    cursor_x_opt,
                    lines < 0,
                    if lines < 0 {
                        (-lines) as nat
                    } else {
                        lines as nat
                    },
                    r,
                )
            }),
            old(self).store.holds(cursor) && r is Some ==> old(self).store.holds(r.unwrap().0),
    {
        let line_px = F::truncate(self.metrics.line_height);
        let lines = divide(px, line_px);
        self.move_lines(font_system, cursor, cursor_x_opt, lines)
    }

    /// Moves up or down, by a visual line or by a number of pixels.
    fn move_across<F: FontSystem>(
        &mut self,
        font_system: &mut F,
        cursor: Cursor,
        cursor_x_opt: Option<i32>,
        motion: Motion,
    ) -> (r: Option<(Cursor, Option<i32>)>)
        requires
            old(self).wf(),
            old(self).countable::<F>(motion),
            motion is Up || motion is Down || motion is PageUp || motion is PageDown
                || motion is Vertical,
        ensures
            final(font_system).fonts() == old(font_system).fonts(),
            final(self).wf(),
            final(self).same_frame(old(self)),
            old(self).store.keeps::<F>(
                &final(self).store,
                old(font_system).fonts(),
                old(self).settings(),
            ),
            old(self).moves::<F>(
                final(self),
                old(font_system).fonts(),
                cursor,
                cursor_x_opt,
                motion,
                r,
            ),
            old(self).store.steady::<F>(old(font_system).fonts(), old(self).settings()) ==> r
                == moved::<F>(
                old(self).page::<F>(old(font_system).fonts()),
                old(self).height_opt,
                old(self).metrics.line_height,
                cursor,
                cursor_x_opt,
                motion,
            ),
            old(self).store.holds(cursor) && r is Some ==> old(self).store.holds(r.unwrap().0),
    {
        proof {
            lemma_keeps_itself::<F>(&self.store, font_system.fonts(), self.settings());
        }
        match motion {
            Motion::Up => self.move_up(font_system, cursor, cursor_x_opt),
            Motion::Down => self.move_down(font_system, cursor, cursor_x_opt),
            Motion::PageUp => match self.height_opt {
                Some(height) => {
                    let px = F::truncate(height.negate());
                    self.move_vertical(font_system, cursor, cursor_x_opt, px)
                },
                None => Some((cursor, cursor_x_opt)),
            },
            Motion::PageDown => match self.height_opt {
                Some(height) => {
                    let px = F::truncate(height);
                    self.move_vertical(font_system, cursor, cursor_x_opt, px)
                },
                None => Some((cursor, cursor_x_opt)),
            },
            Motion::Vertical(px) => self.move_vertical(font_system, cursor, cursor_x_opt, px),
            _ => None,
        }
    }

    /// Applies a motion to a cursor. Returns where it leads, and the column
    /// that vertical motions keep to from there on; `None` if it leads to no
    /// line.
    pub fn cursor_motion<F: FontSystem>(
        &mut self,
        font_system: &mut F,
        cursor: Cursor,
        cursor_x_opt: Option<i32>,
        motion: Motion,
    ) -> (r: Option<(Cursor, Option<i32>)>)
        requires
            old(self).wf(),
            old(self).countable::<F>(motion),
        ensures
            final(font_system).fonts() == old(font_system).fonts(),
            final(self).wf(),
            final(self).same_frame(old(self)),
            old(self).store.keeps::<F>(
                &final(self).store,
                old(font_system).fonts(),
                old(self).settings(),
            ),
            old(self).moves::<F>(
                final(self),
                old(font_system).fonts(),
                cursor,
                cursor_x_opt,
                motion,
                r,
            ),
            old(self).store.steady::<F>(old(font_system).fonts(), old(self).settings()) ==> r
                == moved::<F>(
                old(self).page::<F>(old(font_system).fonts()),
                old(self).height_opt,
                old(self).metrics.line_height,
                cursor,
                cursor_x_opt,
                motion,
            ),
            old(self).store.holds(cursor) && r is Some ==> old(self).store.holds(r.unwrap().0),
    {
        let ghost fonts = font_system.fonts();
        let ghost settings = self.settings();
        let ghost page = self.page::<F>(fonts);
        let ghost s0 = self.store;
        proof {
            lemma_keeps_itself::<F>(&s0, fonts, settings);
        }
        match motion {
            Motion::LayoutCursor(place) => match self.move_to_place(font_system, place) {
                Some(cursor) => Some((cursor, cursor_x_opt)),
                None => None,
            },
            Motion::Previous => match self.move_previous(font_system, cursor) {
                Some(cursor) => Some((cursor, None)),
                None => None,
            },
            Motion::Next => match self.move_next(font_system, cursor) {
                Some(cursor) => Some((cursor, None)),
                None => None,
            },
            Motion::Left | Motion::Right | Motion::LeftWord | Motion::RightWord => {
                self.move_sideways(font_system, cursor, cursor_x_opt, motion)
            },
            Motion::Up | Motion::Down | Motion::PageUp | Motion::PageDown | Motion::Vertical(_) => {
                self.move_across(font_system, cursor, cursor_x_opt, motion)
            },
            Motion::PreviousWord => match self.move_previous_word(font_system, cursor) {
                Some(cursor) => Some((cursor, None)),
                None => None,
            },
            Motion::NextWord => match self.move_next_word(font_system, cursor) {
                Some(cursor) => Some((cursor, None)),
                None => None,
            },
            Motion::GotoLine(line) => match self.move_to_line(font_system, cursor, line) {
                Some(cursor) => Some((cursor, cursor_x_opt)),
                None => None,
            },
            _ => match self.move_to_end(font_system, cursor, motion) {
                Some(cursor) => Some((cursor, None)),
                None => None,
            },
        }
    }

    /// Moves to the start or the end of a line or of the text.
    fn move_to_end<F: FontSystem>(&self, font_system: &F, cursor: Cursor, motion: Motion) -> (r: Option<
        Cursor,
    >)
        requires
            self.wf(),
            motion is Home || motion is ParagraphStart || motion is SoftHome || motion is End
                || motion is ParagraphEnd || motion is BufferStart || motion is BufferEnd,
        ensures
            r == to_end(self.page::<F>(font_system.fonts()), cursor, motion),
            self.store.holds(cursor) && r is Some ==> self.store.holds(r.unwrap()),
    {
        let ghost page = self.page::<F>(font_system.fonts());
        proof {
            if cursor.line < self.count() {
                lemma_line_edges(&self.store, cursor.line as int);
            }
        }
        match motion {
            Motion::Home | Motion::ParagraphStart => Some(Cursor { index: 0, ..cursor }),
            Motion::SoftHome => match self.line_text_cow(cursor.line) {
                Some(text) => {
                    assert(page.texts[cursor.line as int] == encode_utf8(text@));
                    Some(Cursor { index: find_ink(text), ..cursor })
                },
                None => None,
            },
            Motion::End | Motion::ParagraphEnd => if cursor.line < self.line_count() {
                Some(Cursor { index: self.text_len(cursor.line), ..cursor })
            } else {
                None
            },
            Motion::BufferStart => {
                proof {
                    if cursor.line < self.count() {
                        lemma_line_edges(&self.store, 0);
                    }
                }
                Some(Cursor { line: 0, index: 0, ..cursor })
            },
            _ => {
                let n = self.line_count();
                if n > 0 {
                    let line = n - 1;
                    proof {
                        lemma_line_edges(&self.store, line as int);
                    }
                    Some(Cursor { line, index: self.text_len(line), ..cursor })
                } else {
                    None
                }
            },
        }
    }

    /// Moves to the same place of another line.
    fn move_to_line<F: FontSystem>(&mut self, font_system: &mut F, cursor: Cursor, line: usize) -> (r:
        Option<Cursor>)
        requires
            old(self).wf(),
        ensures
            final(font_system).fonts() == old(font_system).fonts(),
            final(self).wf(),
            final(self).same_frame(old(self)),
            old(self).store.keeps::<F>(
                &final(self).store,
                old(font_system).fonts(),
                old(self).settings(),
            ),
            old(self).store.steady::<F>(old(font_system).fonts(), old(self).settings()) ==> r
                == if cursor.line < old(self).count() {
                let page = old(self).page::<F>(old(font_system).fonts());
                at_place_on(
                    page,
                    LayoutCursor { line, ..place_in(page.layouts[cursor.line as int], cursor) },
                )
            } else {
                None
            },
            old(self).store.jumps::<F>(
                &final(self).store,
                old(font_system).fonts(),
                old(self).settings(),
                cursor,
                line,
                r,
            ),
            r matches Some(moved) ==> old(self).store.holds(moved),
    {
        let ghost fonts = font_system.fonts();
        let ghost settings = self.settings();
        let ghost s0 = self.store;
        proof {
            reveal(LineStore::jumps);
        }
        let place = match self.layout_cursor(font_system, cursor) {
            Some(place) => place,
            None => {
                return None;
            },
        };
        let ghost s1 = self.store;
        let r = self.move_to_place(font_system, LayoutCursor { line, ..place });
        proof {
            lemma_keeps_chain::<F>(&s0, &s1, &self.store, fonts, settings);
            if let Some(moved) = r {
                lemma_same_spots(&s0, &s1, moved);
            }
        }
        r
    }

    /// Moves forth or back by a cluster or a word.
    fn move_along<F: FontSystem>(
        &self,
        font_system: &F,
        cursor: Cursor,
        forth: bool,
        word: bool,
    ) -> (r: Option<Cursor>)
        requires
            self.wf(),
        ensures
            r == if cursor.line < self.count() {
                Some(along(self.page::<F>(font_system.fonts()), cursor, forth, word))
            } else {
                None
            },
            self.store.holds(cursor) ==> r is Some && self.store.holds(r.unwrap()),
    {
        if word {
            if forth {
                self.move_next_word(font_system, cursor)
            } else {
                self.move_previous_word(font_system, cursor)
            }
        } else if forth {
            self.move_next(font_system, cursor)
        } else {
            self.move_previous(font_system, cursor)
        }
    }

    /// Moves to the left or to the right by a cluster or a word.
    fn move_sideways<F: FontSystem>(
        &mut self,
        font_system: &mut F,
        cursor: Cursor,
        cursor_x_opt: Option<i32>,
        motion: Motion,
    ) -> (r: Option<(Cursor, Option<i32>)>)
        requires
            old(self).wf(),
            motion is Left || motion is Right || motion is LeftWord || motion is RightWord,
        ensures
            final(font_system).fonts() == old(font_system).fonts(),
            final(self).wf(),
            final(self).same_frame(old(self)),
            old(self).store.keeps::<F>(
                &final(self).store,
                old(font_system).fonts(),
                old(self).settings(),
            ),
            r == moved::<F>(
                old(self).page::<F>(old(font_system).fonts()),
                old(self).height_opt,
                old(self).metrics.line_height,
                cursor,
                cursor_x_opt,
                motion,
            ),
            if cursor.line < old(self).count() {
                old(self).store.shapes_line::<F>(
                    &final(self).store,
                    old(font_system).fonts(),
                    old(self).settings(),
                    cursor.line as int,
                )
            } else {
                *final(self) == *old(self)
            },
            old(self).store.holds(cursor) && r is Some ==> old(self).store.holds(r.unwrap().0),
    {
        let ghost p0 = self.page::<F>(font_system.fonts());
        let ghost s0 = self.store;
        let rtl = match self.runs_rtl(font_system, cursor.line) {
            Some(rtl) => rtl,
            None => {
                return Some((cursor, cursor_x_opt));
            },
        };
        proof {
            let p1 = self.page::<F>(font_system.fonts());
            lemma_same_texts::<F>(&s0, &self.store, font_system.fonts(), self.settings());
            lemma_sideways::<F>(
                p0,
                p1,
                self.height_opt,
                self.metrics.line_height,
                cursor,
                cursor_x_opt,
                motion,
            );
        }
        let forth = match motion {
            Motion::Left | Motion::LeftWord => rtl,
            _ => !rtl,
        };
        let word = match motion {
            Motion::LeftWord | Motion::RightWord => true,
            _ => false,
        };
        let moved = self.move_along(font_system, cursor, forth, word);
        proof {
            lemma_same_spots(&s0, &self.store, cursor);
            if let Some(moved) = moved {
                lemma_same_spots(&s0, &self.store, moved);
            }
        }
        match moved {
            Some(cursor) => Some((cursor, None)),
            None => None,
        }
    }
}

} // verus!
