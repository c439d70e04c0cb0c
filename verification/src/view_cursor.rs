//! Moving a view to where it shows a cursor.

use vstd::prelude::*;

use crate::buffer::{Buffer, LineStore};
use crate::cursor::{Cursor, Scroll};
use crate::dirty::DirtyFlags;
use crate::layout::{layout_view, FontSystem};
use crate::motion::place_in;
use crate::moving::find_place;
use crate::pixel::Px;
use crate::scrolling::{edges, lowered, reached, row_span, sideways, stack_heights, walked_up};
use crate::settling::{lemma_rises_over, lemma_rises_past};
use crate::shaping::{lemma_keeps_chain, lemma_keeps_itself, lemma_layout_fits};

verus! {

impl Buffer {
    /// What bringing a cursor into view does to the buffer: it is brought up to
    /// date, scrolled up or down, brought up to date at that place, and
    /// scrolled sideways.
    pub open spec fn brings_into_view<F: FontSystem>(
        &self,
        after: &Buffer,
        fonts: int,
        cursor: Cursor,
        prune: bool,
    ) -> bool {
        exists|a: Buffer, b: Buffer, c: Buffer|
            {
                &&& #[trigger] self.refreshes::<F>(&a, fonts, prune)
                &&& #[trigger] a.scrolls_to::<F>(&b, fonts, cursor)
                &&& b.refreshes::<F>(&c, fonts, prune)
                &&& #[trigger] c.scrolls_sideways_to::<F>(after, fonts, cursor)
            }
    }

    /// Whether `after` is `self` once its view has been brought up to date.
    pub open spec fn refreshes<F: FontSystem>(&self, after: &Buffer, fonts: int, prune: bool) -> bool {
        if self.stale() {
            self.brings_up_to_date::<F>(after, fonts, prune)
        } else {
            *after == *self
        }
    }

    /// Whether `after` is `self` once the view has been scrolled up or down to
    /// the visual line that a cursor is on.
    pub open spec fn scrolls_to<F: FontSystem>(&self, after: &Buffer, fonts: int, cursor: Cursor) -> bool {
        &&& *after == (Buffer {
            store: after.store,
            scroll: after.scroll,
            dirty: DirtyFlags {
                scroll: self.dirty.scroll || !after.scroll.same(self.scroll),
                ..self.dirty
            },
            ..*self
        })
        &&& self.store.keeps::<F>(&after.store, fonts, self.settings())
        &&& self.finds_row::<F>(after, fonts, cursor)
        &&& self.store.steady::<F>(fonts, self.settings()) ==> {
            let page = self.page::<F>(fonts);
            let (y, bottom) = self.cursor_span::<F>(fonts, cursor);
            after.scroll == reached::<F>(
                page,
                self.metrics.line_height,
                self.height_opt,
                self.scroll,
                cursor.line as int,
                y,
                bottom,
            )
        }
    }

    /// Where the visual line that a cursor is on begins and ends, from the top
    /// of its line.
    pub open spec fn cursor_span<F: FontSystem>(&self, fonts: int, cursor: Cursor) -> (Px, Px) {
        let rows = self.page::<F>(fonts).layouts[cursor.line as int];
        row_span::<F>(rows, self.metrics.line_height, place_in(rows, cursor).layout as int)
    }

    /// Whether moving the view to the visual line that a cursor is on, once the
    /// line of the cursor has been laid out, leads to the scroll position and
    /// the lines of `after`.
    #[verifier::opaque]
    pub open spec fn finds_row<F: FontSystem>(&self, after: &Buffer, fonts: int, cursor: Cursor) -> bool {
        exists|mid: LineStore|
            {
                &&& #[trigger] self.store.lays_out_line::<F>(
                    &mid,
                    fonts,
                    self.settings(),
                    cursor.line as int,
                )
                &&& mid.reaches::<F>(
                    &after.store,
                    fonts,
                    self.settings(),
                    self.window(),
                    self.scroll,
                    cursor.line as int,
                    self.cursor_span::<F>(fonts, cursor).0,
                    self.cursor_span::<F>(fonts, cursor).1,
                    after.scroll,
                )
            }
    }

    /// Whether `after` is `self` once the view has been scrolled sideways to
    /// the glyph that a cursor is at.
    pub open spec fn scrolls_sideways_to<F: FontSystem>(
        &self,
        after: &Buffer,
        fonts: int,
        cursor: Cursor,
    ) -> bool {
        let page = self.page::<F>(fonts);
        let place = place_in(page.layouts[cursor.line as int], cursor);
        let (left, right) = edges::<F>(
            page.layouts[cursor.line as int][place.layout as int],
            place.glyph as int,
        );
        let horizontal = sideways::<F>(self.scroll.horizontal, self.width_opt, left, right);
        &&& self.store.lays_out_line::<F>(
            &after.store,
            fonts,
            self.settings(),
            cursor.line as int,
        )
        &&& *after == (Buffer {
            store: after.store,
            scroll: Scroll { horizontal, ..self.scroll },
            redraw: self.redraw || left.lt(self.scroll.horizontal) || (
            self.width_opt matches Some(width) && F::sum(
                if left.lt(self.scroll.horizontal) {
                    left
                } else {
                    self.scroll.horizontal
                },
                width,
            ).lt(right)),
            ..*self
        })
    }

    /// Finds the top and the bottom of the visual line that a cursor is on,
    /// from the top of its line.
    fn find_row<F: FontSystem>(&mut self, font_system: &mut F, cursor: Cursor) -> (r: (Px, Px))
        requires
            old(self).wf(),
            cursor.line < old(self).count(),
        ensures
            final(font_system).fonts() == old(font_system).fonts(),
            final(self).wf(),
            final(self).same_frame(old(self)),
            old(self).store.keeps::<F>(
                &final(self).store,
                old(font_system).fonts(),
                old(self).settings(),
            ),
            r == old(self).cursor_span::<F>(old(font_system).fonts(), cursor),
            old(self).store.lays_out_line::<F>(
                &final(self).store,
                old(font_system).fonts(),
                old(self).settings(),
                cursor.line as int,
            ),
    {
        let ghost before = self.store;
        let ghost fonts = font_system.fonts();
        let ghost settings = self.settings();
        let line_height = self.metrics.line_height;
        match self.line_layout(font_system, cursor.line) {
            Some(rows) => {
                let place = find_place(rows, cursor);
                proof {
                    lemma_layout_fits::<F>(&before, fonts, settings, cursor.line as int);
                    assert(layout_view(rows@).len() == rows@.len());
                    assert(layout_view(rows@)[place.layout as int] == rows@[place.layout as int]@);
                }
                let y = stack_heights::<F>(Px::nothing(), rows, place.layout, line_height);
                let height = match rows[place.layout].line_height_opt {
                    Some(height) => height,
                    None => line_height,
                };
                (y, F::plus(y, height))
            },
            None => (Px::nothing(), Px::nothing()),
        }
    }

    /// Lays line `line_i` out. Returns `total` with the height of the line added.
    fn add_height<F: FontSystem>(&mut self, font_system: &mut F, line_i: usize, total: Px) -> (r: Px)
        requires
            old(self).wf(),
            line_i < old(self).count(),
        ensures
            final(font_system).fonts() == old(font_system).fonts(),
            final(self).wf(),
            final(self).same_frame(old(self)),
            old(self).store.keeps::<F>(
                &final(self).store,
                old(font_system).fonts(),
                old(self).settings(),
            ),
            old(self).store.lays_out_line::<F>(
                &final(self).store,
                old(font_system).fonts(),
                old(self).settings(),
                line_i as int,
            ),
            r == old(self).store.height_now::<F>(
                old(font_system).fonts(),
                old(self).settings(),
                old(self).metrics.line_height,
                total,
                line_i as int,
            ),
    {
        let line_height = self.metrics.line_height;
        match self.line_layout(font_system, line_i) {
            Some(layout) => stack_heights::<F>(total, layout, layout.len(), line_height),
            None => total,
        }
    }

    /// Walks up from line `line` to the scroll position that shows a visual
    /// line of it whose bottom is `bottom` below its top.
    #[verifier::rlimit(40)]
    fn walk_up<F: FontSystem>(
        &mut self,
        font_system: &mut F,
        height: Px,
        line: usize,
        bottom: Px,
    )
        requires
            old(self).wf(),
            line < old(self).count(),
        ensures
            final(font_system).fonts() == old(font_system).fonts(),
            final(self).wf(),
            *final(self) == (Buffer {
                store: final(self).store,
                scroll: final(self).scroll,
                ..*old(self)
            }),
            old(self).store.keeps::<F>(
                &final(self).store,
                old(font_system).fonts(),
                old(self).settings(),
            ),
            old(self).store.steady::<F>(old(font_system).fonts(), old(self).settings())
                ==> final(self).scroll == walked_up::<F>(
                old(self).page::<F>(old(font_system).fonts()),
                old(self).metrics.line_height,
                height,
                old(self).scroll,
                line as int,
                bottom,
            ),
            old(self).store.rises::<F>(
                &final(self).store,
                old(font_system).fonts(),
                old(self).settings(),
                old(self).metrics.line_height,
                height,
                old(self).scroll,
                line as int,
                bottom,
                final(self).scroll,
            ),
    {
        let ghost fonts = font_system.fonts();
        let ghost settings = self.settings();
        let ghost page = self.page::<F>(fonts);
        let ghost lh = self.metrics.line_height;
        let ghost s0 = self.store;
        let ghost scroll = self.scroll;
        proof {
            lemma_keeps_itself::<F>(&self.store, fonts, settings);
        }
        let mut line_i: usize = line;
        let mut total = bottom;
        while line_i > self.scroll.line
            invariant
                font_system.fonts() == fonts,
                self.wf(),
                *self == (Buffer { store: self.store, scroll: self.scroll, ..*old(self) }),
                settings == old(self).settings(),
                lh == old(self).metrics.line_height,
                page == old(self).page::<F>(fonts),
                old(self).store.keeps::<F>(&self.store, fonts, settings),
                line_i <= line < old(self).count(),
                old(self).store.steady::<F>(fonts, settings) ==> walked_up::<F>(
                    page,
                    lh,
                    height,
                    self.scroll,
                    line_i as int,
                    total,
                ) == walked_up::<F>(page, lh, height, old(self).scroll, line as int, bottom),
                s0 == old(self).store,
                scroll == old(self).scroll,
                forall|after: LineStore, r: Scroll| #[trigger]
                    self.store.rises::<F>(
                        &after,
                        fonts,
                        settings,
                        lh,
                        height,
                        self.scroll,
                        line_i as int,
                        total,
                        r,
                    ) ==> s0.rises::<F>(
                        &after,
                        fonts,
                        settings,
                        lh,
                        height,
                        scroll,
                        line as int,
                        bottom,
                        r,
                    ),
            decreases line_i,
        {
            let ghost here = self.scroll;
            let ghost so_far = total;
            line_i = line_i - 1;
            if self.line_hidden(line_i) {
                proof {
                    lemma_rises_past::<F>(
                        &self.store,
                        fonts,
                        settings,
                        lh,
                        height,
                        here,
                        line_i + 1,
                        so_far,
                    );
                }
            } else {
                let ghost before = self.store;
                total = self.add_height(font_system, line_i, total);
                proof {
                    lemma_keeps_chain::<F>(&s0, &before, &self.store, fonts, settings);
                    lemma_rises_over::<F>(
                        &before,
                        &self.store,
                        fonts,
                        settings,
                        lh,
                        height,
                        here,
                        line_i + 1,
                        so_far,
                        total,
                    );
                }
            }
            if F::plus(height, self.scroll.vertical).less(total) {
                self.scroll.line = line_i;
                self.scroll.vertical = F::minus(total, height);
            }
            assert(self.scroll == lowered::<F>(here, height, line_i as int, total));
        }
        assert(self.store.rises::<F>(
            &self.store,
            fonts,
            settings,
            lh,
            height,
            self.scroll,
            line_i as int,
            total,
            self.scroll,
        )) by {
            reveal(LineStore::rises);
        }
    }

    /// Scrolls up or down to a visual line of line `line` that begins `y` and
    /// ends `bottom` below the top of the line.
    fn reach<F: FontSystem>(&mut self, font_system: &mut F, line: usize, y: Px, bottom: Px)
        requires
            old(self).wf(),
            line < old(self).count(),
        ensures
            final(font_system).fonts() == old(font_system).fonts(),
            final(self).wf(),
            *final(self) == (Buffer {
                store: final(self).store,
                scroll: final(self).scroll,
                ..*old(self)
            }),
            old(self).store.keeps::<F>(
                &final(self).store,
                old(font_system).fonts(),
                old(self).settings(),
            ),
            old(self).store.steady::<F>(old(font_system).fonts(), old(self).settings())
                ==> final(self).scroll == reached::<F>(
                old(self).page::<F>(old(font_system).fonts()),
                old(self).metrics.line_height,
                old(self).height_opt,
                old(self).scroll,
                line as int,
                y,
                bottom,
            ),
            old(self).store.reaches::<F>(
                &final(self).store,
                old(font_system).fonts(),
                old(self).settings(),
                old(self).window(),
                old(self).scroll,
                line as int,
                y,
                bottom,
                final(self).scroll,
            ),
    {
        proof {
            reveal(LineStore::reaches);
            lemma_keeps_itself::<F>(&self.store, font_system.fonts(), self.settings());
        }
        if self.scroll.line > line || (self.scroll.line == line && y.less(self.scroll.vertical)) {
            self.scroll.line = line;
            self.scroll.vertical = y;
        } else if let Some(height) = self.height_opt {
            if line <= self.scroll.line {
                if F::plus(height, self.scroll.vertical).less(bottom) {
                    self.scroll.vertical = F::minus(bottom, height);
                }
            } else {
                self.walk_up(font_system, height, line, bottom);
            }
        }
    }

    /// Scrolls up or down to the visual line that a cursor is on.
    fn scroll_to<F: FontSystem>(&mut self, font_system: &mut F, cursor: Cursor)
        requires
            old(self).wf(),
            cursor.line < old(self).count(),
        ensures
            final(font_system).fonts() == old(font_system).fonts(),
            final(self).wf(),
            old(self).scrolls_to::<F>(final(self), old(font_system).fonts(), cursor),
    {
        let ghost fonts = font_system.fonts();
        let ghost settings = self.settings();
        let ghost s0 = self.store;
        let old_scroll = self.scroll;
        let (y, bottom) = self.find_row(font_system, cursor);
        let ghost s1 = self.store;
        self.reach(font_system, cursor.line, y, bottom);
        proof {
            assert(s0.keeps::<F>(&s1, fonts, settings));
            lemma_keeps_chain::<F>(&s0, &s1, &self.store, fonts, settings);
            assert(old(self).finds_row::<F>(self, fonts, cursor)) by {
                reveal(Buffer::finds_row);
            }
        }
        let ghost there = *self;
        if !self.scroll.equals(old_scroll) {
            self.dirty.scroll = true;
        }
        assert(old(self).finds_row::<F>(self, fonts, cursor)) by {
            reveal(Buffer::finds_row);
            assert(old(self).finds_row::<F>(&there, fonts, cursor));
        }
    }

    /// Scrolls sideways to the glyph that a cursor is at.
    fn scroll_sideways_to<F: FontSystem>(&mut self, font_system: &mut F, cursor: Cursor)
        requires
            old(self).wf(),
            cursor.line < old(self).count(),
        ensures
            final(font_system).fonts() == old(font_system).fonts(),
            final(self).wf(),
            old(self).scrolls_sideways_to::<F>(final(self), old(font_system).fonts(), cursor),
    {
        let ghost before = self.store;
        let ghost fonts = font_system.fonts();
        let ghost settings = self.settings();
        let (left, right) = match self.line_layout(font_system, cursor.line) {
            Some(rows) => {
                let place = find_place(rows, cursor);
                proof {
                    lemma_layout_fits::<F>(&before, fonts, settings, cursor.line as int);
                    assert(layout_view(rows@).len() == rows@.len());
                    assert(layout_view(rows@)[place.layout as int] == rows@[place.layout as int]@);
                }
                let glyphs = &rows[place.layout].glyphs;
                if glyphs.len() == 0 {
                    (Px::nothing(), Px::nothing())
                } else {
                    let glyph = if place.glyph < glyphs.len() {
                        glyphs[place.glyph]
                    } else {
                        glyphs[glyphs.len() - 1]
                    };
                    let far = F::plus(glyph.x, glyph.w);
                    (glyph.x.min_with(far), glyph.x.max_with(far))
                }
            },
            None => (Px::nothing(), Px::nothing()),
        };
        if left.less(self.scroll.horizontal) {
            self.scroll.horizontal = left;
            self.redraw = true;
        }
        if let Some(width) = self.width_opt {
            if F::plus(self.scroll.horizontal, width).less(right) {
                self.scroll.horizontal = F::minus(right, width);
                self.redraw = true;
            }
        }
    }

    /// Brings the view up to date and moves it to where it shows a cursor: up
    /// or down to its visual line, and sideways to its glyph.
    pub fn shape_until_cursor<F: FontSystem>(
        &mut self,
        font_system: &mut F,
        cursor: Cursor,
        prune: bool,
    )
        requires
            old(self).wf(),
            cursor.line < old(self).count(),
        ensures
            final(font_system).fonts() == old(font_system).fonts(),
            final(self).wf(),
            old(self).brings_into_view::<F>(
                final(self),
                old(font_system).fonts(),
                cursor,
                prune,
            ),
    {
        self.shape_until_scroll(font_system, prune);
        let ghost a = *self;
        self.scroll_to(font_system, cursor);
        let ghost b = *self;
        self.shape_until_scroll(font_system, prune);
        let ghost c = *self;
        self.scroll_sideways_to(font_system, cursor);
        proof {
            let fonts = font_system.fonts();
            assert(old(self).refreshes::<F>(&a, fonts, prune));
            assert(a.scrolls_to::<F>(&b, fonts, cursor));
            assert(b.refreshes::<F>(&c, fonts, prune));
            assert(c.scrolls_sideways_to::<F>(self, fonts, cursor));
        }
    }
}

} // verus!
