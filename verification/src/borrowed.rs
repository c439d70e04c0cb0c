//! A buffer together with the font system that it is shaped with.

use vstd::prelude::*;
use vstd::utf8::*;

use crate::attrs::{Attrs, Color};
use crate::buffer::{Buffer, LineStore};
use crate::cursor::{Cursor, Motion};
use crate::dirty::DirtyFlags;
use crate::hit::hit_from;
use crate::layout::{
    layout_view, Align, Direction, Ellipsize, FontSystem, Hinting, LayoutLine, ShapeLine, Shaping,
    Wrap,
};
use crate::line::lines_view;
use crate::line_iter::cuts;
use crate::motion::moved;
use crate::pixel::{same_opt, zero, Metrics, Px};
use crate::render::{marks, Renderer};
use crate::rich_text::rich_lines;
use crate::run_iter::{run_start, LayoutRunIter};
use crate::set_text::text_lines;

verus! {

/// A value and the font system that it is used with, both borrowed.
pub struct BorrowedWithFontSystem<'a, T, F> {
    /// The value.
    pub inner: &'a mut T,
    /// The font system.
    pub font_system: &'a mut F,
}

impl Buffer {
    /// Borrows the buffer together with a font system.
    pub fn borrow_with<'a, F: FontSystem>(&'a mut self, font_system: &'a mut F) -> (r:
        BorrowedWithFontSystem<'a, Buffer, F>)
        ensures
            *r.inner == *old(self),
            *final(r.inner) == *final(self),
            *r.font_system == *old(font_system),
            *final(r.font_system) == *final(font_system),
    {
        BorrowedWithFontSystem { inner: self, font_system }
    }
}

impl<'a, F: FontSystem> BorrowedWithFontSystem<'a, Buffer, F> {
    /// Brings the view up to date and moves it to where it shows a cursor.
    pub fn shape_until_cursor(&mut self, cursor: Cursor, prune: bool)
        requires
            old(self).inner.wf(),
            cursor.line < old(self).inner.count(),
        ensures
            final(self).inner.wf(),
            old(self).inner.brings_into_view::<F>(
                final(self).inner,
                old(self).font_system.fonts(),
                cursor,
                prune,
            ),
            final(self).font_system.fonts() == old(self).font_system.fonts(),
            *final(final(self).inner) == *final(old(self).inner),
            *final(final(self).font_system) == *final(old(self).font_system),
    {
        self.inner.shape_until_cursor(self.font_system, cursor, prune);
    }

    /// Shapes line `line_i`, unless its shape is kept, and returns the result.
    pub fn line_shape(&mut self, line_i: usize) -> (r: Option<&ShapeLine>)
        requires
            old(self).inner.wf(),
        ensures
            final(self).inner.wf(),
            final(self).inner.same_frame(old(self).inner),
            r is Some <==> line_i < old(self).inner.count(),
            old(self).inner.store.keeps::<F>(
                &final(self).inner.store,
                old(self).font_system.fonts(),
                old(self).inner.settings(),
            ),
            match r {
                Some(shape) => {
                    &&& old(self).inner.store.shapes_line::<F>(
                        &final(self).inner.store,
                        old(self).font_system.fonts(),
                        old(self).inner.settings(),
                        line_i as int,
                    )
                    &&& shape@ == match old(self).inner.store {
                        LineStore::Full(lines) => lines@[line_i as int]@.with_shape::<F>(
                            old(self).font_system.fonts(),
                            old(self).inner.settings(),
                        ).shape.unwrap(),
                        LineStore::Rope(store) => store.shape_now::<F>(
                            old(self).font_system.fonts(),
                            old(self).inner.settings(),
                            line_i as int,
                        ),
                    }
                },
                None => *final(self).inner == *old(self).inner,
            },
            final(self).font_system.fonts() == old(self).font_system.fonts(),
            *final(final(self).inner) == *final(old(self).inner),
            *final(final(self).font_system) == *final(old(self).font_system),
    {
        self.inner.line_shape(self.font_system, line_i)
    }

    /// Lays line `line_i` out, unless its layout is kept, and returns the
    /// result.
    pub fn line_layout(&mut self, line_i: usize) -> (r: Option<&[LayoutLine]>)
        requires
            old(self).inner.wf(),
        ensures
            final(self).inner.wf(),
            final(self).inner.same_frame(old(self).inner),
            r is Some <==> line_i < old(self).inner.count(),
            old(self).inner.store.keeps::<F>(
                &final(self).inner.store,
                old(self).font_system.fonts(),
                old(self).inner.settings(),
            ),
            match r {
                Some(layout) => {
                    &&& old(self).inner.store.lays_out_line::<F>(
                        &final(self).inner.store,
                        old(self).font_system.fonts(),
                        old(self).inner.settings(),
                        line_i as int,
                    )
                    &&& layout_view(layout@) == old(self).inner.page::<F>(
                        old(self).font_system.fonts(),
                    ).layouts[line_i as int]
                },
                None => *final(self).inner == *old(self).inner,
            },
            final(self).font_system.fonts() == old(self).font_system.fonts(),
            *final(final(self).inner) == *final(old(self).inner),
            *final(final(self).font_system) == *final(old(self).font_system),
    {
        self.inner.line_layout(self.font_system, line_i)
    }

    /// Sets the metrics.
    pub fn set_metrics(&mut self, metrics: Metrics)
        requires
            !metrics.font_size.same(zero()),
            metrics.same(old(self).inner.metrics) || !metrics.line_height.same(zero()),
        ensures
            *final(self).inner == old(self).inner.with_metrics(metrics),
            *final(self).font_system == *old(self).font_system,
            *final(final(self).inner) == *final(old(self).inner),
            *final(final(self).font_system) == *final(old(self).font_system),
    {
        self.inner.set_metrics(metrics);
    }

    /// Sets whether glyphs are fitted to the pixel grid.
    pub fn set_hinting(&mut self, hinting: Hinting)
        ensures
            *final(self).inner == if hinting == old(self).inner.hinting {
                *old(self).inner
            } else {
                Buffer { hinting, ..old(self).inner.with_relayout() }
            },
            *final(self).font_system == *old(self).font_system,
            *final(final(self).inner) == *final(old(self).inner),
            *final(final(self).font_system) == *final(old(self).font_system),
    {
        self.inner.set_hinting(hinting);
    }

    /// Sets how lines are broken.
    pub fn set_wrap(&mut self, wrap: Wrap)
        ensures
            *final(self).inner == if wrap == old(self).inner.wrap {
                *old(self).inner
            } else {
                Buffer { wrap, ..old(self).inner.with_relayout() }
            },
            *final(self).font_system == *old(self).font_system,
            *final(final(self).inner) == *final(old(self).inner),
            *final(final(self).font_system) == *final(old(self).font_system),
    {
        self.inner.set_wrap(wrap);
    }

    /// Sets the base direction.
    pub fn set_direction(&mut self, direction: Direction)
        ensures
            *final(self).inner == if direction == old(self).inner.direction {
                *old(self).inner
            } else {
                Buffer {
                    direction,
                    dirty: DirtyFlags { direction: true, ..old(self).inner.dirty },
                    redraw: true,
                    ..*old(self).inner
                }
            },
            *final(self).font_system == *old(self).font_system,
            *final(final(self).inner) == *final(old(self).inner),
            *final(final(self).font_system) == *final(old(self).font_system),
    {
        self.inner.set_direction(direction);
    }

    /// Sets which part of a line that does not fit is left out.
    pub fn set_ellipsize(&mut self, ellipsize: Ellipsize)
        ensures
            *final(self).inner == if ellipsize == old(self).inner.ellipsize {
                *old(self).inner
            } else {
                Buffer { ellipsize, ..old(self).inner.with_relayout() }
            },
            *final(self).font_system == *old(self).font_system,
            *final(final(self).inner) == *final(old(self).inner),
            *final(final(self).font_system) == *final(old(self).font_system),
    {
        self.inner.set_ellipsize(ellipsize);
    }

    /// Sets width and height of the view. Neither is taken below zero.
    pub fn set_size(&mut self, width_opt: Option<Px>, height_opt: Option<Px>)
        ensures
            *final(self).inner == old(self).inner.with_size(width_opt, height_opt),
            *final(self).font_system == *old(self).font_system,
            *final(final(self).inner) == *final(old(self).inner),
            *final(final(self).font_system) == *final(old(self).font_system),
    {
        self.inner.set_size(width_opt, height_opt);
    }

    /// Sets the metrics and the size of the view.
    pub fn set_metrics_and_size(
        &mut self,
        metrics: Metrics,
        width_opt: Option<Px>,
        height_opt: Option<Px>,
    )
        requires
            !metrics.font_size.same(zero()),
            metrics.same(old(self).inner.metrics) || !metrics.line_height.same(zero()),
        ensures
            *final(self).inner == old(self).inner.with_metrics(metrics).with_size(
                width_opt,
                height_opt,
            ),
            *final(self).font_system == *old(self).font_system,
            *final(final(self).inner) == *final(old(self).inner),
            *final(final(self).font_system) == *final(old(self).font_system),
    {
        self.inner.set_metrics_and_size(metrics, width_opt, height_opt);
    }

    /// Sets the number of spaces between tab stops. Zero is ignored.
    pub fn set_tab_width(&mut self, tab_width: u16)
        ensures
            *final(self).inner == if tab_width == 0 || tab_width == old(self).inner.tab_width {
                *old(self).inner
            } else {
                Buffer {
                    tab_width,
                    dirty: DirtyFlags { tab_shape: true, relayout: true, ..old(self).inner.dirty },
                    redraw: true,
                    ..*old(self).inner
                }
            },
            *final(self).font_system == *old(self).font_system,
            *final(final(self).inner) == *final(old(self).inner),
            *final(final(self).font_system) == *final(old(self).font_system),
    {
        self.inner.set_tab_width(tab_width);
    }

    /// Sets the width that monospace glyphs are resized to; with `None` they
    /// are not.
    pub fn set_monospace_width(&mut self, monospace_width: Option<Px>)
        ensures
            *final(self).inner == if same_opt(monospace_width, old(self).inner.monospace_width) {
                *old(self).inner
            } else {
                Buffer { monospace_width, ..old(self).inner.with_relayout() }
            },
            *final(self).font_system == *old(self).font_system,
            *final(final(self).inner) == *final(old(self).inner),
            *final(final(self).font_system) == *final(old(self).font_system),
    {
        self.inner.set_monospace_width(monospace_width);
    }

    /// Replaces the text. Every line has the given attributes and, where one is
    /// given, the alignment.
    pub fn set_text(
        &mut self,
        text: &str,
        attrs: &Attrs,
        shaping: Shaping,
        alignment: Option<Align>,
    )
        requires
            old(self).inner.store is Full,
        ensures
            final(self).inner.wf(),
            old(self).inner.retexted(
                text_lines(
                    lines_view(old(self).inner.store->Full_0@),
                    cuts(encode_utf8(text@), 0),
                    *attrs,
                    shaping,
                    alignment,
                ),
                final(self).inner,
            ),
            *final(self).font_system == *old(self).font_system,
            *final(final(self).inner) == *final(old(self).inner),
            *final(final(self).font_system) == *final(old(self).font_system),
    {
        self.inner.set_text(text, attrs, shaping, alignment);
    }

    /// Replaces the text by that of all spans together.
    pub fn set_rich_text(
        &mut self,
        spans: &[(&str, Attrs)],
        default_attrs: &Attrs,
        shaping: Shaping,
        alignment: Option<Align>,
    )
        requires
            old(self).inner.store is Full,
        ensures
            final(self).inner.wf(),
            old(self).inner.retexted(
                rich_lines(
                    lines_view(old(self).inner.store->Full_0@),
                    spans@,
                    *default_attrs,
                    shaping,
                    alignment,
                ),
                final(self).inner,
            ),
            *final(self).font_system == *old(self).font_system,
            *final(final(self).inner) == *final(old(self).inner),
            *final(final(self).font_system) == *final(old(self).font_system),
    {
        self.inner.set_rich_text(spans, default_attrs, shaping, alignment);
    }

    /// Brings the view up to date.
    pub fn shape_until_scroll(&mut self, prune: bool)
        requires
            old(self).inner.wf(),
        ensures
            final(self).inner.wf(),
            old(self).inner.refreshes::<F>(
                final(self).inner,
                old(self).font_system.fonts(),
                prune,
            ),
            final(self).font_system.fonts() == old(self).font_system.fonts(),
            *final(final(self).inner) == *final(old(self).inner),
            *final(final(self).font_system) == *final(old(self).font_system),
    {
        self.inner.shape_until_scroll(self.font_system, prune);
    }

    /// Brings the view up to date and walks over its visual lines.
    pub fn layout_runs(&mut self) -> (r: LayoutRunIter<'_>)
        requires
            old(self).inner.wf(),
        ensures
            final(self).inner.wf(),
            old(self).inner.refreshes::<F>(
                final(self).inner,
                old(self).font_system.fonts(),
                false,
            ),
            r.source.wf(),
            r.source.lines() == final(self).inner.found_lines(),
            r == run_start(
                r.source,
                final(self).inner.height_opt,
                final(self).inner.metrics.line_height,
                final(self).inner.scroll.vertical,
                final(self).inner.scroll.line,
            ),
            final(self).font_system.fonts() == old(self).font_system.fonts(),
            *final(final(self).inner) == *final(old(self).inner),
            *final(final(self).font_system) == *final(old(self).font_system),
    {
        self.inner.shape_until_scroll(self.font_system, false);
        self.inner.layout_runs()
    }

    /// Brings the view up to date and finds the cursor at a place in it.
    pub fn hit(&mut self, x: Px, y: Px) -> (r: Option<Cursor>)
        requires
            old(self).inner.wf(),
        ensures
            final(self).inner.wf(),
            old(self).inner.refreshes::<F>(
                final(self).inner,
                old(self).font_system.fonts(),
                false,
            ),
            r == hit_from::<F>(final(self).inner.runs::<F>(), 0, true, None, x, y),
            r matches Some(cursor) ==> final(self).inner.store.holds(cursor),
            final(self).font_system.fonts() == old(self).font_system.fonts(),
            *final(final(self).inner) == *final(old(self).inner),
            *final(final(self).font_system) == *final(old(self).font_system),
    {
        self.inner.shape_until_scroll(self.font_system, false);
        self.inner.hit::<F>(x, y)
    }

    /// Applies a motion to a cursor.
    pub fn cursor_motion(
        &mut self,
        cursor: Cursor,
        cursor_x_opt: Option<i32>,
        motion: Motion,
    ) -> (r: Option<(Cursor, Option<i32>)>)
        requires
            old(self).inner.wf(),
            old(self).inner.countable::<F>(motion),
        ensures
            final(self).inner.wf(),
            final(self).inner.same_frame(old(self).inner),
            old(self).inner.store.keeps::<F>(
                &final(self).inner.store,
                old(self).font_system.fonts(),
                old(self).inner.settings(),
            ),
            old(self).inner.moves::<F>(
                final(self).inner,
                old(self).font_system.fonts(),
                cursor,
                cursor_x_opt,
                motion,
                r,
            ),
            old(self).inner.store.steady::<F>(
                old(self).font_system.fonts(),
                old(self).inner.settings(),
            ) ==> r == moved::<F>(
                old(self).inner.page::<F>(old(self).font_system.fonts()),
                old(self).inner.height_opt,
                old(self).inner.metrics.line_height,
                cursor,
                cursor_x_opt,
                motion,
            ),
            old(self).inner.store.holds(cursor) && r is Some ==> old(self).inner.store.holds(
                r.unwrap().0,
            ),
            final(self).font_system.fonts() == old(self).font_system.fonts(),
            *final(final(self).inner) == *final(old(self).inner),
            *final(final(self).font_system) == *final(old(self).font_system),
    {
        self.inner.cursor_motion(self.font_system, cursor, cursor_x_opt, motion)
    }

    /// Brings the view up to date and draws it.
    pub fn draw<R: Renderer>(&mut self, renderer: &mut R, color: Color)
        requires
            old(self).inner.wf(),
        ensures
            final(self).inner.wf(),
            old(self).inner.refreshes::<F>(
                final(self).inner,
                old(self).font_system.fonts(),
                false,
            ),
            final(renderer).drawn() == old(renderer).drawn() + marks(
                final(self).inner.runs::<F>(),
                color,
            ),
            final(self).font_system.fonts() == old(self).font_system.fonts(),
            *final(final(self).inner) == *final(old(self).inner),
            *final(final(self).font_system) == *final(old(self).font_system),
    {
        self.inner.draw(self.font_system, renderer, color);
    }
}

} // verus!
