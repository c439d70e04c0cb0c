//! The settings of a buffer. A setter that changes something remembers what
//! depends on it.

use vstd::prelude::*;

use crate::buffer::{Buffer, LineStore};
use crate::cursor::Scroll;
use crate::dirty::DirtyFlags;
use crate::layout::{Direction, Ellipsize, Hinting, Wrap};
use crate::line::Settings;
use crate::pixel::{equal_opt, same_opt, zero, Metrics, Px};

verus! {

/// An optional quantity, not below zero.
pub open spec fn clamped_opt(v: Option<Px>) -> Option<Px> {
    match v {
        Some(x) => Some(x.clamped()),
        None => None,
    }
}

/// Makes an optional quantity not be below zero.
fn clamp_opt(v: Option<Px>) -> (r: Option<Px>)
    ensures
        r == clamped_opt(v),
{
    match v {
        Some(x) => Some(x.clamp_to_zero()),
        None => None,
    }
}

impl Buffer {
    /// The buffer with its layouts marked as out of date.
    pub open spec fn with_relayout(self) -> Buffer {
        Buffer { dirty: DirtyFlags { relayout: true, ..self.dirty }, redraw: true, ..self }
    }

    /// The buffer with new metrics, unless they are equal to the old ones.
    pub open spec fn with_metrics(self, metrics: Metrics) -> Buffer {
        if metrics.same(self.metrics) {
            self
        } else {
            Buffer { metrics, ..self.with_relayout() }
        }
    }

    /// The buffer with a new size, where it differs from the old one.
    pub open spec fn with_size(self, width_opt: Option<Px>, height_opt: Option<Px>) -> Buffer {
        let width = clamped_opt(width_opt);
        let height = clamped_opt(height_opt);
        let wide = if same_opt(width, self.width_opt) {
            self
        } else {
            Buffer { width_opt: width, ..self.with_relayout() }
        };
        if same_opt(height, self.height_opt) {
            wide
        } else {
            Buffer { height_opt: height, ..wide.with_relayout() }
        }
    }

    /// What shaping and layout depend on.
    pub fn settings_now(&self) -> (r: Settings)
        ensures
            r == self.settings(),
    {
        Settings {
            font_size: self.metrics.font_size,
            width_opt: self.width_opt,
            wrap: self.wrap,
            ellipsize: self.ellipsize,
            monospace_width: self.monospace_width,
            tab_width: self.tab_width,
            hinting: self.hinting,
            direction: self.direction,
        }
    }

    /// The metrics.
    pub fn metrics(&self) -> (r: Metrics)
        ensures
            r == self.metrics,
    {
        self.metrics
    }

    /// Sets the metrics.
    pub fn set_metrics(&mut self, metrics: Metrics)
        requires
            !metrics.font_size.same(zero()),
            metrics.same(old(self).metrics) || !metrics.line_height.same(zero()),
        ensures
            *final(self) == old(self).with_metrics(metrics),
    {
        if !metrics.equals(self.metrics) {
            self.metrics = metrics;
            self.dirty.relayout = true;
            self.redraw = true;
        }
    }

    /// Whether glyphs are fitted to the pixel grid.
    pub fn hinting(&self) -> (r: Hinting)
        ensures
            r == self.hinting,
    {
        self.hinting
    }

    /// Sets whether glyphs are fitted to the pixel grid.
    pub fn set_hinting(&mut self, hinting: Hinting)
        ensures
            *final(self) == if hinting == old(self).hinting {
                *old(self)
            } else {
                Buffer { hinting, ..old(self).with_relayout() }
            },
    {
        if hinting != self.hinting {
            self.hinting = hinting;
            self.dirty.relayout = true;
            self.redraw = true;
        }
    }

    /// How lines are broken.
    pub fn wrap(&self) -> (r: Wrap)
        ensures
            r == self.wrap,
    {
        self.wrap
    }

    /// Sets how lines are broken.
    pub fn set_wrap(&mut self, wrap: Wrap)
        ensures
            *final(self) == if wrap == old(self).wrap {
                *old(self)
            } else {
                Buffer { wrap, ..old(self).with_relayout() }
            },
    {
        if wrap != self.wrap {
            self.wrap = wrap;
            self.dirty.relayout = true;
            self.redraw = true;
        }
    }

    /// Which part of a line that does not fit is left out.
    pub fn ellipsize(&self) -> (r: Ellipsize)
        ensures
            r == self.ellipsize,
    {
        self.ellipsize
    }

    /// Sets which part of a line that does not fit is left out.
    pub fn set_ellipsize(&mut self, ellipsize: Ellipsize)
        ensures
            *final(self) == if ellipsize == old(self).ellipsize {
                *old(self)
            } else {
                Buffer { ellipsize, ..old(self).with_relayout() }
            },
    {
        if ellipsize != self.ellipsize {
            self.ellipsize = ellipsize;
            self.dirty.relayout = true;
            self.redraw = true;
        }
    }

    /// Width that monospace glyphs are resized to.
    pub fn monospace_width(&self) -> (r: Option<Px>)
        ensures
            r == self.monospace_width,
    {
        self.monospace_width
    }

    /// Sets the width that monospace glyphs are resized to; with `None` they
    /// are not.
    pub fn set_monospace_width(&mut self, monospace_width: Option<Px>)
        ensures
            *final(self) == if same_opt(monospace_width, old(self).monospace_width) {
                *old(self)
            } else {
                Buffer { monospace_width, ..old(self).with_relayout() }
            },
    {
        if !equal_opt(monospace_width, self.monospace_width) {
            self.monospace_width = monospace_width;
            self.dirty.relayout = true;
            self.redraw = true;
        }
    }

    /// Spaces between tab stops.
    pub fn tab_width(&self) -> (r: u16)
        ensures
            r == self.tab_width,
    {
        self.tab_width
    }

    /// Sets the number of spaces between tab stops. Zero is ignored.
    pub fn set_tab_width(&mut self, tab_width: u16)
        ensures
            *final(self) == if tab_width == 0 || tab_width == old(self).tab_width {
                *old(self)
            } else {
                Buffer {
                    tab_width,
                    dirty: DirtyFlags { tab_shape: true, relayout: true, ..old(self).dirty },
                    redraw: true,
                    ..*old(self)
                }
            },
    {
        if tab_width == 0 {
            return;
        }
        if tab_width != self.tab_width {
            self.tab_width = tab_width;
            self.dirty.tab_shape = true;
            self.dirty.relayout = true;
            self.redraw = true;
        }
    }

    /// The base direction.
    pub fn direction(&self) -> (r: Direction)
        ensures
            r == self.direction,
    {
        self.direction
    }

    /// Sets the base direction. With `Auto` it is detected for each paragraph.
    pub fn set_direction(&mut self, direction: Direction)
        ensures
            *final(self) == if direction == old(self).direction {
                *old(self)
            } else {
                Buffer {
                    direction,
                    dirty: DirtyFlags { direction: true, ..old(self).dirty },
                    redraw: true,
                    ..*old(self)
                }
            },
    {
        if direction != self.direction {
            self.direction = direction;
            // Every line is shaped again, which lays it out again as well.
            self.dirty.direction = true;
            self.redraw = true;
        }
    }

    /// Width and height of the view.
    pub fn size(&self) -> (r: (Option<Px>, Option<Px>))
        ensures
            r == (self.width_opt, self.height_opt),
    {
        (self.width_opt, self.height_opt)
    }

    /// Sets width and height of the view. Neither is taken below zero.
    pub fn set_size(&mut self, width_opt: Option<Px>, height_opt: Option<Px>)
        ensures
            *final(self) == old(self).with_size(width_opt, height_opt),
    {
        let width = clamp_opt(width_opt);
        let height = clamp_opt(height_opt);
        if !equal_opt(width, self.width_opt) {
            self.width_opt = width;
            self.dirty.relayout = true;
            self.redraw = true;
        }
        if !equal_opt(height, self.height_opt) {
            self.height_opt = height;
            self.dirty.relayout = true;
            self.redraw = true;
        }
    }

    /// Sets the metrics and the size of the view.
    pub fn set_metrics_and_size(
        &mut self,
        metrics: Metrics,
        width_opt: Option<Px>,
        height_opt: Option<Px>,
    )
        requires
            !metrics.font_size.same(zero()),
            metrics.same(old(self).metrics) || !metrics.line_height.same(zero()),
        ensures
            *final(self) == old(self).with_metrics(metrics).with_size(width_opt, height_opt),
    {
        self.set_metrics(metrics);
        self.set_size(width_opt, height_opt);
    }

    /// Where the view begins.
    pub fn scroll(&self) -> (r: Scroll)
        ensures
            r == self.scroll,
    {
        self.scroll
    }

    /// Sets where the view begins.
    pub fn set_scroll(&mut self, scroll: Scroll)
        ensures
            *final(self) == if scroll.same(old(self).scroll) {
                *old(self)
            } else {
                Buffer {
                    scroll,
                    dirty: DirtyFlags { scroll: true, ..old(self).dirty },
                    redraw: true,
                    ..*old(self)
                }
            },
    {
        if !scroll.equals(self.scroll) {
            self.scroll = scroll;
            self.dirty.scroll = true;
            self.redraw = true;
        }
    }

    /// Whether the buffer has to be drawn again.
    pub fn redraw(&self) -> (r: bool)
        ensures
            r == self.redraw,
    {
        self.redraw
    }

    /// Sets whether the buffer has to be drawn again.
    pub fn set_redraw(&mut self, redraw: bool)
        ensures
            *final(self) == (Buffer { redraw, ..*old(self) }),
    {
        self.redraw = redraw;
    }

    /// Hides or shows line `i`. Returns whether that is a change; if so the
    /// view has to be brought up to date. A line of a rope is never hidden.
    pub fn set_line_hidden(&mut self, i: usize, hidden: bool) -> (changed: bool)
        requires
            old(self).wf(),
        ensures
            final(self).wf(),
            changed == match old(self).store {
                LineStore::Full(lines) => i < lines@.len() && lines@[i as int]@.hidden != hidden,
                LineStore::Rope(_) => false,
            },
            if changed {
                &&& final(self).same_frame(
                    &(Buffer {
                        dirty: DirtyFlags { scroll: true, ..old(self).dirty },
                        redraw: true,
                        ..*old(self)
                    }),
                )
                &&& final(self).store is Full
                &&& crate::line::lines_view(final(self).store->Full_0@) == crate::line::lines_view(
                    old(self).store->Full_0@,
                ).update(
                    i as int,
                    crate::line::LineView { hidden, ..old(self).store->Full_0@[i as int]@ },
                )
            } else {
                *final(self) == *old(self)
            },
    {
        let changed = match &mut self.store {
            LineStore::Full(lines) => if i < lines.len() && lines[i].hidden() != hidden {
                let _changed = lines[i].set_hidden(hidden);
                true
            } else {
                false
            },
            LineStore::Rope(_) => false,
        };
        if changed {
            self.dirty.scroll = true;
            self.redraw = true;
            proof {
                let before = old(self).store->Full_0@;
                let after = self.store->Full_0@;
                assert(crate::line::lines_view(after) =~= crate::line::lines_view(before).update(
                    i as int,
                    crate::line::LineView { hidden, ..before[i as int]@ },
                ));
            }
        }
        changed
    }

    /// Tells whether line `i` is hidden; a line that is out of range is not.
    pub fn line_hidden(&self, i: usize) -> (r: bool)
        requires
            self.wf(),
        ensures
            r == (i < self.count() && self.store.line_at(i as int).hidden),
    {
        match &self.store {
            LineStore::Full(lines) => i < lines.len() && lines[i].hidden(),
            LineStore::Rope(_) => false,
        }
    }

    /// Number of lines that are not hidden.
    pub fn visible_line_count(&self) -> (r: usize)
        requires
            self.wf(),
        ensures
            r == shown_count(self, self.count() as int),
    {
        match &self.store {
            LineStore::Full(lines) => {
                let mut r: usize = 0;
                let mut i: usize = 0;
                while i < lines.len()
                    invariant
                        self.store == LineStore::Full(*lines),
                        i <= lines@.len(),
                        r <= i,
                        r == shown_count(self, i as int),
                    decreases lines@.len() - i,
                {
                    if !lines[i].hidden() {
                        r = r + 1;
                    }
                    i = i + 1;
                }
                r
            },
            LineStore::Rope(store) => {
                proof {
                    lemma_all_shown(self, self.count() as int);
                }
                store.line_count()
            },
        }
    }
}

/// How many of the first `n` lines are not hidden.
pub open spec fn shown_count(buffer: &Buffer, n: int) -> nat
    decreases n,
{
    if n <= 0 {
        0
    } else if buffer.store.line_at(n - 1).hidden {
        shown_count(buffer, n - 1)
    } else {
        shown_count(buffer, n - 1) + 1
    }
}

/// No line of a rope is hidden.
proof fn lemma_all_shown(buffer: &Buffer, n: int)
    requires
        buffer.store is Rope,
        n >= 0,
    ensures
        shown_count(buffer, n) == n,
    decreases n,
{
    if n > 0 {
        lemma_all_shown(buffer, n - 1);
    }
}

} // verus!
