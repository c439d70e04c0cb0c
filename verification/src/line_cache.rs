//! Shaping and layout results of a rope-backed store, by line index.

use vstd::prelude::*;

use crate::layout::{layout_view, LayoutLine, LayoutLineView, ShapeLine, ShapeLineView};
use crate::recency::{kept_below, rekeyed, removed, RecentMap};

verus! {

/// How many shaping results, and how many layout results, are kept.
pub const LINE_CACHE_CAPACITY: usize = 2048;

/// The shaping and layout results of single lines.
pub struct LineCache {
    /// Shaping results.
    pub shape: RecentMap<ShapeLine>,
    /// Layout results.
    pub layout: RecentMap<Vec<LayoutLine>>,
}

impl LineCache {
    /// Both maps are in order.
    pub open spec fn wf(&self) -> bool {
        &&& self.shape.wf() && self.shape.cap == LINE_CACHE_CAPACITY
        &&& self.layout.wf() && self.layout.cap == LINE_CACHE_CAPACITY
    }

    /// The shaping result kept for line `i`.
    pub open spec fn shape_at(&self, i: int) -> Option<ShapeLineView> {
        match self.shape.value(i) {
            Some(s) => Some(s@),
            None => None,
        }
    }

    /// The layout result kept for line `i`.
    pub open spec fn layout_at(&self, i: int) -> Option<Seq<LayoutLineView>> {
        match self.layout.value(i) {
            Some(l) => Some(layout_view(l@)),
            None => None,
        }
    }

    /// No results.
    pub fn new() -> (r: LineCache)
        ensures
            r.wf(),
            forall|i: int| #[trigger] r.shape_at(i) is None,
            forall|i: int| #[trigger] r.layout_at(i) is None,
    {
        LineCache {
            shape: RecentMap::new(LINE_CACHE_CAPACITY),
            layout: RecentMap::new(LINE_CACHE_CAPACITY),
        }
    }

    /// Drops all results.
    pub fn clear(&mut self)
        requires
            old(self).wf(),
        ensures
            final(self).wf(),
            forall|i: int| #[trigger] final(self).shape_at(i) is None,
            forall|i: int| #[trigger] final(self).layout_at(i) is None,
    {
        self.shape.clear();
        self.layout.clear();
    }

    /// Drops the layout results.
    pub fn clear_layout(&mut self)
        requires
            old(self).wf(),
        ensures
            final(self).wf(),
            final(self).shape == old(self).shape,
            forall|i: int| #[trigger] final(self).layout_at(i) is None,
    {
        self.layout.clear();
    }

    /// Makes room for `delta` lines in front of line `start`.
    pub fn shift_lines(&mut self, start: usize, delta: usize)
        requires
            old(self).wf(),
        ensures
            final(self).wf(),
            final(self).shape.entries@ == rekeyed(
                old(self).shape.entries@,
                start as int,
                0,
                delta as int,
            ),
            final(self).layout.entries@ == rekeyed(
                old(self).layout.entries@,
                start as int,
                0,
                delta as int,
            ),
            forall|j: int|
                j <= usize::MAX ==> #[trigger] final(self).shape_at(j) == if j < start {
                    old(self).shape_at(j)
                } else if j < start + delta {
                    None
                } else {
                    old(self).shape_at(j - delta)
                },
            forall|j: int|
                j <= usize::MAX ==> #[trigger] final(self).layout_at(j) == if j < start {
                    old(self).layout_at(j)
                } else if j < start + delta {
                    None
                } else {
                    old(self).layout_at(j - delta)
                },
    {
        self.shape.shift_lines(start, delta);
        self.layout.shift_lines(start, delta);
    }

    /// Drops the results of line `i`.
    pub fn invalidate_line(&mut self, i: usize)
        requires
            old(self).wf(),
        ensures
            final(self).wf(),
            final(self).shape.entries@ == removed(old(self).shape.entries@, i as int),
            final(self).layout.entries@ == removed(old(self).layout.entries@, i as int),
            forall|j: int| #[trigger]
                final(self).shape_at(j) == if j == i {
                    None
                } else {
                    old(self).shape_at(j)
                },
            forall|j: int| #[trigger]
                final(self).layout_at(j) == if j == i {
                    None
                } else {
                    old(self).layout_at(j)
                },
    {
        let _shape = self.shape.remove(i);
        let _layout = self.layout.remove(i);
    }

    /// Drops the results of all lines at or behind `start`.
    pub fn invalidate_from(&mut self, start: usize)
        requires
            old(self).wf(),
        ensures
            final(self).wf(),
            final(self).shape.entries@ == kept_below(old(self).shape.entries@, start as int),
            final(self).layout.entries@ == kept_below(old(self).layout.entries@, start as int),
            forall|j: int| #[trigger]
                final(self).shape_at(j) == if j < start {
                    old(self).shape_at(j)
                } else {
                    None
                },
            forall|j: int| #[trigger]
                final(self).layout_at(j) == if j < start {
                    old(self).layout_at(j)
                } else {
                    None
                },
    {
        self.shape.invalidate_from(start);
        self.layout.invalidate_from(start);
    }
}

} // verus!
