//! Shaping the lines that a view shows.

use vstd::prelude::*;

use crate::buffer::{Buffer, LineStore, Page};
use crate::cursor::Scroll;
use crate::dirty::DirtyFlags;
use crate::layout::FontSystem;
use crate::line::{BufferLine, Settings};
use crate::line_cache::LINE_CACHE_CAPACITY;
use crate::line_lru::lru_entries;
use crate::pixel::{zero, Px};
use crate::recency::{holds, lemma_run_grows, run_kept};
use crate::resolve::{lemma_resolved, resolved};
use crate::rope_store::MATERIALIZED_CAPACITY;
use crate::scrolling::{
    corrected, on_page, pass_of, passed_by, settled, stack_heights, walked, walked_back, Pass, Walk,
    Window, SCROLL_PASSES,
};
use crate::settling::{
    lemma_backs_over, lemma_backs_past, lemma_settles_on, lemma_walks_over, lemma_walks_past,
};
use crate::shaping::{lemma_keeps_chain, lemma_keeps_itself};

verus! {

impl LineStore {
    /// Whether what the lines show does not change when lines are shaped, nor,
    /// with `prune`, when results are dropped.
    pub open spec fn firm<F: FontSystem>(&self, fonts: int, settings: Settings, prune: bool) -> bool {
        if prune {
            self.current::<F>(fonts, settings)
        } else {
            self.steady::<F>(fonts, settings)
        }
    }

    /// Whether shaping lines, and with `prune` dropping results, turns `self`
    /// into `after`.
    pub open spec fn keeps_for<F: FontSystem>(
        &self,
        after: &LineStore,
        fonts: int,
        settings: Settings,
        prune: bool,
    ) -> bool {
        &&& self.same_lines(after)
        &&& self.count() == after.count()
        &&& self.firm::<F>(fonts, settings, prune) ==> after.firm::<F>(fonts, settings, prune)
            && after.page::<F>(fonts, settings) == self.page::<F>(fonts, settings)
        &&& self.current::<F>(fonts, settings) ==> after.current::<F>(fonts, settings)
        &&& forall|dirty: DirtyFlags| #[trigger]
            self.tracks::<F>(fonts, settings, dirty) ==> after.tracks::<F>(fonts, settings, dirty)
    }

    /// Whether line `i` and its results are kept.
    pub open spec fn ready(&self, i: int) -> bool {
        match self {
            LineStore::Full(lines) => 0 <= i < lines@.len() && lines@[i]@.shape is Some
                && lines@[i]@.layout is Some,
            LineStore::Rope(store) => store.warm(i) is Some && store.cache.shape_at(i) is Some
                && store.cache.layout_at(i) is Some,
        }
    }

    /// Whether no result of line `i` is kept.
    pub open spec fn bare(&self, i: int) -> bool {
        match self {
            LineStore::Full(lines) => lines@[i]@.shape is None && lines@[i]@.layout is None,
            LineStore::Rope(store) => store.cache.shape_at(i) is None && store.cache.layout_at(i) is None,
        }
    }

    /// Whether the lines from `from` up to `to` have just been laid out; those
    /// that are hidden are left out. A rope keeps the last lines that were laid
    /// out, as many as fit.
    pub open spec fn run_ready(&self, from: int, to: int) -> bool {
        match self {
            LineStore::Full(lines) => forall|i: int|
                from <= i < to && !(#[trigger] lines@[i])@.hidden ==> self.ready(i),
            LineStore::Rope(store) => to - from <= LINE_CACHE_CAPACITY ==> {
                &&& run_kept(lru_entries(store.materialized), from, to)
                &&& run_kept(store.cache.shape.entries@, from, to)
                &&& run_kept(store.cache.layout.entries@, from, to)
            },
        }
    }
}

/// Shaping lines is shaping lines and dropping none.
proof fn lemma_keeps_for<F: FontSystem>(
    a: &LineStore,
    b: &LineStore,
    fonts: int,
    settings: Settings,
    prune: bool,
)
    requires
        a.keeps::<F>(b, fonts, settings),
    ensures
        a.keeps_for::<F>(b, fonts, settings, prune),
{
}

proof fn lemma_keeps_for_chain<F: FontSystem>(
    a: &LineStore,
    b: &LineStore,
    c: &LineStore,
    fonts: int,
    settings: Settings,
    prune: bool,
)
    requires
        a.keeps_for::<F>(b, fonts, settings, prune),
        b.keeps_for::<F>(c, fonts, settings, prune),
    ensures
        a.keeps_for::<F>(c, fonts, settings, prune),
{
    match (a, b, c) {
        (LineStore::Full(x), LineStore::Full(y), LineStore::Full(z)) => {
            assert forall|i: int| 0 <= i < x@.len() implies (#[trigger] x@[i])@.same_line(z@[i]@) by {
                assert(y@[i]@.same_line(z@[i]@));
            }
        },
        _ => {},
    }
    assert forall|dirty: DirtyFlags| #[trigger]
        a.tracks::<F>(fonts, settings, dirty) implies c.tracks::<F>(fonts, settings, dirty) by {
        assert(b.tracks::<F>(fonts, settings, dirty));
    }
}

/// Whether `after` is `before` without the results of the lines from `from` up
/// to `to`.
pub open spec fn pruned(before: Seq<BufferLine>, after: Seq<BufferLine>, from: int, to: int) -> bool {
    &&& after.len() == before.len()
    &&& forall|i: int|
        0 <= i < before.len() ==> (#[trigger] after[i])@ == if from <= i < to {
            before[i]@.without_shape()
        } else {
            before[i]@
        }
}

/// Dropping results that are up to date changes nothing that lines show.
proof fn lemma_pruned<F: FontSystem>(
    a: Vec<BufferLine>,
    b: Vec<BufferLine>,
    from: int,
    to: int,
    fonts: int,
    settings: Settings,
)
    requires
        LineStore::Full(a).wf(),
        pruned(a@, b@, from, to),
    ensures
        LineStore::Full(b).wf(),
        LineStore::Full(a).keeps_for::<F>(&LineStore::Full(b), fonts, settings, true),
{
    let before = LineStore::Full(a);
    let after = LineStore::Full(b);
    assert(before.wf());
    assert(before is Full);
    assert(before->Full_0 == a);
    assert(forall|i: int| 0 <= i < before->Full_0@.len() ==> (#[trigger] before->Full_0@[i])@.fits());
    assert forall|i: int| 0 <= i < a@.len() implies (#[trigger] a@[i])@.fits() by {}
    assert forall|i: int| 0 <= i < a@.len() implies (#[trigger] a@[i])@.same_line(b@[i]@) by {}
    assert forall|i: int| 0 <= i < b@.len() implies (#[trigger] b@[i])@.fits() by {
        assert(a@[i]@.fits());
    }
    if before.current::<F>(fonts, settings) {
        let p = before.page::<F>(fonts, settings);
        let q = after.page::<F>(fonts, settings);
        assert forall|i: int| 0 <= i < a@.len() implies (#[trigger] b@[i])@.current::<F>(
            fonts,
            settings,
        ) by {
            assert(a@[i]@.current::<F>(fonts, settings));
        }
        assert forall|i: int| 0 <= i < a@.len() implies p.rtl[i] == q.rtl[i] && p.layouts[i]
            == q.layouts[i] && p.texts[i] == q.texts[i] && p.hidden[i] == q.hidden[i] by {
            assert(a@[i]@.current::<F>(fonts, settings));
            assert(b@[i]@.current::<F>(fonts, settings));
            crate::line::lemma_line_results::<F>(a@[i]@, fonts, settings);
            crate::line::lemma_line_results::<F>(b@[i]@, fonts, settings);
            assert(a@[i]@.same_line(b@[i]@));
        }
        assert(p.texts =~= q.texts);
        assert(p.hidden =~= q.hidden);
        assert(p.rtl =~= q.rtl);
        assert(p.layouts =~= q.layouts);
    }
    assert forall|dirty: DirtyFlags| #[trigger]
        before.tracks::<F>(fonts, settings, dirty) implies after.tracks::<F>(
        fonts,
        settings,
        dirty,
    ) by {
        assert forall|i: int| 0 <= i < b@.len() implies resolved(
            (#[trigger] b@[i])@,
            dirty,
        ).current::<F>(fonts, settings) by {
            assert(resolved(a@[i]@, dirty).current::<F>(fonts, settings));
        }
    }
}

/// Drops the results of the lines from `from` up to `to`.
fn prune_lines(lines: &mut Vec<BufferLine>, from: usize, to: usize)
    requires
        from <= to <= old(lines)@.len(),
    ensures
        pruned(old(lines)@, final(lines)@, from as int, to as int),
{
    let ghost a = lines@;
    let mut i: usize = from;
    while i < to
        invariant
            from <= i <= to <= lines@.len(),
            lines@.len() == a.len(),
            forall|j: int|
                0 <= j < a.len() ==> (#[trigger] lines@[j])@ == if from <= j < i {
                    a[j]@.without_shape()
                } else {
                    a[j]@
                },
        decreases to - i,
    {
        lines[i].reset_shaping();
        i = i + 1;
    }
}

/// Laying a line out extends a run of lines that have just been laid out.
proof fn lemma_run_ready<F: FontSystem>(
    a: &LineStore,
    b: &LineStore,
    fonts: int,
    settings: Settings,
    from: int,
    i: int,
)
    requires
        a.lays_out_line::<F>(b, fonts, settings, i),
        a.wf(),
        a.run_ready(from, i),
        0 <= from <= i,
    ensures
        b.run_ready(from, i + 1),
{
    match (a, b) {
        (LineStore::Full(x), LineStore::Full(y)) => {
            assert forall|j: int| from <= j < i + 1 && !(#[trigger] y@[j])@.hidden implies b.ready(j) by {
                if j < i {
                    assert(y@[j] == x@[j]);
                    assert(a.ready(j));
                }
            }
        },
        (LineStore::Rope(x), LineStore::Rope(y)) => {
            if i + 1 - from <= LINE_CACHE_CAPACITY {
                lemma_run_grows(
                    lru_entries(x.materialized),
                    MATERIALIZED_CAPACITY as int,
                    lru_entries(y.materialized),
                    from,
                    i,
                );
                lemma_run_grows(
                    x.cache.shape.entries@,
                    LINE_CACHE_CAPACITY as int,
                    y.cache.shape.entries@,
                    from,
                    i,
                );
                lemma_run_grows(
                    x.cache.layout.entries@,
                    LINE_CACHE_CAPACITY as int,
                    y.cache.layout.entries@,
                    from,
                    i,
                );
            }
        },
        _ => {},
    }
}

/// A run of lines that have just been laid out is ready.
pub proof fn lemma_run_is_ready(store: &LineStore, from: int, to: int, i: int)
    requires
        store.run_ready(from, to),
        from <= i < to,
        !store.line_at(i).hidden,
        store is Rope ==> to - from <= LINE_CACHE_CAPACITY,
    ensures
        store.ready(i),
{
    match store {
        LineStore::Full(lines) => {
            assert(!lines@[i]@.hidden);
        },
        LineStore::Rope(rope) => {
            assert(holds(lru_entries(rope.materialized), i));
            assert(holds(rope.cache.shape.entries@, i));
            assert(holds(rope.cache.layout.entries@, i));
        },
    }
}

/// Whether only lines from `from` up to `to` differ.
pub open spec fn same_outside(a: &LineStore, b: &LineStore, from: int, to: int) -> bool {
    match (a, b) {
        (LineStore::Full(x), LineStore::Full(y)) => x@.len() == y@.len() && forall|i: int|
            0 <= i < x@.len() && !(from <= i < to) ==> #[trigger] y@[i] == x@[i],
        _ => true,
    }
}

/// Some pass or other.
spec fn arbitrary_pass() -> Pass {
    Pass { scroll: Scroll::start(), done: false, from: 0, stop: 0 }
}

/// Settling on the lines that are left once results have been dropped.
proof fn lemma_settles_on_view<F: FontSystem>(
    before: &Buffer,
    mid: &LineStore,
    after: &Buffer,
    fonts: int,
    prune: bool,
)
    requires
        before.store.resolves(before.dirty, mid),
        exists|pass: Pass|
            {
                &&& #[trigger] mid.settles::<F>(
                    &after.store,
                    fonts,
                    before.settings(),
                    before.window(),
                    prune,
                    on_page(before.count(), before.scroll),
                    SCROLL_PASSES as nat,
                    pass,
                )
                &&& after.scroll == pass.scroll
            },
    ensures
        before.settles_on::<F>(after, fonts, prune),
{
    reveal(Buffer::settles_on);
}

/// Lines are the same as themselves.
pub proof fn lemma_same_lines_itself(a: &LineStore)
    ensures
        a.same_lines(a),
{
}

/// Lines that are the same as the same lines are the same.
pub proof fn lemma_same_lines_chain(a: &LineStore, b: &LineStore, c: &LineStore)
    requires
        a.same_lines(b),
        b.same_lines(c),
    ensures
        a.same_lines(c),
        c.same_lines(a),
        a.count() == c.count(),
{
    match (a, b, c) {
        (LineStore::Full(x), LineStore::Full(y), LineStore::Full(z)) => {
            assert forall|i: int| 0 <= i < x@.len() implies (#[trigger] x@[i])@.same_line(z@[i]@) by {
                assert(y@[i]@.same_line(z@[i]@));
            }
            assert forall|i: int| 0 <= i < z@.len() implies (#[trigger] z@[i])@.same_line(x@[i]@) by {
                assert(x@[i]@.same_line(y@[i]@));
                assert(y@[i]@.same_line(z@[i]@));
            }
        },
        _ => {},
    }
}

impl Buffer {
    /// The size of the view, as far as scrolling depends on it.
    pub open spec fn window(&self) -> Window {
        Window {
            line_height: self.metrics.line_height,
            height_opt: self.height_opt,
            rope: self.store is Rope,
        }
    }

    fn window_now(&self) -> (r: Window)
        ensures
            r == self.window(),
    {
        Window {
            line_height: self.metrics.line_height,
            height_opt: self.height_opt,
            rope: self.is_rope(),
        }
    }

    /// Moves the scroll position back to a line that it is not above of.
    fn walk_back<F: FontSystem>(&mut self, font_system: &mut F)
        requires
            old(self).wf(),
            old(self).scroll.line <= old(self).count(),
        ensures
            final(font_system).fonts() == old(font_system).fonts(),
            final(self).wf(),
            *final(self) == (Buffer {
                store: final(self).store,
                scroll: final(self).scroll,
                ..*old(self)
            }),
            old(self).store.keeps::<F>(
                &final(self).store,
                old(font_system).fonts(),
                old(self).settings(),
            ),
            final(self).scroll.line <= old(self).scroll.line,
            old(self).store.steady::<F>(old(font_system).fonts(), old(self).settings())
                ==> final(self).scroll == walked_back::<F>(
                old(self).page::<F>(old(font_system).fonts()),
                old(self).metrics.line_height,
                old(self).scroll,
            ),
            old(self).store.backs::<F>(
                &final(self).store,
                old(font_system).fonts(),
                old(self).settings(),
                old(self).metrics.line_height,
                old(self).scroll,
                final(self).scroll,
            ),
    {
        let ghost fonts = font_system.fonts();
        let ghost settings = self.settings();
        let ghost page = self.page::<F>(fonts);
        let ghost lh = self.metrics.line_height;
        let ghost s0 = self.store;
        let ghost scroll = self.scroll;
        proof {
            lemma_keeps_itself::<F>(&self.store, fonts, settings);
            if !scroll.vertical.lt(zero()) {
                assert(s0.backs::<F>(&s0, fonts, settings, lh, scroll, scroll)) by {
                    reveal(LineStore::backs);
                }
            }
        }
        while self.scroll.vertical.less(Px::nothing())
            invariant_except_break
                !self.scroll.vertical.lt(zero()) ==> self.store.backs::<F>(
                    &self.store,
                    fonts,
                    settings,
                    lh,
                    self.scroll,
                    self.scroll,
                ),
                forall|after: LineStore, r: Scroll| #[trigger]
                    self.store.backs::<F>(&after, fonts, settings, lh, self.scroll, r)
                        ==> s0.backs::<F>(&after, fonts, settings, lh, scroll, r),
            invariant
                font_system.fonts() == fonts,
                self.wf(),
                *self == (Buffer { store: self.store, scroll: self.scroll, ..*old(self) }),
                settings == old(self).settings(),
                lh == old(self).metrics.line_height,
                page == old(self).page::<F>(fonts),
                old(self).store.keeps::<F>(&self.store, fonts, settings),
                self.scroll.line <= old(self).scroll.line <= old(self).count(),
                old(self).store.steady::<F>(fonts, settings) ==> walked_back::<F>(
                    page,
                    lh,
                    self.scroll,
                ) == walked_back::<F>(page, lh, old(self).scroll),
                s0 == old(self).store,
                scroll == old(self).scroll,
            ensures
                font_system.fonts() == fonts,
                self.wf(),
                *self == (Buffer { store: self.store, scroll: self.scroll, ..*old(self) }),
                old(self).store.keeps::<F>(&self.store, fonts, settings),
                self.scroll.line <= old(self).scroll.line,
                old(self).store.steady::<F>(fonts, settings) ==> self.scroll == walked_back::<F>(
                    page,
                    lh,
                    old(self).scroll,
                ),
                s0.backs::<F>(&self.store, fonts, settings, lh, scroll, self.scroll),
            decreases self.scroll.line,
        {
            let ghost here = self.scroll;
            if self.scroll.line == 0 {
                self.scroll.vertical = Px::nothing();
                assert(self.store.backs::<F>(&self.store, fonts, settings, lh, here, self.scroll))
                    by {
                    reveal(LineStore::backs);
                }
                break;
            }
            let line_i = self.scroll.line - 1;
            let line_height = self.metrics.line_height;
            let hidden = self.line_hidden(line_i);
            let mut vertical = self.scroll.vertical;
            if !hidden {
                let ghost before = self.store;
                if let Some(layout) = self.line_layout(font_system, line_i) {
                    let height = stack_heights::<F>(Px::nothing(), layout, layout.len(), line_height);
                    vertical = F::plus(vertical, height);
                }
                proof {
                    assert(self.settings() == settings);
                    lemma_keeps_chain::<F>(&old(self).store, &before, &self.store, fonts, settings);
                    lemma_backs_over::<F>(
                        &before,
                        &self.store,
                        fonts,
                        settings,
                        lh,
                        here,
                        vertical,
                    );
                }
            } else {
                proof {
                    lemma_backs_past::<F>(&self.store, fonts, settings, lh, here);
                }
            }
            self.scroll.line = line_i;
            self.scroll.vertical = vertical;
            proof {
                if !self.scroll.vertical.lt(zero()) {
                    assert(self.store.backs::<F>(
                        &self.store,
                        fonts,
                        settings,
                        lh,
                        self.scroll,
                        self.scroll,
                    )) by {
                        reveal(LineStore::backs);
                    }
                }
            }
        }
    }

    /// Lays line `line_i` out, and moves the scroll position on past it if it is
    /// above the position. Returns `total` with the height of the line added.
    fn pass_line<F: FontSystem>(&mut self, font_system: &mut F, line_i: usize, total: Px) -> (r: Px)
        requires
            old(self).wf(),
            line_i < old(self).count() <= usize::MAX,
            old(self).scroll.line <= line_i,
        ensures
            final(font_system).fonts() == old(font_system).fonts(),
            final(self).wf(),
            *final(self) == (Buffer {
                store: final(self).store,
                scroll: final(self).scroll,
                ..*old(self)
            }),
            old(self).store.keeps::<F>(
                &final(self).store,
                old(font_system).fonts(),
                old(self).settings(),
            ),
            old(self).store.lays_out_line::<F>(
                &final(self).store,
                old(font_system).fonts(),
                old(self).settings(),
                line_i as int,
            ),
            r == old(self).store.height_now::<F>(
                old(font_system).fonts(),
                old(self).settings(),
                old(self).metrics.line_height,
                total,
                line_i as int,
            ),
            final(self).scroll == passed_by::<F>(
                old(self).scroll,
                line_i as int,
                old(self).store.height_now::<F>(
                    old(font_system).fonts(),
                    old(self).settings(),
                    old(self).metrics.line_height,
                    zero(),
                    line_i as int,
                ),
            ),
            old(self).scroll.line <= final(self).scroll.line <= line_i + 1,
    {
        let line_height = self.metrics.line_height;
        let mut height = Px::nothing();
        let mut sum = total;
        if let Some(layout) = self.line_layout(font_system, line_i) {
            height = stack_heights::<F>(height, layout, layout.len(), line_height);
            sum = stack_heights::<F>(total, layout, layout.len(), line_height);
        }
        if line_i == self.scroll.line && height.at_most(self.scroll.vertical) {
            self.scroll.line = self.scroll.line + 1;
            self.scroll.vertical = F::minus(self.scroll.vertical, height);
        }
        sum
    }

    /// Lays out the lines from the scroll position on, until more than `limit`
    /// of height is laid out, and moves the position on past the lines that are
    /// above it. Returns the height and the line at which it ended.
    fn walk_on<F: FontSystem>(&mut self, font_system: &mut F, limit: Px) -> (r: (Px, usize))
        requires
            old(self).wf(),
            old(self).scroll.line <= old(self).count(),
        ensures
            final(font_system).fonts() == old(font_system).fonts(),
            final(self).wf(),
            *final(self) == (Buffer {
                store: final(self).store,
                scroll: final(self).scroll,
                ..*old(self)
            }),
            old(self).store.keeps::<F>(
                &final(self).store,
                old(font_system).fonts(),
                old(self).settings(),
            ),
            old(self).scroll.line <= final(self).scroll.line <= r.1 <= old(self).count(),
            final(self).store.run_ready(old(self).scroll.line as int, r.1 as int),
            same_outside(
                &old(self).store,
                &final(self).store,
                old(self).scroll.line as int,
                r.1 as int,
            ),
            old(self).store.steady::<F>(old(font_system).fonts(), old(self).settings()) ==> walked::<
                F,
            >(
                old(self).page::<F>(old(font_system).fonts()),
                old(self).metrics.line_height,
                limit,
                old(self).scroll.line as int,
                old(self).scroll,
                zero(),
            ) == (Walk { scroll: final(self).scroll, total: r.0, stop: r.1 as int }),
            old(self).store.walks::<F>(
                &final(self).store,
                old(font_system).fonts(),
                old(self).settings(),
                old(self).metrics.line_height,
                limit,
                old(self).count() as int,
                old(self).scroll.line as int,
                old(self).scroll,
                zero(),
                Walk { scroll: final(self).scroll, total: r.0, stop: r.1 as int },
            ),
    {
        let ghost fonts = font_system.fonts();
        let ghost settings = self.settings();
        let ghost page = self.page::<F>(fonts);
        let ghost lh = self.metrics.line_height;
        let ghost s0 = self.store;
        let ghost scroll = self.scroll;
        let ghost first = self.scroll.line as int;
        proof {
            lemma_keeps_itself::<F>(&self.store, fonts, settings);
        }
        let n = self.line_count();
        let mut total = Px::nothing();
        let mut line_i: usize = self.scroll.line;
        while line_i < n && !limit.less(total)
            invariant
                font_system.fonts() == fonts,
                self.wf(),
                *self == (Buffer { store: self.store, scroll: self.scroll, ..*old(self) }),
                settings == old(self).settings(),
                lh == old(self).metrics.line_height,
                page == old(self).page::<F>(fonts),
                page.texts.len() == old(self).count(),
                old(self).store.keeps::<F>(&self.store, fonts, settings),
                first == old(self).scroll.line,
                n == old(self).count(),
                first <= self.scroll.line <= line_i <= n,
                self.store.run_ready(first, line_i as int),
                same_outside(&old(self).store, &self.store, first, line_i as int),
                old(self).store.steady::<F>(fonts, settings) ==> walked::<F>(
                    page,
                    lh,
                    limit,
                    first,
                    old(self).scroll,
                    zero(),
                ) == walked::<F>(page, lh, limit, line_i as int, self.scroll, total),
                s0 == old(self).store,
                scroll == old(self).scroll,
                forall|after: LineStore, walk: Walk| #[trigger]
                    self.store.walks::<F>(
                        &after,
                        fonts,
                        settings,
                        lh,
                        limit,
                        n as int,
                        line_i as int,
                        self.scroll,
                        total,
                        walk,
                    ) ==> s0.walks::<F>(
                        &after,
                        fonts,
                        settings,
                        lh,
                        limit,
                        n as int,
                        first,
                        scroll,
                        zero(),
                        walk,
                    ),
            decreases n - line_i,
        {
            let hidden = self.line_hidden(line_i);
            let ghost here = self.scroll;
            let ghost so_far = total;
            if hidden {
                proof {
                    lemma_walks_past::<F>(
                        &self.store,
                        fonts,
                        settings,
                        lh,
                        limit,
                        n as int,
                        line_i as int,
                        here,
                        so_far,
                    );
                    match &self.store {
                        LineStore::Full(lines) => {
                            assert(self.store.run_ready(first, line_i + 1));
                        },
                        _ => {},
                    }
                }
                if line_i == self.scroll.line && Px::nothing().less(self.scroll.vertical) {
                    self.scroll.line = self.scroll.line + 1;
                }
            } else {
                let ghost before = self.store;
                total = self.pass_line(font_system, line_i, total);
                proof {
                    lemma_keeps_chain::<F>(&s0, &before, &self.store, fonts, settings);
                    lemma_run_ready::<F>(
                        &before,
                        &self.store,
                        fonts,
                        settings,
                        first,
                        line_i as int,
                    );
                    lemma_walks_over::<F>(
                        &before,
                        &self.store,
                        fonts,
                        settings,
                        lh,
                        limit,
                        n as int,
                        line_i as int,
                        here,
                        so_far,
                    );
                }
            }
            line_i = line_i + 1;
        }
        assert(self.store.walks::<F>(
            &self.store,
            fonts,
            settings,
            lh,
            limit,
            n as int,
            line_i as int,
            self.scroll,
            total,
            Walk { scroll: self.scroll, total, stop: line_i as int },
        )) by {
            reveal(LineStore::walks);
        }
        (total, line_i)
    }

    /// Drops the results of the lines from `from` up to `to`, unless they are
    /// those of a rope, which keeps no more than it has room for.
    fn prune<F: FontSystem>(&mut self, font_system: &F, from: usize, to: usize)
        requires
            old(self).wf(),
            from <= to <= old(self).count(),
        ensures
            final(self).wf(),
            final(self).same_frame(old(self)),
            old(self).store.keeps_for::<F>(
                &final(self).store,
                font_system.fonts(),
                old(self).settings(),
                true,
            ),
            old(self).store.prunes(&final(self).store, from as int, to as int),
    {
        let ghost before = self.store;
        let ghost fonts = font_system.fonts();
        let ghost settings = self.settings();
        match &mut self.store {
            LineStore::Full(lines) => {
                prune_lines(lines, from, to);
            },
            LineStore::Rope(_) => {},
        }
        proof {
            match (&before, &self.store) {
                (LineStore::Full(a), LineStore::Full(b)) => {
                    assert(before == LineStore::Full(*a));
                    assert(self.store == LineStore::Full(*b));
                    lemma_pruned::<F>(*a, *b, from as int, to as int, fonts, settings);
                },
                _ => {
                    assert(self.store == before);
                    lemma_keeps_itself::<F>(&before, fonts, settings);
                    lemma_keeps_for::<F>(&before, &self.store, fonts, settings, true);
                },
            }
        }
    }

    /// Lays out the lines from the scroll position on, as [`Buffer::walk_on`]
    /// does, and with `prune` drops the results of all other lines.
    fn walk_view<F: FontSystem>(&mut self, font_system: &mut F, prune: bool, limit: Px) -> (r: (
        Px,
        usize,
    ))
        requires
            old(self).wf(),
            old(self).scroll.line <= old(self).count(),
        ensures
            final(font_system).fonts() == old(font_system).fonts(),
            final(self).wf(),
            *final(self) == (Buffer {
                store: final(self).store,
                scroll: final(self).scroll,
                ..*old(self)
            }),
            old(self).store.keeps_for::<F>(
                &final(self).store,
                old(font_system).fonts(),
                old(self).settings(),
                prune,
            ),
            old(self).scroll.line <= final(self).scroll.line <= r.1 <= old(self).count(),
            final(self).shows(old(self).scroll.line as int, r.1 as int, prune),
            old(self).store.firm::<F>(old(font_system).fonts(), old(self).settings(), prune)
                ==> walked::<F>(
                old(self).page::<F>(old(font_system).fonts()),
                old(self).metrics.line_height,
                limit,
                old(self).scroll.line as int,
                old(self).scroll,
                zero(),
            ) == (Walk { scroll: final(self).scroll, total: r.0, stop: r.1 as int }),
            old(self).store.views::<F>(
                &final(self).store,
                old(font_system).fonts(),
                old(self).settings(),
                old(self).metrics.line_height,
                prune,
                limit,
                old(self).scroll,
                Walk { scroll: final(self).scroll, total: r.0, stop: r.1 as int },
            ),
    {
        if !prune {
            let ghost s0 = self.store;
            let r = self.walk_on(font_system, limit);
            proof {
                reveal(LineStore::views);
                lemma_keeps_for::<F>(
                    &s0,
                    &self.store,
                    font_system.fonts(),
                    self.settings(),
                    prune,
                );
            }
            return r;
        }
        let ghost fonts = font_system.fonts();
        let ghost settings = self.settings();
        let ghost s1 = self.store;
        let ghost scroll = self.scroll;
        let from = self.scroll.line;
        self.prune(font_system, 0, from);
        let ghost s2 = self.store;
        let (total, stop) = self.walk_on(font_system, limit);
        let ghost s3 = self.store;
        proof {
            lemma_keeps_for::<F>(&s2, &s3, fonts, settings, prune);
            lemma_keeps_for_chain::<F>(&s1, &s2, &s3, fonts, settings, prune);
        }
        let n = self.line_count();
        self.prune(font_system, stop, n);
        proof {
            let s4 = self.store;
            assert(s1.views::<F>(
                &s4,
                fonts,
                settings,
                self.metrics.line_height,
                prune,
                limit,
                scroll,
                Walk { scroll: self.scroll, total, stop: stop as int },
            )) by {
                reveal(LineStore::views);
                assert(s1.prunes(&s2, 0, from as int));
                assert(s3.prunes(&s4, stop as int, n as int));
            }
            lemma_keeps_for_chain::<F>(&s1, &s3, &s4, fonts, settings, prune);
            match (&s2, &s3, &s4) {
                (LineStore::Full(a), LineStore::Full(b), LineStore::Full(c)) => {
                    assert forall|i: int| from <= i < stop && !(#[trigger] c@[i])@.hidden implies s4.ready(i) by {
                        assert(!b@[i]@.hidden);
                        assert(s3.ready(i));
                    }
                    assert forall|i: int| 0 <= i < c@.len() && !(from <= i < stop) implies #[trigger] s4.bare(i) by {
                        assert(b@[i] == a@[i]);
                    }
                },
                _ => {},
            }
        }
        (total, stop)
    }

    /// Corrects the scroll position once. Returns whether it needs no further
    /// correction.
    fn correct_scroll<F: FontSystem>(&mut self, font_system: &mut F, prune: bool) -> (done: bool)
        requires
            old(self).wf(),
            old(self).scroll.line <= old(self).count(),
        ensures
            final(font_system).fonts() == old(font_system).fonts(),
            final(self).wf(),
            *final(self) == (Buffer {
                store: final(self).store,
                scroll: final(self).scroll,
                ..*old(self)
            }),
            final(self).scroll.line <= old(self).count(),
            old(self).store.keeps_for::<F>(
                &final(self).store,
                old(font_system).fonts(),
                old(self).settings(),
                prune,
            ),
            old(self).store.firm::<F>(old(font_system).fonts(), old(self).settings(), prune) ==> {
                let pass = corrected::<F>(
                    old(self).page::<F>(old(font_system).fonts()),
                    old(self).window(),
                    old(self).scroll,
                );
                &&& final(self).scroll == pass.scroll
                &&& done == pass.done
                &&& final(self).shows(pass.from, pass.stop, prune)
            },
            exists|pass: Pass|
                {
                    &&& #[trigger] old(self).store.corrects::<F>(
                        &final(self).store,
                        old(font_system).fonts(),
                        old(self).settings(),
                        old(self).window(),
                        prune,
                        old(self).scroll,
                        pass,
                    )
                    &&& final(self).scroll == pass.scroll
                    &&& done == pass.done
                },
    {
        let ghost fonts = font_system.fonts();
        let ghost settings = self.settings();
        let ghost s0 = self.store;
        let ghost scroll = self.scroll;
        let window = self.window_now();
        self.walk_back(font_system);
        let ghost s1 = self.store;
        let ghost back = self.scroll;
        proof {
            lemma_keeps_for::<F>(&s0, &s1, fonts, settings, prune);
        }
        let limit = F::plus(self.scroll.vertical, window.shaped_height::<F>());
        let (total, stop) = self.walk_view(font_system, prune, limit);
        proof {
            lemma_keeps_for_chain::<F>(&s0, &s1, &self.store, fonts, settings, prune);
            let walk = Walk { scroll: self.scroll, total, stop: stop as int };
            let pass = pass_of::<F>(window, limit, back.line as int, walk);
            assert(s0.corrects::<F>(&self.store, fonts, settings, window, prune, scroll, pass)) by {
                reveal(LineStore::corrects);
                assert(limit == window.limit_at::<F>(back));
                assert(s0.backs::<F>(&s1, fonts, settings, window.line_height, scroll, back));
            }
        }
        if total.less(limit) && self.scroll.line > 0 && (!window.rope || window.height_opt.is_some()) {
            // The text ends above the bottom of the view.
            let missing = F::minus(limit, total);
            self.scroll.vertical = F::minus(self.scroll.vertical, missing);
            false
        } else {
            true
        }
    }

    /// Whether the lines of the view are kept with their results and, with
    /// `prune`, no others are.
    pub open spec fn shows(&self, from: int, stop: int, prune: bool) -> bool {
        &&& self.store.run_ready(from, stop)
        &&& prune && self.store is Full ==> forall|i: int|
            0 <= i < self.count() && !(from <= i < stop) ==> #[trigger] self.store.bare(i)
    }

    /// What the lines show once their results have been brought up to date.
    pub open spec fn resolved_page<F: FontSystem>(&self, fonts: int) -> Page {
        self.store.resolved_page::<F>(fonts, self.settings(), self.dirty)
    }

    /// Whether every result that is out of date is known to be.
    pub open spec fn tracks<F: FontSystem>(&self, fonts: int) -> bool {
        self.store.tracks::<F>(fonts, self.settings(), self.dirty)
    }

    /// Whether what the lines show will not change while the view is shaped.
    /// Of lines that are kept that is so unless results are dropped that are
    /// out of date without being known to be.
    pub open spec fn firm<F: FontSystem>(&self, fonts: int, prune: bool) -> bool {
        if prune || self.store is Rope {
            self.tracks::<F>(fonts)
        } else {
            true
        }
    }

    /// The correction of the scroll position that brings the view up to date.
    pub open spec fn scrolled<F: FontSystem>(&self, fonts: int) -> Pass {
        settled::<F>(
            self.resolved_page::<F>(fonts),
            self.window(),
            on_page(self.count(), self.scroll),
            SCROLL_PASSES as nat,
        )
    }

    /// Whether bringing the view of `self` up to date gives `after`.
    pub open spec fn brings_up_to_date<F: FontSystem>(
        &self,
        after: &Buffer,
        fonts: int,
        prune: bool,
    ) -> bool {
        &&& *after == (Buffer {
            store: after.store,
            scroll: after.scroll,
            redraw: true,
            dirty: DirtyFlags::none(),
            ..*self
        })
        &&& self.store.same_lines(&after.store)
        &&& after.count() == self.count()
        &&& self.firm::<F>(fonts, prune) ==> {
            let pass = self.scrolled::<F>(fonts);
            &&& after.scroll == pass.scroll
            &&& after.shows(pass.from, pass.stop, prune)
            &&& after.page::<F>(fonts) == self.resolved_page::<F>(fonts)
        }
        &&& self.tracks::<F>(fonts) ==> after.store.current::<F>(fonts, after.settings())
        &&& self.settles_on::<F>(after, fonts, prune)
    }

    /// Whether the view of `self`, once the results that are out of date have
    /// been dropped, settles on that of `after`.
    #[verifier::opaque]
    pub open spec fn settles_on<F: FontSystem>(
        &self,
        after: &Buffer,
        fonts: int,
        prune: bool,
    ) -> bool {
        exists|mid: LineStore, pass: Pass|
            {
                &&& #[trigger] self.store.resolves(self.dirty, &mid)
                &&& #[trigger] mid.settles::<F>(
                    &after.store,
                    fonts,
                    self.settings(),
                    self.window(),
                    prune,
                    on_page(self.count(), self.scroll),
                    SCROLL_PASSES as nat,
                    pass,
                )
                &&& after.scroll == pass.scroll
            }
    }

    /// Corrects the scroll position until it needs no further correction, or
    /// has been corrected often enough.
    fn settle<F: FontSystem>(&mut self, font_system: &mut F, prune: bool)
        requires
            old(self).wf(),
            old(self).scroll.line <= old(self).count(),
        ensures
            final(font_system).fonts() == old(font_system).fonts(),
            final(self).wf(),
            *final(self) == (Buffer {
                store: final(self).store,
                scroll: final(self).scroll,
                ..*old(self)
            }),
            final(self).scroll.line <= old(self).count(),
            old(self).store.keeps_for::<F>(
                &final(self).store,
                old(font_system).fonts(),
                old(self).settings(),
                prune,
            ),
            old(self).store.firm::<F>(old(font_system).fonts(), old(self).settings(), prune) ==> {
                let pass = settled::<F>(
                    old(self).page::<F>(old(font_system).fonts()),
                    old(self).window(),
                    old(self).scroll,
                    SCROLL_PASSES as nat,
                );
                &&& final(self).scroll == pass.scroll
                &&& final(self).shows(pass.from, pass.stop, prune)
            },
            exists|pass: Pass|
                {
                    &&& #[trigger] old(self).store.settles::<F>(
                        &final(self).store,
                        old(font_system).fonts(),
                        old(self).settings(),
                        old(self).window(),
                        prune,
                        old(self).scroll,
                        SCROLL_PASSES as nat,
                        pass,
                    )
                    &&& final(self).scroll == pass.scroll
                },
    {
        let ghost fonts = font_system.fonts();
        let ghost settings = self.settings();
        let ghost s1 = self.store;
        let ghost n = self.count();
        let ghost start = self.scroll;
        let ghost page = self.page::<F>(fonts);
        let ghost window = self.window();
        let ghost mut pass = arbitrary_pass();
        let ghost mut last = arbitrary_pass();
        let mut left: usize = SCROLL_PASSES;
        let mut done = false;
        proof {
            lemma_keeps_itself::<F>(&s1, fonts, settings);
            lemma_keeps_for::<F>(&s1, &s1, fonts, settings, prune);
        }
        while left > 0 && !done
            invariant
                font_system.fonts() == fonts,
                self.wf(),
                *self == (Buffer { store: self.store, scroll: self.scroll, ..*old(self) }),
                settings == old(self).settings(),
                self.window() == window,
                self.count() == n,
                s1.count() == n,
                page == s1.page::<F>(fonts, settings),
                s1.keeps_for::<F>(&self.store, fonts, settings, prune),
                self.scroll.line <= n,
                left <= SCROLL_PASSES,
                done ==> left < SCROLL_PASSES,
                left > 0 && !done ==> forall|after: LineStore, p: Pass| #[trigger]
                    self.store.settles::<F>(
                        &after,
                        fonts,
                        settings,
                        window,
                        prune,
                        self.scroll,
                        left as nat,
                        p,
                    ) ==> s1.settles::<F>(
                        &after,
                        fonts,
                        settings,
                        window,
                        prune,
                        start,
                        SCROLL_PASSES as nat,
                        p,
                    ),
                left == 0 || done ==> self.scroll == last.scroll && s1.settles::<F>(
                    &self.store,
                    fonts,
                    settings,
                    window,
                    prune,
                    start,
                    SCROLL_PASSES as nat,
                    last,
                ),
                s1.firm::<F>(fonts, settings, prune) ==> {
                    &&& left == SCROLL_PASSES ==> self.scroll == start
                    &&& left < SCROLL_PASSES ==> self.scroll == pass.scroll && self.shows(
                        pass.from,
                        pass.stop,
                        prune,
                    ) && done == pass.done
                    &&& settled::<F>(page, window, start, SCROLL_PASSES as nat) == if left
                        < SCROLL_PASSES && (done || left == 0) {
                        pass
                    } else {
                        settled::<F>(page, window, self.scroll, left as nat)
                    }
                },
            decreases left,
        {
            let ghost before = self.store;
            let ghost scroll = self.scroll;
            done = self.correct_scroll(font_system, prune);
            proof {
                last = choose|p: Pass|
                    {
                        &&& #[trigger] before.corrects::<F>(
                            &self.store,
                            fonts,
                            settings,
                            window,
                            prune,
                            scroll,
                            p,
                        )
                        &&& self.scroll == p.scroll
                        &&& done == p.done
                    };
                lemma_settles_on::<F>(
                    &before,
                    &self.store,
                    fonts,
                    settings,
                    window,
                    prune,
                    scroll,
                    left as nat,
                    last,
                );
            }
            let ghost was_left = left as nat;
            left = left - 1;
            proof {
                if left > 0 && !done {
                    assert forall|after: LineStore, p: Pass| #[trigger]
                        self.store.settles::<F>(
                            &after,
                            fonts,
                            settings,
                            window,
                            prune,
                            self.scroll,
                            left as nat,
                            p,
                        ) implies s1.settles::<F>(
                        &after,
                        fonts,
                        settings,
                        window,
                        prune,
                        start,
                        SCROLL_PASSES as nat,
                        p,
                    ) by {
                        assert(self.store.settles::<F>(
                            &after,
                            fonts,
                            settings,
                            window,
                            prune,
                            last.scroll,
                            (was_left - 1) as nat,
                            p,
                        ));
                        assert(before.settles::<F>(
                            &after,
                            fonts,
                            settings,
                            window,
                            prune,
                            scroll,
                            was_left,
                            p,
                        ));
                    }
                }
                pass = corrected::<F>(page, window, scroll);
                lemma_keeps_for_chain::<F>(&s1, &before, &self.store, fonts, settings, prune);
            }
        }
    }

    /// Brings the view up to date: drops results that are out of date, lays
    /// out the lines of the view, and corrects the scroll position so that the
    /// view does not reach beyond the text. With `prune` the results of all
    /// other lines are dropped. Nothing is done if nothing has changed.
    pub fn shape_until_scroll<F: FontSystem>(&mut self, font_system: &mut F, prune: bool)
        requires
            old(self).wf(),
        ensures
            final(font_system).fonts() == old(font_system).fonts(),
            final(self).wf(),
            if old(self).stale() {
                old(self).brings_up_to_date::<F>(final(self), old(font_system).fonts(), prune)
            } else {
                *final(self) == *old(self)
            },
            final(self).store.same_lines(&old(self).store),
            final(self).scroll.line <= old(self).count() || !old(self).stale(),
    {
        let ghost fonts = font_system.fonts();
        let ghost settings = self.settings();
        let ghost s0 = self.store;
        let ghost dirty = self.dirty;
        if !self.resolve_dirty() {
            proof {
                lemma_same_lines_itself(&self.store);
            }
            return;
        }
        let ghost s1 = self.store;
        proof {
            lemma_resolved::<F>(&s0, dirty, &s1, fonts, settings);
        }
        // Lines may have been taken out.
        let n = self.line_count();
        if self.scroll.line >= n {
            self.scroll.line = if n == 0 {
                0
            } else {
                n - 1
            };
            self.scroll.vertical = Px::nothing();
        }
        let ghost start = self.scroll;
        let ghost window = self.window();
        proof {
            assert(start == on_page(old(self).count(), old(self).scroll));
            assert(window == old(self).window());
        }
        self.settle(font_system, prune);
        proof {
            lemma_same_lines_chain(&s0, &s1, &self.store);
            lemma_settles_on_view::<F>(old(self), &s1, self, fonts, prune);
        }
    }
}

} // verus!
