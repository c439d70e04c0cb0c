//! How a view settles on lines whose kept results may be out of date.
//!
//! Laying a line out can take the place of results that are kept of other
//! lines, so what a line shows is fixed only when it is its turn. The rules
//! here follow the lines step by step; where all results are up to date they
//! come to what is said of the whole page.

use vstd::prelude::*;

use crate::buffer::LineStore;
use crate::cursor::Scroll;
use crate::layout::FontSystem;
use crate::line::Settings;
use crate::pixel::{zero, Px};
use crate::scrolling::{lowered, pass_of, passed_by, passed_hidden, stacked, Pass, Walk, Window};
use crate::view::pruned;

verus! {

impl LineStore {
    /// Height of line `i` as it is shown now.
    pub open spec fn height_now<F: FontSystem>(
        &self,
        fonts: int,
        settings: Settings,
        line_height: Px,
        base: Px,
        i: int,
    ) -> Px {
        stacked::<F>(base, self.page::<F>(fonts, settings).layouts[i], line_height)
    }

    /// Whether moving a scroll position back to a line that it is not above of
    /// leads to `r` and turns `self` into `after`.
    #[verifier::opaque]
    pub open spec fn backs<F: FontSystem>(
        &self,
        after: &LineStore,
        fonts: int,
        settings: Settings,
        line_height: Px,
        scroll: Scroll,
        r: Scroll,
    ) -> bool
        decreases scroll.line,
    {
        if !scroll.vertical.lt(zero()) {
            r == scroll && *after == *self
        } else if scroll.line == 0 {
            r == (Scroll { vertical: zero(), ..scroll }) && *after == *self
        } else {
            let i = scroll.line - 1;
            if self.line_at(i).hidden {
                self.backs::<F>(
                    after,
                    fonts,
                    settings,
                    line_height,
                    Scroll { line: i as usize, ..scroll },
                    r,
                )
            } else {
                let vertical = F::sum(
                    scroll.vertical,
                    self.height_now::<F>(fonts, settings, line_height, zero(), i),
                );
                exists|mid: LineStore|
                    {
                        &&& #[trigger] self.lays_out_line::<F>(&mid, fonts, settings, i)
                        &&& mid.backs::<F>(
                            after,
                            fonts,
                            settings,
                            line_height,
                            Scroll { line: i as usize, vertical, ..scroll },
                            r,
                        )
                    }
            }
        }
    }

    /// Whether walking from line `i` on, of `n` lines, until more than `limit`
    /// has been walked over comes to `walk` and turns `self` into `after`.
    #[verifier::opaque]
    pub open spec fn walks<F: FontSystem>(
        &self,
        after: &LineStore,
        fonts: int,
        settings: Settings,
        line_height: Px,
        limit: Px,
        n: int,
        i: int,
        scroll: Scroll,
        total: Px,
        walk: Walk,
    ) -> bool
        decreases n - i,
    {
        if i >= n || limit.lt(total) {
            walk == (Walk { scroll, total, stop: i }) && *after == *self
        } else if self.line_at(i).hidden {
            self.walks::<F>(
                after,
                fonts,
                settings,
                line_height,
                limit,
                n,
                i + 1,
                passed_hidden(scroll, i),
                total,
                walk,
            )
        } else {
            let height = self.height_now::<F>(fonts, settings, line_height, zero(), i);
            let sum = self.height_now::<F>(fonts, settings, line_height, total, i);
            exists|mid: LineStore|
                {
                    &&& #[trigger] self.lays_out_line::<F>(&mid, fonts, settings, i)
                    &&& mid.walks::<F>(
                        after,
                        fonts,
                        settings,
                        line_height,
                        limit,
                        n,
                        i + 1,
                        passed_by::<F>(scroll, i, height),
                        sum,
                        walk,
                    )
                }
        }
    }

    /// Whether dropping the results of the lines from `from` up to `to` turns
    /// `self` into `after`. A rope drops none.
    pub open spec fn prunes(&self, after: &LineStore, from: int, to: int) -> bool {
        match (self, after) {
            (LineStore::Full(a), LineStore::Full(b)) => pruned(a@, b@, from, to),
            (LineStore::Rope(a), LineStore::Rope(b)) => a == b,
            _ => false,
        }
    }

    /// Whether walking on from a scroll position, and with `prune` dropping the
    /// results of all other lines, comes to `walk` and turns `self` into
    /// `after`.
    #[verifier::opaque]
    pub open spec fn views<F: FontSystem>(
        &self,
        after: &LineStore,
        fonts: int,
        settings: Settings,
        line_height: Px,
        prune: bool,
        limit: Px,
        scroll: Scroll,
        walk: Walk,
    ) -> bool {
        let n = self.count() as int;
        let i = scroll.line as int;
        if prune {
            exists|cut: LineStore, walked: LineStore|
                {
                    &&& #[trigger] self.prunes(&cut, 0, i)
                    &&& #[trigger] cut.walks::<F>(
                        &walked,
                        fonts,
                        settings,
                        line_height,
                        limit,
                        n,
                        i,
                        scroll,
                        zero(),
                        walk,
                    )
                    &&& walked.prunes(after, walk.stop, n)
                }
        } else {
            self.walks::<F>(
                after,
                fonts,
                settings,
                line_height,
                limit,
                n,
                i,
                scroll,
                zero(),
                walk,
            )
        }
    }

    /// Whether one correction of a scroll position comes to `pass` and turns
    /// `self` into `after`.
    #[verifier::opaque]
    pub open spec fn corrects<F: FontSystem>(
        &self,
        after: &LineStore,
        fonts: int,
        settings: Settings,
        window: Window,
        prune: bool,
        scroll: Scroll,
        pass: Pass,
    ) -> bool {
        exists|mid: LineStore, back: Scroll, walk: Walk|
            {
                &&& #[trigger] self.backs::<F>(
                    &mid,
                    fonts,
                    settings,
                    window.line_height,
                    scroll,
                    back,
                )
                &&& #[trigger] mid.views::<F>(
                    after,
                    fonts,
                    settings,
                    window.line_height,
                    prune,
                    window.limit_at::<F>(back),
                    back,
                    walk,
                )
                &&& pass == pass_of::<F>(
                    window,
                    window.limit_at::<F>(back),
                    back.line as int,
                    walk,
                )
            }
    }

    /// Whether at most `passes` corrections of a scroll position, the last of
    /// which comes to `pass`, turn `self` into `after`.
    #[verifier::opaque]
    pub open spec fn settles<F: FontSystem>(
        &self,
        after: &LineStore,
        fonts: int,
        settings: Settings,
        window: Window,
        prune: bool,
        scroll: Scroll,
        passes: nat,
        pass: Pass,
    ) -> bool
        decreases passes,
    {
        exists|mid: LineStore, first: Pass|
            {
                &&& #[trigger] self.corrects::<F>(
                    &mid,
                    fonts,
                    settings,
                    window,
                    prune,
                    scroll,
                    first,
                )
                &&& if first.done || passes <= 1 {
                    pass == first && *after == mid
                } else {
                    mid.settles::<F>(
                        after,
                        fonts,
                        settings,
                        window,
                        prune,
                        first.scroll,
                        (passes - 1) as nat,
                        pass,
                    )
                }
            }
    }
}

impl LineStore {
    /// Whether looking for the scroll position that shows a visual line of line
    /// `i` whose bottom is `total` below the top of the line, by walking up from
    /// the line, leads to `r` and turns `self` into `after`.
    #[verifier::opaque]
    pub open spec fn rises<F: FontSystem>(
        &self,
        after: &LineStore,
        fonts: int,
        settings: Settings,
        line_height: Px,
        height: Px,
        scroll: Scroll,
        i: int,
        total: Px,
        r: Scroll,
    ) -> bool
        decreases i,
    {
        if i <= scroll.line || i <= 0 {
            r == scroll && *after == *self
        } else if self.line_at(i - 1).hidden {
            self.rises::<F>(
                after,
                fonts,
                settings,
                line_height,
                height,
                lowered::<F>(scroll, height, i - 1, total),
                i - 1,
                total,
                r,
            )
        } else {
            let sum = self.height_now::<F>(fonts, settings, line_height, total, i - 1);
            exists|mid: LineStore|
                {
                    &&& #[trigger] self.lays_out_line::<F>(&mid, fonts, settings, i - 1)
                    &&& mid.rises::<F>(
                        after,
                        fonts,
                        settings,
                        line_height,
                        height,
                        lowered::<F>(scroll, height, i - 1, sum),
                        i - 1,
                        sum,
                        r,
                    )
                }
        }
    }

    /// Whether moving a scroll position to where it shows a visual line of line
    /// `line` that begins `y` and ends `bottom` below the top of the line leads
    /// to `r` and turns `self` into `after`.
    #[verifier::opaque]
    pub open spec fn reaches<F: FontSystem>(
        &self,
        after: &LineStore,
        fonts: int,
        settings: Settings,
        window: Window,
        scroll: Scroll,
        line: int,
        y: Px,
        bottom: Px,
        r: Scroll,
    ) -> bool {
        if scroll.line > line || (scroll.line == line && y.lt(scroll.vertical)) {
            r == (Scroll { line: line as usize, vertical: y, ..scroll }) && *after == *self
        } else if let Some(height) = window.height_opt {
            if line <= scroll.line {
                r == lowered::<F>(scroll, height, scroll.line as int, bottom) && *after == *self
            } else {
                self.rises::<F>(
                    after,
                    fonts,
                    settings,
                    window.line_height,
                    height,
                    scroll,
                    line,
                    bottom,
                    r,
                )
            }
        } else {
            r == scroll && *after == *self
        }
    }
}

/// Walking up past a hidden line is walking up.
pub proof fn lemma_rises_past<F: FontSystem>(
    store: &LineStore,
    fonts: int,
    settings: Settings,
    line_height: Px,
    height: Px,
    scroll: Scroll,
    i: int,
    total: Px,
)
    requires
        0 <= scroll.line < i,
        store.line_at(i - 1).hidden,
    ensures
        forall|after: LineStore, r: Scroll| #[trigger]
            store.rises::<F>(
                &after,
                fonts,
                settings,
                line_height,
                height,
                lowered::<F>(scroll, height, i - 1, total),
                i - 1,
                total,
                r,
            ) ==> store.rises::<F>(
                &after,
                fonts,
                settings,
                line_height,
                height,
                scroll,
                i,
                total,
                r,
            ),
{
    reveal_with_fuel(LineStore::rises, 2);
}

/// Walking up over a line that is laid out is walking up.
pub proof fn lemma_rises_over<F: FontSystem>(
    store: &LineStore,
    mid: &LineStore,
    fonts: int,
    settings: Settings,
    line_height: Px,
    height: Px,
    scroll: Scroll,
    i: int,
    total: Px,
    sum: Px,
)
    requires
        0 <= scroll.line < i,
        !store.line_at(i - 1).hidden,
        store.lays_out_line::<F>(mid, fonts, settings, i - 1),
        sum == store.height_now::<F>(fonts, settings, line_height, total, i - 1),
    ensures
        forall|after: LineStore, r: Scroll| #[trigger]
            mid.rises::<F>(
                &after,
                fonts,
                settings,
                line_height,
                height,
                lowered::<F>(scroll, height, i - 1, sum),
                i - 1,
                sum,
                r,
            ) ==> store.rises::<F>(
                &after,
                fonts,
                settings,
                line_height,
                height,
                scroll,
                i,
                total,
                r,
            ),
{
    reveal_with_fuel(LineStore::rises, 2);
}

/// Moving back past a hidden line is moving back.
pub proof fn lemma_backs_past<F: FontSystem>(
    store: &LineStore,
    fonts: int,
    settings: Settings,
    line_height: Px,
    scroll: Scroll,
)
    requires
        scroll.vertical.lt(zero()),
        scroll.line > 0,
        store.line_at(scroll.line - 1).hidden,
    ensures
        forall|after: LineStore, r: Scroll| #[trigger]
            store.backs::<F>(
                &after,
                fonts,
                settings,
                line_height,
                Scroll { line: (scroll.line - 1) as usize, ..scroll },
                r,
            ) ==> store.backs::<F>(&after, fonts, settings, line_height, scroll, r),
{
    reveal_with_fuel(LineStore::backs, 2);
}

/// Moving back over a line that is laid out is moving back.
pub proof fn lemma_backs_over<F: FontSystem>(
    store: &LineStore,
    mid: &LineStore,
    fonts: int,
    settings: Settings,
    line_height: Px,
    scroll: Scroll,
    vertical: Px,
)
    requires
        scroll.vertical.lt(zero()),
        scroll.line > 0,
        !store.line_at(scroll.line - 1).hidden,
        store.lays_out_line::<F>(mid, fonts, settings, scroll.line - 1),
        vertical == F::sum(
            scroll.vertical,
            store.height_now::<F>(fonts, settings, line_height, zero(), scroll.line - 1),
        ),
    ensures
        forall|after: LineStore, r: Scroll| #[trigger]
            mid.backs::<F>(
                &after,
                fonts,
                settings,
                line_height,
                Scroll { line: (scroll.line - 1) as usize, vertical, ..scroll },
                r,
            ) ==> store.backs::<F>(&after, fonts, settings, line_height, scroll, r),
{
    reveal_with_fuel(LineStore::backs, 2);
}

/// Walking past a hidden line is walking.
pub proof fn lemma_walks_past<F: FontSystem>(
    store: &LineStore,
    fonts: int,
    settings: Settings,
    line_height: Px,
    limit: Px,
    n: int,
    i: int,
    scroll: Scroll,
    total: Px,
)
    requires
        i < n,
        !limit.lt(total),
        store.line_at(i).hidden,
    ensures
        forall|after: LineStore, walk: Walk| #[trigger]
            store.walks::<F>(
                &after,
                fonts,
                settings,
                line_height,
                limit,
                n,
                i + 1,
                passed_hidden(scroll, i),
                total,
                walk,
            ) ==> store.walks::<F>(
                &after,
                fonts,
                settings,
                line_height,
                limit,
                n,
                i,
                scroll,
                total,
                walk,
            ),
{
    reveal_with_fuel(LineStore::walks, 2);
}

/// Walking over a line that is laid out is walking.
pub proof fn lemma_walks_over<F: FontSystem>(
    store: &LineStore,
    mid: &LineStore,
    fonts: int,
    settings: Settings,
    line_height: Px,
    limit: Px,
    n: int,
    i: int,
    scroll: Scroll,
    total: Px,
)
    requires
        i < n,
        !limit.lt(total),
        !store.line_at(i).hidden,
        store.lays_out_line::<F>(mid, fonts, settings, i),
    ensures
        forall|after: LineStore, walk: Walk| #[trigger]
            mid.walks::<F>(
                &after,
                fonts,
                settings,
                line_height,
                limit,
                n,
                i + 1,
                passed_by::<F>(
                    scroll,
                    i,
                    store.height_now::<F>(fonts, settings, line_height, zero(), i),
                ),
                store.height_now::<F>(fonts, settings, line_height, total, i),
                walk,
            ) ==> store.walks::<F>(
                &after,
                fonts,
                settings,
                line_height,
                limit,
                n,
                i,
                scroll,
                total,
                walk,
            ),
{
    reveal_with_fuel(LineStore::walks, 2);
}

/// Settling after one correction is settling.
pub proof fn lemma_settles_on<F: FontSystem>(
    store: &LineStore,
    mid: &LineStore,
    fonts: int,
    settings: Settings,
    window: Window,
    prune: bool,
    scroll: Scroll,
    passes: nat,
    first: Pass,
)
    requires
        store.corrects::<F>(mid, fonts, settings, window, prune, scroll, first),
    ensures
        first.done || passes <= 1 ==> store.settles::<F>(
            mid,
            fonts,
            settings,
            window,
            prune,
            scroll,
            passes,
            first,
        ),
        !first.done && passes > 1 ==> forall|after: LineStore, pass: Pass| #[trigger]
            mid.settles::<F>(
                &after,
                fonts,
                settings,
                window,
                prune,
                first.scroll,
                (passes - 1) as nat,
                pass,
            ) ==> store.settles::<F>(
                &after,
                fonts,
                settings,
                window,
                prune,
                scroll,
                passes,
                pass,
            ),
{
    reveal_with_fuel(LineStore::settles, 2);
}

} // verus!
