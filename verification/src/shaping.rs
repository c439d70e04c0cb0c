//! Shaping and laying out single lines of a buffer.

use vstd::prelude::*;

use crate::breaks::line_total;
use crate::buffer::{Buffer, LineStore};
use crate::dirty::DirtyFlags;
use crate::layout::{layout_fits, layout_view, shape_fits, FontSystem, LayoutLine, ShapeLine};
use crate::line::{lemma_fresh_shape_fits, lemma_line_results, BufferLine, LineView, Settings};
use crate::line_cache::LINE_CACHE_CAPACITY;
use crate::line_lru::lru_entries;
use crate::recency::{removed, touched};
use crate::resolve::resolved;
use crate::rope_store::{
    lemma_line_readied, lemma_line_text_valid, lemma_results_now, line_readied, RopeStore,
    MATERIALIZED_CAPACITY,
};

verus! {

impl LineStore {
    /// Whether shaping line `i` turns `self` into `after`. A rope keeps the line
    /// and its shape in front of those of the other lines.
    pub open spec fn shapes_line<F: FontSystem>(
        &self,
        after: &LineStore,
        fonts: int,
        settings: Settings,
        i: int,
    ) -> bool {
        match (self, after) {
            (LineStore::Full(a), LineStore::Full(b)) => {
                &&& 0 <= i < a@.len()
                &&& b@.len() == a@.len()
                &&& b@[i]@ == a@[i]@.with_shape::<F>(fonts, settings)
                &&& forall|j: int| 0 <= j < a@.len() && j != i ==> #[trigger] b@[j] == a@[j]
            },
            (LineStore::Rope(a), LineStore::Rope(b)) => {
                &&& b.wf()
                &&& line_readied::<F>(a, b, fonts, settings, i)
                &&& touched(
                    lru_entries(a.materialized),
                    MATERIALIZED_CAPACITY as int,
                    lru_entries(b.materialized),
                    i,
                )
                &&& touched(
                    a.cache.shape.entries@,
                    LINE_CACHE_CAPACITY as int,
                    b.cache.shape.entries@,
                    i,
                )
                &&& b.cache.layout.entries@ == if a.cache.shape_at(i) is Some {
                    a.cache.layout.entries@
                } else {
                    removed(a.cache.layout.entries@, i)
                }
            },
            _ => false,
        }
    }

    /// Whether laying line `i` out turns `self` into `after`. A rope keeps the
    /// line and its results in front of those of the other lines.
    pub open spec fn lays_out_line<F: FontSystem>(
        &self,
        after: &LineStore,
        fonts: int,
        settings: Settings,
        i: int,
    ) -> bool {
        match (self, after) {
            (LineStore::Full(a), LineStore::Full(b)) => {
                &&& 0 <= i < a@.len()
                &&& b@.len() == a@.len()
                &&& b@[i]@ == a@[i]@.with_layout::<F>(fonts, settings)
                &&& forall|j: int| 0 <= j < a@.len() && j != i ==> #[trigger] b@[j] == a@[j]
            },
            (LineStore::Rope(a), LineStore::Rope(b)) => {
                &&& b.wf()
                &&& line_readied::<F>(a, b, fonts, settings, i)
                &&& b.cache.layout_at(i) == Some(a.layout_now::<F>(fonts, settings, i))
                &&& touched(
                    lru_entries(a.materialized),
                    MATERIALIZED_CAPACITY as int,
                    lru_entries(b.materialized),
                    i,
                )
                &&& touched(
                    a.cache.shape.entries@,
                    LINE_CACHE_CAPACITY as int,
                    b.cache.shape.entries@,
                    i,
                )
                &&& touched(
                    a.cache.layout.entries@,
                    LINE_CACHE_CAPACITY as int,
                    b.cache.layout.entries@,
                    i,
                )
            },
            _ => false,
        }
    }

    /// Whether shaping lines, which lines ever, turns `self` into `after`: the
    /// lines are the same, and what they show and whether their results are up
    /// to date has not changed.
    pub open spec fn keeps<F: FontSystem>(
        &self,
        after: &LineStore,
        fonts: int,
        settings: Settings,
    ) -> bool {
        &&& self.same_lines(after)
        &&& self.count() == after.count()
        &&& self.steady::<F>(fonts, settings) ==> after.steady::<F>(fonts, settings)
            && after.page::<F>(fonts, settings) == self.page::<F>(fonts, settings)
        &&& self.current::<F>(fonts, settings) ==> after.current::<F>(fonts, settings)
        &&& forall|dirty: DirtyFlags| #[trigger]
            self.tracks::<F>(fonts, settings, dirty) ==> after.tracks::<F>(fonts, settings, dirty)
    }
}

/// Shaping lines once and again is shaping lines.
pub proof fn lemma_keeps_chain<F: FontSystem>(
    a: &LineStore,
    b: &LineStore,
    c: &LineStore,
    fonts: int,
    settings: Settings,
)
    requires
        a.keeps::<F>(b, fonts, settings),
        b.keeps::<F>(c, fonts, settings),
    ensures
        a.keeps::<F>(c, fonts, settings),
{
    match (a, b, c) {
        (LineStore::Full(x), LineStore::Full(y), LineStore::Full(z)) => {
            assert forall|i: int| 0 <= i < x@.len() implies (#[trigger] x@[i])@.same_line(z@[i]@) by {
                assert(y@[i]@.same_line(z@[i]@));
            }
        },
        _ => {},
    }
    assert forall|dirty: DirtyFlags| #[trigger]
        a.tracks::<F>(fonts, settings, dirty) implies c.tracks::<F>(fonts, settings, dirty) by {
        assert(b.tracks::<F>(fonts, settings, dirty));
    }
}

/// Doing nothing is shaping lines.
pub proof fn lemma_keeps_itself<F: FontSystem>(a: &LineStore, fonts: int, settings: Settings)
    ensures
        a.keeps::<F>(a, fonts, settings),
{
}

/// What holds of a line before it is laid out holds afterwards.
proof fn lemma_line_kept<F: FontSystem>(
    line: LineView,
    after: LineView,
    fonts: int,
    settings: Settings,
)
    requires
        line.fits(),
        after == line.with_shape::<F>(fonts, settings) || after == line.with_layout::<F>(
            fonts,
            settings,
        ),
    ensures
        after.fits(),
        line.same_line(after),
        line.current::<F>(fonts, settings) ==> after.current::<F>(fonts, settings),
        after.with_shape::<F>(fonts, settings).shape == line.with_shape::<F>(fonts, settings).shape,
        after.with_layout::<F>(fonts, settings).layout == line.with_layout::<F>(
            fonts,
            settings,
        ).layout,
        forall|dirty: DirtyFlags|
            (#[trigger] resolved(line, dirty)).current::<F>(fonts, settings) ==> resolved(
                after,
                dirty,
            ).current::<F>(fonts, settings),
{
    lemma_line_results::<F>(line, fonts, settings);
}

proof fn lemma_full_kept<F: FontSystem>(
    a: Vec<BufferLine>,
    b: Vec<BufferLine>,
    fonts: int,
    settings: Settings,
    i: int,
)
    requires
        LineStore::Full(a).wf(),
        LineStore::Full(a).shapes_line::<F>(&LineStore::Full(b), fonts, settings, i)
            || LineStore::Full(a).lays_out_line::<F>(&LineStore::Full(b), fonts, settings, i),
    ensures
        LineStore::Full(b).wf(),
        LineStore::Full(a).keeps::<F>(&LineStore::Full(b), fonts, settings),
{
    lemma_line_kept::<F>(a@[i]@, b@[i]@, fonts, settings);
    let before = LineStore::Full(a);
    let after = LineStore::Full(b);
    assert forall|j: int| 0 <= j < a@.len() implies (#[trigger] a@[j])@.same_line(b@[j]@) by {
        if j != i {
            assert(b@[j] == a@[j]);
        }
    }
    assert forall|j: int| 0 <= j < b@.len() implies (#[trigger] b@[j])@.fits() by {
        if j != i {
            assert(b@[j] == a@[j]);
        }
    }
    if before.current::<F>(fonts, settings) {
        assert forall|j: int| 0 <= j < b@.len() implies (#[trigger] b@[j])@.current::<F>(
            fonts,
            settings,
        ) by {
            assert(a@[j]@.current::<F>(fonts, settings));
        }
    }
    let p = before.page::<F>(fonts, settings);
    let q = after.page::<F>(fonts, settings);
    assert(p.texts =~= q.texts);
    assert(p.hidden =~= q.hidden);
    assert(p.rtl =~= q.rtl);
    assert(p.layouts =~= q.layouts);
    assert forall|dirty: DirtyFlags| #[trigger]
        before.tracks::<F>(fonts, settings, dirty) implies after.tracks::<F>(
        fonts,
        settings,
        dirty,
    ) by {
        assert forall|j: int| 0 <= j < b@.len() implies resolved(
            (#[trigger] b@[j])@,
            dirty,
        ).current::<F>(fonts, settings) by {
            assert(resolved(a@[j]@, dirty).current::<F>(fonts, settings));
        }
    }
}

proof fn lemma_rope_tracks<F: FontSystem>(
    a: RopeStore,
    b: RopeStore,
    fonts: int,
    settings: Settings,
    i: int,
    dirty: DirtyFlags,
)
    requires
        a.fresh(),
        line_readied::<F>(&a, &b, fonts, settings, i),
        LineStore::Rope(a).tracks::<F>(fonts, settings, dirty),
    ensures
        LineStore::Rope(b).tracks::<F>(fonts, settings, dirty),
{
    assert(a.line_now(i) == a.line_view(i)) by {
        assert(a.warm(i) is Some ==> a.line_now(i) == a.line_view(i));
    }
    if !dirty.drops_all() {
        assert(a.cache.shape_at(i) is Some ==> a.cache.shape_at(i).unwrap() == a.line_view(
            i,
        ).fresh_shape::<F>(fonts, settings));
        assert forall|j: int| (#[trigger] b.cache.shape_at(j)) is Some implies 0 <= j < line_total(
            b.bytes(),
        ) && b.cache.shape_at(j).unwrap() == b.line_view(j).fresh_shape::<F>(fonts, settings) by {
            assert(b.line_view(j) == a.line_view(j));
            if j != i {
                assert(a.cache.shape_at(j) is Some);
            }
        }
    }
    if !dirty.drops_layouts() {
        assert(a.cache.layout_at(i) is Some ==> a.cache.layout_at(i).unwrap() == a.line_view(
            i,
        ).fresh_layout::<F>(fonts, settings));
        assert forall|j: int| (#[trigger] b.cache.layout_at(j)) is Some implies 0 <= j < line_total(
            b.bytes(),
        ) && b.cache.layout_at(j).unwrap() == b.line_view(j).fresh_layout::<F>(fonts, settings) by {
            assert(b.line_view(j) == a.line_view(j));
            if j != i {
                assert(a.cache.layout_at(j) is Some);
            }
        }
    }
}

proof fn lemma_rope_kept<F: FontSystem>(
    a: RopeStore,
    b: RopeStore,
    fonts: int,
    settings: Settings,
    i: int,
)
    requires
        LineStore::Rope(a).wf(),
        b.wf(),
        line_readied::<F>(&a, &b, fonts, settings, i),
    ensures
        LineStore::Rope(b).wf(),
        LineStore::Rope(a).keeps::<F>(&LineStore::Rope(b), fonts, settings),
{
    lemma_line_readied::<F>(&a, &b, fonts, settings, i);
    let before = LineStore::Rope(a);
    let after = LineStore::Rope(b);
    if a.current::<F>(fonts, settings) {
        let p = before.page::<F>(fonts, settings);
        let q = after.page::<F>(fonts, settings);
        assert forall|j: int| 0 <= j < p.texts.len() implies p.texts[j] == q.texts[j]
            && p.hidden[j] == q.hidden[j] && p.rtl[j] == q.rtl[j] && p.layouts[j]
            == q.layouts[j] by {
            assert(b.line_view(j) == a.line_view(j));
            lemma_results_now::<F>(&a, fonts, settings, j);
            lemma_results_now::<F>(&b, fonts, settings, j);
        }
        assert(p.texts =~= q.texts);
        assert(p.hidden =~= q.hidden);
        assert(p.rtl =~= q.rtl);
        assert(p.layouts =~= q.layouts);
    }
    assert forall|dirty: DirtyFlags| #[trigger]
        before.tracks::<F>(fonts, settings, dirty) implies after.tracks::<F>(
        fonts,
        settings,
        dirty,
    ) by {
        lemma_rope_tracks::<F>(a, b, fonts, settings, i, dirty);
    }
}

/// Shaping a line, or laying it out, changes no line and nothing that lines
/// show.
pub proof fn lemma_line_shaped<F: FontSystem>(
    before: &LineStore,
    after: &LineStore,
    fonts: int,
    settings: Settings,
    i: int,
)
    requires
        before.wf(),
        before.shapes_line::<F>(after, fonts, settings, i) || before.lays_out_line::<F>(
            after,
            fonts,
            settings,
            i,
        ),
    ensures
        after.wf(),
        before.keeps::<F>(after, fonts, settings),
{
    match (before, after) {
        (LineStore::Full(a), LineStore::Full(b)) => {
            lemma_full_kept::<F>(*a, *b, fonts, settings, i);
        },
        (LineStore::Rope(a), LineStore::Rope(b)) => {
            lemma_rope_kept::<F>(*a, *b, fonts, settings, i);
        },
        _ => {},
    }
}

impl Buffer {
    /// Shapes line `line_i`, unless its shape is kept, and returns the result.
    pub fn line_shape<F: FontSystem>(&mut self, font_system: &mut F, line_i: usize) -> (r: Option<
        &ShapeLine,
    >)
        requires
            old(self).wf(),
        ensures
            final(font_system).fonts() == old(font_system).fonts(),
            final(self).wf(),
            final(self).same_frame(old(self)),
            r is Some <==> line_i < old(self).count(),
            old(self).store.keeps::<F>(
                &final(self).store,
                old(font_system).fonts(),
                old(self).settings(),
            ),
            match r {
                Some(shape) => {
                    &&& old(self).store.shapes_line::<F>(
                        &final(self).store,
                        old(font_system).fonts(),
                        old(self).settings(),
                        line_i as int,
                    )
                    &&& shape@ == match old(self).store {
                        LineStore::Full(lines) => lines@[line_i as int]@.with_shape::<F>(
                            old(font_system).fonts(),
                            old(self).settings(),
                        ).shape.unwrap(),
                        LineStore::Rope(store) => store.shape_now::<F>(
                            old(font_system).fonts(),
                            old(self).settings(),
                            line_i as int,
                        ),
                    }
                    &&& shape.rtl == old(self).page::<F>(old(font_system).fonts()).rtl[line_i as int]
                },
                None => *final(self) == *old(self),
            },
    {
        let settings = self.settings_now();
        let ghost fonts = font_system.fonts();
        let ghost before = self.store;
        if line_i >= self.line_count() {
            proof {
                lemma_keeps_itself::<F>(&before, fonts, settings);
            }
            return None;
        }
        match &mut self.store {
            LineStore::Full(lines) => {
                lines[line_i].ensure_shape(font_system, &settings);
            },
            LineStore::Rope(store) => {
                let _shape = store.line_shape(font_system, &settings, line_i);
            },
        }
        proof {
            lemma_line_shaped::<F>(&before, &self.store, fonts, settings, line_i as int);
        }
        match &self.store {
            LineStore::Full(lines) => lines[line_i].shape_opt(),
            LineStore::Rope(store) => store.cache.shape.peek(line_i),
        }
    }

    /// Lays line `line_i` out, unless its layout is kept, and returns the
    /// result.
    pub fn line_layout<F: FontSystem>(&mut self, font_system: &mut F, line_i: usize) -> (r: Option<
        &[LayoutLine],
    >)
        requires
            old(self).wf(),
        ensures
            final(font_system).fonts() == old(font_system).fonts(),
            final(self).wf(),
            final(self).same_frame(old(self)),
            r is Some <==> line_i < old(self).count(),
            old(self).store.keeps::<F>(
                &final(self).store,
                old(font_system).fonts(),
                old(self).settings(),
            ),
            match r {
                Some(layout) => {
                    &&& old(self).store.lays_out_line::<F>(
                        &final(self).store,
                        old(font_system).fonts(),
                        old(self).settings(),
                        line_i as int,
                    )
                    &&& layout_view(layout@) == old(self).page::<F>(
                        old(font_system).fonts(),
                    ).layouts[line_i as int]
                },
                None => *final(self) == *old(self),
            },
    {
        let settings = self.settings_now();
        let ghost fonts = font_system.fonts();
        let ghost before = self.store;
        if line_i >= self.line_count() {
            proof {
                lemma_keeps_itself::<F>(&before, fonts, settings);
            }
            return None;
        }
        match &mut self.store {
            LineStore::Full(lines) => {
                lines[line_i].ensure_layout(font_system, &settings);
            },
            LineStore::Rope(store) => {
                let _layout = store.line_layout(font_system, &settings, line_i);
            },
        }
        proof {
            lemma_line_shaped::<F>(&before, &self.store, fonts, settings, line_i as int);
        }
        let layout = match &self.store {
            LineStore::Full(lines) => lines[line_i].layout_opt(),
            LineStore::Rope(store) => store.cache.layout.peek(line_i),
        };
        match layout {
            Some(layout) => Some(layout.as_slice()),
            None => None,
        }
    }

    /// Tells whether line `line` runs right to left; `None` if its shape is
    /// not kept.
    pub fn is_rtl(&self, line: usize) -> (r: Option<bool>)
        requires
            self.wf(),
        ensures
            r == match self.store {
                LineStore::Full(lines) => if line < lines@.len() {
                    match lines@[line as int]@.shape {
                        Some(shape) => Some(shape.rtl),
                        None => None,
                    }
                } else {
                    None
                },
                LineStore::Rope(store) => match store.cache.shape_at(line as int) {
                    Some(shape) => Some(shape.rtl),
                    None => None,
                },
            },
    {
        match &self.store {
            LineStore::Rope(store) => match store.cache.shape.peek(line) {
                Some(shape) => Some(shape.rtl),
                None => None,
            },
            LineStore::Full(lines) => if line < lines.len() {
                match lines[line].shape_opt() {
                    Some(shape) => Some(shape.rtl),
                    None => None,
                }
            } else {
                None
            },
        }
    }
}

/// The layout that a line gets fits its text.
pub proof fn lemma_layout_fits<F: FontSystem>(
    store: &LineStore,
    fonts: int,
    settings: Settings,
    i: int,
)
    requires
        store.wf(),
        0 <= i < store.count(),
    ensures
        layout_fits(store.line_at(i).text, store.page::<F>(fonts, settings).layouts[i]),
{
    match store {
        LineStore::Full(lines) => {
            assert(*store == LineStore::Full(*lines));
            lemma_line_results::<F>(lines@[i]@, fonts, settings);
        },
        LineStore::Rope(rope) => {
            assert(*store == LineStore::Rope(*rope));
            let line = rope.line_view(i);
            assert(rope.line_now(i) == line) by {
                assert(rope.warm(i) is Some ==> rope.line_now(i) == line);
            }
            lemma_line_text_valid(rope, i);
            lemma_fresh_shape_fits::<F>(line, fonts, settings);
            let shape = rope.shape_now::<F>(fonts, settings, i);
            assert(rope.cache.shape_at(i) is Some ==> shape_fits(line.text, shape));
            F::law_layout_fits(fonts, line.text, shape, settings.params(line.align));
            assert(rope.cache.layout_at(i) is Some ==> layout_fits(
                line.text,
                rope.cache.layout_at(i).unwrap(),
            ));
        },
    }
}

} // verus!
