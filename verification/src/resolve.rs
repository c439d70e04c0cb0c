//! Bringing the kept results of a buffer up to date with its settings.

use vstd::prelude::*;

use crate::breaks::line_total;
use crate::buffer::{Buffer, LineStore, Page};
use crate::dirty::DirtyFlags;
use crate::layout::FontSystem;
use crate::line::{BufferLine, LineView, Settings};
use crate::rope_store::RopeStore;
use crate::text::{contains_tab, has_tab};

verus! {

impl DirtyFlags {
    /// Whether the shape of a line with the given text is out of date.
    pub open spec fn drops_shape(self, text: Seq<u8>) -> bool {
        self.direction || (self.tab_shape && has_tab(text))
    }

    /// Whether the layout of a line with the given text is out of date.
    pub open spec fn drops_layout(self, text: Seq<u8>) -> bool {
        self.drops_shape(text) || self.relayout
    }

    /// Whether all shapes of a rope are out of date.
    pub open spec fn drops_all(self) -> bool {
        self.direction || self.tab_shape
    }

    /// Whether all layouts of a rope are out of date.
    pub open spec fn drops_layouts(self) -> bool {
        self.direction || self.tab_shape || self.relayout
    }
}

/// A line without the results that are out of date.
pub open spec fn resolved(line: LineView, dirty: DirtyFlags) -> LineView {
    if line.shape is None {
        line
    } else if dirty.drops_shape(line.text) {
        line.without_shape()
    } else if dirty.drops_layout(line.text) {
        line.without_layout()
    } else {
        line
    }
}

/// A rope without the results that are out of date.
pub open spec fn resolves_rope(before: &RopeStore, dirty: DirtyFlags, after: &RopeStore) -> bool {
    &&& after.text == before.text
    &&& after.metadata == before.metadata
    &&& after.materialized == before.materialized
    &&& after.cache.wf()
    &&& if dirty.drops_all() {
        &&& forall|i: int| #[trigger] after.cache.shape_at(i) is None
        &&& forall|i: int| #[trigger] after.cache.layout_at(i) is None
    } else if dirty.drops_layouts() {
        &&& after.cache.shape == before.cache.shape
        &&& forall|i: int| #[trigger] after.cache.layout_at(i) is None
    } else {
        after.cache == before.cache
    }
}

impl LineStore {
    /// The lines without the results that are out of date.
    pub open spec fn resolves(&self, dirty: DirtyFlags, after: &LineStore) -> bool {
        match (self, after) {
            (LineStore::Full(a), LineStore::Full(b)) => a@.len() == b@.len() && forall|i: int|
                0 <= i < a@.len() ==> (#[trigger] b@[i])@ == resolved(a@[i]@, dirty),
            (LineStore::Rope(a), LineStore::Rope(b)) => resolves_rope(a, dirty, b),
            _ => false,
        }
    }

    /// What the lines show once their results have been brought up to date.
    pub open spec fn resolved_page<F: FontSystem>(
        &self,
        fonts: int,
        settings: Settings,
        dirty: DirtyFlags,
    ) -> Page {
        Page {
            texts: Seq::new(self.count(), |i: int| self.line_at(i).text),
            hidden: Seq::new(self.count(), |i: int| self.line_at(i).hidden),
            rtl: Seq::new(
                self.count(),
                |i: int|
                    match self {
                        LineStore::Full(lines) => resolved(lines@[i]@, dirty).with_shape::<F>(
                            fonts,
                            settings,
                        ).shape.unwrap(),
                        LineStore::Rope(store) => if dirty.drops_all() {
                            store.line_now(i).fresh_shape::<F>(fonts, settings)
                        } else {
                            store.shape_now::<F>(fonts, settings, i)
                        },
                    }.rtl,
            ),
            layouts: Seq::new(
                self.count(),
                |i: int|
                    match self {
                        LineStore::Full(lines) => resolved(lines@[i]@, dirty).with_layout::<F>(
                            fonts,
                            settings,
                        ).layout.unwrap(),
                        LineStore::Rope(store) => if dirty.drops_all() {
                            store.line_now(i).fresh_layout::<F>(fonts, settings)
                        } else if dirty.drops_layouts() {
                            F::laid_out(
                                fonts,
                                store.shape_now::<F>(fonts, settings, i),
                                settings.params(store.line_now(i).align),
                            )
                        } else {
                            store.layout_now::<F>(fonts, settings, i)
                        },
                    },
            ),
        }
    }

    /// Every result that stays is the one for its line as it stands.
    pub open spec fn tracks<F: FontSystem>(
        &self,
        fonts: int,
        settings: Settings,
        dirty: DirtyFlags,
    ) -> bool {
        match self {
            LineStore::Full(lines) => forall|i: int|
                0 <= i < lines@.len() ==> resolved((#[trigger] lines@[i])@, dirty).current::<F>(
                    fonts,
                    settings,
                ),
            LineStore::Rope(store) => {
                &&& !dirty.drops_all() ==> forall|i: int|
                    (#[trigger] store.cache.shape_at(i)) matches Some(s) ==> 0 <= i < line_total(
                        store.bytes(),
                    ) && s == store.line_view(i).fresh_shape::<F>(fonts, settings)
                &&& !dirty.drops_layouts() ==> forall|i: int|
                    (#[trigger] store.cache.layout_at(i)) matches Some(l) ==> 0 <= i < line_total(
                        store.bytes(),
                    ) && l == store.line_view(i).fresh_layout::<F>(fonts, settings)
            },
        }
    }

    /// Shaping one line will not change what another one shows, once the
    /// results have been brought up to date.
    pub open spec fn steadies<F: FontSystem>(
        &self,
        fonts: int,
        settings: Settings,
        dirty: DirtyFlags,
    ) -> bool {
        match self {
            LineStore::Full(_) => true,
            LineStore::Rope(_) => self.tracks::<F>(fonts, settings, dirty),
        }
    }
}

proof fn lemma_resolved_full<F: FontSystem>(
    a: Vec<BufferLine>,
    dirty: DirtyFlags,
    b: Vec<BufferLine>,
    fonts: int,
    settings: Settings,
)
    requires
        LineStore::Full(a).resolves(dirty, &LineStore::Full(b)),
    ensures
        LineStore::Full(b).page::<F>(fonts, settings) == LineStore::Full(a).resolved_page::<F>(
            fonts,
            settings,
            dirty,
        ),
{
    let p = LineStore::Full(b).page::<F>(fonts, settings);
    let q = LineStore::Full(a).resolved_page::<F>(fonts, settings, dirty);
    assert(p.texts =~= q.texts);
    assert(p.hidden =~= q.hidden);
    assert(p.rtl =~= q.rtl);
    assert(p.layouts =~= q.layouts);
}

proof fn lemma_resolved_rope_page<F: FontSystem>(
    a: RopeStore,
    dirty: DirtyFlags,
    b: RopeStore,
    fonts: int,
    settings: Settings,
)
    requires
        resolves_rope(&a, dirty, &b),
    ensures
        LineStore::Rope(b).page::<F>(fonts, settings) == LineStore::Rope(a).resolved_page::<F>(
            fonts,
            settings,
            dirty,
        ),
{
    let p = LineStore::Rope(b).page::<F>(fonts, settings);
    let q = LineStore::Rope(a).resolved_page::<F>(fonts, settings, dirty);
    assert(forall|i: int| #[trigger] b.line_view(i) == a.line_view(i));
    assert(p.texts =~= q.texts);
    assert(p.hidden =~= q.hidden);
    assert forall|i: int| 0 <= i < p.rtl.len() implies p.rtl[i] == q.rtl[i] && p.layouts[i]
        == q.layouts[i] by {
        assert(b.warm(i) == a.warm(i));
        assert(b.line_now(i) == a.line_now(i));
        if dirty.drops_all() {
            assert(b.cache.shape_at(i) is None);
        } else if dirty.drops_layouts() {
            assert(b.cache.shape_at(i) == a.cache.shape_at(i));
            assert(b.cache.layout_at(i) is None);
        }
    }
    assert(p.rtl =~= q.rtl);
    assert(p.layouts =~= q.layouts);
}

proof fn lemma_resolved_rope<F: FontSystem>(
    a: RopeStore,
    dirty: DirtyFlags,
    b: RopeStore,
    fonts: int,
    settings: Settings,
)
    requires
        resolves_rope(&a, dirty, &b),
    ensures
        LineStore::Rope(a).tracks::<F>(fonts, settings, dirty) ==> b.current::<F>(fonts, settings),
{
    if LineStore::Rope(a).tracks::<F>(fonts, settings, dirty) {
        assert forall|i: int| (#[trigger] b.cache.shape_at(i)) is Some implies 0 <= i < line_total(
            b.bytes(),
        ) && b.cache.shape_at(i).unwrap() == b.line_view(i).fresh_shape::<F>(fonts, settings) by {
            assert(b.line_view(i) == a.line_view(i));
            assert(a.cache.shape_at(i) is Some);
        }
        assert forall|i: int| (#[trigger] b.cache.layout_at(i)) is Some implies 0 <= i < line_total(
            b.bytes(),
        ) && b.cache.layout_at(i).unwrap() == b.line_view(i).fresh_layout::<F>(fonts, settings) by {
            assert(b.line_view(i) == a.line_view(i));
            assert(a.cache.layout_at(i) is Some);
        }
    }
}

/// What the lines show, and whether what they keep is up to date, is decided
/// by the results that stay.
pub proof fn lemma_resolved<F: FontSystem>(
    before: &LineStore,
    dirty: DirtyFlags,
    after: &LineStore,
    fonts: int,
    settings: Settings,
)
    requires
        before.resolves(dirty, after),
    ensures
        after.page::<F>(fonts, settings) == before.resolved_page::<F>(fonts, settings, dirty),
        before.tracks::<F>(fonts, settings, dirty) ==> after.current::<F>(fonts, settings),
        before.steadies::<F>(fonts, settings, dirty) ==> after.steady::<F>(fonts, settings),
        before.same_lines(after),
        before.count() == after.count(),
{
    match (before, after) {
        (LineStore::Full(a), LineStore::Full(b)) => {
            lemma_resolved_full::<F>(*a, dirty, *b, fonts, settings);
        },
        (LineStore::Rope(a), LineStore::Rope(b)) => {
            lemma_resolved_rope_page::<F>(*a, dirty, *b, fonts, settings);
            lemma_resolved_rope::<F>(*a, dirty, *b, fonts, settings);
        },
        _ => {},
    }
}

impl Buffer {
    /// Whether something has to be brought up to date.
    pub open spec fn stale(&self) -> bool {
        self.dirty != DirtyFlags::none() || match self.store {
            LineStore::Full(lines) => exists|i: int|
                0 <= i < lines@.len() && ((#[trigger] lines@[i])@.shape_dropped
                    || lines@[i]@.layout_dropped),
            LineStore::Rope(_) => false,
        }
    }

    /// Drops the results that are out of date. Returns whether there is
    /// something to be brought up to date; if so the buffer has to be drawn
    /// again.
    pub fn resolve_dirty(&mut self) -> (r: bool)
        requires
            old(self).wf(),
        ensures
            final(self).wf(),
            r == old(self).stale(),
            final(self).same_frame(
                &(Buffer {
                    redraw: old(self).redraw || r,
                    dirty: DirtyFlags::none(),
                    ..*old(self)
                }),
            ),
            old(self).store.resolves(old(self).dirty, &final(self).store),
            !r ==> *final(self) == *old(self),
    {
        let dirty = self.dirty;
        let ghost before = self.store;
        match &mut self.store {
            LineStore::Rope(store) => {
                if dirty.is_empty() {
                    return false;
                }
                if dirty.direction || dirty.tab_shape {
                    store.cache.clear();
                } else if dirty.relayout {
                    store.cache.clear_layout();
                }
                proof {
                    let a = before->Rope_0;
                    assert(forall|i: int| #[trigger] store.warm(i) == a.warm(i));
                    assert(forall|i: int| #[trigger] store.line_view(i) == a.line_view(i));
                    assert(resolves_rope(&a, dirty, store));
                    assert(store.fresh());
                    if dirty.drops_all() {
                    } else if dirty.drops_layouts() {
                        assert(forall|i: int| #[trigger]
                            store.cache.shape_at(i) == a.cache.shape_at(i));
                    }
                    assert(store.fits());
                }
            },
            LineStore::Full(lines) => {
                if dirty.is_empty() {
                    // A line may have been changed from outside.
                    if any_needs_reshaping(lines) {
                        self.redraw = true;
                        return true;
                    }
                    return false;
                }
                drop_stale_results(lines, dirty);
            },
        }
        self.redraw = true;
        self.dirty = DirtyFlags::empty();
        true
    }

    /// Whether `after` is `self` once all results have been dropped.
    pub open spec fn resets(&self, after: &Buffer) -> bool {
        &&& after.same_frame(
            &(Buffer {
                dirty: DirtyFlags { text_set: true, ..self.dirty },
                redraw: true,
                ..*self
            }),
        )
        &&& match (self.store, after.store) {
            (LineStore::Full(a), LineStore::Full(b)) => a@.len() == b@.len() && forall|i: int|
                0 <= i < a@.len() ==> (#[trigger] b@[i])@ == a@[i]@.without_results(),
            (LineStore::Rope(a), LineStore::Rope(b)) => {
                &&& b.text == a.text
                &&& b.metadata == a.metadata
                &&& b.materialized == a.materialized
                &&& forall|i: int| #[trigger] b.cache.shape_at(i) is None
                &&& forall|i: int| #[trigger] b.cache.layout_at(i) is None
            },
            _ => false,
        }
    }

    /// Drops all results and, where lines are kept, their metadata. Everything
    /// is shaped again; text and attributes stay.
    pub fn reset_shaping(&mut self)
        requires
            old(self).wf(),
        ensures
            final(self).wf(),
            old(self).resets(final(self)),
    {
        let ghost before = self.store;
        match &mut self.store {
            LineStore::Full(lines) => {
                let ghost a = lines@;
                let n = lines.len();
                let mut i: usize = 0;
                while i < n
                    invariant
                        n == a.len(),
                        lines@.len() == n,
                        i <= n,
                        forall|j: int| 0 <= j < n ==> (#[trigger] a[j])@.fits(),
                        forall|j: int| 0 <= j < i ==> (#[trigger] lines@[j])@ == a[j]@.without_results(),
                        forall|j: int| i <= j < n ==> #[trigger] lines@[j] == a[j],
                    decreases n - i,
                {
                    lines[i].reset();
                    i = i + 1;
                }
            },
            LineStore::Rope(store) => {
                store.cache.clear();
                proof {
                    let a = before->Rope_0;
                    assert(forall|i: int| #[trigger] store.warm(i) == a.warm(i));
                    assert(forall|i: int| #[trigger] store.line_view(i) == a.line_view(i));
                    assert(store.fresh());
                    assert(store.fits());
                }
            },
        }
        // Nothing is shaped, so that the next pass has to start anew.
        self.dirty.text_set = true;
        self.redraw = true;
    }
}

/// Tells whether a result of a line has been dropped.
fn any_needs_reshaping(lines: &Vec<BufferLine>) -> (r: bool)
    ensures
        r == exists|i: int|
            0 <= i < lines@.len() && ((#[trigger] lines@[i])@.shape_dropped
                || lines@[i]@.layout_dropped),
{
    let mut i: usize = 0;
    while i < lines.len()
        invariant
            i <= lines@.len(),
            forall|j: int|
                0 <= j < i ==> !((#[trigger] lines@[j])@.shape_dropped || lines@[j]@.layout_dropped),
        decreases lines@.len() - i,
    {
        if lines[i].needs_reshaping() {
            return true;
        }
        i = i + 1;
    }
    false
}

/// Drops the results of each line that are out of date.
fn drop_stale_results(lines: &mut Vec<BufferLine>, dirty: DirtyFlags)
    ensures
        final(lines)@.len() == old(lines)@.len(),
        forall|i: int|
            0 <= i < old(lines)@.len() ==> (#[trigger] final(lines)@[i])@ == resolved(
                old(lines)@[i]@,
                dirty,
            ),
{
    let ghost a = lines@;
    let n = lines.len();
    let mut i: usize = 0;
    while i < n
        invariant
            n == a.len(),
            lines@.len() == n,
            i <= n,
            forall|j: int| 0 <= j < i ==> (#[trigger] lines@[j])@ == resolved(a[j]@, dirty),
            forall|j: int| i <= j < n ==> #[trigger] lines@[j] == a[j],
        decreases n - i,
    {
        if lines[i].shape_opt().is_some() {
            if dirty.direction || (dirty.tab_shape && contains_tab(lines[i].text())) {
                lines[i].reset_shaping();
            } else if dirty.relayout {
                lines[i].reset_layout();
            }
        }
        i = i + 1;
    }
}

} // verus!
