//! Rope-backed line storage.
//!
//! The text lives in one string with a table of where its lines begin, per-line
//! attributes are kept sparsely, shaping and layout results live in a bounded
//! cache, and [`BufferLine`]s are materialized on demand into a bounded cache of
//! their own. Plain-text edits splice the string, build the table anew, and move
//! or drop what is cached around the edit.

use vstd::prelude::*;
use vstd::utf8::*;

use crate::attrs::Attrs;
use crate::breaks::{
    breaks, content_of, ending_of, lemma_breaks_monotone, lemma_line_bounds, lemma_splice, line_bytes,
    line_end, line_start, line_total, spliced,
};
use crate::ending::{ending_bytes, LineEnding};
use crate::layout::{
    layout_fits, layout_view, shape_fits, FontSystem, LayoutLine, LayoutLineView, ShapeLine,
    ShapeLineView, Shaping,
};
use crate::line::{fresh_line, lemma_fresh_shape_fits, lines_view, BufferLine, LineView, Settings};
use crate::line_cache::{LineCache, LINE_CACHE_CAPACITY};
use crate::line_lru::{
    lru_cap, lru_contains, lru_entries, lru_get, lru_keys, lru_new, lru_peek, lru_pop, lru_put,
};
use crate::metadata::{origin, SparseMetadata};
use crate::recency::{
    distinct, holds, kept_below, lemma_dropped_last, lemma_first_entry, lemma_place, lemma_promoted,
    lemma_promoted_touches, lemma_pushed_back, lemma_removed, lemma_restored_touches, lemma_stored,
    lemma_stored_touches, lemma_touched, lookup, moved_up, place, promoted, rekeyed, removed, stored,
    touched,
};
use crate::rope_laws::{
    law_delete_keeps_honest, law_delete_keeps_lines_fresh, law_delete_keeps_results_fitting,
    law_insert_keeps_honest, law_insert_keeps_lines_fresh, law_insert_keeps_results_fitting,
};
use crate::rope_text::RopeText;
use crate::shape_cap::shaped_str;
use crate::text::{at_boundary, byte_len, lemma_subrange, own};

verus! {

/// How many materialized lines are kept.
pub const MATERIALIZED_CAPACITY: usize = 2048;

/// Rope-backed line storage.
pub struct RopeStore {
    /// The text.
    pub text: RopeText,
    /// What is set for single lines.
    pub metadata: SparseMetadata,
    /// Shaping and layout results.
    pub cache: LineCache,
    /// The materialized lines.
    pub materialized: lru::LruCache<usize, BufferLine>,
}

/// Line and byte within the line of the position `p` of `b`.
pub open spec fn position(b: Seq<u8>, p: int) -> (int, int) {
    (breaks(b, p) as int, p - line_start(b, breaks(b, p) as int))
}

/// The line in front of an insertion into line `line` that line `i` of the
/// new text is, when `delta` lines were added; `None` for the lines that the
/// insertion touched.
pub open spec fn kept_line(i: int, line: int, delta: int) -> Option<int> {
    if i < line {
        Some(i)
    } else if i <= line + delta {
        None
    } else {
        Some(i - delta)
    }
}

/// The line in front of a deletion from which line `i` of the new text takes
/// its attributes, when `count` lines were taken out behind line `line`.
pub open spec fn joined_from(i: int, line: int, count: int) -> int {
    if i <= line {
        i
    } else {
        i + count
    }
}

impl RopeStore {
    /// The bytes of the text.
    pub open spec fn bytes(&self) -> Seq<u8> {
        self.text.bytes()
    }

    /// The materialized line that is kept for line `i`.
    pub open spec fn warm(&self, i: int) -> Option<BufferLine> {
        lookup(lru_entries(self.materialized), i)
    }

    /// Every part is in order.
    pub open spec fn wf(&self) -> bool {
        &&& self.text.wf()
        &&& self.metadata.wf()
        &&& self.cache.wf()
        &&& distinct(lru_entries(self.materialized))
        &&& lru_cap(self.materialized) == MATERIALIZED_CAPACITY
        &&& lru_entries(self.materialized).len() <= MATERIALIZED_CAPACITY
    }

    /// Terminator of line `i`: the one that is set for the line, else the one
    /// in the text.
    pub open spec fn ending_now(&self, i: int) -> LineEnding {
        if self.metadata.ending_at(i) != LineEnding::NoEnding {
            self.metadata.ending_at(i)
        } else if 0 <= i < line_total(self.bytes()) {
            ending_of(line_bytes(self.bytes(), i))
        } else {
            LineEnding::NoEnding
        }
    }

    /// Line `i` as it stands in the text.
    pub open spec fn line_view(&self, i: int) -> LineView {
        LineView {
            align: self.metadata.align_at(i),
            ..fresh_line(
                content_of(line_bytes(self.bytes(), i)),
                self.ending_now(i),
                self.metadata.attrs_for(i),
                self.metadata.default_shaping,
            )
        }
    }

    /// All lines as they stand in the text.
    pub open spec fn all_lines(&self) -> Seq<LineView> {
        Seq::new(line_total(self.bytes()), |i: int| self.line_view(i))
    }

    /// No materialized line is out of date.
    pub open spec fn fresh(&self) -> bool {
        forall|i: int|
            (#[trigger] self.warm(i)) matches Some(line) ==> 0 <= i < line_total(self.bytes())
                && line@ == self.line_view(i)
    }

    /// Every terminator that is set for a line is the one in the text.
    pub open spec fn honest(&self) -> bool {
        forall|i: int|
            0 <= i < line_total(self.bytes()) ==> (#[trigger] self.metadata.ending_at(i)
                == LineEnding::NoEnding || self.metadata.ending_at(i) == ending_of(
                line_bytes(self.bytes(), i),
            ))
    }

    /// No terminator is set for any line.
    pub open spec fn plain(&self) -> bool {
        forall|i: int| #[trigger] self.metadata.ending_at(i) == LineEnding::NoEnding
    }

    /// Every kept shaping and layout result is the one for its line as it
    /// stands in the text.
    pub open spec fn current<F: FontSystem>(&self, fonts: int, settings: Settings) -> bool {
        &&& forall|i: int|
            (#[trigger] self.cache.shape_at(i)) matches Some(s) ==> 0 <= i < line_total(self.bytes())
                && s == self.line_view(i).fresh_shape::<F>(fonts, settings)
        &&& forall|i: int|
            (#[trigger] self.cache.layout_at(i)) matches Some(l) ==> 0 <= i < line_total(self.bytes())
                && l == self.line_view(i).fresh_layout::<F>(fonts, settings)
    }

    /// No kept layout reaches beyond the text of its line.
    pub open spec fn fits(&self) -> bool {
        &&& forall|i: int|
            (#[trigger] self.cache.shape_at(i)) matches Some(s) ==> 0 <= i < line_total(self.bytes())
                && shape_fits(self.line_view(i).text, s)
        &&& forall|i: int|
            (#[trigger] self.cache.layout_at(i)) matches Some(l) ==> 0 <= i < line_total(self.bytes())
                && layout_fits(self.line_view(i).text, l)
    }

    /// Line `i` as it is materialized, or would be.
    pub open spec fn line_now(&self, i: int) -> LineView {
        match self.warm(i) {
            Some(line) => line@,
            None => self.line_view(i),
        }
    }

    /// The shaping result that line `i` has, or would get.
    pub open spec fn shape_now<F: FontSystem>(&self, fonts: int, settings: Settings, i: int) -> ShapeLineView {
        match self.cache.shape_at(i) {
            Some(s) => s,
            None => self.line_now(i).fresh_shape::<F>(fonts, settings),
        }
    }

    /// The layout result that line `i` has, or would get.
    pub open spec fn layout_now<F: FontSystem>(&self, fonts: int, settings: Settings, i: int) -> Seq<
        LayoutLineView,
    > {
        if self.cache.shape_at(i) is Some && self.cache.layout_at(i) is Some {
            self.cache.layout_at(i).unwrap()
        } else {
            F::laid_out(
                fonts,
                self.shape_now::<F>(fonts, settings, i),
                settings.params(self.line_now(i).align),
            )
        }
    }

    /// Whether `after` keeps no materialized line and no result besides those
    /// of line `i` that `self` does not keep.
    pub open spec fn only_drops(&self, after: &RopeStore, i: int) -> bool {
        &&& forall|j: int|
            j != i ==> (#[trigger] after.warm(j) == self.warm(j) || after.warm(j) is None)
        &&& forall|j: int|
            j != i ==> (#[trigger] after.cache.shape_at(j) == self.cache.shape_at(j)
                || after.cache.shape_at(j) is None)
        &&& forall|j: int|
            j != i ==> (#[trigger] after.cache.layout_at(j) == self.cache.layout_at(j)
                || after.cache.layout_at(j) is None)
    }

    /// A store over the given rope.
    fn with_text(text: RopeText, attrs: &Attrs, shaping: Shaping) -> (r: RopeStore)
        requires
            text.wf(),
        ensures
            r.wf(),
            r.fresh(),
            r.plain(),
            r.bytes() == text.bytes(),
            r.metadata.default_attrs == *attrs,
            r.metadata.default_shaping == shaping,
            forall|i: int| #[trigger] r.metadata.own_attrs(i) is None,
            forall|i: int| #[trigger] r.metadata.align_at(i) is None,
            forall|i: int| #[trigger] r.warm(i) is None,
            forall|i: int| #[trigger] r.cache.shape_at(i) is None,
            forall|i: int| #[trigger] r.cache.layout_at(i) is None,
    {
        RopeStore {
            text,
            metadata: SparseMetadata::new(attrs, shaping),
            cache: LineCache::new(),
            materialized: lru_new(MATERIALIZED_CAPACITY),
        }
    }

    /// A store that holds `text`. Every line has the given attributes.
    pub fn from_text(text: &str, attrs: &Attrs, shaping: Shaping) -> (r: RopeStore)
        ensures
            r.wf(),
            r.fresh(),
            r.plain(),
            r.bytes() == encode_utf8(text@),
            r.metadata.default_attrs == *attrs,
            r.metadata.default_shaping == shaping,
            forall|i: int| #[trigger] r.metadata.own_attrs(i) is None,
            forall|i: int| #[trigger] r.metadata.align_at(i) is None,
            forall|i: int| #[trigger] r.warm(i) is None,
            forall|i: int| #[trigger] r.cache.shape_at(i) is None,
            forall|i: int| #[trigger] r.cache.layout_at(i) is None,
    {
        Self::with_text(RopeText::from_text(text), attrs, shaping)
    }

    /// Number of lines, never less than one: an empty text is one empty line.
    pub fn line_count(&self) -> (r: usize)
        requires
            self.wf(),
        ensures
            r == line_total(self.bytes()),
            r >= 1,
    {
        self.text.line_count()
    }

    /// Text of line `i` without its terminator. Nothing is materialized.
    pub fn line_text(&self, i: usize) -> (r: Option<&str>)
        requires
            self.wf(),
        ensures
            r is Some <==> i < line_total(self.bytes()),
            r matches Some(s) ==> encode_utf8(s@) == self.line_view(i as int).text,
    {
        self.text.line_text(i)
    }

    /// Total number of bytes of the text.
    pub fn text_len_bytes(&self) -> (r: usize)
        ensures
            r == self.bytes().len(),
    {
        self.text.len_bytes()
    }

    /// Terminator of line `i`, without materializing the line.
    pub fn ending(&self, i: usize) -> (r: LineEnding)
        requires
            self.wf(),
        ensures
            r == self.ending_now(i as int),
    {
        let ending = self.metadata.line_ending(i);
        if ending == LineEnding::NoEnding {
            self.text.detect_line_ending(i)
        } else {
            ending
        }
    }

    /// Makes line `i` out of the text and of what is set for the line.
    fn build_line(&self, i: usize) -> (r: BufferLine)
        requires
            self.wf(),
            i < line_total(self.bytes()),
        ensures
            r@ == self.line_view(i as int),
    {
        let text = match self.text.line_text(i) {
            Some(s) => own(s),
            None => String::new(),
        };
        let ending = self.ending(i);
        let attrs_list = self.metadata.attrs_list(i);
        let shaping = self.metadata.shaping();
        let mut line = BufferLine::new(text, ending, attrs_list, shaping);
        if let Some(align) = self.metadata.align(i) {
            let _changed = line.set_align(Some(align));
        }
        line
    }

    /// Materializes line `i` and returns it; `None` if there is no such line.
    /// A line that is materialized already is returned as it is kept.
    pub fn materialize(&mut self, i: usize) -> (r: Option<&BufferLine>)
        requires
            old(self).wf(),
        ensures
            final(self).wf(),
            final(self).text == old(self).text,
            final(self).metadata == old(self).metadata,
            final(self).cache == old(self).cache,
            r is Some <==> i < line_total(old(self).bytes()),
            match r {
                Some(line) => {
                    &&& final(self).warm(i as int) == Some(*line)
                    &&& old(self).warm(i as int) matches Some(kept) ==> *line == kept
                    &&& old(self).warm(i as int) is None ==> line@ == old(self).line_view(i as int)
                    &&& lru_entries(final(self).materialized) == if old(self).warm(
                        i as int,
                    ) is Some {
                        promoted(lru_entries(old(self).materialized), i as int)
                    } else {
                        stored(
                            lru_entries(old(self).materialized),
                            MATERIALIZED_CAPACITY as int,
                            i,
                            *line,
                        )
                    }
                },
                None => *final(self) == *old(self),
            },
            forall|j: int|
                j != i ==> (#[trigger] final(self).warm(j) == old(self).warm(j) || final(self).warm(
                    j,
                ) is None),
            old(self).fresh() ==> final(self).fresh() && (r matches Some(line) ==> line@ == old(self).line_view(i as int)),
    {
        if i >= self.line_count() {
            return None;
        }
        let ghost e0 = lru_entries(self.materialized);
        if !lru_contains(&self.materialized, i) {
            let line = self.build_line(i);
            proof {
                lemma_stored(e0, MATERIALIZED_CAPACITY as int, i, line);
            }
            lru_put(&mut self.materialized, i, line);
            proof {
                let e1 = lru_entries(self.materialized);
                assert(e1[0] == (i, line));
                lemma_place(e1, 0);
                assert(promoted(e1, i as int) =~= e1);
                lemma_promoted(e1, i as int);
            }
        } else {
            proof {
                lemma_promoted(e0, i as int);
            }
        }
        proof {
            assert forall|j: int| j != i implies (#[trigger] self.warm(j) == old(self).warm(j)
                || self.warm(j) is None) by {}
        }
        let ghost e2 = lru_entries(self.materialized);
        proof {
            lemma_promoted(e2, i as int);
            assert forall|j: int| #[trigger] lookup(promoted(e2, i as int), j) == lookup(e2, j) by {}
            if old(self).fresh() {
                assert forall|j: int| (#[trigger] lookup(e2, j)) is Some implies 0 <= j
                    < line_total(self.bytes()) && lookup(e2, j).unwrap()@ == self.line_view(j) by {
                    let before = old(self).warm(j);
                    if j != i {
                        assert(self.warm(j) == before || self.warm(j) is None);
                    }
                }
            }
        }
        lru_get(&mut self.materialized, i)
    }

    /// Line `i` if it is materialized; nothing is made.
    pub fn materialized(&self, i: usize) -> (r: Option<&BufferLine>)
        ensures
            match r {
                Some(line) => self.warm(i as int) == Some(*line),
                None => self.warm(i as int) is None,
            },
    {
        lru_peek(&self.materialized, i)
    }

    /// Makes every line out of the text, in order.
    pub fn thaw(self) -> (r: Vec<BufferLine>)
        requires
            self.wf(),
        ensures
            lines_view(r@) == self.all_lines(),
    {
        let count = self.line_count();
        let mut lines: Vec<BufferLine> = Vec::new();
        let mut i: usize = 0;
        while i < count
            invariant
                self.wf(),
                count == line_total(self.bytes()),
                i <= count,
                lines@.len() == i,
                forall|j: int| 0 <= j < i ==> (#[trigger] lines@[j])@ == self.line_view(j),
            decreases count - i,
        {
            let line = self.build_line(i);
            lines.push(line);
            i = i + 1;
        }
        assert(lines_view(lines@) =~= self.all_lines());
        lines
    }
}

/// The materialized lines `e`, most recently used first, once `delta` lines
/// have been put in behind line `line`: the edited line is taken out, then the
/// lines that move are put back one by one, and last the line that has taken
/// the edit over is taken out.
pub open spec fn lines_after_insert<V>(
    e: Seq<(usize, V)>,
    line: int,
    mapped: int,
    delta: int,
) -> Seq<(usize, V)> {
    let kept = removed(e, line);
    let moved = if delta > 0 {
        moved_up(kept, line + 1, delta) + kept_below(kept, line + 1)
    } else {
        kept
    };
    if mapped != line {
        removed(moved, mapped)
    } else {
        moved
    }
}

/// The results `e`, most recently used first, once `delta` lines have been put
/// in behind line `line`. They keep their order.
pub open spec fn results_after_insert<V>(
    e: Seq<(usize, V)>,
    line: int,
    mapped: int,
    delta: int,
) -> Seq<(usize, V)> {
    let moved = if delta > 0 {
        rekeyed(e, line + 1, 0, delta)
    } else {
        e
    };
    if mapped != line {
        removed(removed(moved, line), mapped)
    } else {
        removed(moved, line)
    }
}

/// What is kept of the entries `e`, in their order, after a deletion that
/// changed line `first`, and no other line if `alone`.
pub open spec fn after_delete<V>(e: Seq<(usize, V)>, first: int, alone: bool) -> Seq<(usize, V)> {
    if alone {
        removed(e, first)
    } else {
        kept_below(e, first)
    }
}

/// Moves the materialized lines at or behind `start` by `delta` lines. All of
/// them are taken out before the first is put back, so that none lands on one
/// that has still to move.
fn shift_materialized(
    cache: &mut lru::LruCache<usize, BufferLine>,
    start: usize,
    delta: usize,
)
    requires
        distinct(lru_entries(*old(cache))),
        lru_entries(*old(cache)).len() <= lru_cap(*old(cache)),
    ensures
        distinct(lru_entries(*final(cache))),
        lru_cap(*final(cache)) == lru_cap(*old(cache)),
        lru_entries(*final(cache)).len() <= lru_cap(*final(cache)),
        lru_entries(*final(cache)) == moved_up(
            lru_entries(*old(cache)),
            start as int,
            delta as int,
        ) + kept_below(lru_entries(*old(cache)), start as int),
        forall|j: int| #[trigger]
            lookup(lru_entries(*final(cache)), j) == moved_value(
                lru_entries(*old(cache)),
                start as int,
                delta as int,
                j,
            ),
{
    let ghost e0 = lru_entries(*cache);
    let ghost cap = lru_cap(*cache);
    let keys = lru_keys(cache);
    let mut left: usize = keys.len();
    let mut moved: Vec<(usize, BufferLine)> = Vec::new();
    assert(forall|j: int| holds(e0, j) ==> 0 <= #[trigger] place(e0, j) < e0.len());
    proof {
        assert(e0.skip(e0.len() as int) =~= Seq::empty());
        assert(e0.take(e0.len() as int) + Seq::<(usize, BufferLine)>::empty() =~= e0);
    }
    while left > 0
        invariant
            distinct(e0),
            e0.len() <= cap,
            keys@ == e0.map_values(|e: (usize, BufferLine)| e.0),
            left <= keys@.len(),
            lru_entries(*cache) == e0.take(left as int) + kept_below(
                e0.skip(left as int),
                start as int,
            ),
            moved@ == moved_up(e0.skip(left as int), start as int, delta as int),
            distinct(lru_entries(*cache)),
            distinct(moved@),
            lru_cap(*cache) == cap,
            lru_entries(*cache).len() + moved@.len() <= e0.len(),
            forall|j: int| holds(e0, j) ==> 0 <= #[trigger] place(e0, j) < e0.len(),
            forall|j: int| #[trigger]
                lookup(lru_entries(*cache), j) == if j >= start && holds(e0, j) && place(e0, j)
                    >= left {
                    None
                } else {
                    lookup(e0, j)
                },
            forall|j: int| #[trigger]
                lookup(moved@, j) == if start + delta <= j <= usize::MAX && holds(e0, j - delta)
                    && place(e0, j - delta) >= left {
                    lookup(e0, j - delta)
                } else {
                    None
                },
        decreases left,
    {
        let ghost e = lru_entries(*cache);
        let ghost m = moved@;
        left = left - 1;
        let key = keys[left];
        proof {
            assert(key == e0[left as int].0);
            lemma_place(e0, left as int);
            assert forall|j: int| holds(e0, j) && j != key implies #[trigger] place(e0, j) != left by {
                assert(e0[place(e0, j)].0 == j);
            }
            lemma_removed(e, key as int);
            assert(lookup(e, key as int) == lookup(e0, key as int));
            assert(holds(e, key as int));
            lemma_shift_step(e0, left as int, start as int, delta as int, e);
        }
        if key >= start {
            if let Some(line) = lru_pop(cache, key) {
                if key <= usize::MAX - delta {
                    proof {
                        assert(lookup(m, key + delta) is None);
                        lemma_pushed_back(m, (key + delta) as usize, line);
                    }
                    moved.push((key + delta, line));
                }
            }
        }
    }
    assert forall|j: int| #[trigger]
        lookup(lru_entries(*cache), j) == if j >= start {
            None
        } else {
            lookup(e0, j)
        } by {}
    let ghost all = moved@;
    proof {
        assert(e0.skip(0) =~= e0);
        assert(lru_entries(*cache) =~= all.skip(all.len() as int) + kept_below(e0, start as int));
    }
    while moved.len() > 0
        invariant
            all == moved_up(e0, start as int, delta as int),
            moved@.len() <= all.len(),
            moved@ == all.take(moved@.len() as int),
            lru_entries(*cache) == all.skip(moved@.len() as int) + kept_below(e0, start as int),
            distinct(lru_entries(*cache)),
            distinct(moved@),
            lru_cap(*cache) == cap,
            lru_entries(*cache).len() + moved@.len() <= cap,
            forall|j: int| #[trigger]
                lookup(lru_entries(*cache), j) == if lookup(moved@, j) is Some {
                    None
                } else {
                    moved_value(e0, start as int, delta as int, j)
                },
            forall|j: int|
                (#[trigger] lookup(moved@, j)) is Some ==> lookup(moved@, j) == moved_value(
                    e0,
                    start as int,
                    delta as int,
                    j,
                ),
        decreases moved@.len(),
    {
        let ghost m = moved@;
        let ghost e = lru_entries(*cache);
        proof {
            lemma_dropped_last(m);
        }
        if let Some((key, line)) = moved.pop() {
            proof {
                assert(moved@ =~= m.drop_last());
                assert(m.last() == (key, line));
                lemma_stored(e, cap as int, key, line);
                assert(lookup(m, key as int) == Some(line));
                assert(lookup(e, key as int) is None);
                assert(moved@ =~= all.take(moved@.len() as int));
                assert(all[moved@.len() as int] == (key, line));
                assert(stored(e, cap as int, key, line) =~= all.skip(moved@.len() as int)
                    + kept_below(e0, start as int));
            }
            lru_put(cache, key, line);
            assert forall|j: int| #[trigger]
                lookup(lru_entries(*cache), j) == if lookup(moved@, j) is Some {
                    None
                } else {
                    moved_value(e0, start as int, delta as int, j)
                } by {
                assert(lookup(e, j) == if lookup(m, j) is Some {
                    None
                } else {
                    moved_value(e0, start as int, delta as int, j)
                });
                assert(lookup(m.drop_last(), j) == if j == key {
                    None
                } else {
                    lookup(m, j)
                });
            }
            assert forall|j: int| (#[trigger] lookup(moved@, j)) is Some implies lookup(moved@, j)
                == moved_value(e0, start as int, delta as int, j) by {
                assert(lookup(m.drop_last(), j) == if j == key {
                    None
                } else {
                    lookup(m, j)
                });
            }
        }
    }
}

/// Taking one more entry out, from the back, to be moved.
proof fn lemma_shift_step<V>(e0: Seq<(usize, V)>, i: int, start: int, delta: int, e: Seq<(usize, V)>)
    requires
        distinct(e0),
        distinct(e),
        0 <= i < e0.len(),
        e == e0.take(i + 1) + kept_below(e0.skip(i + 1), start),
    ensures
        (if start <= e0[i].0 {
            removed(e, e0[i].0 as int)
        } else {
            e
        }) == e0.take(i) + kept_below(e0.skip(i), start),
        moved_up(e0.skip(i), start, delta) == if start <= e0[i].0 && e0[i].0 + delta <= usize::MAX {
            moved_up(e0.skip(i + 1), start, delta).push(((e0[i].0 + delta) as usize, e0[i].1))
        } else {
            moved_up(e0.skip(i + 1), start, delta)
        },
{
    lemma_first_entry(e0.skip(i), start, delta);
    assert(e0.skip(i).skip(1) =~= e0.skip(i + 1));
    assert(e0.skip(i)[0] == e0[i]);
    assert(e[i] == e0[i]);
    lemma_place(e, i);
    if start <= e0[i].0 {
        assert(e.remove(i) =~= e0.take(i) + kept_below(e0.skip(i + 1), start));
    } else {
        assert(e =~= e0.take(i) + (seq![e0[i]] + kept_below(e0.skip(i + 1), start)));
    }
}

/// The value for line `j` once the values at or behind `start` have moved by
/// `delta` lines.
pub open spec fn moved_value<V>(e: Seq<(usize, V)>, start: int, delta: int, j: int) -> Option<V> {
    if j < start {
        lookup(e, j)
    } else if j < start + delta || j > usize::MAX {
        None
    } else {
        lookup(e, j - delta)
    }
}

/// Drops the materialized lines at or behind `start`.
fn invalidate_materialized_from(cache: &mut lru::LruCache<usize, BufferLine>, start: usize)
    requires
        distinct(lru_entries(*old(cache))),
        lru_entries(*old(cache)).len() <= lru_cap(*old(cache)),
    ensures
        distinct(lru_entries(*final(cache))),
        lru_cap(*final(cache)) == lru_cap(*old(cache)),
        lru_entries(*final(cache)).len() <= lru_cap(*final(cache)),
        lru_entries(*final(cache)) == kept_below(lru_entries(*old(cache)), start as int),
        forall|j: int| #[trigger]
            lookup(lru_entries(*final(cache)), j) == if j < start {
                lookup(lru_entries(*old(cache)), j)
            } else {
                None
            },
{
    let ghost e0 = lru_entries(*cache);
    let ghost cap = lru_cap(*cache);
    let keys = lru_keys(cache);
    let mut i: usize = 0;
    assert(forall|j: int| holds(e0, j) ==> 0 <= #[trigger] place(e0, j) < e0.len());
    proof {
        assert(e0.take(0) =~= Seq::empty());
        assert(kept_below(e0.take(0), start as int) + e0.skip(0) =~= e0);
    }
    while i < keys.len()
        invariant
            distinct(e0),
            e0.len() <= cap,
            keys@ == e0.map_values(|e: (usize, BufferLine)| e.0),
            i <= keys@.len(),
            lru_entries(*cache) == kept_below(e0.take(i as int), start as int) + e0.skip(i as int),
            distinct(lru_entries(*cache)),
            lru_cap(*cache) == cap,
            lru_entries(*cache).len() <= e0.len(),
            forall|j: int| holds(e0, j) ==> 0 <= #[trigger] place(e0, j) < e0.len(),
            forall|j: int| #[trigger]
                lookup(lru_entries(*cache), j) == if j >= start && holds(e0, j) && place(e0, j) < i {
                    None
                } else {
                    lookup(e0, j)
                },
        decreases keys@.len() - i,
    {
        let key = keys[i];
        proof {
            assert(key == e0[i as int].0);
            lemma_place(e0, i as int);
            assert forall|j: int| holds(e0, j) && j != key implies #[trigger] place(e0, j) != i by {
                assert(e0[place(e0, j)].0 == j);
            }
            let e = lru_entries(*cache);
            let head = kept_below(e0.take(i as int), start as int);
            lemma_removed(e, key as int);
            assert(e0.take(i + 1).drop_last() =~= e0.take(i as int));
            assert(e0.take(i + 1).last() == e0[i as int]);
            assert(e[head.len() as int] == e0[i as int]);
            lemma_place(e, head.len() as int);
            assert(e.remove(head.len() as int) =~= head + e0.skip(i + 1));
            assert(e =~= head.push(e0[i as int]) + e0.skip(i + 1));
        }
        if key >= start {
            let _line = lru_pop(cache, key);
        }
        i = i + 1;
    }
    proof {
        assert(e0.take(e0.len() as int) =~= e0);
        assert(kept_below(e0, start as int) + e0.skip(e0.len() as int) =~= kept_below(
            e0,
            start as int,
        ));
    }
}

/// Moves what is set for single lines along with an insertion of `delta`
/// lines into line `line`, whose first byte is now on line `mapped`. The
/// terminator of the line is that of the tail of the split if it is `whole`.
fn follow_insert_in_metadata(
    metadata: &mut SparseMetadata,
    line: usize,
    mapped: usize,
    delta: usize,
    whole: bool,
)
    requires
        old(metadata).wf(),
        line + delta <= usize::MAX,
        line < usize::MAX,
    ensures
        final(metadata).wf(),
        final(metadata).default_attrs == old(metadata).default_attrs,
        final(metadata).default_shaping == old(metadata).default_shaping,
        forall|i: int|
            i <= usize::MAX ==> #[trigger] final(metadata).own_attrs(i) == match origin(
                i,
                line as int,
                delta as int,
            ) {
                Some(k) => old(metadata).own_attrs(k),
                None => None,
            },
        forall|i: int|
            i <= usize::MAX ==> #[trigger] final(metadata).align_at(i) == match origin(
                i,
                line as int,
                delta as int,
            ) {
                Some(k) => old(metadata).align_at(k),
                None => None,
            },
        forall|i: int|
            i <= usize::MAX ==> #[trigger] final(metadata).ending_at(i) == if i == mapped && mapped
                != line {
                LineEnding::NoEnding
            } else if delta > 0 && mapped == line && whole && i == line + delta {
                old(metadata).ending_at(line as int)
            } else {
                match kept_line(i, line as int, delta as int) {
                    Some(k) => old(metadata).ending_at(k),
                    None => LineEnding::NoEnding,
                }
            },
{
    // A terminator that is set for the edited line cannot stay in place.
    let set = metadata.line_ending(line);
    if delta > 0 {
        metadata.shift_lines(line, delta);
    }
    metadata.set_line_ending(line, LineEnding::NoEnding);
    if delta > 0 && mapped == line && whole && set != LineEnding::NoEnding {
        metadata.set_line_ending(line + delta, set);
    }
    if mapped != line {
        metadata.set_line_ending(mapped, LineEnding::NoEnding);
    }
}

/// Moves shaping and layout results along with an insertion of `delta` lines
/// into line `line`, whose first byte is now on line `mapped`.
fn follow_insert_in_cache(cache: &mut LineCache, line: usize, mapped: usize, delta: usize)
    requires
        old(cache).wf(),
        line < usize::MAX,
    ensures
        final(cache).wf(),
        final(cache).shape.entries@ == results_after_insert(
            old(cache).shape.entries@,
            line as int,
            mapped as int,
            delta as int,
        ),
        final(cache).layout.entries@ == results_after_insert(
            old(cache).layout.entries@,
            line as int,
            mapped as int,
            delta as int,
        ),
        forall|i: int|
            i <= usize::MAX ==> #[trigger] final(cache).shape_at(i) == if i == mapped {
                None
            } else {
                match kept_line(i, line as int, delta as int) {
                    Some(k) => old(cache).shape_at(k),
                    None => None,
                }
            },
        forall|i: int|
            i <= usize::MAX ==> #[trigger] final(cache).layout_at(i) == if i == mapped {
                None
            } else {
                match kept_line(i, line as int, delta as int) {
                    Some(k) => old(cache).layout_at(k),
                    None => None,
                }
            },
{
    if delta > 0 {
        cache.shift_lines(line + 1, delta);
    }
    cache.invalidate_line(line);
    if mapped != line {
        cache.invalidate_line(mapped);
    }
}

/// Moves materialized lines along with an insertion of `delta` lines into line
/// `line`, whose first byte is now on line `mapped`. A line that is there is
/// never made anew, so one that is out of date is taken out.
fn follow_insert_in_materialized(
    cache: &mut lru::LruCache<usize, BufferLine>,
    line: usize,
    mapped: usize,
    delta: usize,
)
    requires
        distinct(lru_entries(*old(cache))),
        lru_entries(*old(cache)).len() <= lru_cap(*old(cache)),
        line < usize::MAX,
    ensures
        distinct(lru_entries(*final(cache))),
        lru_cap(*final(cache)) == lru_cap(*old(cache)),
        lru_entries(*final(cache)).len() <= lru_cap(*final(cache)),
        lru_entries(*final(cache)) == lines_after_insert(
            lru_entries(*old(cache)),
            line as int,
            mapped as int,
            delta as int,
        ),
        forall|i: int|
            i <= usize::MAX ==> #[trigger] lookup(lru_entries(*final(cache)), i) == if i == mapped {
                None
            } else {
                match kept_line(i, line as int, delta as int) {
                    Some(k) => lookup(lru_entries(*old(cache)), k),
                    None => None,
                }
            },
{
    let ghost e0 = lru_entries(*cache);
    proof {
        lemma_removed(e0, line as int);
    }
    let _edited = lru_pop(cache, line);
    let ghost e1 = lru_entries(*cache);
    if delta > 0 {
        shift_materialized(cache, line + 1, delta);
    }
    let ghost e2 = lru_entries(*cache);
    assert forall|i: int| i <= usize::MAX implies #[trigger] lookup(e2, i) == match kept_line(
        i,
        line as int,
        delta as int,
    ) {
        Some(k) => lookup(e0, k),
        None => None,
    } by {
        assert(delta > 0 ==> lookup(e2, i) == moved_value(e1, line + 1, delta as int, i));
        assert(lookup(e1, i) == if i == line {
            None
        } else {
            lookup(e0, i)
        });
        assert(lookup(e1, i - delta) == if i - delta == line {
            None
        } else {
            lookup(e0, i - delta)
        });
    }
    if mapped != line {
        proof {
            lemma_removed(e2, mapped as int);
        }
        let _absorbing = lru_pop(cache, mapped);
    }
}

/// Takes what is set for single lines out along with a deletion from line
/// `start_line` to line `end_line` that took `count` lines away and whose join
/// is now on line `mapped`. The joined line has the terminator of line
/// `end_line` if it is `whole`.
fn follow_delete_in_metadata(
    metadata: &mut SparseMetadata,
    start_line: usize,
    end_line: usize,
    mapped: usize,
    count: usize,
    whole: bool,
)
    requires
        old(metadata).wf(),
        mapped < usize::MAX,
    ensures
        final(metadata).wf(),
        final(metadata).default_attrs == old(metadata).default_attrs,
        final(metadata).default_shaping == old(metadata).default_shaping,
        forall|i: int|
            i <= usize::MAX ==> #[trigger] final(metadata).own_attrs(i) == old(metadata).own_attrs(
                joined_from(i, mapped as int, count as int),
            ),
        forall|i: int|
            i <= usize::MAX ==> #[trigger] final(metadata).align_at(i) == old(metadata).align_at(
                joined_from(i, mapped as int, count as int),
            ),
        forall|i: int|
            i <= usize::MAX ==> #[trigger] final(metadata).ending_at(i) == if i == mapped {
                if whole && (count == 0 || mapped == start_line) {
                    old(metadata).ending_at(end_line as int)
                } else {
                    LineEnding::NoEnding
                }
            } else if i == start_line && start_line < mapped {
                LineEnding::NoEnding
            } else {
                old(metadata).ending_at(joined_from(i, mapped as int, count as int))
            },
{
    let end_ending = metadata.line_ending(end_line);
    if count > 0 {
        metadata.remove_lines(mapped + 1, count);
    }
    if whole && (count == 0 || mapped == start_line) {
        metadata.set_line_ending(mapped, end_ending);
    } else {
        metadata.set_line_ending(mapped, LineEnding::NoEnding);
    }
    if start_line < mapped {
        metadata.set_line_ending(start_line, LineEnding::NoEnding);
    }
}

/// A text from which the bytes between `s` and `e` are gone is one into which
/// they can be put back.
pub proof fn lemma_deletion(b: Seq<u8>, s: int, e: int, left: Seq<char>)
    requires
        valid_utf8(b),
        s <= e,
        at_boundary(b, s),
        at_boundary(b, e),
        encode_utf8(left) == b.take(s) + b.skip(e),
    ensures
        ({
            let n = encode_utf8(left);
            &&& valid_utf8(n)
            &&& at_boundary(n, s)
            &&& valid_utf8(b.subrange(s, e))
            &&& b == spliced(n, s, b.subrange(s, e))
            &&& line_total(n) <= line_total(b)
        }),
{
    let n = encode_utf8(left);
    encode_utf8_valid_utf8(left);
    assert(s < n.len() ==> n[s] == b[e]);
    lemma_subrange(b, s, e);
    assert(b =~= spliced(n, s, b.subrange(s, e)));
    lemma_splice(n, s, b.subrange(s, e));
}

/// Whether `after` is `before` once line `i` has been materialized and shaped,
/// and perhaps laid out.
pub open spec fn line_readied<F: FontSystem>(
    before: &RopeStore,
    after: &RopeStore,
    fonts: int,
    settings: Settings,
    i: int,
) -> bool {
    &&& 0 <= i < line_total(before.bytes())
    &&& after.text == before.text
    &&& after.metadata == before.metadata
    &&& before.only_drops(after, i)
    &&& after.warm(i) is Some
    &&& after.line_now(i) == before.line_now(i)
    &&& after.cache.shape_at(i) == Some(before.shape_now::<F>(fonts, settings, i))
    &&& after.cache.layout_at(i) is None || after.cache.layout_at(i) == Some(
        before.layout_now::<F>(fonts, settings, i),
    )
}

/// Where nothing that is kept is out of date, a line has the results that it
/// would get anew.
pub proof fn lemma_results_now<F: FontSystem>(
    store: &RopeStore,
    fonts: int,
    settings: Settings,
    i: int,
)
    requires
        store.fresh(),
        store.current::<F>(fonts, settings),
    ensures
        store.line_now(i) == store.line_view(i),
        store.shape_now::<F>(fonts, settings, i) == store.line_view(i).fresh_shape::<F>(
            fonts,
            settings,
        ),
        store.layout_now::<F>(fonts, settings, i) == store.line_view(i).fresh_layout::<F>(
            fonts,
            settings,
        ),
{
    assert(store.warm(i) is Some ==> store.line_now(i) == store.line_view(i));
    assert(store.cache.shape_at(i) is Some ==> store.cache.shape_at(i).unwrap()
        == store.line_view(i).fresh_shape::<F>(fonts, settings));
    assert(store.cache.layout_at(i) is Some ==> store.cache.layout_at(i).unwrap()
        == store.line_view(i).fresh_layout::<F>(fonts, settings));
}

/// The text of a line is valid.
pub proof fn lemma_line_text_valid(store: &RopeStore, i: int)
    requires
        0 <= i < line_total(store.bytes()),
    ensures
        valid_utf8(store.line_view(i).text),
{
    let b = store.bytes();
    encode_utf8_valid_utf8(store.text.text@);
    lemma_line_bounds(b, i);
    lemma_subrange(
        b,
        line_start(b, i),
        line_end(b, i) - ending_bytes(ending_of(line_bytes(b, i))).len(),
    );
}

/// Readying a line keeps every promise that the store makes of what it keeps.
pub proof fn lemma_line_readied<F: FontSystem>(
    before: &RopeStore,
    after: &RopeStore,
    fonts: int,
    settings: Settings,
    i: int,
)
    requires
        line_readied::<F>(before, after, fonts, settings, i),
        before.fresh(),
    ensures
        after.fresh(),
        before.fits() ==> after.fits(),
        before.current::<F>(fonts, settings) ==> after.current::<F>(fonts, settings),
{
    assert(forall|j: int| #[trigger] after.line_view(j) == before.line_view(j));
    assert(before.line_now(i) == before.line_view(i)) by {
        assert(before.warm(i) is Some ==> before.line_now(i) == before.line_view(i));
    }
    let line = before.line_view(i);
    assert forall|j: int| (#[trigger] after.warm(j)) is Some implies 0 <= j < line_total(
        after.bytes(),
    ) && after.warm(j).unwrap()@ == after.line_view(j) by {
        if j != i {
            assert(before.warm(j) is Some);
        } else {
            assert(after.line_now(i) == after.warm(i).unwrap()@);
        }
    }
    if before.fits() {
        lemma_line_text_valid(before, i);
        lemma_fresh_shape_fits::<F>(line, fonts, settings);
        let shape = before.shape_now::<F>(fonts, settings, i);
        assert(before.cache.shape_at(i) is Some ==> shape_fits(line.text, shape));
        F::law_layout_fits(fonts, line.text, shape, settings.params(line.align));
        assert(before.cache.layout_at(i) is Some ==> layout_fits(
            line.text,
            before.cache.layout_at(i).unwrap(),
        ));
        assert forall|j: int| (#[trigger] after.cache.shape_at(j)) is Some implies 0 <= j
            < line_total(after.bytes()) && shape_fits(
            after.line_view(j).text,
            after.cache.shape_at(j).unwrap(),
        ) by {
            if j != i {
                assert(before.cache.shape_at(j) is Some);
            }
        }
        assert forall|j: int| (#[trigger] after.cache.layout_at(j)) is Some implies 0 <= j
            < line_total(after.bytes()) && layout_fits(
            after.line_view(j).text,
            after.cache.layout_at(j).unwrap(),
        ) by {
            if j != i {
                assert(before.cache.layout_at(j) is Some);
            }
        }
    }
    if before.current::<F>(fonts, settings) {
        lemma_results_now::<F>(before, fonts, settings, i);
        assert forall|j: int| (#[trigger] after.cache.shape_at(j)) is Some implies 0 <= j
            < line_total(after.bytes()) && after.cache.shape_at(j).unwrap() == after.line_view(
            j,
        ).fresh_shape::<F>(fonts, settings) by {
            if j != i {
                assert(before.cache.shape_at(j) is Some);
            }
        }
        assert forall|j: int| (#[trigger] after.cache.layout_at(j)) is Some implies 0 <= j
            < line_total(after.bytes()) && after.cache.layout_at(j).unwrap() == after.line_view(
            j,
        ).fresh_layout::<F>(fonts, settings) by {
            if j != i {
                assert(before.cache.layout_at(j) is Some);
            }
        }
    }
}

impl RopeStore {
    /// Line and byte within the line of the byte position `byte`.
    fn map_byte(&self, byte: usize) -> (r: (usize, usize))
        requires
            self.wf(),
            byte <= self.bytes().len(),
        ensures
            (r.0 as int, r.1 as int) == position(self.bytes(), byte as int),
            r.0 < line_total(self.bytes()),
    {
        let line = self.text.byte_to_line(byte);
        (line, byte - self.text.line_to_byte(line))
    }

    /// Whether an insertion of `data` at byte `index` of line `line` turns
    /// `self` into `after`.
    pub open spec fn inserts(&self, line: int, index: int, data: Seq<u8>, after: &RopeStore) -> bool {
        let b = self.bytes();
        let p = line_start(b, line) + index;
        let n = after.bytes();
        let delta = line_total(n) - line_total(b);
        let mapped = breaks(n, p) as int;
        // The edited line is the one that holds the position.
        let at = breaks(b, p) as int;
        let whole = ending_of(line_bytes(n, at + delta)) == ending_of(line_bytes(b, at));
        &&& n == spliced(b, p, data)
        &&& delta >= 0
        &&& after.metadata.default_attrs == self.metadata.default_attrs
        &&& after.metadata.default_shaping == self.metadata.default_shaping
        // Attributes follow their lines; those of the edited line stay on its head.
        &&& forall|i: int|
            i <= usize::MAX ==> #[trigger] after.metadata.own_attrs(i) == match origin(i, at, delta) {
                Some(k) => self.metadata.own_attrs(k),
                None => None,
            }
        &&& forall|i: int|
            i <= usize::MAX ==> #[trigger] after.metadata.align_at(i) == match origin(i, at, delta) {
                Some(k) => self.metadata.align_at(k),
                None => None,
            }
        // A terminator follows its line. The one of the edited line goes to the
        // tail of a clean split, which has it in the text, and is dropped
        // otherwise.
        &&& forall|i: int|
            i <= usize::MAX ==> #[trigger] after.metadata.ending_at(i) == if i == mapped && mapped
                != at {
                LineEnding::NoEnding
            } else if delta > 0 && mapped == at && whole && i == at + delta {
                self.metadata.ending_at(at)
            } else {
                match kept_line(i, at, delta) {
                    Some(k) => self.metadata.ending_at(k),
                    None => LineEnding::NoEnding,
                }
            }
        // What is cached for an untouched line follows it; the rest is dropped.
        &&& forall|i: int|
            i <= usize::MAX ==> #[trigger] after.cache.shape_at(i) == if i == mapped {
                None
            } else {
                match kept_line(i, at, delta) {
                    Some(k) => self.cache.shape_at(k),
                    None => None,
                }
            }
        &&& forall|i: int|
            i <= usize::MAX ==> #[trigger] after.cache.layout_at(i) == if i == mapped {
                None
            } else {
                match kept_line(i, at, delta) {
                    Some(k) => self.cache.layout_at(k),
                    None => None,
                }
            }
        &&& forall|i: int|
            i <= usize::MAX ==> #[trigger] after.warm(i) == if i == mapped {
                None
            } else {
                match kept_line(i, at, delta) {
                    Some(k) => self.warm(k),
                    None => None,
                }
            }
        // How recently lines were used decides which are dropped later on.
        &&& lru_entries(after.materialized) == lines_after_insert(
            lru_entries(self.materialized),
            at,
            mapped,
            delta,
        )
        &&& after.cache.shape.entries@ == results_after_insert(
            self.cache.shape.entries@,
            at,
            mapped,
            delta,
        )
        &&& after.cache.layout.entries@ == results_after_insert(
            self.cache.layout.entries@,
            at,
            mapped,
            delta,
        )
    }

    /// Inserts `data` at byte `index` of line `line`. Returns the positions of
    /// both ends of the inserted bytes in the new text. The first one is the
    /// given position, except where a CR and an LF that have come together, or
    /// have been parted, move the line boundary.
    ///
    /// `index` counts from the start of the line. It may lie in its terminator,
    /// and on a later line.
    pub fn insert_text(&mut self, line: usize, index: usize, data: &str) -> (r: (
        (usize, usize),
        (usize, usize),
    ))
        requires
            old(self).wf(),
            line < line_total(old(self).bytes()),
            at_boundary(old(self).bytes(), line_start(old(self).bytes(), line as int) + index),
        ensures
            final(self).wf(),
            old(self).inserts(line as int, index as int, encode_utf8(data@), final(self)),
            (r.0.0 as int, r.0.1 as int) == position(
                final(self).bytes(),
                line_start(old(self).bytes(), line as int) + index,
            ),
            (r.1.0 as int, r.1.1 as int) == position(
                final(self).bytes(),
                line_start(old(self).bytes(), line as int) + index + encode_utf8(data@).len(),
            ),
            old(self).fresh() ==> final(self).fresh(),
            old(self).fits() ==> final(self).fits(),
            old(self).honest() ==> final(self).honest(),
    {
        let ghost before = *self;
        let ghost b = self.bytes();
        let ghost d = encode_utf8(data@);
        let start_byte = self.text.line_to_byte(line) + index;
        let old_line_count = self.line_count();
        proof {
            encode_utf8_valid_utf8(self.text.text@);
            encode_utf8_valid_utf8(data@);
            lemma_splice(b, start_byte as int, d);
        }
        let at = self.text.byte_to_line(start_byte);
        let ending = self.text.detect_line_ending(at);
        self.text.insert(start_byte, data);
        let new_line_count = self.line_count();
        let delta = new_line_count - old_line_count;
        let whole = self.text.detect_line_ending(at + delta) == ending;
        let start = self.map_byte(start_byte);
        let end = self.map_byte(start_byte + byte_len(data));
        let mapped = start.0;

        follow_insert_in_metadata(&mut self.metadata, at, mapped, delta, whole);
        follow_insert_in_cache(&mut self.cache, at, mapped, delta);
        follow_insert_in_materialized(&mut self.materialized, at, mapped, delta);
        proof {
            let (l, k) = (line as int, index as int);
            if before.fresh() {
                law_insert_keeps_lines_fresh(&before, l, k, d, self);
            }
            if before.fits() {
                law_insert_keeps_results_fitting(&before, l, k, d, self);
            }
            if before.honest() {
                law_insert_keeps_honest(&before, l, k, d, self);
            }
        }
        (start, end)
    }

    /// Whether a deletion from byte `start_index` of line `start_line` to byte
    /// `end_index` of line `end_line` turns `self` into `after`.
    pub open spec fn deletes(
        &self,
        start_line: int,
        start_index: int,
        end_line: int,
        end_index: int,
        after: &RopeStore,
    ) -> bool {
        let b = self.bytes();
        let s = line_start(b, start_line) + start_index;
        let e = line_start(b, end_line) + end_index;
        let n = after.bytes();
        let count = line_total(b) - line_total(n);
        let mapped = breaks(n, s) as int;
        // The edited lines are those that hold the two positions.
        let start_at = breaks(b, s) as int;
        let end_at = breaks(b, e) as int;
        let first = if start_at < mapped {
            start_at
        } else {
            mapped
        };
        let alone = count == 0 && e <= line_end(b, first);
        let whole = ending_of(line_bytes(n, mapped)) == ending_of(line_bytes(b, end_at));
        &&& n == b.take(s) + b.skip(e)
        &&& count >= 0
        &&& after.metadata.default_attrs == self.metadata.default_attrs
        &&& after.metadata.default_shaping == self.metadata.default_shaping
        // Attributes follow their lines; those of the taken lines are gone.
        &&& forall|i: int|
            i <= usize::MAX ==> #[trigger] after.metadata.own_attrs(i) == self.metadata.own_attrs(
                joined_from(i, mapped, count),
            )
        &&& forall|i: int|
            i <= usize::MAX ==> #[trigger] after.metadata.align_at(i) == self.metadata.align_at(
                joined_from(i, mapped, count),
            )
        // The joined line takes the terminator of the last line where it has it
        // in the text. One that came about by the deletion belongs to neither
        // line and is read off the text.
        &&& forall|i: int|
            i <= usize::MAX ==> #[trigger] after.metadata.ending_at(i) == if i == mapped {
                if whole && (count == 0 || mapped == start_at) {
                    self.metadata.ending_at(end_at)
                } else {
                    LineEnding::NoEnding
                }
            } else if i == start_at && start_at < mapped {
                LineEnding::NoEnding
            } else {
                self.metadata.ending_at(joined_from(i, mapped, count))
            }
        // What is cached in front of the edit stays; the rest is dropped, unless
        // one line alone has changed.
        &&& forall|i: int| #[trigger]
            after.cache.shape_at(i) == if i < first || (alone && i != first) {
                self.cache.shape_at(i)
            } else {
                None
            }
        &&& forall|i: int| #[trigger]
            after.cache.layout_at(i) == if i < first || (alone && i != first) {
                self.cache.layout_at(i)
            } else {
                None
            }
        &&& forall|i: int| #[trigger]
            after.warm(i) == if i < first || (alone && i != first) {
                self.warm(i)
            } else {
                None
            }
        // The lines that stay are as recently used as before.
        &&& lru_entries(after.materialized) == after_delete(
            lru_entries(self.materialized),
            first,
            alone,
        )
        &&& after.cache.shape.entries@ == after_delete(self.cache.shape.entries@, first, alone)
        &&& after.cache.layout.entries@ == after_delete(self.cache.layout.entries@, first, alone)
    }

    /// Removes the text from byte `start_index` of line `start_line` to byte
    /// `end_index` of line `end_line`. Returns the position of the join in the
    /// new text, and the removed text with all its terminators. Nothing at all
    /// changes if there is nothing between the two positions.
    ///
    /// An index counts from the start of its line. It may lie in the terminator
    /// of the line, and on a later line.
    pub fn delete_text(
        &mut self,
        start_line: usize,
        start_index: usize,
        end_line: usize,
        end_index: usize,
    ) -> (r: ((usize, usize), String))
        requires
            old(self).wf(),
            start_line < line_total(old(self).bytes()),
            end_line < line_total(old(self).bytes()),
            line_start(old(self).bytes(), start_line as int) + start_index <= line_start(
                old(self).bytes(),
                end_line as int,
            ) + end_index,
            at_boundary(
                old(self).bytes(),
                line_start(old(self).bytes(), start_line as int) + start_index,
            ),
            at_boundary(old(self).bytes(), line_start(old(self).bytes(), end_line as int) + end_index),
        ensures
            final(self).wf(),
            encode_utf8(r.1@) == old(self).bytes().subrange(
                line_start(old(self).bytes(), start_line as int) + start_index,
                line_start(old(self).bytes(), end_line as int) + end_index,
            ),
            if line_start(old(self).bytes(), start_line as int) + start_index == line_start(
                old(self).bytes(),
                end_line as int,
            ) + end_index {
                *final(self) == *old(self) && r.0 == (start_line, start_index)
            } else {
                &&& old(self).deletes(
                    start_line as int,
                    start_index as int,
                    end_line as int,
                    end_index as int,
                    final(self),
                )
                &&& (r.0.0 as int, r.0.1 as int) == position(
                    final(self).bytes(),
                    line_start(old(self).bytes(), start_line as int) + start_index,
                )
            },
            old(self).fresh() ==> final(self).fresh(),
            old(self).fits() ==> final(self).fits(),
            old(self).honest() ==> final(self).honest(),
    {
        let ghost before = *self;
        let ghost b = self.bytes();
        proof {
            encode_utf8_valid_utf8(self.text.text@);
        }
        let start_byte = self.text.line_to_byte(start_line) + start_index;
        let end_byte = self.text.line_to_byte(end_line) + end_index;
        if start_byte == end_byte {
            let none = String::new();
            assert(encode_utf8(none@) =~= b.subrange(start_byte as int, end_byte as int));
            return ((start_line, start_index), none);
        }
        let removed = self.text.slice(start_byte, end_byte);
        let old_line_count = self.line_count();
        let start_at = self.text.byte_to_line(start_byte);
        let end_at = self.text.byte_to_line(end_byte);
        let start_limit = self.text.line_limit(start_at);
        let ending = self.text.detect_line_ending(end_at);
        self.text.delete(start_byte, end_byte);
        proof {
            lemma_deletion(b, start_byte as int, end_byte as int, self.text.text@);
        }
        let new_line_count = self.line_count();
        let count = old_line_count - new_line_count;

        let start = self.map_byte(start_byte);
        let mapped = start.0;

        let whole = self.text.detect_line_ending(mapped) == ending;
        follow_delete_in_metadata(&mut self.metadata, start_at, end_at, mapped, count, whole);

        // Dropped and not moved: a moved entry could come from a line that is
        // gone. No more than the caches hold is lost.
        let first = if start_at < mapped {
            start_at
        } else {
            mapped
        };
        proof {
            lemma_splice(self.bytes(), start_byte as int, b.subrange(start_byte as int, end_byte as int));
            lemma_breaks_monotone(b, start_byte as int, end_byte as int);
        }
        if count > 0 || end_byte > start_limit {
            self.cache.invalidate_from(first);
            invalidate_materialized_from(&mut self.materialized, first);
        } else {
            self.cache.invalidate_line(first);
            proof {
                lemma_removed(lru_entries(self.materialized), first as int);
            }
            let _edited = lru_pop(&mut self.materialized, first);
        }
        proof {
            let (sl, si) = (start_line as int, start_index as int);
            let (el, ei) = (end_line as int, end_index as int);
            if before.fresh() {
                law_delete_keeps_lines_fresh(&before, sl, si, el, ei, self);
            }
            if before.fits() {
                law_delete_keeps_results_fitting(&before, sl, si, el, ei, self);
            }
            if before.honest() {
                law_delete_keeps_honest(&before, sl, si, el, ei, self);
            }
        }
        (start, removed)
    }

    /// A store with the same text and the same settings of single lines; its
    /// caches start empty.
    pub fn duplicate(&self) -> (r: RopeStore)
        requires
            self.wf(),
        ensures
            r.wf(),
            r.fresh(),
            r.bytes() == self.bytes(),
            r.metadata.same(&self.metadata),
            forall|i: int| #[trigger] r.warm(i) is None,
            forall|i: int| #[trigger] r.cache.shape_at(i) is None,
            forall|i: int| #[trigger] r.cache.layout_at(i) is None,
    {
        RopeStore {
            text: self.text.duplicate(),
            metadata: self.metadata.duplicate(),
            cache: LineCache::new(),
            materialized: lru_new(MATERIALIZED_CAPACITY),
        }
    }

    /// Shapes line `i`, unless its shape is kept, and returns the result. The
    /// line is materialized along with it.
    #[verifier::rlimit(40)]
    pub fn line_shape<F: FontSystem>(
        &mut self,
        font_system: &mut F,
        settings: &Settings,
        i: usize,
    ) -> (r: Option<&ShapeLine>)
        requires
            old(self).wf(),
        ensures
            final(font_system).fonts() == old(font_system).fonts(),
            final(self).wf(),
            final(self).text == old(self).text,
            final(self).metadata == old(self).metadata,
            r is Some <==> i < line_total(old(self).bytes()),
            match r {
                Some(shape) => {
                    &&& shape@ == old(self).shape_now::<F>(
                        old(font_system).fonts(),
                        *settings,
                        i as int,
                    )
                    &&& final(self).cache.shape_at(i as int) == Some(shape@)
                    &&& final(self).warm(i as int) is Some
                    &&& final(self).line_now(i as int) == old(self).line_now(i as int)
                    &&& old(self).warm(i as int) is Some ==> final(self).warm(i as int) == old(
                        self,
                    ).warm(i as int)
                    &&& final(self).cache.layout_at(i as int) == if old(self).cache.shape_at(
                        i as int,
                    ) is Some {
                        old(self).cache.layout_at(i as int)
                    } else {
                        None
                    }
                    &&& old(self).only_drops(final(self), i as int)
                    &&& touched(
                        lru_entries(old(self).materialized),
                        MATERIALIZED_CAPACITY as int,
                        lru_entries(final(self).materialized),
                        i as int,
                    )
                    &&& touched(
                        old(self).cache.shape.entries@,
                        LINE_CACHE_CAPACITY as int,
                        final(self).cache.shape.entries@,
                        i as int,
                    )
                    &&& final(self).cache.layout.entries@ == if old(self).cache.shape_at(
                        i as int,
                    ) is Some {
                        old(self).cache.layout.entries@
                    } else {
                        removed(old(self).cache.layout.entries@, i as int)
                    }
                },
                None => *final(self) == *old(self),
            },
    {
        let ghost e0 = lru_entries(self.materialized);
        let ghost s0 = self.cache.shape.entries@;
        proof {
            if holds(e0, i as int) {
                lemma_promoted_touches(e0, MATERIALIZED_CAPACITY as int, i);
            }
            if holds(s0, i as int) {
                lemma_promoted_touches(s0, LINE_CACHE_CAPACITY as int, i);
            }
            assert forall|l: BufferLine| touched(
                e0,
                MATERIALIZED_CAPACITY as int,
                #[trigger] stored(e0, MATERIALIZED_CAPACITY as int, i, l),
                i as int,
            ) by {
                lemma_stored_touches(e0, MATERIALIZED_CAPACITY as int, i, l);
            }
        }
        if self.cache.shape.contains(i) {
            // Keeps the line warm along with its shape.
            if self.materialize(i).is_none() {
                return None;
            }
        } else {
            let (text, attrs_list, shaping) = match self.materialize(i) {
                Some(line) => (
                    own(shaped_str(line.text())),
                    line.attrs_list().duplicate(),
                    line.shaping(),
                ),
                None => {
                    return None;
                },
            };
            let shape = font_system.shape(
                text.as_str(),
                &attrs_list,
                shaping,
                settings.tab_width,
                settings.direction,
            );
            proof {
                lemma_stored_touches(s0, LINE_CACHE_CAPACITY as int, i, shape);
                let s1 = stored(s0, LINE_CACHE_CAPACITY as int, i, shape);
                lemma_stored(s0, LINE_CACHE_CAPACITY as int, i, shape);
                lemma_touched(s0, LINE_CACHE_CAPACITY as int, s1, i);
                lemma_promoted_touches(s1, LINE_CACHE_CAPACITY as int, i);
            }
            self.cache.shape.insert(i, shape);
            let _layout = self.cache.layout.remove(i);
        }
        self.cache.shape.get(i)
    }

    /// Lays line `i` out, unless its layout is kept, and returns the result.
    /// The line is materialized and shaped along with it.
    pub fn line_layout<F: FontSystem>(
        &mut self,
        font_system: &mut F,
        settings: &Settings,
        i: usize,
    ) -> (r: Option<&Vec<LayoutLine>>)
        requires
            old(self).wf(),
        ensures
            final(font_system).fonts() == old(font_system).fonts(),
            final(self).wf(),
            final(self).text == old(self).text,
            final(self).metadata == old(self).metadata,
            r is Some <==> i < line_total(old(self).bytes()),
            match r {
                Some(layout) => {
                    &&& layout_view(layout@) == old(self).layout_now::<F>(
                        old(font_system).fonts(),
                        *settings,
                        i as int,
                    )
                    &&& final(self).cache.layout_at(i as int) == Some(layout_view(layout@))
                    &&& final(self).cache.shape_at(i as int) == Some(
                        old(self).shape_now::<F>(old(font_system).fonts(), *settings, i as int),
                    )
                    &&& final(self).warm(i as int) is Some
                    &&& final(self).line_now(i as int) == old(self).line_now(i as int)
                    &&& old(self).warm(i as int) is Some ==> final(self).warm(i as int) == old(
                        self,
                    ).warm(i as int)
                    &&& old(self).only_drops(final(self), i as int)
                    &&& touched(
                        lru_entries(old(self).materialized),
                        MATERIALIZED_CAPACITY as int,
                        lru_entries(final(self).materialized),
                        i as int,
                    )
                    &&& touched(
                        old(self).cache.shape.entries@,
                        LINE_CACHE_CAPACITY as int,
                        final(self).cache.shape.entries@,
                        i as int,
                    )
                    &&& touched(
                        old(self).cache.layout.entries@,
                        LINE_CACHE_CAPACITY as int,
                        final(self).cache.layout.entries@,
                        i as int,
                    )
                },
                None => *final(self) == *old(self),
            },
    {
        let ghost s0 = self.cache.shape.entries@;
        let ghost l0 = self.cache.layout.entries@;
        if self.line_shape(font_system, settings, i).is_none() {
            return None;
        }
        let ghost mid = *self;
        let ghost l1 = self.cache.layout.entries@;
        if !self.cache.layout.contains(i) {
            let align = match self.materialized(i) {
                Some(line) => line.align(),
                None => None,
            };
            proof {
                let s1 = self.cache.shape.entries@;
                lemma_touched(s0, LINE_CACHE_CAPACITY as int, s1, i);
                lemma_promoted_touches(s1, LINE_CACHE_CAPACITY as int, i);
            }
            let params = settings.layout_params(align);
            let layout = match self.cache.shape.get(i) {
                Some(shape) => font_system.layout(shape, params),
                None => {
                    return None;
                },
            };
            proof {
                lemma_stored_touches(l0, LINE_CACHE_CAPACITY as int, i, layout);
                lemma_stored_touches(l1, LINE_CACHE_CAPACITY as int, i, layout);
                lemma_restored_touches(l0, LINE_CACHE_CAPACITY as int, i, layout);
                lemma_stored(l1, LINE_CACHE_CAPACITY as int, i, layout);
                let l2 = stored(l1, LINE_CACHE_CAPACITY as int, i, layout);
                lemma_touched(l1, LINE_CACHE_CAPACITY as int, l2, i);
                lemma_promoted_touches(l2, LINE_CACHE_CAPACITY as int, i);
            }
            self.cache.layout.insert(i, layout);
        } else {
            proof {
                lemma_removed(l0, i as int);
                lemma_promoted_touches(l0, LINE_CACHE_CAPACITY as int, i);
            }
        }
        proof {
            assert forall|j: int| j != i implies (#[trigger] lookup(
                lru_entries(self.materialized),
                j,
            ) == old(self).warm(j) || self.warm(j) is None) by {
                assert(self.warm(j) == mid.warm(j));
            }
            assert forall|j: int| #[trigger]
                lookup(self.cache.shape.entries@, j) == mid.cache.shape.value(j) by {}
            assert forall|j: int| j != i && #[trigger] lookup(
                self.cache.shape.entries@,
                j,
            ) is Some implies self.cache.shape_at(j) == old(self).cache.shape_at(j) by {
                assert(self.cache.shape_at(j) == mid.cache.shape_at(j));
            }
        }
        self.cache.layout.get(i)
    }
}

} // verus!
