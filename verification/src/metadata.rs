//! Per-line attributes of a rope-backed store, kept only for the lines that
//! differ from the defaults.

use vstd::prelude::*;

use crate::attrs::{only, Attrs, AttrsList, AttrsListView};
use crate::ending::LineEnding;
use crate::layout::{Align, Shaping};
use crate::recency::{distinct, holds, lemma_place, place, RecentMap};

verus! {

/// Sparse per-line attributes.
pub struct SparseMetadata {
    /// Attributes of the lines without a list of their own.
    pub default_attrs: Attrs,
    /// How lines are shaped.
    pub default_shaping: Shaping,
    /// Terminators that override the ones in the text.
    pub endings: RecentMap<LineEnding>,
    /// Attribute lists of single lines.
    pub attrs_lists: RecentMap<AttrsList>,
    /// Alignments of single lines.
    pub aligns: RecentMap<Align>,
}

/// The index in an edited text from which line `i` takes its attributes, when
/// `delta` lines were put in behind line `line`.
pub open spec fn origin(i: int, line: int, delta: int) -> Option<int> {
    if i <= line {
        Some(i)
    } else if i <= line + delta {
        None
    } else {
        Some(i - delta)
    }
}

/// A map with the same entries.
fn copy_values<V: Copy>(map: &RecentMap<V>) -> (r: RecentMap<V>)
    ensures
        r.entries@ == map.entries@,
        r.cap == map.cap,
{
    let mut entries: Vec<(usize, V)> = Vec::new();
    let mut i: usize = 0;
    while i < map.entries.len()
        invariant
            i <= map.entries@.len(),
            entries@ == map.entries@.take(i as int),
        decreases map.entries@.len() - i,
    {
        let entry = &map.entries[i];
        entries.push((entry.0, entry.1));
        i = i + 1;
        assert(entries@ =~= map.entries@.take(i as int));
    }
    assert(entries@ =~= map.entries@);
    RecentMap { entries, cap: map.cap }
}

/// A map with the same lists for the same lines.
fn copy_lists(map: &RecentMap<AttrsList>) -> (r: RecentMap<AttrsList>)
    requires
        map.wf(),
    ensures
        r.wf(),
        r.cap == map.cap,
        forall|k: int|
            match (#[trigger] r.value(k), map.value(k)) {
                (Some(a), Some(b)) => a@ == b@,
                (None, None) => true,
                _ => false,
            },
{
    let mut entries: Vec<(usize, AttrsList)> = Vec::new();
    let mut i: usize = 0;
    while i < map.entries.len()
        invariant
            i <= map.entries@.len(),
            entries@.len() == i,
            forall|j: int|
                0 <= j < i ==> (#[trigger] entries@[j]).0 == map.entries@[j].0 && entries@[j].1@
                    == map.entries@[j].1@,
        decreases map.entries@.len() - i,
    {
        let entry = &map.entries[i];
        entries.push((entry.0, entry.1.duplicate()));
        i = i + 1;
    }
    let r = RecentMap { entries, cap: map.cap };
    proof {
        assert(distinct(r.entries@)) by {
            assert forall|a: int, b: int|
                0 <= a < r.entries@.len() && 0 <= b < r.entries@.len() && a != b implies (
            #[trigger] r.entries@[a]).0 != (#[trigger] r.entries@[b]).0 by {
                assert(map.entries@[a].0 != map.entries@[b].0);
            }
        }
        assert forall|k: int|
            match (#[trigger] r.value(k), map.value(k)) {
                (Some(a), Some(b)) => a@ == b@,
                (None, None) => true,
                _ => false,
            } by {
            if holds(r.entries@, k) {
                let q = place(r.entries@, k);
                assert(map.entries@[q].0 == k);
                lemma_place(map.entries@, q);
            } else if holds(map.entries@, k) {
                let q = place(map.entries@, k);
                assert(r.entries@[q].0 == k);
            }
        }
    }
    r
}

impl SparseMetadata {
    /// None of the maps drops an entry for lack of room.
    pub open spec fn wf(&self) -> bool {
        &&& self.endings.wf() && self.endings.cap == usize::MAX
        &&& self.attrs_lists.wf() && self.attrs_lists.cap == usize::MAX
        &&& self.aligns.wf() && self.aligns.cap == usize::MAX
    }

    /// The terminator that overrides the one in the text of line `i`.
    pub open spec fn ending_at(&self, i: int) -> LineEnding {
        match self.endings.value(i) {
            Some(ending) => ending,
            None => LineEnding::NoEnding,
        }
    }

    /// The attribute list of line `i`, where it has one of its own.
    pub open spec fn own_attrs(&self, i: int) -> Option<AttrsListView> {
        match self.attrs_lists.value(i) {
            Some(list) => Some(list@),
            None => None,
        }
    }

    /// The attributes of line `i`.
    pub open spec fn attrs_for(&self, i: int) -> AttrsListView {
        match self.own_attrs(i) {
            Some(list) => list,
            None => only(self.default_attrs),
        }
    }

    /// The alignment of line `i`, where it has one.
    pub open spec fn align_at(&self, i: int) -> Option<Align> {
        self.aligns.value(i)
    }

    /// Defaults only.
    pub fn new(default_attrs: &Attrs, default_shaping: Shaping) -> (r: SparseMetadata)
        ensures
            r.wf(),
            r.default_attrs == *default_attrs,
            r.default_shaping == default_shaping,
            forall|i: int| #[trigger] r.ending_at(i) == LineEnding::NoEnding,
            forall|i: int| #[trigger] r.own_attrs(i) is None,
            forall|i: int| #[trigger] r.align_at(i) is None,
    {
        SparseMetadata {
            default_attrs: *default_attrs,
            default_shaping,
            endings: RecentMap::new(usize::MAX),
            attrs_lists: RecentMap::new(usize::MAX),
            aligns: RecentMap::new(usize::MAX),
        }
    }

    /// Whether the same is set for every line, and the defaults are the same.
    pub open spec fn same(&self, other: &SparseMetadata) -> bool {
        &&& self.default_attrs == other.default_attrs
        &&& self.default_shaping == other.default_shaping
        &&& forall|i: int| #[trigger] self.ending_at(i) == other.ending_at(i)
        &&& forall|i: int| #[trigger] self.own_attrs(i) == other.own_attrs(i)
        &&& forall|i: int| #[trigger] self.align_at(i) == other.align_at(i)
    }

    /// The same settings over again.
    pub fn duplicate(&self) -> (r: SparseMetadata)
        requires
            self.wf(),
        ensures
            r.wf(),
            r.same(self),
    {
        let endings = copy_values(&self.endings);
        let attrs_lists = copy_lists(&self.attrs_lists);
        let aligns = copy_values(&self.aligns);
        SparseMetadata {
            default_attrs: self.default_attrs,
            default_shaping: self.default_shaping,
            endings,
            attrs_lists,
            aligns,
        }
    }

    /// The terminator that overrides the one in the text of line `i`.
    pub fn line_ending(&self, i: usize) -> (r: LineEnding)
        requires
            self.wf(),
        ensures
            r == self.ending_at(i as int),
    {
        match self.endings.peek(i) {
            Some(ending) => *ending,
            None => LineEnding::NoEnding,
        }
    }

    /// Sets or, with `NoEnding`, clears the terminator of line `i`.
    pub fn set_line_ending(&mut self, i: usize, ending: LineEnding)
        requires
            old(self).wf(),
        ensures
            final(self).wf(),
            final(self).default_attrs == old(self).default_attrs,
            final(self).default_shaping == old(self).default_shaping,
            forall|j: int| #[trigger]
                final(self).ending_at(j) == if j == i {
                    ending
                } else {
                    old(self).ending_at(j)
                },
            forall|j: int| #[trigger] final(self).own_attrs(j) == old(self).own_attrs(j),
            forall|j: int| #[trigger] final(self).align_at(j) == old(self).align_at(j),
    {
        if ending == LineEnding::NoEnding {
            let _gone = self.endings.remove(i);
        } else {
            self.endings.insert(i, ending);
        }
        assert forall|j: int| #[trigger]
            self.ending_at(j) == if j == i {
                ending
            } else {
                old(self).ending_at(j)
            } by {
            assert(j != i ==> self.endings.value(j) == old(self).endings.value(j));
        }
    }

    /// The attributes of line `i`.
    pub fn attrs_list(&self, i: usize) -> (r: AttrsList)
        requires
            self.wf(),
        ensures
            r@ == self.attrs_for(i as int),
    {
        match self.attrs_lists.peek(i) {
            Some(list) => list.duplicate(),
            None => AttrsList::new(&self.default_attrs),
        }
    }

    /// Gives line `i` attributes of its own.
    pub fn set_attrs_list(&mut self, i: usize, list: AttrsList)
        requires
            old(self).wf(),
        ensures
            final(self).wf(),
            final(self).default_attrs == old(self).default_attrs,
            final(self).default_shaping == old(self).default_shaping,
            forall|j: int| #[trigger] final(self).ending_at(j) == old(self).ending_at(j),
            forall|j: int| #[trigger]
                final(self).own_attrs(j) == if j == i {
                    Some(list@)
                } else {
                    old(self).own_attrs(j)
                },
            forall|j: int| #[trigger] final(self).align_at(j) == old(self).align_at(j),
    {
        self.attrs_lists.insert(i, list);
        assert forall|j: int| #[trigger]
            self.own_attrs(j) == if j == i {
                Some(list@)
            } else {
                old(self).own_attrs(j)
            } by {
            assert(j != i ==> self.attrs_lists.value(j) == old(self).attrs_lists.value(j));
        }
    }

    /// How lines are shaped.
    pub fn shaping(&self) -> (r: Shaping)
        ensures
            r == self.default_shaping,
    {
        self.default_shaping
    }

    /// The alignment of line `i`, where it has one.
    pub fn align(&self, i: usize) -> (r: Option<Align>)
        requires
            self.wf(),
        ensures
            r == self.align_at(i as int),
    {
        match self.aligns.peek(i) {
            Some(align) => Some(*align),
            None => None,
        }
    }

    /// Gives line `i` an alignment.
    pub fn set_align(&mut self, i: usize, align: Align)
        requires
            old(self).wf(),
        ensures
            final(self).wf(),
            final(self).default_attrs == old(self).default_attrs,
            final(self).default_shaping == old(self).default_shaping,
            forall|j: int| #[trigger] final(self).ending_at(j) == old(self).ending_at(j),
            forall|j: int| #[trigger] final(self).own_attrs(j) == old(self).own_attrs(j),
            forall|j: int| #[trigger]
                final(self).align_at(j) == if j == i {
                    Some(align)
                } else {
                    old(self).align_at(j)
                },
    {
        self.aligns.insert(i, align);
        assert forall|j: int| #[trigger]
            self.align_at(j) == if j == i {
                Some(align)
            } else {
                old(self).align_at(j)
            } by {
            assert(j != i ==> self.aligns.value(j) == old(self).aligns.value(j));
        }
    }

    /// Makes room for `delta` lines behind line `line`.
    pub fn shift_lines(&mut self, line: usize, delta: usize)
        requires
            old(self).wf(),
            line < usize::MAX,
        ensures
            final(self).wf(),
            final(self).default_attrs == old(self).default_attrs,
            final(self).default_shaping == old(self).default_shaping,
            forall|j: int|
                j <= usize::MAX ==> #[trigger] final(self).ending_at(j) == match origin(
                    j,
                    line as int,
                    delta as int,
                ) {
                    Some(k) => old(self).ending_at(k),
                    None => LineEnding::NoEnding,
                },
            forall|j: int|
                j <= usize::MAX ==> #[trigger] final(self).own_attrs(j) == match origin(
                    j,
                    line as int,
                    delta as int,
                ) {
                    Some(k) => old(self).own_attrs(k),
                    None => None,
                },
            forall|j: int|
                j <= usize::MAX ==> #[trigger] final(self).align_at(j) == match origin(
                    j,
                    line as int,
                    delta as int,
                ) {
                    Some(k) => old(self).align_at(k),
                    None => None,
                },
    {
        self.endings.shift_lines(line + 1, delta);
        self.attrs_lists.shift_lines(line + 1, delta);
        self.aligns.shift_lines(line + 1, delta);
    }

    /// Takes the `count` lines from `start` on out.
    pub fn remove_lines(&mut self, start: usize, count: usize)
        requires
            old(self).wf(),
        ensures
            final(self).wf(),
            final(self).default_attrs == old(self).default_attrs,
            final(self).default_shaping == old(self).default_shaping,
            forall|j: int|
                j <= usize::MAX ==> #[trigger] final(self).ending_at(j) == if j < start {
                    old(self).ending_at(j)
                } else {
                    old(self).ending_at(j + count)
                },
            forall|j: int|
                j <= usize::MAX ==> #[trigger] final(self).own_attrs(j) == if j < start {
                    old(self).own_attrs(j)
                } else {
                    old(self).own_attrs(j + count)
                },
            forall|j: int|
                j <= usize::MAX ==> #[trigger] final(self).align_at(j) == if j < start {
                    old(self).align_at(j)
                } else {
                    old(self).align_at(j + count)
                },
    {
        self.endings.remove_lines(start, count);
        self.attrs_lists.remove_lines(start, count);
        self.aligns.remove_lines(start, count);
    }
}

} // verus!
