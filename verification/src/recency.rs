//! Values kept by line index, the most recently used ones first.

use vstd::prelude::*;

verus! {

/// Whether an entry for line `k` is among `e`.
pub open spec fn holds<V>(e: Seq<(usize, V)>, k: int) -> bool {
    exists|i: int| 0 <= i < e.len() && (#[trigger] e[i]).0 == k
}

/// Position of the entry for line `k` among `e`.
pub open spec fn place<V>(e: Seq<(usize, V)>, k: int) -> int
    recommends
        holds(e, k),
{
    choose|i: int| 0 <= i < e.len() && (#[trigger] e[i]).0 == k
}

/// The value that `e` keeps for line `k`.
pub open spec fn lookup<V>(e: Seq<(usize, V)>, k: int) -> Option<V> {
    if holds(e, k) {
        Some(e[place(e, k)].1)
    } else {
        None
    }
}

/// No line has two entries.
pub open spec fn distinct<V>(e: Seq<(usize, V)>) -> bool {
    forall|i: int, j: int|
        0 <= i < e.len() && 0 <= j < e.len() && i != j ==> (#[trigger] e[i]).0 != (#[trigger] e[j]).0
}

/// `e` without the entry for line `k`.
pub open spec fn removed<V>(e: Seq<(usize, V)>, k: int) -> Seq<(usize, V)> {
    if holds(e, k) {
        e.remove(place(e, k))
    } else {
        e
    }
}

/// `e` with the entry for line `k` moved to the front.
pub open spec fn promoted<V>(e: Seq<(usize, V)>, k: int) -> Seq<(usize, V)> {
    if holds(e, k) {
        seq![e[place(e, k)]] + removed(e, k)
    } else {
        e
    }
}

/// `e` with `v` at the front as the value for line `k`; of more than `cap`
/// entries the least recently used one is dropped.
pub open spec fn stored<V>(e: Seq<(usize, V)>, cap: int, k: usize, v: V) -> Seq<(usize, V)> {
    let all = seq![(k, v)] + removed(e, k as int);
    if all.len() > cap {
        all.drop_last()
    } else {
        all
    }
}

/// The place of an entry is the only one with its key.
pub proof fn lemma_place<V>(e: Seq<(usize, V)>, i: int)
    requires
        distinct(e),
        0 <= i < e.len(),
    ensures
        holds(e, e[i].0 as int),
        place(e, e[i].0 as int) == i,
        lookup(e, e[i].0 as int) == Some(e[i].1),
{
    let k = e[i].0 as int;
    assert(e[i].0 == k);
    let p = place(e, k);
    assert(e[p].0 == k);
}

/// Two sequences that agree entry by entry on a key agree on its value.
proof fn lemma_same_entry<V>(e: Seq<(usize, V)>, f: Seq<(usize, V)>, k: int)
    requires
        distinct(e),
        distinct(f),
        forall|i: int| 0 <= i < e.len() && (#[trigger] e[i]).0 == k ==> f.contains(e[i]),
        forall|i: int| 0 <= i < f.len() && (#[trigger] f[i]).0 == k ==> e.contains(f[i]),
    ensures
        lookup(e, k) == lookup(f, k),
{
    if holds(e, k) {
        let p = place(e, k);
        assert(f.contains(e[p]));
        let q = f.index_of(e[p]);
        lemma_place(f, q);
    } else if holds(f, k) {
        let p = place(f, k);
        assert(e.contains(f[p]));
        let q = e.index_of(f[p]);
        assert(e[q].0 == k);
    }
}

/// Removing one line leaves the others as they are.
pub proof fn lemma_removed<V>(e: Seq<(usize, V)>, k: int)
    requires
        distinct(e),
    ensures
        distinct(removed(e, k)),
        removed(e, k).len() == if holds(e, k) { e.len() - 1 } else { e.len() as int },
        forall|j: int| #[trigger]
            lookup(removed(e, k), j) == if j == k {
                None
            } else {
                lookup(e, j)
            },
{
    let r = removed(e, k);
    if holds(e, k) {
        let p = place(e, k);
        assert forall|i: int| 0 <= i < r.len() implies #[trigger] r[i] == e[if i < p {
            i
        } else {
            i + 1
        }] by {}
        assert forall|j: int| j != k implies #[trigger] lookup(r, j) == lookup(e, j) by {
            assert forall|i: int| 0 <= i < e.len() && (#[trigger] e[i]).0 == j implies r.contains(
                e[i],
            ) by {
                if i < p {
                    assert(r[i] == e[i]);
                } else {
                    assert(r[i - 1] == e[i]);
                }
            }
            lemma_same_entry(e, r, j);
        }
        assert(lookup(r, k) is None) by {
            if holds(r, k) {
                let q = place(r, k);
                assert(r[q].0 == k);
            }
        }
    } else {
        assert forall|j: int| j == k implies #[trigger] lookup(r, j) is None by {}
    }
}

/// Putting an entry in front leaves the other lines as they are.
proof fn lemma_pushed_front<V>(e: Seq<(usize, V)>, k: usize, v: V)
    requires
        distinct(e),
        !holds(e, k as int),
    ensures
        distinct(seq![(k, v)] + e),
        forall|j: int| #[trigger]
            lookup(seq![(k, v)] + e, j) == if j == k {
                Some(v)
            } else {
                lookup(e, j)
            },
{
    let f = seq![(k, v)] + e;
    assert forall|i: int| 1 <= i < f.len() implies #[trigger] f[i] == e[i - 1] by {}
    assert forall|i: int, j: int| 0 <= i < f.len() && 0 <= j < f.len() && i != j implies (
    #[trigger] f[i]).0 != (#[trigger] f[j]).0 by {
        if i >= 1 {
            assert(e[i - 1].0 != k);
        }
        if j >= 1 {
            assert(e[j - 1].0 != k);
        }
    }
    assert(f[0] == (k, v));
    lemma_place(f, 0);
    assert forall|j: int| j != k implies #[trigger] lookup(f, j) == lookup(e, j) by {
        assert forall|i: int| 0 <= i < e.len() && (#[trigger] e[i]).0 == j implies f.contains(
            e[i],
        ) by {
            assert(f[i + 1] == e[i]);
        }
        assert forall|i: int| 0 <= i < f.len() && (#[trigger] f[i]).0 == j implies e.contains(
            f[i],
        ) by {
            assert(e[i - 1] == f[i]);
        }
        lemma_same_entry(e, f, j);
    }
}

/// Putting an entry at the end leaves the other lines as they are.
pub proof fn lemma_pushed_back<V>(e: Seq<(usize, V)>, k: usize, v: V)
    requires
        distinct(e),
        !holds(e, k as int),
    ensures
        distinct(e.push((k, v))),
        forall|j: int| #[trigger]
            lookup(e.push((k, v)), j) == if j == k {
                Some(v)
            } else {
                lookup(e, j)
            },
{
    let f = e.push((k, v));
    assert forall|i: int| 0 <= i < e.len() implies #[trigger] f[i] == e[i] by {}
    assert forall|i: int, j: int| 0 <= i < f.len() && 0 <= j < f.len() && i != j implies (
    #[trigger] f[i]).0 != (#[trigger] f[j]).0 by {
        if i < e.len() {
            assert(e[i].0 != k);
        }
        if j < e.len() {
            assert(e[j].0 != k);
        }
    }
    lemma_place(f, e.len() as int);
    assert forall|j: int| j != k implies #[trigger] lookup(f, j) == lookup(e, j) by {
        assert forall|i: int| 0 <= i < e.len() && (#[trigger] e[i]).0 == j implies f.contains(
            e[i],
        ) by {
            assert(f[i] == e[i]);
        }
        assert forall|i: int| 0 <= i < f.len() && (#[trigger] f[i]).0 == j implies e.contains(
            f[i],
        ) by {
            assert(e[i] == f[i]);
        }
        lemma_same_entry(e, f, j);
    }
}

/// Taking the last entry away leaves the other lines as they are.
pub proof fn lemma_dropped_last<V>(e: Seq<(usize, V)>)
    requires
        distinct(e),
        e.len() > 0,
    ensures
        distinct(e.drop_last()),
        lookup(e, e.last().0 as int) == Some(e.last().1),
        forall|j: int| #[trigger]
            lookup(e.drop_last(), j) == if j == e.last().0 {
                None
            } else {
                lookup(e, j)
            },
{
    let f = e.drop_last();
    let n = e.len() - 1;
    assert forall|i: int, j: int| 0 <= i < f.len() && 0 <= j < f.len() && i != j implies (
    #[trigger] f[i]).0 != (#[trigger] f[j]).0 by {
        assert(f[i] == e[i] && f[j] == e[j]);
    }
    if holds(f, e.last().0 as int) {
        let p = place(f, e.last().0 as int);
        assert(f[p] == e[p]);
        assert(e[p].0 != e[n].0);
    }
    lemma_pushed_back(f, e.last().0, e.last().1);
    assert(f.push((e.last().0, e.last().1)) =~= e);
    assert forall|j: int| #[trigger]
        lookup(f, j) == if j == e.last().0 {
            None
        } else {
            lookup(e, j)
        } by {
        assert(lookup(f.push((e.last().0, e.last().1)), j) == if j == e.last().0 {
            Some(e.last().1)
        } else {
            lookup(f, j)
        });
    }
}

/// Moving an entry to the front changes no value.
pub proof fn lemma_promoted<V>(e: Seq<(usize, V)>, k: int)
    requires
        distinct(e),
    ensures
        distinct(promoted(e, k)),
        promoted(e, k).len() == e.len(),
        forall|j: int| #[trigger] lookup(promoted(e, k), j) == lookup(e, j),
{
    if holds(e, k) {
        let p = place(e, k);
        lemma_removed(e, k);
        assert(lookup(removed(e, k), k) is None);
        lemma_pushed_front(removed(e, k), e[p].0, e[p].1);
        assert(seq![e[p]] =~= seq![(e[p].0, e[p].1)]);
        assert forall|j: int| #[trigger] lookup(promoted(e, k), j) == lookup(e, j) by {
            assert(lookup(removed(e, k), j) == if j == k {
                None
            } else {
                lookup(e, j)
            });
        }
    }
}

/// A stored value is found again; every other line keeps its value or, when
/// the entries are full, is the one that is dropped.
pub proof fn lemma_stored<V>(e: Seq<(usize, V)>, cap: int, k: usize, v: V)
    requires
        distinct(e),
        e.len() <= cap,
        cap >= 1,
    ensures
        distinct(stored(e, cap, k, v)),
        1 <= stored(e, cap, k, v).len() <= cap,
        stored(e, cap, k, v).len() <= e.len() + 1,
        lookup(stored(e, cap, k, v), k as int) == Some(v),
        forall|j: int|
            j != k ==> (#[trigger] lookup(stored(e, cap, k, v), j) == lookup(e, j) || lookup(
                stored(e, cap, k, v),
                j,
            ) is None),
        e.len() < cap || holds(e, k as int) ==> forall|j: int|
            j != k ==> #[trigger] lookup(stored(e, cap, k, v), j) == lookup(e, j),
{
    let r = removed(e, k as int);
    lemma_removed(e, k as int);
    assert(lookup(r, k as int) is None);
    lemma_pushed_front(r, k, v);
    let all = seq![(k, v)] + r;
    let f = stored(e, cap, k, v);
    assert(f[0] == all[0]);
    assert(distinct(f));
    lemma_place(f, 0);
    assert forall|j: int| j != k implies (#[trigger] lookup(f, j) == lookup(e, j) || lookup(
        f,
        j,
    ) is None) by {
        assert(lookup(r, j) == lookup(e, j));
        assert(lookup(all, j) == lookup(r, j));
        if holds(f, j) {
            let q = place(f, j);
            assert(f[q] == all[q]);
            lemma_place(all, q);
            lemma_place(f, q);
        }
    }
    if e.len() < cap || holds(e, k as int) {
        assert(f == all);
        assert forall|j: int| j != k implies #[trigger] lookup(f, j) == lookup(e, j) by {
            assert(lookup(all, j) == lookup(r, j));
            assert(lookup(r, j) == lookup(e, j));
        }
    }
}

/// Whether `f` is `e` once line `k` has been used: its entry, whatever its
/// value is now, is in front of the others, and of more than `cap` entries the
/// least recently used one is dropped.
pub open spec fn touched<V>(e: Seq<(usize, V)>, cap: int, f: Seq<(usize, V)>, k: int) -> bool {
    f.len() > 0 && f == stored(e, cap, k as usize, f[0].1)
}

proof fn lemma_removed_places<V>(e: Seq<(usize, V)>, k: int, j: int)
    requires
        distinct(e),
        holds(e, j),
        j != k,
    ensures
        holds(removed(e, k), j),
        place(removed(e, k), j) <= place(e, j),
{
    lemma_removed(e, k);
    let r = removed(e, k);
    let q = place(e, j);
    if holds(e, k) {
        let p = place(e, k);
        assert(p != q);
        if q < p {
            assert(r[q] == e[q]);
            lemma_place(r, q);
        } else {
            assert(r[q - 1] == e[q]);
            lemma_place(r, q - 1);
        }
    }
}

/// A line that has been used is the most recently used one, and the others have
/// moved back by one place at most.
pub proof fn lemma_touched<V>(e: Seq<(usize, V)>, cap: int, f: Seq<(usize, V)>, k: usize)
    requires
        distinct(e),
        e.len() <= cap,
        cap >= 1,
        touched(e, cap, f, k as int),
    ensures
        distinct(f),
        f.len() <= cap,
        holds(f, k as int),
        place(f, k as int) == 0,
        forall|j: int|
            j != k && holds(e, j) && #[trigger] place(e, j) + 1 < cap ==> holds(f, j) && place(f, j)
                <= place(e, j) + 1,
{
    let v = f[0].1;
    let r = removed(e, k as int);
    lemma_stored(e, cap, k, v);
    lemma_removed(e, k as int);
    assert(f[0] == (k, v));
    lemma_place(f, 0);
    assert forall|j: int|
        j != k && holds(e, j) && #[trigger] place(e, j) + 1 < cap implies holds(f, j) && place(f, j)
        <= place(e, j) + 1 by {
        lemma_removed_places(e, k as int, j);
        let q = place(r, j);
        assert(f[q + 1] == r[q]);
        lemma_place(f, q + 1);
    }
}

/// Storing a value is a use of its line.
pub proof fn lemma_stored_touches<V>(e: Seq<(usize, V)>, cap: int, k: usize, v: V)
    requires
        distinct(e),
        e.len() <= cap,
        cap >= 1,
    ensures
        touched(e, cap, stored(e, cap, k, v), k as int),
{
    lemma_stored(e, cap, k, v);
    assert(stored(e, cap, k, v)[0] == (k, v));
}

/// Storing a value in place of one that has just been dropped is a use of its
/// line.
pub proof fn lemma_restored_touches<V>(e: Seq<(usize, V)>, cap: int, k: usize, v: V)
    requires
        distinct(e),
        e.len() <= cap,
        cap >= 1,
    ensures
        touched(e, cap, stored(removed(e, k as int), cap, k, v), k as int),
{
    lemma_removed(e, k as int);
    assert(lookup(removed(e, k as int), k as int) is None);
    lemma_stored_touches(e, cap, k, v);
}

/// Looking a value up is a use of its line.
pub proof fn lemma_promoted_touches<V>(e: Seq<(usize, V)>, cap: int, k: usize)
    requires
        distinct(e),
        e.len() <= cap,
        holds(e, k as int),
    ensures
        touched(e, cap, promoted(e, k as int), k as int),
        place(e, k as int) == 0 ==> promoted(e, k as int) == e,
{
    let p = place(e, k as int);
    let f = promoted(e, k as int);
    lemma_promoted(e, k as int);
    assert(f[0] == e[p]);
    assert(f =~= stored(e, cap, k, e[p].1));
    if p == 0 {
        assert(f =~= e);
    }
}

/// Whether the lines from `from` up to `to` are kept and were the last that
/// were used.
pub open spec fn run_kept<V>(e: Seq<(usize, V)>, from: int, to: int) -> bool {
    forall|j: int|
        #![trigger holds(e, j)]
        #![trigger place(e, j)]
        from <= j < to ==> holds(e, j) && place(e, j) < to - from
}

/// Using the next line extends a run that was used last, as long as the run
/// fits.
pub proof fn lemma_run_grows<V>(e: Seq<(usize, V)>, cap: int, f: Seq<(usize, V)>, from: int, to: int)
    requires
        distinct(e),
        e.len() <= cap,
        run_kept(e, from, to),
        from <= to,
        to - from < cap,
        0 <= to <= usize::MAX,
        touched(e, cap, f, to),
    ensures
        run_kept(f, from, to + 1),
{
    lemma_touched(e, cap, f, to as usize);
    assert forall|j: int|
        #![trigger holds(f, j)]
        #![trigger place(f, j)]
        from <= j < to + 1 implies holds(f, j) && place(f, j) < to + 1 - from by {
        if j < to {
            assert(place(e, j) + 1 < cap);
        }
    }
}

/// The new index of line `k` when the `cut` lines from `start` on are taken
/// out and `add` lines are put in their place; `None` for a line that is gone.
pub open spec fn moved_line(k: int, start: int, cut: int, add: int) -> Option<int> {
    if k < start {
        Some(k)
    } else if k < start + cut || k - cut + add > usize::MAX {
        None
    } else {
        Some(k - cut + add)
    }
}

/// The entries `e` at their new line indices.
pub open spec fn rekeyed<V>(e: Seq<(usize, V)>, start: int, cut: int, add: int) -> Seq<(usize, V)>
    decreases e.len(),
{
    if e.len() == 0 {
        e
    } else {
        let head = rekeyed(e.drop_last(), start, cut, add);
        match moved_line(e.last().0 as int, start, cut, add) {
            Some(k) => head.push((k as usize, e.last().1)),
            None => head,
        }
    }
}

proof fn lemma_rekeyed_entries<V>(e: Seq<(usize, V)>, start: int, cut: int, add: int)
    requires
        0 <= start,
        0 <= cut,
        0 <= add,
    ensures
        ({
            let f = rekeyed(e, start, cut, add);
            &&& f.len() <= e.len()
            &&& forall|i: int|
                0 <= i < e.len() ==> (moved_line((#[trigger] e[i]).0 as int, start, cut, add) matches Some(
                    k,
                ) ==> f.contains((k as usize, e[i].1)))
            &&& forall|j: int|
                0 <= j < f.len() ==> exists|i: int|
                    0 <= i < e.len() && moved_line((#[trigger] e[i]).0 as int, start, cut, add) == Some(
                        (#[trigger] f[j]).0 as int,
                    ) && e[i].1 == f[j].1
        }),
    decreases e.len(),
{
    if e.len() > 0 {
        let h = e.drop_last();
        let n = e.len() - 1;
        lemma_rekeyed_entries(h, start, cut, add);
        let g = rekeyed(h, start, cut, add);
        let f = rekeyed(e, start, cut, add);
        assert forall|i: int| 0 <= i < e.len() implies (moved_line(
            (#[trigger] e[i]).0 as int,
            start,
            cut,
            add,
        ) matches Some(k) ==> f.contains((k as usize, e[i].1))) by {
            if i < n {
                assert(h[i] == e[i]);
                if let Some(k) = moved_line(e[i].0 as int, start, cut, add) {
                    assert(g.contains((k as usize, e[i].1)));
                    let q = g.index_of((k as usize, e[i].1));
                    assert(f[q] == g[q]);
                }
            } else if let Some(k) = moved_line(e[n].0 as int, start, cut, add) {
                assert(f[f.len() - 1] == (k as usize, e[n].1));
            }
        }
        assert forall|j: int| 0 <= j < f.len() implies exists|i: int|
            0 <= i < e.len() && moved_line((#[trigger] e[i]).0 as int, start, cut, add) == Some(
                (#[trigger] f[j]).0 as int,
            ) && e[i].1 == f[j].1 by {
            if j < g.len() {
                assert(f[j] == g[j]);
                let i = choose|i: int|
                    0 <= i < h.len() && moved_line((#[trigger] h[i]).0 as int, start, cut, add) == Some(
                        g[j].0 as int,
                    ) && h[i].1 == g[j].1;
                assert(e[i] == h[i]);
            } else {
                assert(e[n] == e.last());
            }
        }
    }
}

proof fn lemma_rekeyed_distinct<V>(e: Seq<(usize, V)>, start: int, cut: int, add: int)
    requires
        distinct(e),
        0 <= start,
        0 <= cut,
        0 <= add,
    ensures
        distinct(rekeyed(e, start, cut, add)),
    decreases e.len(),
{
    if e.len() > 0 {
        let h = e.drop_last();
        let n = e.len() - 1;
        assert forall|i: int, j: int| 0 <= i < h.len() && 0 <= j < h.len() && i != j implies (
        #[trigger] h[i]).0 != (#[trigger] h[j]).0 by {
            assert(h[i] == e[i] && h[j] == e[j]);
        }
        lemma_rekeyed_distinct(h, start, cut, add);
        lemma_rekeyed_entries(h, start, cut, add);
        let g = rekeyed(h, start, cut, add);
        let f = rekeyed(e, start, cut, add);
        if let Some(k) = moved_line(e.last().0 as int, start, cut, add) {
            assert forall|j: int| 0 <= j < g.len() implies (#[trigger] g[j]).0 != k by {
                let i = choose|i: int|
                    0 <= i < h.len() && moved_line((#[trigger] h[i]).0 as int, start, cut, add) == Some(
                        g[j].0 as int,
                    ) && h[i].1 == g[j].1;
                assert(e[i] == h[i]);
                assert(e[i].0 != e[n].0);
            }
            assert forall|i: int, j: int| 0 <= i < f.len() && 0 <= j < f.len() && i != j implies (
            #[trigger] f[i]).0 != (#[trigger] f[j]).0 by {
                if i < g.len() {
                    assert(f[i] == g[i]);
                }
                if j < g.len() {
                    assert(f[j] == g[j]);
                }
            }
        }
    }
}

/// Each value follows its line, and no line has a value that is not such a
/// follower.
pub proof fn lemma_rekeyed<V>(e: Seq<(usize, V)>, start: int, cut: int, add: int)
    requires
        distinct(e),
        0 <= start,
        0 <= cut,
        0 <= add,
    ensures
        distinct(rekeyed(e, start, cut, add)),
        rekeyed(e, start, cut, add).len() <= e.len(),
        forall|j: int| #[trigger]
            lookup(rekeyed(e, start, cut, add), j) == if j < start {
                lookup(e, j)
            } else if j < start + add || j > usize::MAX {
                None
            } else {
                lookup(e, j - add + cut)
            },
{
    lemma_rekeyed_entries(e, start, cut, add);
    lemma_rekeyed_distinct(e, start, cut, add);
    let f = rekeyed(e, start, cut, add);
    assert forall|j: int| #[trigger]
        lookup(f, j) == if j < start {
            lookup(e, j)
        } else if j < start + add || j > usize::MAX {
            None
        } else {
            lookup(e, j - add + cut)
        } by {
        let k = if j < start {
            j
        } else {
            j - add + cut
        };
        if holds(f, j) {
            let q = place(f, j);
            let i = choose|i: int|
                0 <= i < e.len() && moved_line((#[trigger] e[i]).0 as int, start, cut, add) == Some(
                    f[q].0 as int,
                ) && e[i].1 == f[q].1;
            lemma_place(e, i);
        } else if holds(e, k) {
            let i = place(e, k);
            assert(e[i].0 == k);
            if moved_line(k, start, cut, add) == Some(j) {
                assert(f.contains((j as usize, e[i].1)));
                let q = f.index_of((j as usize, e[i].1));
                assert(f[q].0 == j);
            }
        }
    }
}

/// The entries of `e` for lines in front of `start`.
pub open spec fn kept_below<V>(e: Seq<(usize, V)>, start: int) -> Seq<(usize, V)>
    decreases e.len(),
{
    if e.len() == 0 {
        e
    } else {
        let head = kept_below(e.drop_last(), start);
        if e.last().0 < start {
            head.push(e.last())
        } else {
            head
        }
    }
}

/// The entries of `e` for lines at or behind `start`, `delta` lines on and in
/// reverse order. A line whose new index is too large is left out.
pub open spec fn moved_up<V>(e: Seq<(usize, V)>, start: int, delta: int) -> Seq<(usize, V)>
    decreases e.len(),
{
    if e.len() == 0 {
        e
    } else {
        let rest = moved_up(e.drop_last(), start, delta);
        let k = e.last().0;
        if start <= k && k + delta <= usize::MAX {
            seq![((k + delta) as usize, e.last().1)] + rest
        } else {
            rest
        }
    }
}

/// Where the first of some entries goes when entries are kept or moved.
pub proof fn lemma_first_entry<V>(e: Seq<(usize, V)>, start: int, delta: int)
    requires
        e.len() > 0,
    ensures
        kept_below(e, start) == if e[0].0 < start {
            seq![e[0]] + kept_below(e.skip(1), start)
        } else {
            kept_below(e.skip(1), start)
        },
        moved_up(e, start, delta) == if start <= e[0].0 && e[0].0 + delta <= usize::MAX {
            moved_up(e.skip(1), start, delta).push(((e[0].0 + delta) as usize, e[0].1))
        } else {
            moved_up(e.skip(1), start, delta)
        },
    decreases e.len(),
{
    if e.len() == 1 {
        assert(e.skip(1) =~= Seq::empty());
        assert(e.drop_last() =~= Seq::empty());
        reveal_with_fuel(kept_below, 2);
        reveal_with_fuel(moved_up, 2);
        assert(kept_below(e, start) =~= if e[0].0 < start {
            seq![e[0]] + kept_below(e.skip(1), start)
        } else {
            kept_below(e.skip(1), start)
        });
        assert(moved_up(e, start, delta) =~= if start <= e[0].0 && e[0].0 + delta <= usize::MAX {
            moved_up(e.skip(1), start, delta).push(((e[0].0 + delta) as usize, e[0].1))
        } else {
            moved_up(e.skip(1), start, delta)
        });
    } else {
        lemma_first_entry(e.drop_last(), start, delta);
        assert(e.drop_last().skip(1) =~= e.skip(1).drop_last());
        assert(e.drop_last()[0] == e[0]);
        assert(e.skip(1).last() == e.last());
        assert(kept_below(e, start) =~= if e[0].0 < start {
            seq![e[0]] + kept_below(e.skip(1), start)
        } else {
            kept_below(e.skip(1), start)
        });
        assert(moved_up(e, start, delta) =~= if start <= e[0].0 && e[0].0 + delta <= usize::MAX {
            moved_up(e.skip(1), start, delta).push(((e[0].0 + delta) as usize, e[0].1))
        } else {
            moved_up(e.skip(1), start, delta)
        });
    }
}

/// Taking all lines from `start` on out leaves those in front of it.
proof fn lemma_cut_all<V>(e: Seq<(usize, V)>, start: int)
    requires
        start >= 1,
    ensures
        rekeyed(e, start, usize::MAX as int, 0) == kept_below(e, start),
    decreases e.len(),
{
    if e.len() > 0 {
        lemma_cut_all(e.drop_last(), start);
    }
}

/// No line is in front of line 0.
proof fn lemma_none_below<V>(e: Seq<(usize, V)>)
    ensures
        kept_below(e, 0) == Seq::<(usize, V)>::empty(),
    decreases e.len(),
{
    if e.len() > 0 {
        lemma_none_below(e.drop_last());
    } else {
        assert(e =~= Seq::empty());
    }
}

/// A bounded map from line index to value, most recently used first.
pub struct RecentMap<V> {
    /// The entries, most recently used first.
    pub entries: Vec<(usize, V)>,
    /// How many entries are kept.
    pub cap: usize,
}

impl<V> RecentMap<V> {
    /// At most `cap` entries, no line twice.
    pub open spec fn wf(&self) -> bool {
        &&& distinct(self.entries@)
        &&& self.entries@.len() <= self.cap
        &&& self.cap >= 1
    }

    /// The value kept for line `k`.
    pub open spec fn value(&self, k: int) -> Option<V> {
        lookup(self.entries@, k)
    }

    /// An empty map that keeps at most `cap` entries.
    pub fn new(cap: usize) -> (r: RecentMap<V>)
        requires
            cap >= 1,
        ensures
            r.wf(),
            r.cap == cap,
            r.entries@ == Seq::<(usize, V)>::empty(),
    {
        RecentMap { entries: Vec::new(), cap }
    }

    /// Position of the entry for line `k`.
    fn find(&self, k: usize) -> (r: Option<usize>)
        requires
            self.wf(),
        ensures
            match r {
                Some(i) => i < self.entries@.len() && self.entries@[i as int].0 == k && holds(
                    self.entries@,
                    k as int,
                ) && place(self.entries@, k as int) == i,
                None => !holds(self.entries@, k as int),
            },
    {
        let mut i: usize = 0;
        while i < self.entries.len()
            invariant
                self.wf(),
                i <= self.entries@.len(),
                forall|j: int| 0 <= j < i ==> (#[trigger] self.entries@[j]).0 != k,
            decreases self.entries@.len() - i,
        {
            if self.entries[i].0 == k {
                proof {
                    lemma_place(self.entries@, i as int);
                }
                return Some(i);
            }
            i = i + 1;
        }
        None
    }

    /// Whether a value is kept for line `k`.
    pub fn contains(&self, k: usize) -> (r: bool)
        requires
            self.wf(),
        ensures
            r == self.value(k as int) is Some,
    {
        self.find(k).is_some()
    }

    /// The value kept for line `k`, without marking it as used.
    pub fn peek(&self, k: usize) -> (r: Option<&V>)
        requires
            self.wf(),
        ensures
            match r {
                Some(v) => self.value(k as int) == Some(*v),
                None => self.value(k as int) is None,
            },
    {
        match self.find(k) {
            Some(i) => Some(&self.entries[i].1),
            None => None,
        }
    }

    /// Drops the value for line `k`.
    pub fn remove(&mut self, k: usize) -> (r: Option<V>)
        requires
            old(self).wf(),
        ensures
            final(self).wf(),
            final(self).cap == old(self).cap,
            final(self).entries@ == removed(old(self).entries@, k as int),
            r == old(self).value(k as int),
            forall|j: int| #[trigger]
                final(self).value(j) == if j == k {
                    None
                } else {
                    old(self).value(j)
                },
    {
        proof {
            lemma_removed(self.entries@, k as int);
        }
        match self.find(k) {
            Some(i) => {
                let (_key, v) = self.entries.remove(i);
                Some(v)
            },
            None => None,
        }
    }

    /// Keeps `v` for line `k`, in front of the other entries.
    pub fn insert(&mut self, k: usize, v: V)
        requires
            old(self).wf(),
        ensures
            final(self).wf(),
            final(self).cap == old(self).cap,
            final(self).entries@ == stored(old(self).entries@, old(self).cap as int, k, v),
            final(self).value(k as int) == Some(v),
            forall|j: int|
                j != k ==> (#[trigger] final(self).value(j) == old(self).value(j) || final(self).value(j) is None),
            old(self).cap == usize::MAX ==> forall|j: int|
                j != k ==> #[trigger] final(self).value(j) == old(self).value(j),
    {
        proof {
            lemma_stored(self.entries@, self.cap as int, k, v);
        }
        let ghost e = self.entries@;
        let _gone = self.remove(k);
        self.entries.insert(0, (k, v));
        assert(self.entries@ =~= seq![(k, v)] + removed(e, k as int));
        if self.entries.len() > self.cap {
            let _last = self.entries.pop();
            assert(self.entries@ =~= stored(e, self.cap as int, k, v));
        } else {
            assert(self.entries@ =~= stored(e, self.cap as int, k, v));
        }
        proof {
            if old(self).cap == usize::MAX && e.len() == usize::MAX && !holds(e, k as int) {
                assert(self.entries@.len() <= usize::MAX);
            }
        }
    }

    /// The value kept for line `k`, marked as just used.
    pub fn get(&mut self, k: usize) -> (r: Option<&V>)
        requires
            old(self).wf(),
        ensures
            final(self).wf(),
            final(self).cap == old(self).cap,
            final(self).entries@ == promoted(old(self).entries@, k as int),
            forall|j: int| #[trigger] final(self).value(j) == old(self).value(j),
            match r {
                Some(v) => old(self).value(k as int) == Some(*v),
                None => old(self).value(k as int) is None,
            },
    {
        proof {
            lemma_promoted(self.entries@, k as int);
        }
        let ghost e = self.entries@;
        match self.find(k) {
            Some(i) => {
                let entry = self.entries.remove(i);
                self.entries.insert(0, entry);
                assert(self.entries@ =~= promoted(e, k as int));
                Some(&self.entries[0].1)
            },
            None => None,
        }
    }

    /// Drops every value.
    pub fn clear(&mut self)
        requires
            old(self).wf(),
        ensures
            final(self).wf(),
            final(self).cap == old(self).cap,
            final(self).entries@ == Seq::<(usize, V)>::empty(),
            forall|j: int| #[trigger] final(self).value(j) is None,
    {
        self.entries.clear();
    }

    /// Moves the entries to new line indices: the `cut` lines from `start` on
    /// lose their entries, and the lines behind them move so that `add` lines
    /// fit in their place.
    fn rekey(&mut self, start: usize, cut: usize, add: usize)
        requires
            old(self).wf(),
            cut == 0 || add == 0,
        ensures
            final(self).wf(),
            final(self).cap == old(self).cap,
            final(self).entries@ == rekeyed(
                old(self).entries@,
                start as int,
                cut as int,
                add as int,
            ),
    {
        let ghost e = self.entries@;
        proof {
            lemma_rekeyed(e, start as int, cut as int, add as int);
        }
        let mut backwards: Vec<(usize, V)> = Vec::new();
        while self.entries.len() > 0
            invariant
                self.cap == old(self).cap,
                self.entries@.len() <= e.len(),
                backwards@.len() == e.len() - self.entries@.len(),
                forall|i: int| 0 <= i < self.entries@.len() ==> self.entries@[i] == e[i],
                forall|i: int|
                    0 <= i < backwards@.len() ==> #[trigger] backwards@[i] == e[e.len() - 1 - i],
            decreases self.entries@.len(),
        {
            if let Some(entry) = self.entries.pop() {
                backwards.push(entry);
            }
        }
        assert(self.entries@ =~= rekeyed(e.take(0), start as int, cut as int, add as int));
        while backwards.len() > 0
            invariant
                self.cap == old(self).cap,
                cut == 0 || add == 0,
                backwards@.len() <= e.len(),
                forall|i: int|
                    0 <= i < backwards@.len() ==> #[trigger] backwards@[i] == e[e.len() - 1 - i],
                self.entries@ == rekeyed(
                    e.take(e.len() - backwards@.len()),
                    start as int,
                    cut as int,
                    add as int,
                ),
            decreases backwards@.len(),
        {
            let ghost n = e.len() - backwards@.len();
            if let Some((k, v)) = backwards.pop() {
                assert(e.take(n + 1).drop_last() =~= e.take(n));
                assert(e.take(n + 1).last() == e[n]);
                if k < start {
                    self.entries.push((k, v));
                } else if k - start < cut {
                } else if add > usize::MAX - (k - cut) {
                } else {
                    self.entries.push((k - cut + add, v));
                }
            }
        }
        assert(e.take(e.len() as int) =~= e);
    }

    /// Moves every value at or behind line `start` up by `delta` lines.
    pub fn shift_lines(&mut self, start: usize, delta: usize)
        requires
            old(self).wf(),
        ensures
            final(self).wf(),
            final(self).cap == old(self).cap,
            final(self).entries@ == rekeyed(old(self).entries@, start as int, 0, delta as int),
            forall|j: int| #[trigger]
                final(self).value(j) == if j < start {
                    old(self).value(j)
                } else if j < start + delta || j > usize::MAX {
                    None
                } else {
                    old(self).value(j - delta)
                },
    {
        proof {
            lemma_rekeyed(self.entries@, start as int, 0, delta as int);
        }
        self.rekey(start, 0, delta);
    }

    /// Drops the values of the `count` lines from `start` on; the values
    /// behind them move down.
    pub fn remove_lines(&mut self, start: usize, count: usize)
        requires
            old(self).wf(),
        ensures
            final(self).wf(),
            final(self).cap == old(self).cap,
            final(self).entries@ == rekeyed(old(self).entries@, start as int, count as int, 0),
            forall|j: int| #[trigger]
                final(self).value(j) == if j < start {
                    old(self).value(j)
                } else if j > usize::MAX {
                    None
                } else {
                    old(self).value(j + count)
                },
    {
        proof {
            lemma_rekeyed(self.entries@, start as int, count as int, 0);
        }
        self.rekey(start, count, 0);
    }

    /// Drops the values of all lines at or behind `start`.
    pub fn invalidate_from(&mut self, start: usize)
        requires
            old(self).wf(),
        ensures
            final(self).wf(),
            final(self).cap == old(self).cap,
            final(self).entries@ == kept_below(old(self).entries@, start as int),
            forall|j: int| #[trigger]
                final(self).value(j) == if j < start {
                    old(self).value(j)
                } else {
                    None
                },
    {
        let ghost before = self.entries@;
        if start == 0 {
            proof {
                lemma_none_below(before);
            }
            self.clear();
            return;
        }
        proof {
            lemma_cut_all(before, start as int);
            lemma_rekeyed(before, start as int, usize::MAX as int, 0);
        }
        self.rekey(start, usize::MAX, 0);
        proof {
            assert forall|j: int| start <= j implies #[trigger] self.value(j) is None by {
                if holds(before, j + usize::MAX) {
                    let p = place(before, j + usize::MAX);
                    assert(before[p].0 == j + usize::MAX);
                }
            }
        }
    }
}

} // verus!
