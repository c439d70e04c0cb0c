//! What holds of entries that are kept by how recently they were used.

use vstd::prelude::*;

use crate::recency::{
    distinct, holds, lemma_dropped_last, lemma_place, lemma_promoted, lemma_removed, lemma_stored,
    lookup, place, promoted, removed, stored,
};

verus! {

/// A value that is stored is found, as the one that was used last. If there is
/// no more room, the entry that has not been used for longest makes room for it,
/// and no other entry is lost.
pub proof fn law_the_least_recent_entry_makes_room<V>(
    e: Seq<(usize, V)>,
    cap: int,
    k: usize,
    v: V,
    j: int,
)
    requires
        distinct(e),
        e.len() <= cap,
        cap >= 1,
        j != k,
    ensures
        stored(e, cap, k, v).len() <= cap,
        stored(e, cap, k, v)[0] == (k, v),
        lookup(stored(e, cap, k, v), k as int) == Some(v),
        e.len() < cap || holds(e, k as int) ==> lookup(stored(e, cap, k, v), j) == lookup(e, j),
        e.len() == cap && !holds(e, k as int) ==> {
            &&& j == e[e.len() - 1].0 ==> lookup(stored(e, cap, k, v), j) is None
            &&& j != e[e.len() - 1].0 ==> lookup(stored(e, cap, k, v), j) == lookup(e, j)
        },
{
    lemma_stored(e, cap, k, v);
    lemma_removed(e, k as int);
    let rest = removed(e, k as int);
    let all = seq![(k, v)] + rest;
    assert(lookup(rest, k as int) is None);
    lemma_in_front(rest, k, v, j);
    if all.len() > cap {
        lemma_in_front_distinct(rest, k, v);
        lemma_dropped_last(all);
        assert(rest == e);
        assert(all.last() == e[e.len() - 1]);
    }
}

proof fn lemma_in_front_distinct<V>(e: Seq<(usize, V)>, k: usize, v: V)
    requires
        distinct(e),
        !holds(e, k as int),
    ensures
        distinct(seq![(k, v)] + e),
{
    let all = seq![(k, v)] + e;
    assert forall|i: int, l: int|
        0 <= i < all.len() && 0 <= l < all.len() && i != l implies (#[trigger] all[i]).0 != (
    #[trigger] all[l]).0 by {
        if i > 0 {
            assert(all[i] == e[i - 1]);
        }
        if l > 0 {
            assert(all[l] == e[l - 1]);
        }
    }
}

proof fn lemma_in_front<V>(e: Seq<(usize, V)>, k: usize, v: V, j: int)
    requires
        distinct(e),
        !holds(e, k as int),
        j != k,
    ensures
        lookup(seq![(k, v)] + e, j) == lookup(e, j),
{
    let all = seq![(k, v)] + e;
    lemma_in_front_distinct(e, k, v);
    if holds(e, j) {
        let p = place(e, j);
        assert(e[p].0 == j);
        assert(all[p + 1] == e[p]);
        lemma_place(all, p + 1);
    } else if holds(all, j) {
        let p = place(all, j);
        assert(all[p].0 == j);
        assert(e[p - 1].0 == j);
    }
}

/// Looking a value up makes it the one that was used last, and loses nothing.
pub proof fn law_what_is_used_comes_first<V>(e: Seq<(usize, V)>, k: int, j: int)
    requires
        distinct(e),
        holds(e, k),
    ensures
        promoted(e, k).len() == e.len(),
        promoted(e, k)[0].0 == k,
        lookup(promoted(e, k), j) == lookup(e, j),
{
    lemma_promoted(e, k);
    assert(e[place(e, k)].0 == k);
}

} // verus!
