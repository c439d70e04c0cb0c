//! The cache of materialized lines: `lru::LruCache`, by line index.
//!
//! What the cache holds is named by [`lru_entries`], most recently used entry
//! first; how many entries it keeps is named by [`lru_cap`].

use std::num::NonZeroUsize;

use vstd::prelude::*;

use crate::line::BufferLine;
use crate::recency::{holds, lookup, promoted, removed, stored};

verus! {

/// `lru::LruCache`.
#[verifier::external_type_specification]
#[verifier::external_body]
#[verifier::reject_recursive_types(K)]
#[verifier::reject_recursive_types(V)]
#[verifier::reject_recursive_types(S)]
pub struct ExLruCache<K, V, S>(lru::LruCache<K, V, S>);

/// The hasher that `lru::LruCache` uses unless it is told otherwise.
#[verifier::external_type_specification]
#[verifier::external_body]
pub struct ExLruHasher(lru::DefaultHasher);

/// The entries of a cache, most recently used first.
pub uninterp spec fn lru_entries(cache: lru::LruCache<usize, BufferLine>) -> Seq<(usize, BufferLine)>;

/// The number of entries that a cache was made to keep.
pub uninterp spec fn lru_cap(cache: lru::LruCache<usize, BufferLine>) -> nat;

/// `LruCache::new`: an empty cache that keeps at most `cap` entries. It
/// allocates room for all of them at once, so `cap` is bounded.
#[verifier::external_body]
pub(crate) fn lru_new(cap: usize) -> (r: lru::LruCache<usize, BufferLine>)
    requires
        0 < cap <= 0x1_0000,
    ensures
        lru_entries(r) == Seq::<(usize, BufferLine)>::empty(),
        lru_cap(r) == cap,
{
    lru::LruCache::new(NonZeroUsize::new(cap).unwrap())
}

/// `LruCache::contains`: whether there is an entry for line `k`. The order of
/// the entries stays.
#[verifier::external_body]
pub(crate) fn lru_contains(cache: &lru::LruCache<usize, BufferLine>, k: usize) -> (r: bool)
    ensures
        r == holds(lru_entries(*cache), k as int),
{
    cache.contains(&k)
}

/// `LruCache::put`: the line becomes the first entry, in place of an earlier
/// entry for `k`; a full cache that had none drops its last entry.
#[verifier::external_body]
pub(crate) fn lru_put(cache: &mut lru::LruCache<usize, BufferLine>, k: usize, line: BufferLine)
    ensures
        lru_cap(*final(cache)) == lru_cap(*old(cache)),
        lru_entries(*final(cache)) == stored(
            lru_entries(*old(cache)),
            lru_cap(*old(cache)) as int,
            k,
            line,
        ),
{
    cache.put(k, line);
}

/// `LruCache::get`: the line kept for `k`, whose entry moves to the front.
#[verifier::external_body]
pub(crate) fn lru_get<'a>(cache: &'a mut lru::LruCache<usize, BufferLine>, k: usize) -> (r: Option<
    &'a BufferLine,
>)
    ensures
        lru_cap(*final(cache)) == lru_cap(*old(cache)),
        lru_entries(*final(cache)) == promoted(lru_entries(*old(cache)), k as int),
        match r {
            Some(line) => lookup(lru_entries(*old(cache)), k as int) == Some(*line),
            None => lookup(lru_entries(*old(cache)), k as int) is None,
        },
{
    cache.get(&k)
}

/// `LruCache::peek`: the line kept for `k`. The order of the entries stays.
#[verifier::external_body]
pub(crate) fn lru_peek<'a>(cache: &'a lru::LruCache<usize, BufferLine>, k: usize) -> (r: Option<
    &'a BufferLine,
>)
    ensures
        match r {
            Some(line) => lookup(lru_entries(*cache), k as int) == Some(*line),
            None => lookup(lru_entries(*cache), k as int) is None,
        },
{
    cache.peek(&k)
}

/// `LruCache::pop`: takes the entry for `k` out and returns its line.
#[verifier::external_body]
pub(crate) fn lru_pop(cache: &mut lru::LruCache<usize, BufferLine>, k: usize) -> (r: Option<BufferLine>)
    ensures
        lru_cap(*final(cache)) == lru_cap(*old(cache)),
        lru_entries(*final(cache)) == removed(lru_entries(*old(cache)), k as int),
        r == lookup(lru_entries(*old(cache)), k as int),
{
    cache.pop(&k)
}

/// `LruCache::iter`: the keys of the entries, most recently used first.
#[verifier::external_body]
pub(crate) fn lru_keys(cache: &lru::LruCache<usize, BufferLine>) -> (r: Vec<usize>)
    ensures
        r@ == lru_entries(*cache).map_values(|e: (usize, BufferLine)| e.0),
{
    cache.iter().map(|(k, _)| *k).collect()
}

} // verus!
