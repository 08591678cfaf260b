//! A size-bounded LRU cache of chunk bytes, kept in an `lru::LruCache`.
use vstd::prelude::*;

use std::collections::hash_map::RandomState;

use crate::types::ChunkId;

verus! {

#[verifier::external_type_specification]
#[verifier::external_body]
#[verifier::reject_recursive_types(K)]
#[verifier::reject_recursive_types(V)]
#[verifier::reject_recursive_types(S)]
pub struct ExLruCache<K, V, S>(lru::LruCache<K, V, S>);

/// A cached chunk: its identifier bytes and its contents.
pub type Entry = ([u8; 32], Seq<u8>);

/// The entries an LRU cache of chunks holds, from the least recently used
/// to the most recently used.
pub uninterp spec fn lru_entries(c: lru::LruCache<[u8; 32], Vec<u8>, RandomState>) -> Seq<([u8; 32], Seq<u8>)>;

/// The number of entries an LRU cache was made to hold.
pub uninterp spec fn lru_cap(c: lru::LruCache<[u8; 32], Vec<u8>, RandomState>) -> nat;

/// No key occurs twice.
pub open spec fn distinct_keys(s: Seq<Entry>) -> bool {
    forall|i: int, j: int|
        0 <= i < s.len() && 0 <= j < s.len() && i != j ==> (#[trigger] s[i]).0 != (#[trigger] s[j]).0
}

/// Whether `k` is among the keys.
pub open spec fn has_key(s: Seq<Entry>, k: [u8; 32]) -> bool {
    exists|i: int| 0 <= i < s.len() && (#[trigger] s[i]).0 == k
}

/// The position of key `k` (meaningful when `has_key(s, k)`).
pub open spec fn key_pos(s: Seq<Entry>, k: [u8; 32]) -> int {
    choose|i: int| 0 <= i < s.len() && (#[trigger] s[i]).0 == k
}

/// The shape every LRU cache value has: distinct keys, at most `cap` of them.
pub open spec fn lru_ok(c: lru::LruCache<[u8; 32], Vec<u8>, RandomState>) -> bool {
    &&& distinct_keys(lru_entries(c))
    &&& 0 < lru_cap(c)
    &&& lru_entries(c).len() <= lru_cap(c)
}

/// `LruCache::put` on entries `s` of a cache holding at most `cap`: a present
/// key gets the new value and becomes most recent (the old value is
/// returned); otherwise the entry is added as most recent, pushing out the
/// least recent entry when the cache is full.
pub open spec fn lru_put_model(s: Seq<Entry>, cap: nat, k: [u8; 32], v: Seq<u8>) -> (
    Seq<Entry>,
    Option<Seq<u8>>,
) {
    if has_key(s, k) {
        let i = key_pos(s, k);
        (s.remove(i).push((k, v)), Some(s[i].1))
    } else if s.len() >= cap {
        (s.drop_first().push((k, v)), None)
    } else {
        (s.push((k, v)), None)
    }
}

/// `LruCache::get` on entries `s`: a present key becomes most recent and its
/// value is returned.
pub open spec fn lru_get_model(s: Seq<Entry>, k: [u8; 32]) -> (Seq<Entry>, Option<Seq<u8>>) {
    if has_key(s, k) {
        let i = key_pos(s, k);
        (s.remove(i).push(s[i]), Some(s[i].1))
    } else {
        (s, None)
    }
}

/// `LruCache::pop` on entries `s`: a present key is removed and its value
/// returned.
pub open spec fn lru_pop_model(s: Seq<Entry>, k: [u8; 32]) -> (Seq<Entry>, Option<Seq<u8>>) {
    if has_key(s, k) {
        let i = key_pos(s, k);
        (s.remove(i), Some(s[i].1))
    } else {
        (s, None)
    }
}

/// The view of an optional byte vector.
pub open spec fn opt_bytes(o: Option<Vec<u8>>) -> Option<Seq<u8>> {
    match o {
        Some(v) => Some(v@),
        None => None,
    }
}

/// `LruCache::with_hasher`: an empty cache that holds at most `cap`
/// entries (keyed through std's randomly seeded hasher).
#[verifier::external_body]
fn lru_new(cap: usize) -> (c: lru::LruCache<[u8; 32], Vec<u8>, RandomState>)
    requires
        cap > 0,
    ensures
        lru_entries(c) == Seq::<Entry>::empty(),
        lru_cap(c) == cap,
{
    lru::LruCache::with_hasher(std::num::NonZeroUsize::new(cap).unwrap(), RandomState::new())
}

/// `LruCache::put`, as `lru_put_model` describes it.
#[verifier::external_body]
fn lru_put(c: &mut lru::LruCache<[u8; 32], Vec<u8>, RandomState>, k: [u8; 32], v: Vec<u8>) -> (r: Option<
    Vec<u8>,
>)
    requires
        lru_ok(*old(c)),
    ensures
        lru_ok(*final(c)),
        lru_cap(*final(c)) == lru_cap(*old(c)),
        lru_entries(*final(c)) == lru_put_model(lru_entries(*old(c)), lru_cap(*old(c)), k, v@).0,
        opt_bytes(r) == lru_put_model(lru_entries(*old(c)), lru_cap(*old(c)), k, v@).1,
{
    c.put(k, v)
}

/// `LruCache::get` (the value cloned out), as `lru_get_model` describes it.
#[verifier::external_body]
fn lru_get(c: &mut lru::LruCache<[u8; 32], Vec<u8>, RandomState>, k: &[u8; 32]) -> (r: Option<Vec<u8>>)
    requires
        lru_ok(*old(c)),
    ensures
        lru_ok(*final(c)),
        lru_cap(*final(c)) == lru_cap(*old(c)),
        lru_entries(*final(c)) == lru_get_model(lru_entries(*old(c)), *k).0,
        opt_bytes(r) == lru_get_model(lru_entries(*old(c)), *k).1,
{
    c.get(k).cloned()
}

/// `LruCache::pop`, as `lru_pop_model` describes it.
#[verifier::external_body]
fn lru_pop(c: &mut lru::LruCache<[u8; 32], Vec<u8>, RandomState>, k: &[u8; 32]) -> (r: Option<Vec<u8>>)
    requires
        lru_ok(*old(c)),
    ensures
        lru_ok(*final(c)),
        lru_cap(*final(c)) == lru_cap(*old(c)),
        lru_entries(*final(c)) == lru_pop_model(lru_entries(*old(c)), *k).0,
        opt_bytes(r) == lru_pop_model(lru_entries(*old(c)), *k).1,
{
    c.pop(k)
}

/// `LruCache::pop_lru`: removes and returns the least recently used entry.
#[verifier::external_body]
fn lru_pop_lru(c: &mut lru::LruCache<[u8; 32], Vec<u8>, RandomState>) -> (r: Option<([u8; 32], Vec<u8>)>)
    requires
        lru_ok(*old(c)),
    ensures
        lru_ok(*final(c)),
        lru_cap(*final(c)) == lru_cap(*old(c)),
        lru_entries(*old(c)).len() == 0 ==> r is None && lru_entries(*final(c)) == lru_entries(
            *old(c),
        ),
        lru_entries(*old(c)).len() > 0 ==> (r matches Some(e) && e.0 == lru_entries(*old(c))[0].0
            && e.1@ == lru_entries(*old(c))[0].1 && lru_entries(*final(c)) == lru_entries(
            *old(c),
        ).drop_first()),
{
    c.pop_lru()
}

/// `LruCache::len`: the number of entries.
#[verifier::external_body]
fn lru_len(c: &lru::LruCache<[u8; 32], Vec<u8>, RandomState>) -> (r: usize)
    ensures
        r == lru_entries(*c).len(),
{
    c.len()
}

/// The total number of bytes held by the entries.
pub open spec fn total_len(s: Seq<Entry>) -> nat
    decreases s.len(),
{
    if s.len() == 0 {
        0
    } else {
        s[0].1.len() + total_len(s.drop_first())
    }
}

/// The entry for key `k`, if any.
pub open spec fn lookup(s: Seq<Entry>, k: [u8; 32]) -> Option<Seq<u8>> {
    if has_key(s, k) {
        Some(s[key_pos(s, k)].1)
    } else {
        None
    }
}

/// The abstract state of a chunk cache.
pub struct CacheView {
    /// Cached chunks from the least to the most recently used.
    pub entries: Seq<Entry>,
    /// How many entries the underlying LRU holds at most.
    pub cap: nat,
    /// Bytes the cache counts as held.
    pub current_size: nat,
    /// Lookups that found their chunk.
    pub hits: nat,
    /// Lookups that did not.
    pub misses: nat,
    /// The byte budget.
    pub max_size: nat,
}

/// The invariant of a chunk cache: distinct keys, at most `cap` entries,
/// and a byte count that is exactly the bytes the entries hold, within the
/// budget.
pub open spec fn cache_ok(v: CacheView) -> bool {
    &&& distinct_keys(v.entries)
    &&& 0 < v.cap
    &&& v.entries.len() <= v.cap
    &&& v.current_size == total_len(v.entries)
    &&& v.current_size <= v.max_size
}

/// Pops least recently used entries while the byte count leaves no room for
/// `len` more bytes under `max`; gives the remaining entries and byte count.
pub open spec fn evict(s: Seq<Entry>, current: int, len: int, max: int) -> (Seq<Entry>, int)
    decreases s.len(),
{
    if current + len > max && s.len() > 0 {
        evict(s.drop_first(), current - s[0].1.len(), len, max)
    } else {
        (s, current)
    }
}

/// The state after a lookup of `k`, and what it returns.
pub open spec fn cache_get(v: CacheView, k: [u8; 32]) -> (CacheView, Option<Seq<u8>>) {
    let (s, r) = lru_get_model(v.entries, k);
    if r is Some {
        (CacheView { entries: s, hits: v.hits + 1, ..v }, r)
    } else {
        (CacheView { misses: v.misses + 1, ..v }, r)
    }
}

/// Makes room for `k` among the entries `s` of an LRU holding at most `cap`
/// (whose bytes come to `cur`): `k`'s old entry leaves, or, when the LRU is
/// full, its least recently used entry; gives the entries left and their
/// bytes.
pub open spec fn make_room(s: Seq<Entry>, cap: nat, k: [u8; 32], cur: int) -> (Seq<Entry>, int) {
    if has_key(s, k) {
        let i = key_pos(s, k);
        (s.remove(i), cur - s[i].1.len())
    } else if s.len() >= cap && s.len() > 0 {
        (s.drop_first(), cur - s[0].1.len())
    } else {
        (s, cur)
    }
}

/// The state after inserting chunk `k` with bytes `d`: a chunk larger than
/// the whole budget is not cached; otherwise least recently used entries
/// are evicted until it fits, room is made for it (its old entry, or the
/// least recently used one when the LRU is full, leaves), and it is added
/// as the most recently used, its bytes counted.
pub open spec fn cache_insert(v: CacheView, k: [u8; 32], d: Seq<u8>) -> CacheView {
    if d.len() > v.max_size {
        v
    } else {
        let (s1, cs1) = evict(v.entries, v.current_size as int, d.len() as int, v.max_size as int);
        let (s2, cs2) = make_room(s1, v.cap, k, cs1);
        CacheView { entries: s2.push((k, d)), current_size: (cs2 + d.len()) as nat, ..v }
    }
}

/// The state after dropping chunk `k` from the cache.
pub open spec fn cache_invalidate(v: CacheView, k: [u8; 32]) -> CacheView {
    let (s, r) = lru_pop_model(v.entries, k);
    match r {
        Some(o) => CacheView { entries: s, current_size: (v.current_size - o.len()) as nat, ..v },
        None => v,
    }
}

/// How many entries a cache with a budget of `max_size` bytes is made to
/// hold: one per 2 MiB, and at least 64.
pub open spec fn estimated_entries(max_size: nat) -> nat {
    let n = max_size / 2097152;
    if n < 64 {
        64
    } else {
        n
    }
}

/// Cache counters and sizes.
#[derive(Debug, Clone)]
pub struct CacheStats {
    pub hits: u64,
    pub misses: u64,
    pub current_size: usize,
    pub max_size: usize,
    pub entry_count: usize,
}

/// Size-bounded LRU cache for chunk data.
pub struct ChunkCache {
    cache: lru::LruCache<[u8; 32], Vec<u8>, RandomState>,
    capacity: usize,
    current_size: usize,
    hits: u64,
    misses: u64,
    max_size: usize,
}

impl View for ChunkCache {
    type V = CacheView;

    closed spec fn view(&self) -> CacheView {
        CacheView {
            entries: lru_entries(self.cache),
            cap: lru_cap(self.cache),
            current_size: self.current_size as nat,
            hits: self.hits as nat,
            misses: self.misses as nat,
            max_size: self.max_size as nat,
        }
    }
}

proof fn lemma_total_push(s: Seq<Entry>, e: Entry)
    ensures
        total_len(s.push(e)) == total_len(s) + e.1.len(),
    decreases s.len(),
{
    let t = s.push(e);
    if s.len() > 0 {
        lemma_total_push(s.drop_first(), e);
        assert(t.drop_first() =~= s.drop_first().push(e));
        assert(t[0] == s[0]);
        assert(total_len(t) == t[0].1.len() + total_len(t.drop_first()));
    } else {
        assert(t.drop_first() =~= Seq::<Entry>::empty());
        assert(total_len(t) == t[0].1.len() + total_len(t.drop_first()));
        assert(total_len(t.drop_first()) == 0);
    }
}

proof fn lemma_total_remove(s: Seq<Entry>, i: int)
    requires
        0 <= i < s.len(),
    ensures
        total_len(s.remove(i)) + s[i].1.len() == total_len(s),
    decreases s.len(),
{
    if i == 0 {
        assert(s.remove(0) =~= s.drop_first());
    } else {
        lemma_total_remove(s.drop_first(), i - 1);
        assert(s.remove(i).drop_first() =~= s.drop_first().remove(i - 1));
    }
}

proof fn lemma_make_room(s: Seq<Entry>, cap: nat, k: [u8; 32], cur: int, d: Seq<u8>)
    requires
        distinct_keys(s),
        0 < cap,
        s.len() <= cap,
        cur == total_len(s),
    ensures
        ({
            let (s2, c2) = make_room(s, cap, k, cur);
            &&& distinct_keys(s2)
            &&& !has_key(s2, k)
            &&& s2.len() < cap
            &&& c2 == total_len(s2)
            &&& c2 <= cur
            &&& distinct_keys(s2.push((k, d)))
            &&& total_len(s2.push((k, d))) == c2 + d.len()
            &&& lookup(s2.push((k, d)), k) == Some(d)
            &&& lru_put_model(s2, cap, k, d) == (s2.push((k, d)), None::<Seq<u8>>)
        }),
{
    let (s2, c2) = make_room(s, cap, k, cur);
    if has_key(s, k) {
        let i = key_pos(s, k);
        lemma_total_remove(s, i);
        lemma_distinct_remove(s, i);
        assert(!has_key(s2, k)) by {
            if has_key(s2, k) {
                let j = choose|j: int| 0 <= j < s2.len() && (#[trigger] s2[j]).0 == k;
                assert(s[i].0 == k);
            }
        }
    } else if s.len() >= cap && s.len() > 0 {
        lemma_total_remove(s, 0);
        assert(s.remove(0) =~= s.drop_first());
        lemma_distinct_remove(s, 0);
        assert(!has_key(s2, k)) by {
            if has_key(s2, k) {
                let j = choose|j: int| 0 <= j < s2.len() && (#[trigger] s2[j]).0 == k;
                assert(s2[j] == s[j + 1]);
            }
        }
    }
    lemma_distinct_push(s2, (k, d));
    lemma_total_push(s2, (k, d));
}

proof fn lemma_distinct_remove(s: Seq<Entry>, p: int)
    requires
        distinct_keys(s),
        0 <= p < s.len(),
    ensures
        distinct_keys(s.remove(p)),
        forall|i: int| 0 <= i < s.remove(p).len() ==> (#[trigger] s.remove(p)[i]).0 != s[p].0,
{
    let t = s.remove(p);
    assert forall|i: int, j: int|
        0 <= i < t.len() && 0 <= j < t.len() && i != j implies (#[trigger] t[i]).0 != (#[trigger] t[j]).0 by {
        let ii = if i < p { i } else { i + 1 };
        let jj = if j < p { j } else { j + 1 };
        assert(t[i] == s[ii] && t[j] == s[jj]);
    }
    assert forall|i: int| 0 <= i < t.len() implies (#[trigger] t[i]).0 != s[p].0 by {
        let ii = if i < p { i } else { i + 1 };
        assert(t[i] == s[ii]);
    }
}

proof fn lemma_distinct_push(base: Seq<Entry>, e: Entry)
    requires
        distinct_keys(base),
        !has_key(base, e.0),
    ensures
        distinct_keys(base.push(e)),
        has_key(base.push(e), e.0),
        key_pos(base.push(e), e.0) == base.len(),
{
    let s2 = base.push(e);
    assert forall|i: int, j: int|
        0 <= i < s2.len() && 0 <= j < s2.len() && i != j implies (#[trigger] s2[i]).0 != (#[trigger] s2[j]).0 by {
        if i < base.len() && j < base.len() {
            assert(s2[i] == base[i] && s2[j] == base[j]);
        } else if i < base.len() {
            assert(s2[i] == base[i]);
        } else {
            assert(s2[j] == base[j]);
        }
    }
    assert(s2[base.len() as int].0 == e.0);
    let p = key_pos(s2, e.0);
    if p != base.len() {
        assert(s2[p] == base[p]);
    }
}

proof fn lemma_evict(s: Seq<Entry>, cur: int, len: int, max: int)
    requires
        distinct_keys(s),
        cur == total_len(s),
    ensures
        ({
            let (s1, c1) = evict(s, cur, len, max);
            &&& distinct_keys(s1)
            &&& s1.len() <= s.len()
            &&& total_len(s1) == c1 <= cur
            &&& (c1 + len <= max || s1.len() == 0)
        }),
    decreases s.len(),
{
    if cur + len > max && s.len() > 0 {
        let t = s.drop_first();
        assert(distinct_keys(t)) by {
            assert forall|i: int, j: int|
                0 <= i < t.len() && 0 <= j < t.len() && i != j implies (#[trigger] t[i]).0 != (#[trigger] t[j]).0 by {
                assert(t[i] == s[i + 1] && t[j] == s[j + 1]);
            }
        }
        lemma_evict(t, cur - s[0].1.len(), len, max);
    }
}

proof fn lemma_touch(s: Seq<Entry>, k: [u8; 32])
    requires
        distinct_keys(s),
    ensures
        total_len(lru_get_model(s, k).0) == total_len(s),
        distinct_keys(lru_get_model(s, k).0),
        lru_get_model(s, k).0.len() == s.len(),
{
    if has_key(s, k) {
        let i = key_pos(s, k);
        let s2 = s.remove(i).push(s[i]);
        lemma_total_remove(s, i);
        lemma_total_push(s.remove(i), s[i]);
        assert forall|a: int, b: int|
            0 <= a < s2.len() && 0 <= b < s2.len() && a != b implies (#[trigger] s2[a]).0 != (#[trigger] s2[b]).0 by {
            let aa = if a == s.len() - 1 { i } else if a < i { a } else { a + 1 };
            let bb = if b == s.len() - 1 { i } else if b < i { b } else { b + 1 };
            assert(s2[a] == s[aa] && s2[b] == s[bb]);
        }
    }
}

proof fn lemma_pop(s: Seq<Entry>, k: [u8; 32])
    requires
        distinct_keys(s),
    ensures
        ({
            let (s2, r) = lru_pop_model(s, k);
            &&& distinct_keys(s2)
            &&& s2.len() <= s.len()
            &&& !has_key(s2, k)
            &&& match r {
                Some(o) => total_len(s2) + o.len() == total_len(s),
                None => s2 == s,
            }
        }),
{
    if has_key(s, k) {
        let i = key_pos(s, k);
        let s2 = s.remove(i);
        lemma_total_remove(s, i);
        assert forall|a: int, b: int|
            0 <= a < s2.len() && 0 <= b < s2.len() && a != b implies (#[trigger] s2[a]).0 != (#[trigger] s2[b]).0 by {
            let aa = if a < i { a } else { a + 1 };
            let bb = if b < i { b } else { b + 1 };
            assert(s2[a] == s[aa] && s2[b] == s[bb]);
        }
        if has_key(s2, k) {
            let j = key_pos(s2, k);
            let jj = if j < i { j } else { j + 1 };
            assert(s2[j] == s[jj]);
        }
    }
}

/// Every cache operation keeps the cache's invariant: keys stay distinct,
/// the entry count stays within the LRU's capacity, and the byte count is
/// exactly the bytes the entries hold, within the budget.
pub proof fn lemma_cache_ops_keep_invariant(v: CacheView, k: [u8; 32], d: Seq<u8>)
    requires
        cache_ok(v),
    ensures
        cache_ok(cache_get(v, k).0),
        cache_ok(cache_insert(v, k, d)),
        cache_ok(cache_invalidate(v, k)),
{
    lemma_touch(v.entries, k);
    lemma_pop(v.entries, k);
    if d.len() <= v.max_size {
        let (s1, cs1) = evict(v.entries, v.current_size as int, d.len() as int, v.max_size as int);
        lemma_evict(v.entries, v.current_size as int, d.len() as int, v.max_size as int);
        lemma_make_room(s1, v.cap, k, cs1, d);
    }
}

/// A chunk that fits the budget is found right after it is inserted, with
/// the bytes inserted.
pub proof fn lemma_insert_then_get(v: CacheView, k: [u8; 32], d: Seq<u8>)
    requires
        cache_ok(v),
        d.len() <= v.max_size,
    ensures
        cache_get(cache_insert(v, k, d), k).1 == Some(d),
{
    let (s1, cs1) = evict(v.entries, v.current_size as int, d.len() as int, v.max_size as int);
    lemma_evict(v.entries, v.current_size as int, d.len() as int, v.max_size as int);
    lemma_make_room(s1, v.cap, k, cs1, d);
    let s3 = make_room(s1, v.cap, k, cs1).0.push((k, d));
    lemma_touch(s3, k);
}

/// A chunk larger than the whole budget is never cached: inserting it
/// changes nothing.
pub proof fn lemma_oversized_insert_ignored(v: CacheView, k: [u8; 32], d: Seq<u8>)
    requires
        d.len() > v.max_size,
    ensures
        cache_insert(v, k, d) == v,
{
}

/// After a chunk is invalidated, looking it up misses.
pub proof fn lemma_invalidate_then_miss(v: CacheView, k: [u8; 32])
    requires
        cache_ok(v),
    ensures
        cache_get(cache_invalidate(v, k), k).1 is None,
        cache_get(cache_invalidate(v, k), k).0.misses == v.misses + 1,
{
    lemma_pop(v.entries, k);
}

/// A lookup counts exactly one hit or one miss, and a hit returns what the
/// cache holds for the chunk.
pub proof fn lemma_get_counts(v: CacheView, k: [u8; 32])
    requires
        cache_ok(v),
    ensures
        cache_get(v, k).1 == lookup(v.entries, k),
        cache_get(v, k).0.hits + cache_get(v, k).0.misses == v.hits + v.misses + 1,
        cache_get(v, k).0.current_size == v.current_size,
{
}

impl ChunkCache {
    /// The cache's invariant.
    pub closed spec fn wf(&self) -> bool {
        &&& cache_ok(self@)
        &&& self.capacity == lru_cap(self.cache)
    }

    /// An empty cache with a budget of `max_size` bytes; its LRU holds one
    /// entry per 2 MiB of budget, and at least 64.
    pub fn new(max_size: usize) -> (c: Self)
        ensures
            c.wf(),
            c@ == (CacheView {
                entries: Seq::empty(),
                cap: estimated_entries(max_size as nat),
                current_size: 0,
                hits: 0,
                misses: 0,
                max_size: max_size as nat,
            }),
    {
        let mut n = max_size / 2097152;
        if n < 64 {
            n = 64;
        }
        ChunkCache { cache: lru_new(n), capacity: n, current_size: 0, hits: 0, misses: 0, max_size }
    }

    /// Looks a chunk up, counting a hit or a miss; a hit makes the chunk the
    /// most recently used.
    pub fn get(&mut self, chunk_id: &ChunkId) -> (r: Option<Vec<u8>>)
        requires
            old(self).wf(),
            old(self)@.hits < u64::MAX,
            old(self)@.misses < u64::MAX,
        ensures
            final(self).wf(),
            final(self)@ == cache_get(old(self)@, chunk_id.0).0,
            opt_bytes(r) == cache_get(old(self)@, chunk_id.0).1,
    {
        proof {
            lemma_touch(self@.entries, chunk_id.0);
        }
        let r = lru_get(&mut self.cache, &chunk_id.0);
        match r {
            Some(_) => {
                self.hits = self.hits + 1;
            },
            None => {
                self.misses = self.misses + 1;
            },
        }
        r
    }

    /// Caches a chunk, evicting least recently used chunks until it fits;
    /// a chunk larger than the whole budget is not cached.
    pub fn insert(&mut self, chunk_id: ChunkId, data: Vec<u8>)
        requires
            old(self).wf(),
        ensures
            final(self).wf(),
            final(self)@ == cache_insert(old(self)@, chunk_id.0, data@),
    {
        let data_len = data.len();
        if data_len > self.max_size {
            return;
        }
        let ghost v0 = self@;
        let ghost target = evict(v0.entries, v0.current_size as int, data_len as int, v0.max_size as int);
        proof {
            lemma_evict(v0.entries, v0.current_size as int, data_len as int, v0.max_size as int);
        }
        let mut go = (self.current_size > self.max_size || data_len > self.max_size - self.current_size)
            && lru_len(&self.cache) > 0;
        while go
            invariant
                self.wf(),
                self.max_size == v0.max_size,
                self.hits == v0.hits,
                self.misses == v0.misses,
                lru_cap(self.cache) == v0.cap,
                data_len == data@.len(),
                data_len <= self.max_size,
                self.current_size <= v0.current_size,
                evict(self@.entries, self.current_size as int, data_len as int, self.max_size as int)
                    == target,
                go == (self.current_size + data_len > self.max_size && self@.entries.len() > 0),
            decreases self@.entries.len(),
        {
            let ghost s = self@.entries;
            let popped = lru_pop_lru(&mut self.cache);
            match popped {
                Some(e) => {
                    proof {
                        assert(total_len(s) == s[0].1.len() + total_len(s.drop_first()));
                        assert(distinct_keys(s.drop_first())) by {
                            assert forall|i: int, j: int|
                                0 <= i < s.drop_first().len() && 0 <= j < s.drop_first().len() && i != j
                                implies (#[trigger] s.drop_first()[i]).0 != (#[trigger] s.drop_first()[j]).0 by {
                                assert(s.drop_first()[i] == s[i + 1] && s.drop_first()[j] == s[j + 1]);
                            }
                        }
                    }
                    self.current_size = self.current_size - e.1.len();
                },
                None => {},
            }
            go = (self.current_size > self.max_size || data_len > self.max_size - self.current_size)
                && lru_len(&self.cache) > 0;
        }
        let ghost s1 = self@.entries;
        let ghost c1 = self.current_size as int;
        proof {
            lemma_make_room(s1, self@.cap, chunk_id.0, c1, data@);
            lemma_pop(s1, chunk_id.0);
        }
        let old = lru_pop(&mut self.cache, &chunk_id.0);
        match old {
            Some(o) => {
                self.current_size = self.current_size - o.len();
            },
            None => {
                if lru_len(&self.cache) >= self.capacity {
                    proof {
                        assert(total_len(s1) == s1[0].1.len() + total_len(s1.drop_first()));
                    }
                    let lru = lru_pop_lru(&mut self.cache);
                    match lru {
                        Some(e) => {
                            self.current_size = self.current_size - e.1.len();
                        },
                        None => {},
                    }
                }
            },
        }
        assert(lru_entries(self.cache) == make_room(s1, self@.cap, chunk_id.0, c1).0);
        assert(self.current_size == make_room(s1, self@.cap, chunk_id.0, c1).1);
        let _ = lru_put(&mut self.cache, chunk_id.0, data);
        self.current_size = self.current_size + data_len;
    }

    /// Drops a chunk from the cache.
    pub fn invalidate(&mut self, chunk_id: &ChunkId)
        requires
            old(self).wf(),
        ensures
            final(self).wf(),
            final(self)@ == cache_invalidate(old(self)@, chunk_id.0),
    {
        proof {
            lemma_pop(self@.entries, chunk_id.0);
        }
        let r = lru_pop(&mut self.cache, &chunk_id.0);
        match r {
            Some(d) => {
                self.current_size = self.current_size - d.len();
            },
            None => {},
        }
    }

    /// The cache's counters and sizes.
    pub fn stats(&self) -> (r: CacheStats)
        ensures
            r.hits == self@.hits,
            r.misses == self@.misses,
            r.current_size == self@.current_size,
            r.max_size == self@.max_size,
            r.entry_count == self@.entries.len(),
    {
        CacheStats {
            hits: self.hits,
            misses: self.misses,
            current_size: self.current_size,
            max_size: self.max_size,
            entry_count: lru_len(&self.cache),
        }
    }
}

} // verus!
