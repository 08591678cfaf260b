//! An ordered map from string keys to values, kept as a vector of pairs
//! sorted by key (the order of `String`'s `Ord`).
use vstd::prelude::*;

use crate::keys::{key_lt, key_order, lemma_key_lt_asymmetric, lemma_key_lt_irreflexive, lemma_key_lt_transitive, KeyOrder};

verus! {

/// Values that can be copied into a value with the same view.
pub trait Duplicate: View + Sized {
    fn duplicate(&self) -> (r: Self)
        ensures
            r@ == self@,
    ;
}

/// Keys strictly increase along the sequence.
pub open spec fn pairs_sorted<W>(s: Seq<(Seq<char>, W)>) -> bool {
    forall|i: int, j: int| 0 <= i < j < s.len() ==> key_lt(#[trigger] s[i].0, #[trigger] s[j].0)
}

/// Some entry of `s` has key `k`.
pub open spec fn has_key<W>(s: Seq<(Seq<char>, W)>, k: Seq<char>) -> bool {
    exists|i: int| 0 <= i < s.len() && #[trigger] s[i].0 == k
}

/// The position of key `k` in `s` (meaningful when `has_key(s, k)`).
pub open spec fn key_index<W>(s: Seq<(Seq<char>, W)>, k: Seq<char>) -> int {
    choose|i: int| 0 <= i < s.len() && #[trigger] s[i].0 == k
}

/// The value stored under `k`, if any.
pub open spec fn lookup<W>(s: Seq<(Seq<char>, W)>, k: Seq<char>) -> Option<W> {
    if has_key(s, k) {
        Some(s[key_index(s, k)].1)
    } else {
        None
    }
}

/// In a sorted sequence a key sits at one position only.
pub proof fn lemma_sorted_index<W>(s: Seq<(Seq<char>, W)>, i: int)
    requires
        pairs_sorted(s),
        0 <= i < s.len(),
    ensures
        has_key(s, s[i].0),
        key_index(s, s[i].0) == i,
        lookup(s, s[i].0) == Some(s[i].1),
{
    assert(s[i].0 == s[i].0);
    let j = key_index(s, s[i].0);
    if j != i {
        if j < i {
            assert(key_lt(s[j].0, s[i].0));
        } else {
            assert(key_lt(s[i].0, s[j].0));
        }
        lemma_key_lt_irreflexive(s[i].0);
    }
}

/// Two sorted sequences with the same lookups are the same sequence.
pub proof fn lemma_sorted_unique<W>(a: Seq<(Seq<char>, W)>, b: Seq<(Seq<char>, W)>)
    requires
        pairs_sorted(a),
        pairs_sorted(b),
        forall|k: Seq<char>| #[trigger] lookup(a, k) == lookup(b, k),
    ensures
        a == b,
    decreases a.len() + b.len(),
{
    if a.len() == 0 || b.len() == 0 {
        if a.len() > 0 {
            lemma_sorted_index(a, 0);
            assert(lookup(b, a[0].0) is None);
        }
        if b.len() > 0 {
            lemma_sorted_index(b, 0);
            assert(lookup(a, b[0].0) is None);
        }
        assert(a =~= b);
        return;
    }
    lemma_sorted_index(a, 0);
    lemma_sorted_index(b, 0);
    let ka = a[0].0;
    let kb = b[0].0;
    assert(lookup(b, ka) is Some);
    assert(lookup(a, kb) is Some);
    let ja = key_index(b, ka);
    let jb = key_index(a, kb);
    if ka != kb {
        // ka sits in b after kb, kb sits in a after ka: contradiction
        assert(ja != 0);
        assert(jb != 0);
        assert(key_lt(b[0].0, b[ja].0));
        assert(key_lt(a[0].0, a[jb].0));
        lemma_key_lt_asymmetric(ka, kb);
        assert(false);
    }
    assert(a[0] == b[0]);
    let ta = a.drop_first();
    let tb = b.drop_first();
    assert(pairs_sorted(ta)) by {
        assert forall|i: int, j: int| 0 <= i < j < ta.len() implies key_lt(
            #[trigger] ta[i].0,
            #[trigger] ta[j].0,
        ) by {
            assert(ta[i] == a[i + 1]);
            assert(ta[j] == a[j + 1]);
        }
    }
    assert(pairs_sorted(tb)) by {
        assert forall|i: int, j: int| 0 <= i < j < tb.len() implies key_lt(
            #[trigger] tb[i].0,
            #[trigger] tb[j].0,
        ) by {
            assert(tb[i] == b[i + 1]);
            assert(tb[j] == b[j + 1]);
        }
    }
    assert forall|k: Seq<char>| #[trigger] lookup(ta, k) == lookup(tb, k) by {
        lemma_lookup_drop_first(a, k);
        lemma_lookup_drop_first(b, k);
    }
    lemma_sorted_unique(ta, tb);
    assert(a =~= seq![a[0]] + ta);
    assert(b =~= seq![b[0]] + tb);
}

/// Looking up in the tail of a sorted sequence: the head's key is gone, the
/// rest is unchanged.
pub proof fn lemma_lookup_drop_first<W>(s: Seq<(Seq<char>, W)>, k: Seq<char>)
    requires
        pairs_sorted(s),
        s.len() > 0,
    ensures
        lookup(s.drop_first(), k) == (if k == s[0].0 {
            None
        } else {
            lookup(s, k)
        }),
{
    let t = s.drop_first();
    if has_key(t, k) {
        let i = key_index(t, k);
        assert(t[i] == s[i + 1]);
        lemma_sorted_index(s, i + 1);
        assert(key_lt(s[0].0, s[i + 1].0));
        if k == s[0].0 {
            lemma_key_lt_irreflexive(k);
        }
        assert(pairs_sorted(t)) by {
            assert forall|x: int, y: int| 0 <= x < y < t.len() implies key_lt(
                #[trigger] t[x].0,
                #[trigger] t[y].0,
            ) by {
                assert(t[x] == s[x + 1]);
                assert(t[y] == s[y + 1]);
            }
        }
        lemma_sorted_index(t, i);
    } else {
        if k != s[0].0 && has_key(s, k) {
            let i = key_index(s, k);
            assert(i != 0);
            assert(t[i - 1] == s[i]);
            assert(false);
        }
    }
}

/// A map from string keys to values, ordered by key.
pub struct SortedMap<V> {
    entries: Vec<(String, V)>,
}

impl<V: View> View for SortedMap<V> {
    type V = Seq<(Seq<char>, V::V)>;

    /// The entries in increasing key order.
    closed spec fn view(&self) -> Seq<(Seq<char>, V::V)> {
        self.entries@.map_values(|e: (String, V)| (e.0@, e.1@))
    }
}

impl<V: View> SortedMap<V> {
    /// The entries' keys strictly increase.
    pub open spec fn wf(&self) -> bool {
        pairs_sorted(self@)
    }

    pub fn new() -> (r: Self)
        ensures
            r.wf(),
            r@ == Seq::<(Seq<char>, V::V)>::empty(),
    {
        let r = SortedMap { entries: Vec::new() };
        assert(r@ =~= Seq::<(Seq<char>, V::V)>::empty());
        r
    }

    pub fn len(&self) -> (r: usize)
        ensures
            r == self@.len(),
    {
        self.entries.len()
    }

    /// The key of the `i`-th entry.
    pub fn key_at(&self, i: usize) -> (r: &String)
        requires
            i < self@.len(),
        ensures
            r@ == self@[i as int].0,
    {
        &self.entries[i].0
    }

    /// The value of the `i`-th entry.
    pub fn value_at(&self, i: usize) -> (r: &V)
        requires
            i < self@.len(),
        ensures
            r@ == self@[i as int].1,
    {
        &self.entries[i].1
    }

    /// Binary search for `key`: `Ok(i)` where it sits, or `Err(i)` where it
    /// would go (the number of keys below it).
    pub fn find(&self, key: &str) -> (r: core::result::Result<usize, usize>)
        requires
            self.wf(),
        ensures
            match r {
                Ok(i) => i < self@.len() && self@[i as int].0 == key@,
                Err(i) => i <= self@.len() && !has_key(self@, key@) && (forall|j: int|
                    0 <= j < i ==> key_lt(#[trigger] self@[j].0, key@)) && (forall|j: int|
                    i <= j < self@.len() ==> key_lt(key@, #[trigger] self@[j].0)),
            },
    {
        let mut lo: usize = 0;
        let mut hi: usize = self.entries.len();
        while lo < hi
            invariant
                self.wf(),
                lo <= hi <= self@.len(),
                forall|j: int| 0 <= j < lo ==> key_lt(#[trigger] self@[j].0, key@),
                forall|j: int| hi <= j < self@.len() ==> key_lt(key@, #[trigger] self@[j].0),
            decreases hi - lo,
        {
            let mid = lo + (hi - lo) / 2;
            let ghost km = self@[mid as int].0;
            assert(self.entries[mid as int].0@ == km);
            match key_order(self.entries[mid].0.as_str(), key) {
                KeyOrder::Equal => {
                    return Ok(mid);
                },
                KeyOrder::Less => {
                    assert forall|j: int| 0 <= j < mid + 1 implies key_lt(
                        #[trigger] self@[j].0,
                        key@,
                    ) by {
                        if j < mid {
                            lemma_key_lt_transitive(self@[j].0, km, key@);
                        }
                    }
                    lo = mid + 1;
                },
                KeyOrder::Greater => {
                    assert forall|j: int| mid <= j < self@.len() implies key_lt(
                        key@,
                        #[trigger] self@[j].0,
                    ) by {
                        if j > mid {
                            lemma_key_lt_transitive(key@, km, self@[j].0);
                        }
                    }
                    hi = mid;
                },
            }
        }
        assert(!has_key(self@, key@)) by {
            if has_key(self@, key@) {
                let j = key_index(self@, key@);
                lemma_key_lt_irreflexive(key@);
            }
        }
        Err(lo)
    }

    /// The value stored under `key`.
    pub fn get(&self, key: &str) -> (r: Option<&V>)
        requires
            self.wf(),
        ensures
            match r {
                Some(v) => lookup(self@, key@) == Some(v@),
                None => lookup(self@, key@) is None,
            },
    {
        match self.find(key) {
            Ok(i) => {
                proof {
                    lemma_sorted_index(self@, i as int);
                }
                Some(&self.entries[i].1)
            },
            Err(_) => None,
        }
    }

    /// Stores `value` under `key`, replacing what was there.
    pub fn insert(&mut self, key: String, value: V)
        requires
            old(self).wf(),
        ensures
            final(self).wf(),
            forall|k: Seq<char>| #[trigger]
                lookup(final(self)@, k) == (if k == key@ {
                    Some(value@)
                } else {
                    lookup(old(self)@, k)
                }),
    {
        let ghost s0 = self@;
        let ghost kv = key@;
        let ghost vv = value@;
        match self.find(key.as_str()) {
            Ok(i) => {
                self.entries.set(i, (key, value));
                proof {
                    assert(self@ =~= s0.update(i as int, (kv, vv)));
                    assert(pairs_sorted(self@)) by {
                        assert forall|x: int, y: int| 0 <= x < y < self@.len() implies key_lt(
                            #[trigger] self@[x].0,
                            #[trigger] self@[y].0,
                        ) by {
                            assert(s0[x].0 == self@[x].0);
                            assert(s0[y].0 == self@[y].0);
                        }
                    }
                    assert forall|k: Seq<char>| #[trigger]
                        lookup(self@, k) == (if k == kv {
                            Some(vv)
                        } else {
                            lookup(s0, k)
                        }) by {
                        if has_key(self@, k) {
                            let j = key_index(self@, k);
                            lemma_sorted_index(self@, j);
                            lemma_sorted_index(s0, j);
                        } else if has_key(s0, k) {
                            let j = key_index(s0, k);
                            assert(self@[j].0 == s0[j].0);
                        }
                        if k == kv {
                            lemma_sorted_index(self@, i as int);
                        }
                    }
                }
            },
            Err(i) => {
                self.entries.insert(i, (key, value));
                proof {
                    assert(self@ =~= s0.insert(i as int, (kv, vv)));
                    assert(pairs_sorted(self@)) by {
                        assert forall|x: int, y: int| 0 <= x < y < self@.len() implies key_lt(
                            #[trigger] self@[x].0,
                            #[trigger] self@[y].0,
                        ) by {
                            if y < i {
                                assert(self@[x] == s0[x]);
                                assert(self@[y] == s0[y]);
                            } else if y == i {
                                assert(self@[x] == s0[x]);
                            } else if x == i {
                                assert(self@[y] == s0[y - 1]);
                            } else if x < i {
                                assert(self@[x] == s0[x]);
                                assert(self@[y] == s0[y - 1]);
                            } else {
                                assert(self@[x] == s0[x - 1]);
                                assert(self@[y] == s0[y - 1]);
                            }
                        }
                    }
                    assert forall|k: Seq<char>| #[trigger]
                        lookup(self@, k) == (if k == kv {
                            Some(vv)
                        } else {
                            lookup(s0, k)
                        }) by {
                        if k == kv {
                            lemma_sorted_index(self@, i as int);
                        } else if has_key(s0, k) {
                            let j = key_index(s0, k);
                            lemma_sorted_index(s0, j);
                            if j < i {
                                assert(self@[j] == s0[j]);
                                lemma_sorted_index(self@, j);
                            } else {
                                assert(self@[j + 1] == s0[j]);
                                lemma_sorted_index(self@, j + 1);
                            }
                        } else if has_key(self@, k) {
                            let j = key_index(self@, k);
                            if j < i {
                                assert(self@[j] == s0[j]);
                            } else if j > i {
                                assert(self@[j] == s0[j - 1]);
                            }
                        }
                    }
                }
            },
        }
    }

    /// Removes the entry stored under `key`, returning its value.
    pub fn remove(&mut self, key: &str) -> (r: Option<V>)
        requires
            old(self).wf(),
        ensures
            final(self).wf(),
            match r {
                Some(v) => lookup(old(self)@, key@) == Some(v@),
                None => lookup(old(self)@, key@) is None,
            },
            forall|k: Seq<char>| #[trigger]
                lookup(final(self)@, k) == (if k == key@ {
                    None
                } else {
                    lookup(old(self)@, k)
                }),
    {
        let ghost s0 = self@;
        match self.find(key) {
            Ok(i) => {
                proof {
                    lemma_sorted_index(s0, i as int);
                }
                let (_k, v) = self.entries.remove(i);
                proof {
                    assert(self@ =~= s0.remove(i as int));
                    assert(pairs_sorted(self@)) by {
                        assert forall|x: int, y: int| 0 <= x < y < self@.len() implies key_lt(
                            #[trigger] self@[x].0,
                            #[trigger] self@[y].0,
                        ) by {
                            if y < i {
                                assert(self@[x] == s0[x]);
                                assert(self@[y] == s0[y]);
                            } else if x < i {
                                assert(self@[x] == s0[x]);
                                assert(self@[y] == s0[y + 1]);
                            } else {
                                assert(self@[x] == s0[x + 1]);
                                assert(self@[y] == s0[y + 1]);
                            }
                        }
                    }
                    assert forall|k: Seq<char>| #[trigger]
                        lookup(self@, k) == (if k == key@ {
                            None
                        } else {
                            lookup(s0, k)
                        }) by {
                        if has_key(self@, k) {
                            let j = key_index(self@, k);
                            lemma_sorted_index(self@, j);
                            if j < i {
                                assert(self@[j] == s0[j]);
                                lemma_sorted_index(s0, j);
                                assert(key_lt(s0[j].0, s0[i as int].0));
                            } else {
                                assert(self@[j] == s0[j + 1]);
                                lemma_sorted_index(s0, j + 1);
                                assert(key_lt(s0[i as int].0, s0[j + 1].0));
                            }
                            if k == key@ {
                                lemma_key_lt_irreflexive(k);
                            }
                        } else if has_key(s0, k) {
                            let j = key_index(s0, k);
                            if j < i {
                                assert(self@[j] == s0[j]);
                            } else if j > i {
                                assert(self@[j - 1] == s0[j]);
                            }
                        }
                    }
                }
                Some(v)
            },
            Err(_) => {
                proof {
                    assert forall|k: Seq<char>| #[trigger]
                        lookup(self@, k) == (if k == key@ {
                            None
                        } else {
                            lookup(s0, k)
                        }) by {}
                }
                None
            },
        }
    }
}

} // verus!
