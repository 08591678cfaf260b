//! The media index: manifests by key and chunk locations by chunk-id hex,
//! kept in key order, and changed only through write-ahead-log entries.
//!
//! The log itself (a file of JSON lines) is written by the embedding
//! program; this module holds the in-memory state, decides which entry an
//! operation appends, replays a log, and produces the entries of a
//! compacted log.
use vstd::prelude::*;

use crate::keys::{key_has_prefix, key_lt, key_eq, key_starts_with, lemma_key_lt_asymmetric, lemma_key_lt_irreflexive, lemma_key_lt_transitive};
use crate::sorted_map::{
    has_key, key_index, lemma_sorted_index, lemma_sorted_unique, lookup, pairs_sorted, Duplicate,
    SortedMap,
};
use crate::types::{ChunkId, ChunkLocation, LocationView, ManifestView, MediaManifest};
use crate::digest::hex_lower;

verus! {

/// Don't auto-compact until the log has at least this many entries.
pub const COMPACTION_FLOOR: u64 = 1024;

/// Auto-compact when total log entries reach this multiple of live entries.
pub const COMPACTION_RATIO: u64 = 2;

/// One record of the append-only index log.
pub enum LogEntry {
    PutManifest(MediaManifest),
    DeleteManifest(String),
    PutChunkLocation { chunk_id_hex: String, location: ChunkLocation },
    DeleteChunkLocation { chunk_id_hex: String },
}

/// What a log entry says.
pub enum EntryView {
    PutManifest(ManifestView),
    DeleteManifest(Seq<char>),
    PutChunkLocation(Seq<char>, LocationView),
    DeleteChunkLocation(Seq<char>),
}

impl Duplicate for LogEntry {
    fn duplicate(&self) -> (r: Self) {
        match self {
            LogEntry::PutManifest(m) => LogEntry::PutManifest(m.duplicate()),
            LogEntry::DeleteManifest(k) => LogEntry::DeleteManifest(k.clone()),
            LogEntry::PutChunkLocation { chunk_id_hex, location } => LogEntry::PutChunkLocation {
                chunk_id_hex: chunk_id_hex.clone(),
                location: location.duplicate(),
            },
            LogEntry::DeleteChunkLocation { chunk_id_hex } => LogEntry::DeleteChunkLocation {
                chunk_id_hex: chunk_id_hex.clone(),
            },
        }
    }
}

impl View for LogEntry {
    type V = EntryView;

    open spec fn view(&self) -> EntryView {
        match self {
            LogEntry::PutManifest(m) => EntryView::PutManifest(m@),
            LogEntry::DeleteManifest(k) => EntryView::DeleteManifest(k@),
            LogEntry::PutChunkLocation { chunk_id_hex, location } => EntryView::PutChunkLocation(
                chunk_id_hex@,
                location@,
            ),
            LogEntry::DeleteChunkLocation { chunk_id_hex } => EntryView::DeleteChunkLocation(
                chunk_id_hex@,
            ),
        }
    }
}

/// The contents of the index: manifests by key, chunk locations by the hex
/// of the chunk id.
pub struct IndexView {
    pub manifests: Map<Seq<char>, ManifestView>,
    pub chunk_locations: Map<Seq<char>, LocationView>,
}

/// The map that a sorted list of pairs denotes.
pub open spec fn to_map<W>(s: Seq<(Seq<char>, W)>) -> Map<Seq<char>, W> {
    Map::new(|k: Seq<char>| has_key(s, k), |k: Seq<char>| s[key_index(s, k)].1)
}

/// The entries of `m` in increasing key order.
pub open spec fn sorted_entries<W>(m: Map<Seq<char>, W>) -> Seq<(Seq<char>, W)> {
    choose|s: Seq<(Seq<char>, W)>| pairs_sorted(s) && to_map(s) == m
}

/// The empty index.
pub open spec fn empty_index() -> IndexView {
    IndexView { manifests: Map::empty(), chunk_locations: Map::empty() }
}

/// The index after one log entry.
pub open spec fn apply_spec(v: IndexView, e: EntryView) -> IndexView {
    match e {
        EntryView::PutManifest(m) => IndexView { manifests: v.manifests.insert(m.key, m), ..v },
        EntryView::DeleteManifest(k) => IndexView { manifests: v.manifests.remove(k), ..v },
        EntryView::PutChunkLocation(h, l) => IndexView {
            chunk_locations: v.chunk_locations.insert(h, l),
            ..v
        },
        EntryView::DeleteChunkLocation(h) => IndexView {
            chunk_locations: v.chunk_locations.remove(h),
            ..v
        },
    }
}

/// The index after a sequence of log entries, in order.
pub open spec fn apply_all(v: IndexView, es: Seq<EntryView>) -> IndexView
    decreases es.len(),
{
    if es.len() == 0 {
        v
    } else {
        apply_spec(apply_all(v, es.drop_last()), es.last())
    }
}

/// The entries of a compacted log: every manifest in key order, then every
/// chunk location in key order.
pub open spec fn compaction_spec(v: IndexView) -> Seq<EntryView> {
    sorted_entries(v.manifests).map_values(
        |e: (Seq<char>, ManifestView)| EntryView::PutManifest(e.1),
    ) + sorted_entries(v.chunk_locations).map_values(
        |e: (Seq<char>, LocationView)| EntryView::PutChunkLocation(e.0, e.1),
    )
}

/// The length of the longest prefix of `s` whose elements satisfy `p`.
pub open spec fn lead_len<T>(s: Seq<T>, p: spec_fn(T) -> bool) -> nat
    decreases s.len(),
{
    if s.len() > 0 && p(s[0]) {
        1 + lead_len(s.drop_first(), p)
    } else {
        0
    }
}

/// `run` without its first entry when that entry's key is the cursor.
pub open spec fn skip_cursor<W>(run: Seq<(Seq<char>, W)>, cursor: Seq<char>) -> Seq<
    (Seq<char>, W),
> {
    if cursor.len() > 0 && run.len() > 0 && run[0].0 == cursor {
        run.drop_first()
    } else {
        run
    }
}

/// The view of an optional string.
pub open spec fn opt_string_view(o: Option<String>) -> Option<Seq<char>> {
    match o {
        Some(s) => Some(s@),
        None => None,
    }
}

/// The entries of `s` (sorted by key) that a listing pages through: those
/// at or after `cursor` (or `prefix` when there is no cursor), as long as
/// their keys start with `prefix`, leaving out the cursor's own key.
pub open spec fn eligible<W>(s: Seq<(Seq<char>, W)>, prefix: Seq<char>, cursor: Seq<char>) -> Seq<
    (Seq<char>, W),
> {
    let start = if cursor.len() == 0 {
        prefix
    } else {
        cursor
    };
    let after = s.skip(lead_len(s, |e: (Seq<char>, W)| key_lt(e.0, start)) as int);
    let run = after.take(
        lead_len(after, |e: (Seq<char>, W)| key_has_prefix(e.0, prefix)) as int,
    );
    skip_cursor(run, cursor)
}

/// One page of a listing of `s` (sorted by key): the first `limit` of the
/// eligible entries (all of them when there are fewer; none for a limit of
/// 0). The next cursor is the last key returned when the page is full.
pub open spec fn listing<W>(
    s: Seq<(Seq<char>, W)>,
    prefix: Seq<char>,
    limit: nat,
    cursor: Seq<char>,
) -> (Seq<W>, Option<Seq<char>>) {
    let e = eligible(s, prefix, cursor);
    let n = limit as int;
    if limit == 0 {
        (Seq::empty(), None)
    } else {
    (
        e.take(if e.len() < n {
            e.len() as int
        } else {
            n
        }).map_values(|x: (Seq<char>, W)| x.1),
        if e.len() >= n {
            Some(e[n - 1].0)
        } else {
            None
        },
    )
    }
}

/// Whether a listing with `cursor` reaches key `k`: it starts with
/// `prefix` and, when there is a cursor, comes after it.
pub open spec fn reaches(k: Seq<char>, prefix: Seq<char>, cursor: Seq<char>) -> bool {
    key_has_prefix(k, prefix) && (cursor.len() == 0 || key_lt(cursor, k))
}

/// The entries of `s` whose keys a listing with `cursor` reaches, in order.
pub open spec fn reached<W>(s: Seq<(Seq<char>, W)>, prefix: Seq<char>, cursor: Seq<char>) -> Seq<
    (Seq<char>, W),
>
    decreases s.len(),
{
    if s.len() == 0 {
        Seq::empty()
    } else if reaches(s.last().0, prefix, cursor) {
        reached(s.drop_last(), prefix, cursor).push(s.last())
    } else {
        reached(s.drop_last(), prefix, cursor)
    }
}

proof fn lemma_reached_interval<W>(s: Seq<(Seq<char>, W)>, prefix: Seq<char>, cursor: Seq<char>, i: int, j: int)
    requires
        0 <= i <= j <= s.len(),
        forall|k: int| 0 <= k < s.len() ==> (reaches(#[trigger] s[k].0, prefix, cursor) <==> i <= k < j),
    ensures
        reached(s, prefix, cursor) == s.subrange(i, j),
    decreases s.len(),
{
    if s.len() > 0 {
        let t = s.drop_last();
        let n = s.len() - 1;
        assert forall|k: int| 0 <= k < t.len() implies (reaches(#[trigger] t[k].0, prefix, cursor) <==> i <= k < (
        if j > n {
            n
        } else {
            j
        })) by {
            assert(t[k] == s[k]);
        }
        let jj = if j > n {
            n
        } else {
            j
        };
        let ii = if i > jj {
            jj
        } else {
            i
        };
        assert forall|k: int| 0 <= k < t.len() implies (reaches(#[trigger] t[k].0, prefix, cursor) <==> ii <= k < jj) by {
            assert(t[k] == s[k]);
        }
        lemma_reached_interval(t, prefix, cursor, ii, jj);
        assert(reaches(s[n].0, prefix, cursor) <==> i <= n < j);
        assert(reached(s, prefix, cursor) =~= s.subrange(i, j));
    }
}

/// A listing pages through exactly the entries whose keys start with the
/// prefix and come after the cursor (all of them, without a cursor), in
/// ascending key order. The cursor, when there is one, starts with the
/// prefix, as every cursor a listing returns does.
pub proof fn lemma_eligible_keys<W>(s: Seq<(Seq<char>, W)>, prefix: Seq<char>, cursor: Seq<char>)
    requires
        pairs_sorted(s),
        cursor.len() == 0 || key_has_prefix(cursor, prefix),
    ensures
        eligible(s, prefix, cursor) == reached(s, prefix, cursor),
        pairs_sorted(eligible(s, prefix, cursor)),
{
    let start = if cursor.len() == 0 {
        prefix
    } else {
        cursor
    };
    assert(key_has_prefix(start, prefix)) by {
        if cursor.len() == 0 {
            assert(crate::keys::key_bytes(prefix).is_prefix_of(crate::keys::key_bytes(prefix)));
        }
    }
    let lt1 = |e: (Seq<char>, W)| key_lt(e.0, start);
    let hp = |e: (Seq<char>, W)| key_has_prefix(e.0, prefix);
    let a = lead_len(s, lt1) as int;
    lemma_lead_len_stops(s, lt1);
    lemma_lead_len_ge(s, lt1, 0);
    let after1 = s.skip(a);
    let l1 = lead_len(after1, hp) as int;
    lemma_lead_len_stops(after1, hp);
    lemma_lead_len_ge(after1, hp, 0);
    let run1 = after1.take(l1);
    let e1 = eligible(s, prefix, cursor);
    assert(e1 == skip_cursor(run1, cursor));
    let d: int = if cursor.len() > 0 && run1.len() > 0 && run1[0].0 == cursor {
        1
    } else {
        0
    };
    assert(e1 =~= s.subrange(a + d, a + l1));
    // entries from position `a` on are not below the start
    assert forall|k: int| a <= k < s.len() implies !key_lt(#[trigger] s[k].0, start) by {
        if k > a {
            assert(key_lt(s[a].0, s[k].0));
            crate::keys::lemma_key_lt_total(s[a].0, start);
            if s[a].0 != start {
                lemma_key_lt_transitive(start, s[a].0, s[k].0);
            }
            lemma_key_lt_asymmetric(start, s[k].0);
        }
    }
    assert forall|k: int| 0 <= k < s.len() implies (reaches(#[trigger] s[k].0, prefix, cursor) <==> a + d
        <= k < a + l1) by {
        let kk = s[k].0;
        if k < a {
            assert(lt1(s[k]));
            if cursor.len() == 0 {
                if key_has_prefix(kk, prefix) {
                    crate::keys::lemma_prefix_not_below(
                        crate::keys::key_bytes(prefix),
                        crate::keys::key_bytes(kk),
                    );
                }
            } else {
                lemma_key_lt_asymmetric(cursor, kk);
            }
        } else if k < a + d {
            lemma_key_lt_irreflexive(cursor);
        } else if k < a + l1 {
            assert(hp(after1[k - a]));
            if cursor.len() > 0 {
                if k > a {
                    assert(key_lt(s[a].0, kk));
                    crate::keys::lemma_key_lt_total(s[a].0, cursor);
                    if s[a].0 != cursor {
                        lemma_key_lt_transitive(cursor, s[a].0, kk);
                    }
                } else {
                    assert(run1[0].0 == s[a].0);
                    crate::keys::lemma_key_lt_total(s[a].0, cursor);
                }
            }
        } else {
            if key_has_prefix(kk, prefix) {
                let x = s[a + l1].0;
                assert(!hp(after1[l1]));
                assert(!key_lt(x, start));
                if k > a + l1 {
                    assert(key_lt(x, kk));
                    lemma_key_lt_asymmetric(x, kk);
                } else {
                    lemma_key_lt_irreflexive(x);
                }
                crate::keys::lemma_prefix_interval(
                    crate::keys::key_bytes(prefix),
                    crate::keys::key_bytes(start),
                    crate::keys::key_bytes(x),
                    crate::keys::key_bytes(kk),
                );
            }
        }
    }
    lemma_reached_interval(s, prefix, cursor, a + d, a + l1);
    assert forall|i: int, j: int| 0 <= i < j < e1.len() implies key_lt(#[trigger] e1[i].0, #[trigger] e1[j].0) by {
        assert(e1[i] == s[a + d + i] && e1[j] == s[a + d + j]);
    }
}

/// Paging goes on where it stopped: asked with the cursor that a full page
/// returned, a listing pages through exactly the eligible entries that
/// follow that page, so that pages neither overlap nor leave a gap.
pub proof fn lemma_next_page_follows<W>(
    s: Seq<(Seq<char>, W)>,
    prefix: Seq<char>,
    limit: nat,
    cursor: Seq<char>,
)
    requires
        pairs_sorted(s),
        listing(s, prefix, limit, cursor).1 matches Some(next) && next.len() > 0,
    ensures
        eligible(s, prefix, listing(s, prefix, limit, cursor).1->0) == eligible(
            s,
            prefix,
            cursor,
        ).skip(limit as int),
{
    let start1 = if cursor.len() == 0 {
        prefix
    } else {
        cursor
    };
    let lt1 = |e: (Seq<char>, W)| key_lt(e.0, start1);
    let hp = |e: (Seq<char>, W)| key_has_prefix(e.0, prefix);
    let a = lead_len(s, lt1) as int;
    lemma_lead_len_stops(s, lt1);
    let after1 = s.skip(a);
    let l1 = lead_len(after1, hp) as int;
    lemma_lead_len_stops(after1, hp);
    lemma_lead_len_ge(after1, hp, 0);
    let run1 = after1.take(l1);
    let e1 = eligible(s, prefix, cursor);
    assert(e1 == skip_cursor(run1, cursor));
    let d: int = if cursor.len() > 0 && run1.len() > 0 && run1[0].0 == cursor {
        1
    } else {
        0
    };
    assert(e1 =~= s.subrange(a + d, a + l1));
    let n = limit as int;
    let next = e1[n - 1].0;
    let i2 = a + d + n - 1;
    assert(next == s[i2].0);
    let lt2 = |e: (Seq<char>, W)| key_lt(e.0, next);
    assert forall|j: int| 0 <= j < i2 implies #[trigger] lt2(s[j]) by {
        assert(key_lt(s[j].0, s[i2].0));
    }
    crate::keys::lemma_key_lt_irreflexive(next);
    lemma_lead_len_at(s, lt2, i2);
    let after2 = s.skip(i2);
    let l2 = a + l1 - i2;
    assert forall|j: int| 0 <= j < l2 implies #[trigger] hp(after2[j]) by {
        assert(after2[j] == after1[i2 - a + j]);
    }
    if l2 < after2.len() {
        assert(after2[l2] == after1[l1]);
    }
    lemma_lead_len_at(after2, hp, l2);
    let run2 = after2.take(l2);
    assert(run2[0].0 == next);
    assert(eligible(s, prefix, next) == skip_cursor(run2, next));
    assert(eligible(s, prefix, next) =~= s.subrange(i2 + 1, a + l1));
    assert(e1.skip(n) =~= s.subrange(i2 + 1, a + l1));
}

/// Whether an index log with `entries` records, `live` of which are live,
/// should be compacted.
pub open spec fn should_compact_spec(entries: u64, live: u64) -> bool {
    entries >= COMPACTION_FLOOR && entries >= (if live * COMPACTION_RATIO > u64::MAX {
        u64::MAX as int
    } else {
        live * COMPACTION_RATIO
    })
}

/// Decides whether the log should be compacted.
pub fn should_compact(entries: u64, live: u64) -> (r: bool)
    ensures
        r == should_compact_spec(entries, live),
{
    if entries < COMPACTION_FLOOR {
        return false;
    }
    let threshold = match live.checked_mul(COMPACTION_RATIO) {
        Some(t) => t,
        None => u64::MAX,
    };
    entries >= threshold
}

pub proof fn lemma_lead_len_ge<T>(s: Seq<T>, p: spec_fn(T) -> bool, m: int)
    requires
        0 <= m <= s.len(),
        forall|j: int| 0 <= j < m ==> p(#[trigger] s[j]),
    ensures
        lead_len(s, p) >= m,
        lead_len(s, p) <= s.len(),
        forall|j: int| 0 <= j < lead_len(s, p) ==> p(#[trigger] s[j]),
    decreases s.len(),
{
    if s.len() > 0 && p(s[0]) {
        let t = s.drop_first();
        assert forall|j: int| 0 <= j < m - 1 implies p(#[trigger] t[j]) by {
            assert(t[j] == s[j + 1]);
        }
        lemma_lead_len_ge(t, p, if m > 0 {
            m - 1
        } else {
            0
        });
        assert forall|j: int| 0 <= j < lead_len(s, p) implies p(#[trigger] s[j]) by {
            if j > 0 {
                assert(s[j] == t[j - 1]);
            }
        }
    } else {
        if m > 0 {
            assert(p(s[0]));
        }
    }
}

/// Where the leading run stops, the element fails the predicate.
pub proof fn lemma_lead_len_stops<T>(s: Seq<T>, p: spec_fn(T) -> bool)
    ensures
        lead_len(s, p) <= s.len(),
        lead_len(s, p) < s.len() ==> !p(s[lead_len(s, p) as int]),
    decreases s.len(),
{
    if s.len() > 0 && p(s[0]) {
        let t = s.drop_first();
        lemma_lead_len_stops(t, p);
        if lead_len(t, p) < t.len() {
            assert(s[lead_len(s, p) as int] == t[lead_len(t, p) as int]);
        }
    }
}

pub proof fn lemma_lead_len_at<T>(s: Seq<T>, p: spec_fn(T) -> bool, i: int)
    requires
        0 <= i <= s.len(),
        forall|j: int| 0 <= j < i ==> p(#[trigger] s[j]),
        i == s.len() || !p(s[i]),
    ensures
        lead_len(s, p) == i,
    decreases i,
{
    if i > 0 {
        let t = s.drop_first();
        assert forall|j: int| 0 <= j < i - 1 implies p(#[trigger] t[j]) by {
            assert(t[j] == s[j + 1]);
        }
        if i < s.len() {
            assert(t[i - 1] == s[i]);
        }
        lemma_lead_len_at(t, p, i - 1);
    }
}

/// The map of a sorted list: keys are those of the list, values the ones
/// stored with them.
pub proof fn lemma_to_map_sorted<W>(s: Seq<(Seq<char>, W)>, k: Seq<char>)
    requires
        pairs_sorted(s),
    ensures
        to_map(s).dom().contains(k) == has_key(s, k),
        has_key(s, k) ==> Some(to_map(s)[k]) == lookup(s, k),
{
}

/// A sorted list is the one listing of its own map.
pub proof fn lemma_sorted_entries_of<W>(s: Seq<(Seq<char>, W)>)
    requires
        pairs_sorted(s),
    ensures
        sorted_entries(to_map(s)) == s,
{
    let t = sorted_entries(to_map(s));
    assert(pairs_sorted(s) && to_map(s) == to_map(s));
    assert(pairs_sorted(t) && to_map(t) == to_map(s));
    assert forall|k: Seq<char>| #[trigger] lookup(t, k) == lookup(s, k) by {
        assert(to_map(t).dom().contains(k) == to_map(s).dom().contains(k));
        if has_key(s, k) {
            assert(to_map(t)[k] == to_map(s)[k]);
        }
    }
    lemma_sorted_unique(t, s);
}

/// Adding a largest key at the end of a sorted list adds it to the map.
pub proof fn lemma_to_map_push<W>(s: Seq<(Seq<char>, W)>)
    requires
        pairs_sorted(s),
        s.len() > 0,
    ensures
        pairs_sorted(s.drop_last()),
        to_map(s) == to_map(s.drop_last()).insert(s.last().0, s.last().1),
{
    let t = s.drop_last();
    assert(pairs_sorted(t)) by {
        assert forall|i: int, j: int| 0 <= i < j < t.len() implies key_lt(
            #[trigger] t[i].0,
            #[trigger] t[j].0,
        ) by {
            assert(t[i] == s[i]);
            assert(t[j] == s[j]);
        }
    }
    let x = s.last();
    assert forall|k: Seq<char>| #[trigger]
        to_map(s).dom().contains(k) == to_map(t).insert(x.0, x.1).dom().contains(k) by {
        if has_key(t, k) {
            let j = key_index(t, k);
            assert(s[j] == t[j]);
        }
        if has_key(s, k) && k != x.0 {
            let j = key_index(s, k);
            assert(j != s.len() - 1);
            assert(t[j] == s[j]);
        }
        if k == x.0 {
            assert(s[s.len() - 1].0 == k);
        }
    }
    assert(to_map(s).dom() =~= to_map(t).insert(x.0, x.1).dom());
    assert forall|k: Seq<char>| #[trigger] to_map(s).dom().contains(k) implies to_map(s)[k]
        == to_map(t).insert(x.0, x.1)[k] by {
        let j = key_index(s, k);
        lemma_sorted_index(s, j);
        if k == x.0 {
            lemma_sorted_index(s, s.len() - 1);
        } else {
            assert(j != s.len() - 1);
            assert(t[j] == s[j]);
            lemma_sorted_index(t, j);
        }
    }
    assert(to_map(s) =~= to_map(t).insert(x.0, x.1));
}

pub proof fn lemma_apply_all_concat(v: IndexView, a: Seq<EntryView>, b: Seq<EntryView>)
    ensures
        apply_all(v, a + b) == apply_all(apply_all(v, a), b),
    decreases b.len(),
{
    if b.len() == 0 {
        assert(a + b =~= a);
    } else {
        assert((a + b).drop_last() =~= a + b.drop_last());
        assert((a + b).last() == b.last());
        lemma_apply_all_concat(v, a, b.drop_last());
    }
}

proof fn lemma_apply_manifest_puts(v: IndexView, s: Seq<(Seq<char>, ManifestView)>)
    requires
        pairs_sorted(s),
        forall|i: int| 0 <= i < s.len() ==> (#[trigger] s[i]).1.key == s[i].0,
        v.manifests == Map::<Seq<char>, ManifestView>::empty(),
    ensures
        apply_all(
            v,
            s.map_values(|e: (Seq<char>, ManifestView)| EntryView::PutManifest(e.1)),
        ) == (IndexView { manifests: to_map(s), chunk_locations: v.chunk_locations }),
    decreases s.len(),
{
    let es = s.map_values(|e: (Seq<char>, ManifestView)| EntryView::PutManifest(e.1));
    if s.len() == 0 {
        assert(to_map(s) =~= Map::<Seq<char>, ManifestView>::empty());
    } else {
        lemma_to_map_push(s);
        let t = s.drop_last();
        assert(es.drop_last() =~= t.map_values(
            |e: (Seq<char>, ManifestView)| EntryView::PutManifest(e.1),
        ));
        assert forall|i: int| 0 <= i < t.len() implies (#[trigger] t[i]).1.key == t[i].0 by {
            assert(t[i] == s[i]);
        }
        lemma_apply_manifest_puts(v, t);
        assert(s.last().1.key == s.last().0) by {
            assert(s[s.len() - 1] == s.last());
        }
    }
}

proof fn lemma_apply_location_puts(v: IndexView, s: Seq<(Seq<char>, LocationView)>)
    requires
        pairs_sorted(s),
        v.chunk_locations == Map::<Seq<char>, LocationView>::empty(),
    ensures
        apply_all(
            v,
            s.map_values(
                |e: (Seq<char>, LocationView)| EntryView::PutChunkLocation(e.0, e.1),
            ),
        ) == (IndexView { manifests: v.manifests, chunk_locations: to_map(s) }),
    decreases s.len(),
{
    let es = s.map_values(|e: (Seq<char>, LocationView)| EntryView::PutChunkLocation(e.0, e.1));
    if s.len() == 0 {
        assert(to_map(s) =~= Map::<Seq<char>, LocationView>::empty());
    } else {
        lemma_to_map_push(s);
        let t = s.drop_last();
        assert(es.drop_last() =~= t.map_values(
            |e: (Seq<char>, LocationView)| EntryView::PutChunkLocation(e.0, e.1),
        ));
        lemma_apply_location_puts(v, t);
    }
}


/// Two sorted lists whose lookups differ only at `key` denote maps that
/// differ only at `key`.
pub proof fn lemma_to_map_changed<W>(
    s1: Seq<(Seq<char>, W)>,
    s2: Seq<(Seq<char>, W)>,
    key: Seq<char>,
    v: Option<W>,
)
    requires
        pairs_sorted(s1),
        pairs_sorted(s2),
        forall|k: Seq<char>| #[trigger]
            lookup(s2, k) == (if k == key {
                v
            } else {
                lookup(s1, k)
            }),
    ensures
        to_map(s2) == (match v {
            Some(x) => to_map(s1).insert(key, x),
            None => to_map(s1).remove(key),
        }),
{
    let m = match v {
        Some(x) => to_map(s1).insert(key, x),
        None => to_map(s1).remove(key),
    };
    assert forall|k: Seq<char>| #[trigger] to_map(s2).dom().contains(k) == m.dom().contains(k) by {
        assert(lookup(s2, k) == (if k == key {
            v
        } else {
            lookup(s1, k)
        }));
    }
    assert(to_map(s2).dom() =~= m.dom());
    assert forall|k: Seq<char>| #[trigger] to_map(s2).dom().contains(k) implies to_map(s2)[k] == m[k] by {
        assert(lookup(s2, k) == (if k == key {
            v
        } else {
            lookup(s1, k)
        }));
    }
    assert(to_map(s2) =~= m);
}

/// The in-memory index.
pub struct Index {
    manifests: SortedMap<MediaManifest>,
    chunk_locations: SortedMap<ChunkLocation>,
}

impl View for Index {
    type V = IndexView;

    closed spec fn view(&self) -> IndexView {
        IndexView { manifests: to_map(self.manifests@), chunk_locations: to_map(self.chunk_locations@) }
    }
}

/// Every manifest is stored under its own key.
pub open spec fn manifests_keyed(m: Map<Seq<char>, ManifestView>) -> bool {
    forall|k: Seq<char>| #[trigger] m.dom().contains(k) ==> m[k].key == k
}

impl Index {
    /// The index's maps are sorted and every manifest sits under its own key.
    pub closed spec fn wf(&self) -> bool {
        &&& self.manifests.wf()
        &&& self.chunk_locations.wf()
        &&& forall|i: int|
            0 <= i < self.manifests@.len() ==> (#[trigger] self.manifests@[i]).1.key
                == self.manifests@[i].0
    }

    /// The manifests in key order.
    pub closed spec fn manifest_list(&self) -> Seq<(Seq<char>, ManifestView)> {
        self.manifests@
    }

    /// The chunk locations in key order.
    pub closed spec fn location_list(&self) -> Seq<(Seq<char>, LocationView)> {
        self.chunk_locations@
    }

    /// Facts every well-formed index has.
    pub proof fn lemma_wf(&self)
        requires
            self.wf(),
        ensures
            manifests_keyed(self@.manifests),
            sorted_entries(self@.manifests) == self.manifest_list(),
            sorted_entries(self@.chunk_locations) == self.location_list(),
            pairs_sorted(self.manifest_list()),
            pairs_sorted(self.location_list()),
            self@.manifests.dom().len() == self.manifest_list().len(),
            self@.chunk_locations.dom().len() == self.location_list().len(),
    {
        lemma_sorted_entries_of(self.manifests@);
        lemma_sorted_entries_of(self.chunk_locations@);
        assert forall|k: Seq<char>| #[trigger] self@.manifests.dom().contains(k) implies self@.manifests[k].key
            == k by {
            let j = key_index(self.manifests@, k);
            assert(self.manifests@[j].1.key == self.manifests@[j].0);
        }
        lemma_dom_len(self.manifests@);
        lemma_dom_len(self.chunk_locations@);
    }

    /// An empty index.
    pub fn new() -> (r: Self)
        ensures
            r.wf(),
            r@ == empty_index(),
    {
        let r = Index { manifests: SortedMap::new(), chunk_locations: SortedMap::new() };
        assert(r@.manifests =~= Map::<Seq<char>, ManifestView>::empty());
        assert(r@.chunk_locations =~= Map::<Seq<char>, LocationView>::empty());
        r
    }

    /// Applies one log entry to the index.
    pub fn apply_entry(&mut self, entry: LogEntry)
        requires
            old(self).wf(),
        ensures
            final(self).wf(),
            final(self)@ == apply_spec(old(self)@, entry@),
    {
        let ghost e = entry@;
        let ghost v0 = self@;
        match entry {
            LogEntry::PutManifest(m) => {
                let key = m.key.clone();
                let ghost mv = m@;
                self.manifests.insert(key, m);
                proof {
                    assert forall|i: int| 0 <= i < self.manifests@.len() implies (
                    #[trigger] self.manifests@[i]).1.key == self.manifests@[i].0 by {
                        lemma_sorted_index(self.manifests@, i);
                        let k = self.manifests@[i].0;
                        if k != mv.key {
                            let j = key_index(old(self).manifests@, k);
                            assert(old(self).manifests@[j].1.key == old(self).manifests@[j].0);
                        }
                    }
                    lemma_to_map_changed(old(self).manifests@, self.manifests@, mv.key, Some(mv));
                    assert(self@.chunk_locations =~= v0.chunk_locations);
                }
            },
            LogEntry::DeleteManifest(k) => {
                let ghost kv = k@;
                let _ = self.manifests.remove(k.as_str());
                proof {
                    assert forall|i: int| 0 <= i < self.manifests@.len() implies (
                    #[trigger] self.manifests@[i]).1.key == self.manifests@[i].0 by {
                        lemma_sorted_index(self.manifests@, i);
                        let k2 = self.manifests@[i].0;
                        let j = key_index(old(self).manifests@, k2);
                        assert(old(self).manifests@[j].1.key == old(self).manifests@[j].0);
                    }
                    lemma_to_map_changed(old(self).manifests@, self.manifests@, kv, None);
                    assert(self@.chunk_locations =~= v0.chunk_locations);
                }
            },
            LogEntry::PutChunkLocation { chunk_id_hex, location } => {
                let ghost hv = chunk_id_hex@;
                let ghost lv = location@;
                self.chunk_locations.insert(chunk_id_hex, location);
                proof {
                    lemma_to_map_changed(old(self).chunk_locations@, self.chunk_locations@, hv, Some(lv));
                    assert(self@.manifests =~= v0.manifests);
                }
            },
            LogEntry::DeleteChunkLocation { chunk_id_hex } => {
                let ghost hv = chunk_id_hex@;
                let _ = self.chunk_locations.remove(chunk_id_hex.as_str());
                proof {
                    lemma_to_map_changed(old(self).chunk_locations@, self.chunk_locations@, hv, None);
                    assert(self@.manifests =~= v0.manifests);
                }
            },
        }
    }

    /// Stores (or replaces) a manifest under its key.
    pub fn put_manifest(&mut self, manifest: MediaManifest)
        requires
            old(self).wf(),
        ensures
            final(self).wf(),
            final(self)@ == apply_spec(old(self)@, EntryView::PutManifest(manifest@)),
    {
        self.apply_entry(LogEntry::PutManifest(manifest));
    }

    /// Removes the manifest stored under `key`, if any.
    pub fn delete_manifest(&mut self, key: &str)
        requires
            old(self).wf(),
        ensures
            final(self).wf(),
            final(self)@ == apply_spec(old(self)@, EntryView::DeleteManifest(key@)),
    {
        self.apply_entry(LogEntry::DeleteManifest(key.to_owned()));
    }

    /// The manifest stored under `key`.
    pub fn get_manifest(&self, key: &str) -> (r: Option<MediaManifest>)
        requires
            self.wf(),
        ensures
            match r {
                Some(m) => self@.manifests.dom().contains(key@) && self@.manifests[key@] == m@,
                None => !self@.manifests.dom().contains(key@),
            },
    {
        match self.manifests.get(key) {
            Some(m) => Some(m.duplicate()),
            None => None,
        }
    }

    /// Stores (or replaces) the location of a chunk.
    pub fn put_chunk_location(&mut self, chunk_id: &ChunkId, location: ChunkLocation)
        requires
            old(self).wf(),
        ensures
            final(self).wf(),
            final(self)@ == apply_spec(
                old(self)@,
                EntryView::PutChunkLocation(hex_lower(chunk_id@), location@),
            ),
    {
        let hex = chunk_id.to_hex();
        self.apply_entry(LogEntry::PutChunkLocation { chunk_id_hex: hex, location });
    }

    /// Removes the location of a chunk, if any.
    pub fn delete_chunk_location(&mut self, chunk_id: &ChunkId)
        requires
            old(self).wf(),
        ensures
            final(self).wf(),
            final(self)@ == apply_spec(
                old(self)@,
                EntryView::DeleteChunkLocation(hex_lower(chunk_id@)),
            ),
    {
        let hex = chunk_id.to_hex();
        self.apply_entry(LogEntry::DeleteChunkLocation { chunk_id_hex: hex });
    }

    /// The location recorded for the chunk whose id has hex `hex`.
    pub fn get_location_by_hex(&self, hex: &str) -> (r: Option<ChunkLocation>)
        requires
            self.wf(),
        ensures
            match r {
                Some(l) => self@.chunk_locations.dom().contains(hex@)
                    && self@.chunk_locations[hex@] == l@,
                None => !self@.chunk_locations.dom().contains(hex@),
            },
    {
        match self.chunk_locations.get(hex) {
            Some(l) => Some(l.duplicate()),
            None => None,
        }
    }

    /// The location recorded for a chunk.
    pub fn get_chunk_location(&self, chunk_id: &ChunkId) -> (r: Option<ChunkLocation>)
        requires
            self.wf(),
        ensures
            match r {
                Some(l) => self@.chunk_locations.dom().contains(hex_lower(chunk_id@))
                    && self@.chunk_locations[hex_lower(chunk_id@)] == l@,
                None => !self@.chunk_locations.dom().contains(hex_lower(chunk_id@)),
            },
    {
        let hex = chunk_id.to_hex();
        self.get_location_by_hex(hex.as_str())
    }

    /// Number of distinct chunk locations currently tracked.
    pub fn chunk_count(&self) -> (r: usize)
        requires
            self.wf(),
        ensures
            r == self@.chunk_locations.dom().len(),
    {
        proof {
            self.lemma_wf();
        }
        self.chunk_locations.len()
    }

    /// Number of manifests currently stored.
    pub fn manifest_count(&self) -> (r: usize)
        requires
            self.wf(),
        ensures
            r == self@.manifests.dom().len(),
    {
        proof {
            self.lemma_wf();
        }
        self.manifests.len()
    }

    /// The hex ids of all tracked chunks, in key order.
    pub fn chunk_id_hexes(&self) -> (r: Vec<String>)
        requires
            self.wf(),
        ensures
            r@.map_values(|s: String| s@) == sorted_entries(self@.chunk_locations).map_values(
                |e: (Seq<char>, LocationView)| e.0,
            ),
    {
        proof {
            self.lemma_wf();
        }
        let mut r: Vec<String> = Vec::new();
        let mut i: usize = 0;
        while i < self.chunk_locations.len()
            invariant
                i <= self.chunk_locations@.len(),
                r@.map_values(|s: String| s@) == self.chunk_locations@.take(i as int).map_values(
                    |e: (Seq<char>, LocationView)| e.0,
                ),
            decreases self.chunk_locations@.len() - i,
        {
            let k = self.chunk_locations.key_at(i).clone();
            let ghost r0 = r@;
            r.push(k);
            proof {
                assert(r@.map_values(|s: String| s@) =~= r0.map_values(|s: String| s@).push(k@));
                assert(self.chunk_locations@.take(i + 1) =~= self.chunk_locations@.take(
                    i as int,
                ).push(self.chunk_locations@[i as int]));
                assert(self.chunk_locations@.take(i + 1).map_values(
                    |e: (Seq<char>, LocationView)| e.0,
                ) =~= self.chunk_locations@.take(i as int).map_values(
                    |e: (Seq<char>, LocationView)| e.0,
                ).push(self.chunk_locations@[i as int].0));
            }
            i = i + 1;
        }
        assert(self.chunk_locations@.take(i as int) =~= self.chunk_locations@);
        r
    }

    /// The entry that records one more reference on a chunk: the existing
    /// location with its count raised by one, or a new location at `path`
    /// with count one.
    pub fn chunk_ref_added_entry(&self, chunk_id: &ChunkId, path: &str) -> (r: LogEntry)
        requires
            self.wf(),
            self@.chunk_locations.dom().contains(hex_lower(chunk_id@))
                ==> self@.chunk_locations[hex_lower(chunk_id@)].ref_count < u32::MAX,
        ensures
            r@ == EntryView::PutChunkLocation(
                hex_lower(chunk_id@),
                if self@.chunk_locations.dom().contains(hex_lower(chunk_id@)) {
                    LocationView {
                        ref_count: (self@.chunk_locations[hex_lower(chunk_id@)].ref_count + 1) as u32,
                        ..self@.chunk_locations[hex_lower(chunk_id@)]
                    }
                } else {
                    LocationView { path: path@, ref_count: 1 }
                },
            ),
    {
        let hex = chunk_id.to_hex();
        let updated = match self.get_location_by_hex(hex.as_str()) {
            Some(loc) => ChunkLocation { path: loc.path, ref_count: loc.ref_count + 1 },
            None => ChunkLocation { path: path.to_owned(), ref_count: 1 },
        };
        LogEntry::PutChunkLocation { chunk_id_hex: hex, location: updated }
    }

    /// The entry that drops one reference on a chunk, and whether the chunk
    /// is then gone: none when the chunk is not tracked, a deletion when its
    /// count is at most one, else the location with its count lowered.
    pub fn chunk_ref_released_entry(&self, chunk_id: &ChunkId) -> (r: Option<(LogEntry, bool)>)
        requires
            self.wf(),
        ensures
            match r {
                None => !self@.chunk_locations.dom().contains(hex_lower(chunk_id@)),
                Some((e, gone)) => {
                    let l = self@.chunk_locations[hex_lower(chunk_id@)];
                    &&& self@.chunk_locations.dom().contains(hex_lower(chunk_id@))
                    &&& gone == (l.ref_count <= 1)
                    &&& e@ == if l.ref_count <= 1 {
                        EntryView::DeleteChunkLocation(hex_lower(chunk_id@))
                    } else {
                        EntryView::PutChunkLocation(
                            hex_lower(chunk_id@),
                            LocationView { ref_count: (l.ref_count - 1) as u32, ..l },
                        )
                    }
                },
            },
    {
        let hex = chunk_id.to_hex();
        match self.get_location_by_hex(hex.as_str()) {
            None => None,
            Some(loc) => {
                if loc.ref_count <= 1 {
                    Some((LogEntry::DeleteChunkLocation { chunk_id_hex: hex }, true))
                } else {
                    let updated = ChunkLocation { path: loc.path, ref_count: loc.ref_count - 1 };
                    Some((LogEntry::PutChunkLocation { chunk_id_hex: hex, location: updated }, false))
                }
            },
        }
    }

    /// Takes a reference on a chunk: creates it at count one if absent,
    /// otherwise increments its count.
    pub fn add_chunk_ref(&mut self, chunk_id: &ChunkId, path: &str)
        requires
            old(self).wf(),
            old(self)@.chunk_locations.dom().contains(hex_lower(chunk_id@))
                ==> old(self)@.chunk_locations[hex_lower(chunk_id@)].ref_count < u32::MAX,
        ensures
            final(self).wf(),
            final(self)@ == apply_spec(old(self)@, old(self).chunk_ref_added_entry_spec(chunk_id@, path@)),
    {
        let e = self.chunk_ref_added_entry(chunk_id, path);
        self.apply_entry(e);
    }

    /// The entry `chunk_ref_added_entry` produces.
    pub open spec fn chunk_ref_added_entry_spec(&self, id: Seq<u8>, path: Seq<char>) -> EntryView {
        EntryView::PutChunkLocation(
            hex_lower(id),
            if self@.chunk_locations.dom().contains(hex_lower(id)) {
                LocationView {
                    ref_count: (self@.chunk_locations[hex_lower(id)].ref_count + 1) as u32,
                    ..self@.chunk_locations[hex_lower(id)]
                }
            } else {
                LocationView { path: path, ref_count: 1 }
            },
        )
    }

    /// Drops a reference on a chunk; removes its location when the count
    /// reaches zero. Returns whether it was removed.
    pub fn decrement_chunk_ref(&mut self, chunk_id: &ChunkId) -> (r: bool)
        requires
            old(self).wf(),
        ensures
            final(self).wf(),
            !old(self)@.chunk_locations.dom().contains(hex_lower(chunk_id@)) ==> !r && final(self)@
                == old(self)@,
            old(self)@.chunk_locations.dom().contains(hex_lower(chunk_id@)) ==> {
                let l = old(self)@.chunk_locations[hex_lower(chunk_id@)];
                &&& r == (l.ref_count <= 1)
                &&& final(self)@ == if l.ref_count <= 1 {
                    apply_spec(old(self)@, EntryView::DeleteChunkLocation(hex_lower(chunk_id@)))
                } else {
                    apply_spec(
                        old(self)@,
                        EntryView::PutChunkLocation(
                            hex_lower(chunk_id@),
                            LocationView { ref_count: (l.ref_count - 1) as u32, ..l },
                        ),
                    )
                }
            },
    {
        match self.chunk_ref_released_entry(chunk_id) {
            None => false,
            Some((e, gone)) => {
                self.apply_entry(e);
                gone
            },
        }
    }


    /// One page of manifests: those at or after `cursor` (or `prefix` when
    /// `cursor` is empty) in key order, while their keys start with `prefix`,
    /// skipping the cursor's own key, at most `limit` of them (at least one);
    /// and the last key returned when the page is full.
    pub fn list_manifests(&self, prefix: &str, limit: usize, cursor: &str) -> (r: (
        Vec<MediaManifest>,
        Option<String>,
    ))
        requires
            self.wf(),
        ensures
            r.0@.map_values(|m: MediaManifest| m@) == listing(
                sorted_entries(self@.manifests),
                prefix@,
                limit as nat,
                cursor@,
            ).0,
            opt_string_view(r.1) == listing(
                sorted_entries(self@.manifests),
                prefix@,
                limit as nat,
                cursor@,
            ).1,
    {
        proof {
            self.lemma_wf();
        }
        if limit == 0 {
            return (Vec::new(), None);
        }
        let ghost s = self.manifests@;
        let start: &str = if cursor.is_empty() {
            prefix
        } else {
            cursor
        };
        let ghost st = start@;
        let idx0: usize = match self.manifests.find(start) {
            Ok(i) => i,
            Err(i) => i,
        };
        let ghost below = |e: (Seq<char>, ManifestView)| key_lt(e.0, st);
        let ghost has_pre = |e: (Seq<char>, ManifestView)| key_has_prefix(e.0, prefix@);
        proof {
            if idx0 < s.len() {
                if s[idx0 as int].0 == st {
                    lemma_key_lt_irreflexive(st);
                } else {
                    lemma_key_lt_asymmetric(st, s[idx0 as int].0);
                }
            }
            lemma_lead_len_at(s, below, idx0 as int);
        }
        let ghost after = s.skip(idx0 as int);
        let ghost n: int = if limit == 0 {
            1
        } else {
            limit as int
        };
        let mut results: Vec<MediaManifest> = Vec::new();
        let mut j: usize = idx0;
        let mut next: Option<String> = None;
        let mut full = false;
        while j < self.manifests.len()
            invariant_except_break
                !full,
                next is None,
            invariant
                s == self.manifests@,
                pairs_sorted(s),
                st == (if cursor@.len() == 0 {
                    prefix@
                } else {
                    cursor@
                }),
                idx0 <= j <= s.len(),
                idx0 < s.len() ==> !key_lt(s[idx0 as int].0, st),
                forall|k: int| idx0 <= k < j ==> key_has_prefix(#[trigger] s[k].0, prefix@),
                !full ==> results@.map_values(|m: MediaManifest| m@) == skip_cursor(
                    s.subrange(idx0 as int, j as int),
                    cursor@,
                ).map_values(|e: (Seq<char>, ManifestView)| e.1),
                !full ==> results@.len() < n,
                !full ==> next is None,
                full ==> j < s.len() && results@.len() == n && results@.map_values(
                    |m: MediaManifest| m@,
                ) == skip_cursor(s.subrange(idx0 as int, j + 1), cursor@).map_values(
                    |e: (Seq<char>, ManifestView)| e.1,
                ) && opt_string_view(next) == Some(s[j as int].0) && key_has_prefix(
                    s[j as int].0,
                    prefix@,
                ),
                n == (if limit == 0 {
                    1
                } else {
                    limit as int
                }),
            ensures
                full || j == s.len() || !key_has_prefix(s[j as int].0, prefix@),
            decreases s.len() - j,
        {
            let key = self.manifests.key_at(j);
            let ghost sub0 = s.subrange(idx0 as int, j as int);
            proof {
                assert(s.subrange(idx0 as int, j + 1) =~= sub0.push(s[j as int]));
            }
            if !prefix.is_empty() && !key_starts_with(key.as_str(), prefix) {
                break;
            }
            proof {
                if prefix@.len() == 0 {
                    assert(key_has_prefix(s[j as int].0, prefix@)) by {
                        assert(prefix@ =~= Seq::<char>::empty());
                        assert(vstd::utf8::encode_utf8(prefix@) =~= Seq::<u8>::empty()) by {
                            reveal_with_fuel(vstd::utf8::encode_utf8, 1);
                        }
                    }
                }
            }
            if !cursor.is_empty() && key_eq(key.as_str(), cursor) {
                proof {
                    if j > idx0 {
                        // a later key is above the first one, which is not below the cursor
                        assert(key_lt(s[idx0 as int].0, s[j as int].0));
                        crate::keys::lemma_key_lt_total(s[idx0 as int].0, st);
                        if s[idx0 as int].0 != st {
                            lemma_key_lt_transitive(st, s[idx0 as int].0, s[j as int].0);
                        }
                        lemma_key_lt_irreflexive(st);
                        assert(false);
                    }
                    assert(sub0.len() == 0);
                    assert(skip_cursor(s.subrange(idx0 as int, j + 1), cursor@) =~= Seq::<
                        (Seq<char>, ManifestView),
                    >::empty());
                    assert(results@.map_values(|m: MediaManifest| m@) =~= Seq::<ManifestView>::empty());
                }
                j = j + 1;
                continue;
            }
            let m = self.manifests.value_at(j).duplicate();
            let ghost r0 = results@;
            results.push(m);
            proof {
                assert(results@.map_values(|m: MediaManifest| m@) =~= r0.map_values(
                    |m: MediaManifest| m@,
                ).push(s[j as int].1));
                if j > idx0 {
                    assert(sub0.len() > 0);
                    assert(sub0[0] == s[idx0 as int]);
                    assert(s.subrange(idx0 as int, j + 1)[0] == s[idx0 as int]);
                    if cursor@.len() > 0 && sub0[0].0 == cursor@ {
                        assert(skip_cursor(s.subrange(idx0 as int, j + 1), cursor@) =~= skip_cursor(
                            sub0,
                            cursor@,
                        ).push(s[j as int]));
                    } else {
                        assert(skip_cursor(s.subrange(idx0 as int, j + 1), cursor@) =~= skip_cursor(
                            sub0,
                            cursor@,
                        ).push(s[j as int]));
                    }
                } else {
                    assert(sub0.len() == 0);
                    assert(skip_cursor(s.subrange(idx0 as int, j + 1), cursor@) =~= seq![
                        s[j as int],
                    ]);
                    assert(skip_cursor(sub0, cursor@) =~= Seq::<(Seq<char>, ManifestView)>::empty());
                }
                assert(skip_cursor(s.subrange(idx0 as int, j + 1), cursor@).map_values(
                    |e: (Seq<char>, ManifestView)| e.1,
                ) =~= skip_cursor(sub0, cursor@).map_values(
                    |e: (Seq<char>, ManifestView)| e.1,
                ).push(s[j as int].1));
            }
            if results.len() >= limit {
                next = Some(key.clone());
                full = true;
                break;
            }
            j = j + 1;
        }
        proof {
            let pre_len: int = if full {
                j + 1 - idx0
            } else {
                j - idx0
            };
            assert forall|k: int| 0 <= k < pre_len implies #[trigger] has_pre(after[k]) by {
                assert(after[k] == s[idx0 + k]);
            }
            lemma_lead_len_ge(after, has_pre, pre_len);
            let rl = lead_len(after, has_pre) as int;
            let run = after.take(rl);
            if !full {
                if j < s.len() {
                    assert(after[j - idx0] == s[j as int]);
                }
                lemma_lead_len_at(after, has_pre, j - idx0);
                assert(run =~= s.subrange(idx0 as int, j as int));
            } else {
                let sub = s.subrange(idx0 as int, j + 1);
                assert(sub =~= run.take(j + 1 - idx0));
                let e1 = skip_cursor(run, cursor@);
                let e2 = skip_cursor(sub, cursor@);
                assert(run[0] == sub[0]);
                assert(e2.len() == n);
                assert(e2 =~= e1.take(n));
                assert(e1.len() >= n);
                assert(e1[n - 1] == e2[n - 1]);
                assert(e2[n - 1] == s[j as int]) by {
                    assert(e2[e2.len() - 1] == sub[sub.len() - 1]);
                }
            }
        }
        (results, next)
    }

    /// The entries of a compacted log: every manifest in key order, then
    /// every chunk location in key order.
    pub fn compaction_entries(&self) -> (r: Vec<LogEntry>)
        requires
            self.wf(),
        ensures
            r@.map_values(|e: LogEntry| e@) == compaction_spec(self@),
    {
        proof {
            self.lemma_wf();
        }
        let ghost ms = self.manifests@;
        let ghost ls = self.chunk_locations@;
        let mut r: Vec<LogEntry> = Vec::new();
        let mut i: usize = 0;
        while i < self.manifests.len()
            invariant
                ms == self.manifests@,
                i <= ms.len(),
                r@.map_values(|e: LogEntry| e@) == ms.take(i as int).map_values(
                    |e: (Seq<char>, ManifestView)| EntryView::PutManifest(e.1),
                ),
            decreases ms.len() - i,
        {
            let m = self.manifests.value_at(i).duplicate();
            let ghost r0 = r@;
            r.push(LogEntry::PutManifest(m));
            proof {
                assert(r@.map_values(|e: LogEntry| e@) =~= r0.map_values(|e: LogEntry| e@).push(
                    EntryView::PutManifest(m@),
                ));
                assert(ms.take(i + 1) =~= ms.take(i as int).push(ms[i as int]));
                assert(ms.take(i + 1).map_values(
                    |e: (Seq<char>, ManifestView)| EntryView::PutManifest(e.1),
                ) =~= ms.take(i as int).map_values(
                    |e: (Seq<char>, ManifestView)| EntryView::PutManifest(e.1),
                ).push(EntryView::PutManifest(ms[i as int].1)));
            }
            i = i + 1;
        }
        assert(ms.take(i as int) =~= ms);
        let ghost part1 = r@.map_values(|e: LogEntry| e@);
        let mut j: usize = 0;
        while j < self.chunk_locations.len()
            invariant
                ls == self.chunk_locations@,
                j <= ls.len(),
                r@.map_values(|e: LogEntry| e@) == part1 + ls.take(j as int).map_values(
                    |e: (Seq<char>, LocationView)| EntryView::PutChunkLocation(e.0, e.1),
                ),
            decreases ls.len() - j,
        {
            let k = self.chunk_locations.key_at(j).clone();
            let l = self.chunk_locations.value_at(j).duplicate();
            let ghost r0 = r@;
            r.push(LogEntry::PutChunkLocation { chunk_id_hex: k, location: l });
            proof {
                assert(r@.map_values(|e: LogEntry| e@) =~= r0.map_values(|e: LogEntry| e@).push(
                    EntryView::PutChunkLocation(k@, l@),
                ));
                assert(ls.take(j + 1) =~= ls.take(j as int).push(ls[j as int]));
                assert(ls.take(j + 1).map_values(
                    |e: (Seq<char>, LocationView)| EntryView::PutChunkLocation(e.0, e.1),
                ) =~= ls.take(j as int).map_values(
                    |e: (Seq<char>, LocationView)| EntryView::PutChunkLocation(e.0, e.1),
                ).push(EntryView::PutChunkLocation(ls[j as int].0, ls[j as int].1)));
            }
            j = j + 1;
        }
        assert(ls.take(j as int) =~= ls);
        r
    }
}


/// One line of the index log as read back: empty, a parsed entry, or text
/// that does not parse. `len` counts the line's bytes and its newline.
pub enum ParsedLine {
    Blank { len: u64 },
    Entry { entry: LogEntry, len: u64 },
    Corrupt,
}

/// What a read-back log line holds.
pub enum LineView {
    Blank(u64),
    Entry(EntryView, u64),
    Corrupt,
}

impl View for ParsedLine {
    type V = LineView;

    open spec fn view(&self) -> LineView {
        match self {
            ParsedLine::Blank { len } => LineView::Blank(*len),
            ParsedLine::Entry { entry, len } => LineView::Entry(entry@, *len),
            ParsedLine::Corrupt => LineView::Corrupt,
        }
    }
}

/// The lines before the first one that does not parse.
pub open spec fn good_lines(lines: Seq<LineView>) -> Seq<LineView> {
    lines.take(lead_len(lines, |l: LineView| !(l is Corrupt)) as int)
}

/// The entries of the parsed lines, in order.
pub open spec fn line_entries(lines: Seq<LineView>) -> Seq<EntryView>
    decreases lines.len(),
{
    if lines.len() == 0 {
        Seq::empty()
    } else {
        match lines.last() {
            LineView::Entry(e, _) => line_entries(lines.drop_last()).push(e),
            _ => line_entries(lines.drop_last()),
        }
    }
}

/// The total byte length of the lines (a line that does not parse counts
/// nothing).
pub open spec fn lines_len(lines: Seq<LineView>) -> int
    decreases lines.len(),
{
    if lines.len() == 0 {
        0
    } else {
        lines_len(lines.drop_last()) + match lines.last() {
            LineView::Entry(_, n) => n as int,
            LineView::Blank(n) => n as int,
            LineView::Corrupt => 0,
        }
    }
}

/// The outcome of replaying an index log.
pub struct ReplayOutcome {
    /// The index the good lines rebuild.
    pub index: Index,
    /// The number of entries replayed.
    pub entry_count: u64,
    /// Manifests plus chunk locations in the rebuilt index.
    pub live_count: u64,
    /// The byte length of the good lines: where the log should be cut.
    pub good_len: u64,
    /// Whether a line failed to parse (and the log must be cut there).
    pub truncated: bool,
}

proof fn lemma_lines_len_mono(lines: Seq<LineView>, i: int)
    requires
        0 <= i <= lines.len(),
    ensures
        lines_len(lines.take(i)) <= lines_len(lines),
    decreases lines.len() - i,
{
    if i < lines.len() {
        lemma_lines_len_mono(lines, i + 1);
        assert(lines.take(i + 1).drop_last() =~= lines.take(i));
    } else {
        assert(lines.take(i) =~= lines);
    }
}

/// Rebuilds the index from the lines of its log: applies the entries in
/// order up to the first line that does not parse, and reports where the
/// good part of the log ends.
pub fn replay(lines: Vec<ParsedLine>) -> (r: ReplayOutcome)
    requires
        lines_len(lines@.map_values(|l: ParsedLine| l@)) <= u64::MAX,
    ensures
        ({
            let g = good_lines(lines@.map_values(|l: ParsedLine| l@));
            &&& r.index.wf()
            &&& r.index@ == apply_all(empty_index(), line_entries(g))
            &&& r.entry_count == line_entries(g).len()
            &&& r.good_len == lines_len(g)
            &&& r.truncated == (g.len() < lines@.len())
            &&& r.live_count == if r.index@.manifests.dom().len() + r.index@.chunk_locations.dom().len()
                > u64::MAX {
                u64::MAX as int
            } else {
                (r.index@.manifests.dom().len() + r.index@.chunk_locations.dom().len()) as int
            }
        }),
{
    let ghost all = lines@.map_values(|l: ParsedLine| l@);
    let ghost ok = |l: LineView| !(l is Corrupt);
    let mut index = Index::new();
    let mut entry_count: u64 = 0;
    let mut good_len: u64 = 0;
    let mut truncated = false;
    let mut i: usize = 0;
    let total = lines.len();
    for line in it: lines
        invariant_except_break
            i == it.index(),
            !truncated,
        invariant
            all == it.seq().map_values(|l: ParsedLine| l@),
            total == all.len(),
            lines_len(all) <= u64::MAX,
            i <= total,
            entry_count <= i,
            forall|j: int| 0 <= j < i ==> !((#[trigger] all[j]) is Corrupt),
            index.wf(),
            index@ == apply_all(empty_index(), line_entries(all.take(i as int))),
            entry_count == line_entries(all.take(i as int)).len(),
            good_len == lines_len(all.take(i as int)),
        ensures
            truncated ==> i < total && all[i as int] is Corrupt,
            !truncated ==> i == total,
            forall|j: int| 0 <= j < i ==> !((#[trigger] all[j]) is Corrupt),
            index.wf(),
            index@ == apply_all(empty_index(), line_entries(all.take(i as int))),
            entry_count == line_entries(all.take(i as int)).len(),
            good_len == lines_len(all.take(i as int)),
    {
        proof {
            assert(all[i as int] == line@);
            assert(all.take(i + 1).drop_last() =~= all.take(i as int));
            assert(all.take(i + 1).last() == line@);
            lemma_lines_len_mono(all, i + 1);
        }
        let ghost lv = line@;
        match line {
            ParsedLine::Blank { len } => {
                assert(lv == LineView::Blank(len));
                assert(!(lv is Corrupt));
                assert(line_entries(all.take(i + 1)) == line_entries(all.take(i as int)));
                good_len = good_len + len;
            },
            ParsedLine::Entry { entry, len } => {
                assert(lv == LineView::Entry(entry@, len));
                assert(!(lv is Corrupt));
                let ghost es0 = line_entries(all.take(i as int));
                assert(line_entries(all.take(i + 1)) == es0.push(entry@));
                assert(es0.push(entry@).drop_last() =~= es0);
                index.apply_entry(entry);
                entry_count = entry_count + 1;
                good_len = good_len + len;
            },
            ParsedLine::Corrupt => {
                assert(lv == LineView::Corrupt);
                assert(all[i as int] is Corrupt);
                truncated = true;
                break;
            },
        }
        i = i + 1;
    }
    proof {
        lemma_lead_len_at(all, ok, i as int);
    }
    let live_count = match (index.manifest_count() as u64).checked_add(index.chunk_count() as u64) {
        Some(n) => n,
        None => u64::MAX,
    };
    ReplayOutcome { index, entry_count, live_count, good_len, truncated }
}

/// The number of keys of a sorted list's map is the list's length.
pub proof fn lemma_dom_len<W>(s: Seq<(Seq<char>, W)>)
    requires
        pairs_sorted(s),
    ensures
        to_map(s).dom().finite(),
        to_map(s).dom().len() == s.len(),
    decreases s.len(),
{
    if s.len() == 0 {
        assert(to_map(s).dom() =~= Set::<Seq<char>>::empty());
    } else {
        lemma_to_map_push(s);
        let t = s.drop_last();
        lemma_dom_len(t);
        assert(!to_map(t).dom().contains(s.last().0)) by {
            if has_key(t, s.last().0) {
                let j = key_index(t, s.last().0);
                assert(t[j] == s[j]);
                assert(key_lt(s[j].0, s[s.len() - 1].0));
                lemma_key_lt_irreflexive(s.last().0);
            }
        }
        assert(to_map(s).dom() =~= to_map(t).dom().insert(s.last().0));
    }
}

/// Compaction keeps the index: replaying the compacted log from an empty
/// index gives back the same manifests and chunk locations.
pub proof fn lemma_compaction_preserves_index(index: &Index)
    requires
        index.wf(),
    ensures
        apply_all(empty_index(), compaction_spec(index@)) == index@,
{
    index.lemma_wf();
    let ms = index.manifest_list();
    let ls = index.location_list();
    let a = ms.map_values(|e: (Seq<char>, ManifestView)| EntryView::PutManifest(e.1));
    let b = ls.map_values(|e: (Seq<char>, LocationView)| EntryView::PutChunkLocation(e.0, e.1));
    assert(compaction_spec(index@) == a + b);
    lemma_apply_all_concat(empty_index(), a, b);
    assert forall|i: int| 0 <= i < ms.len() implies (#[trigger] ms[i]).1.key == ms[i].0 by {
        lemma_sorted_index(ms, i);
        lemma_to_map_sorted(ms, ms[i].0);
    }
    lemma_apply_manifest_puts(empty_index(), ms);
    let mid = IndexView {
        manifests: to_map(ms),
        chunk_locations: Map::<Seq<char>, LocationView>::empty(),
    };
    lemma_apply_location_puts(mid, ls);
}

} // verus!
