//! Index transactions: each change to the index is made through log
//! entries, which are returned so that they can be appended to the
//! write-ahead log; replaying them gives the index the change produced.
use vstd::prelude::*;

use crate::digest::hex_lower;
use crate::engine::{key_check, validate_key};
use crate::error::KaidaDbError;
use crate::index::{apply_all, apply_spec, EntryView, Index, IndexView, LogEntry};
use crate::sorted_map::Duplicate;
use crate::text::string_of;
use crate::types::{ChunkId, LocationView, ManifestView, MediaManifest};

verus! {

/// The views of a list of log entries.
pub open spec fn entry_views(es: Seq<LogEntry>) -> Seq<EntryView> {
    es.map_values(|e: LogEntry| e@)
}

/// Applies `e` to the index and records it in `log`.
fn apply_logged(index: &mut Index, log: &mut Vec<LogEntry>, e: LogEntry)
    requires
        old(index).wf(),
    ensures
        final(index).wf(),
        final(index)@ == apply_spec(old(index)@, e@),
        entry_views(final(log)@) == entry_views(old(log)@).push(e@),
{
    let copy = e.duplicate();
    let ghost l0 = log@;
    log.push(copy);
    assert(entry_views(log@) =~= entry_views(l0).push(e@));
    index.apply_entry(e);
}

/// What dropping one reference on chunk `id` writes, and whether the chunk
/// is then gone: nothing for an untracked chunk, a deletion at count one or
/// less, else the count lowered by one.
pub open spec fn release_one(v: IndexView, id: Seq<u8>) -> Option<(EntryView, bool)> {
    let h = hex_lower(id);
    if !v.chunk_locations.dom().contains(h) {
        None
    } else {
        let l = v.chunk_locations[h];
        if l.ref_count <= 1 {
            Some((EntryView::DeleteChunkLocation(h), true))
        } else {
            Some((EntryView::PutChunkLocation(h, LocationView { ref_count: (l.ref_count - 1) as u32, ..l }), false))
        }
    }
}

/// The entries written when one reference on each of `ids` is dropped in
/// turn, and the chunks whose last reference went.
pub open spec fn release_all(v: IndexView, ids: Seq<ChunkId>) -> (Seq<EntryView>, Seq<ChunkId>)
    decreases ids.len(),
{
    if ids.len() == 0 {
        (Seq::empty(), Seq::empty())
    } else {
        let (es, gone) = release_all(v, ids.drop_last());
        match release_one(apply_all(v, es), ids.last()@) {
            None => (es, gone),
            Some((e, g)) => (es.push(e), if g {
                gone.push(ids.last())
            } else {
                gone
            }),
        }
    }
}

/// How many of `ids` have the hex name `h`.
pub open spec fn occurrences(ids: Seq<ChunkId>, h: Seq<char>) -> nat
    decreases ids.len(),
{
    if ids.len() == 0 {
        0
    } else {
        occurrences(ids.drop_last(), h) + if hex_lower(ids.last()@) == h {
            1nat
        } else {
            0nat
        }
    }
}

/// The location of chunk `h` after one reference per occurrence in `ids`
/// is dropped: untouched when it does not occur, its count lowered by its
/// occurrences while that leaves at least one, and gone otherwise.
pub open spec fn released_location(v: IndexView, ids: Seq<ChunkId>, h: Seq<char>) -> Option<LocationView> {
    if !v.chunk_locations.dom().contains(h) {
        None
    } else {
        let l = v.chunk_locations[h];
        let n = occurrences(ids, h);
        if n == 0 {
            Some(l)
        } else if l.ref_count > n {
            Some(LocationView { ref_count: (l.ref_count - n) as u32, ..l })
        } else {
            None
        }
    }
}

/// Where an index tracks chunk `h`, and how.
pub open spec fn location_of(v: IndexView, h: Seq<char>) -> Option<LocationView> {
    if v.chunk_locations.dom().contains(h) {
        Some(v.chunk_locations[h])
    } else {
        None
    }
}

/// Dropping references, chunk by chunk: each chunk's count falls by the
/// number of times it occurs in `ids`, and the chunk leaves the index
/// exactly when its count would reach zero; manifests are untouched, and a
/// chunk is reported gone exactly when it left.
pub proof fn lemma_release_counts(v: IndexView, ids: Seq<ChunkId>, h: Seq<char>)
    ensures
        location_of(apply_all(v, release_all(v, ids).0), h) == released_location(v, ids, h),
        apply_all(v, release_all(v, ids).0).manifests == v.manifests,
        (exists|i: int| 0 <= i < release_all(v, ids).1.len() && hex_lower(release_all(v, ids).1[i]@) == h)
            <==> (v.chunk_locations.dom().contains(h) && occurrences(ids, h) > 0
            && released_location(v, ids, h) is None),
    decreases ids.len(),
{
    if ids.len() > 0 {
        let prev = ids.drop_last();
        lemma_release_counts(v, prev, h);
        let (es, gone) = release_all(v, prev);
        let w = apply_all(v, es);
        let x = ids.last();
        match release_one(w, x@) {
            None => {},
            Some((e, g)) => {
                assert(es.push(e).drop_last() =~= es);
            },
        }
        let gone2 = release_all(v, ids).1;
        if hex_lower(x@) != h {
            assert forall|i: int| 0 <= i < gone2.len() && hex_lower(gone2[i]@) == h implies 0 <= i < gone.len()
                && hex_lower(gone[i]@) == h by {
                if i == gone.len() {
                    assert(gone2[i] == x);
                }
            }
            if exists|i: int| 0 <= i < gone.len() && hex_lower(gone[i]@) == h {
                let i = choose|i: int| 0 <= i < gone.len() && hex_lower(gone[i]@) == h;
                assert(gone2[i] == gone[i]);
            }
        } else {
            if exists|i: int| 0 <= i < gone.len() && hex_lower(gone[i]@) == h {
                let i = choose|i: int| 0 <= i < gone.len() && hex_lower(gone[i]@) == h;
                assert(gone2[i] == gone[i]);
            }
            if release_one(w, x@) matches Some((e, true)) {
                assert(gone2[gone.len() as int] == x);
            } else {
                assert forall|i: int| 0 <= i < gone2.len() && hex_lower(gone2[i]@) == h implies 0 <= i < gone.len()
                    && hex_lower(gone[i]@) == h by {
                    assert(gone2 == gone);
                }
            }
        }
    }
}

/// Drops one reference on each chunk of `ids`, in order; returns the log
/// entries written and the chunks whose last reference went (their files
/// can be deleted).
pub fn release_refs(index: &mut Index, ids: &Vec<ChunkId>) -> (r: (Vec<LogEntry>, Vec<ChunkId>))
    requires
        old(index).wf(),
    ensures
        final(index).wf(),
        (entry_views(r.0@), r.1@) == release_all(old(index)@, ids@),
        final(index)@ == apply_all(old(index)@, entry_views(r.0@)),
{
    let ghost v0 = index@;
    let mut log: Vec<LogEntry> = Vec::new();
    let mut gone: Vec<ChunkId> = Vec::new();
    let mut i: usize = 0;
    assert(ids@.take(0) =~= Seq::<ChunkId>::empty());
    assert(entry_views(log@) =~= Seq::<EntryView>::empty());
    while i < ids.len()
        invariant
            i <= ids@.len(),
            index.wf(),
            (entry_views(log@), gone@) == release_all(v0, ids@.take(i as int)),
            index@ == apply_all(v0, entry_views(log@)),
        decreases ids@.len() - i,
    {
        let id = &ids[i];
        assert(ids@.take(i + 1).drop_last() =~= ids@.take(i as int));
        assert(ids@.take(i + 1).last() == *id);
        match index.chunk_ref_released_entry(id) {
            None => {},
            Some((e, g)) => {
                let ghost es0 = entry_views(log@);
                apply_logged(index, &mut log, e);
                if g {
                    gone.push(*id);
                }
                assert(apply_all(v0, entry_views(log@)) == apply_spec(apply_all(v0, es0), entry_views(log@).last())) by {
                    assert(entry_views(log@).drop_last() =~= es0);
                }
            },
        }
        i = i + 1;
    }
    assert(ids@.take(ids@.len() as int) =~= ids@);
    (log, gone)
}

/// Deletes the object stored under `key`: drops one reference on each of
/// its chunks, then its manifest. `None` (and no change) when there is no
/// such object; else the log entries written and the chunks whose last
/// reference went.
pub fn delete_media(index: &mut Index, key: &str) -> (r: Option<(Vec<LogEntry>, Vec<ChunkId>)>)
    requires
        old(index).wf(),
    ensures
        final(index).wf(),
        r is None <==> !old(index)@.manifests.dom().contains(key@),
        r is None ==> final(index)@ == old(index)@,
        r matches Some((es, gone)) ==> {
            let rel = release_all(old(index)@, old(index)@.manifests[key@].chunks);
            &&& entry_views(es@) == rel.0.push(EntryView::DeleteManifest(key@))
            &&& gone@ == rel.1
            &&& final(index)@ == apply_all(old(index)@, entry_views(es@))
        },
{
    let m = match index.get_manifest(key) {
        Some(m) => m,
        None => {
            return None;
        },
    };
    let ghost v0 = index@;
    let (mut log, gone) = release_refs(index, &m.chunks);
    let ghost es0 = entry_views(log@);
    apply_logged(index, &mut log, LogEntry::DeleteManifest(string_of(key)));
    assert(entry_views(log@).drop_last() =~= es0);
    Some((log, gone))
}

/// Commits a finished upload's manifest: stores it under its key and, when
/// it replaces an earlier object, drops one reference on each of the
/// earlier object's chunks. Returns the log entries written and the chunks
/// whose last reference went.
pub fn commit_manifest(index: &mut Index, manifest: MediaManifest) -> (r: (Vec<LogEntry>, Vec<ChunkId>))
    requires
        old(index).wf(),
    ensures
        final(index).wf(),
        ({
            let v1 = apply_spec(old(index)@, EntryView::PutManifest(manifest@));
            let rel = if old(index)@.manifests.dom().contains(manifest@.key) {
                release_all(v1, old(index)@.manifests[manifest@.key].chunks)
            } else {
                (Seq::<EntryView>::empty(), Seq::<ChunkId>::empty())
            };
            &&& entry_views(r.0@) == seq![EntryView::PutManifest(manifest@)] + rel.0
            &&& r.1@ == rel.1
        }),
        final(index)@ == apply_all(old(index)@, entry_views(r.0@)),
{
    let ghost v0 = index@;
    let ghost mv = manifest@;
    let previous = index.get_manifest(manifest.key.as_str());
    let mut log: Vec<LogEntry> = Vec::new();
    apply_logged(index, &mut log, LogEntry::PutManifest(manifest));
    let ghost v1 = index@;
    assert(entry_views(log@) =~= seq![EntryView::PutManifest(mv)]);
    assert(apply_all(v0, entry_views(log@)) == v1) by {
        assert(entry_views(log@).drop_last() =~= Seq::<EntryView>::empty());
        assert(entry_views(log@).last() == EntryView::PutManifest(mv));
        assert(apply_all(v0, Seq::<EntryView>::empty()) == v0);
    }
    match previous {
        Some(old_m) => {
            let (more, gone) = release_refs(index, &old_m.chunks);
            let ghost first = entry_views(log@);
            let mut all = log;
            let mut extra = more;
            let ghost ev = entry_views(extra@);
            all.append(&mut extra);
            proof {
                assert(entry_views(all@) =~= first + ev);
                crate::index::lemma_apply_all_concat(v0, first, ev);
            }
            (all, gone)
        },
        None => {
            assert(seq![EntryView::PutManifest(mv)] + Seq::<EntryView>::empty() =~= seq![EntryView::PutManifest(mv)]);
            (log, Vec::new())
        },
    }
}

/// Whether `key` (of `bytes` UTF-8 bytes) passes key validation.
pub open spec fn key_ok(key: Seq<char>, bytes: nat) -> bool {
    key_check(key, bytes, Ok(()))
}

/// A rename goes ahead: the destination key is valid and differs from the
/// source, the source exists and the destination does not.
pub open spec fn rename_allowed(v: IndexView, from: Seq<char>, to: Seq<char>, to_bytes: nat) -> bool {
    &&& key_ok(to, to_bytes)
    &&& from != to
    &&& v.manifests.dom().contains(from)
    &&& !v.manifests.dom().contains(to)
}

/// The error a refused rename reports, checked in this order: an invalid
/// destination key, the same key twice, a missing source, an existing
/// destination.
pub open spec fn rename_error(v: IndexView, from: Seq<char>, to: Seq<char>, to_bytes: nat, e: KaidaDbError) -> bool {
    if !key_ok(to, to_bytes) {
        key_check(to, to_bytes, Err(e))
    } else if from == to {
        e matches KaidaDbError::InvalidKey(m) && m@ == "source and destination keys are the same"@
    } else if !v.manifests.dom().contains(from) {
        e matches KaidaDbError::NotFound(k) && k@ == from
    } else if v.manifests.dom().contains(to) {
        e matches KaidaDbError::AlreadyExists(k) && k@ == to
    } else {
        false
    }
}

/// The manifest a rename commits: the source's, under the new key, updated
/// at `now`.
pub open spec fn renamed_manifest(m: ManifestView, to: Seq<char>, now: i64) -> ManifestView {
    ManifestView { key: to, updated_at: now, ..m }
}

/// Decides a rename of `from` to `to` at time `now`: the manifest to commit,
/// or why the rename is refused.
pub fn rename_plan(index: &Index, from: &str, to: &str, now: i64) -> (r: Result<MediaManifest, KaidaDbError>)
    requires
        index.wf(),
    ensures
        r is Ok <==> rename_allowed(index@, from@, to@, to.len() as nat),
        r matches Err(e) ==> rename_error(index@, from@, to@, to.len() as nat, e),
        r matches Ok(m) ==> m@ == renamed_manifest(index@.manifests[from@], to@, now),
{
    match validate_key(to) {
        Ok(()) => {},
        Err(e) => {
            return Err(e);
        },
    }
    if crate::keys::key_eq(from, to) {
        return Err(KaidaDbError::InvalidKey(string_of("source and destination keys are the same")));
    }
    let m = match index.get_manifest(from) {
        Some(m) => m,
        None => {
            return Err(KaidaDbError::NotFound(string_of(from)));
        },
    };
    if index.get_manifest(to).is_some() {
        return Err(KaidaDbError::AlreadyExists(string_of(to)));
    }
    let r = MediaManifest { key: string_of(to), updated_at: now, ..m };
    assert(r@ =~= renamed_manifest(index@.manifests[from@], to@, now));
    Ok(r)
}

/// `SystemTime::now()` as whole seconds since the Unix epoch (0 when the
/// clock reads earlier than the epoch).
#[verifier::external_body]
fn now_secs() -> (r: i64) {
    std::time::SystemTime::now().duration_since(std::time::UNIX_EPOCH).map(|d| d.as_secs() as i64).unwrap_or(0)
}

/// Rename (move) media from one key to another, at the current time. Only
/// the manifest moves: chunks and their references are untouched. Returns
/// the new manifest and the log entries written.
pub fn rename(index: &mut Index, from: &str, to: &str) -> (r: Result<(MediaManifest, Vec<LogEntry>), KaidaDbError>)
    requires
        old(index).wf(),
    ensures
        final(index).wf(),
        r is Ok <==> rename_allowed(old(index)@, from@, to@, to.len() as nat),
        r matches Err(e) ==> rename_error(old(index)@, from@, to@, to.len() as nat, e) && final(index)@ == old(index)@,
        r matches Ok((m, es)) ==> {
            &&& m@ == renamed_manifest(old(index)@.manifests[from@], to@, m@.updated_at)
            &&& entry_views(es@) == seq![EntryView::PutManifest(m@), EntryView::DeleteManifest(from@)]
            &&& final(index)@ == apply_all(old(index)@, entry_views(es@))
        },
{
    let now = now_secs();
    let m = match rename_plan(index, from, to, now) {
        Ok(m) => m,
        Err(e) => {
            return Err(e);
        },
    };
    let ghost v0 = index@;
    let ghost mv = m@;
    let result = m.duplicate();
    let mut log: Vec<LogEntry> = Vec::new();
    apply_logged(index, &mut log, LogEntry::PutManifest(m));
    let ghost v1 = index@;
    apply_logged(index, &mut log, LogEntry::DeleteManifest(string_of(from)));
    proof {
        let es = entry_views(log@);
        assert(es =~= seq![EntryView::PutManifest(mv), EntryView::DeleteManifest(from@)]);
        assert(es.drop_last().drop_last() =~= Seq::<EntryView>::empty());
        assert(es.drop_last().last() == EntryView::PutManifest(mv));
        assert(apply_all(v0, Seq::<EntryView>::empty()) == v0);
        assert(apply_all(v0, es.drop_last()) == v1);
        assert(es.last() == EntryView::DeleteManifest(from@));
    }
    Ok((result, log))
}

/// A rename moves the object: afterwards its manifest (re-keyed) is found
/// under the new key and not under the old one, every other object is as it
/// was, and no chunk reference changes.
pub proof fn lemma_rename_moves(v: IndexView, from: Seq<char>, to: Seq<char>, to_bytes: nat, now: i64)
    requires
        rename_allowed(v, from, to, to_bytes),
    ensures
        ({
            let m = renamed_manifest(v.manifests[from], to, now);
            let after = apply_all(v, seq![EntryView::PutManifest(m), EntryView::DeleteManifest(from)]);
            &&& after.manifests.dom().contains(to)
            &&& after.manifests[to] == m
            &&& !after.manifests.dom().contains(from)
            &&& forall|k: Seq<char>| k != from && k != to ==> after.manifests.dom().contains(k) == v.manifests.dom().contains(k)
                && (v.manifests.dom().contains(k) ==> after.manifests[k] == v.manifests[k])
            &&& after.chunk_locations == v.chunk_locations
            &&& after.manifests == v.manifests.insert(to, m).remove(from)
        }),
{
    let m = renamed_manifest(v.manifests[from], to, now);
    let es = seq![EntryView::PutManifest(m), EntryView::DeleteManifest(from)];
    assert(es.drop_last().drop_last() =~= Seq::<EntryView>::empty());
    assert(es.drop_last() =~= seq![EntryView::PutManifest(m)]);
    assert(apply_all(v, Seq::<EntryView>::empty()) == v);
    let v1 = apply_spec(v, EntryView::PutManifest(m));
    assert(apply_all(v, es.drop_last()) == v1);
    let v2 = apply_spec(v1, EntryView::DeleteManifest(from));
    assert(apply_all(v, es) == v2);
    assert(v2.manifests == v.manifests.insert(to, m).remove(from));
    assert(v2.chunk_locations == v.chunk_locations);
}


/// Renaming back undoes a rename: moving `from` to `to` and then `to` back
/// to `from` (a valid key) is allowed and leaves every object as it was,
/// but for the time the object was last updated.
pub proof fn lemma_rename_back(
    v: IndexView,
    from: Seq<char>,
    to: Seq<char>,
    to_bytes: nat,
    from_bytes: nat,
    now1: i64,
    now2: i64,
)
    requires
        rename_allowed(v, from, to, to_bytes),
        key_ok(from, from_bytes),
    ensures
        ({
            let m1 = renamed_manifest(v.manifests[from], to, now1);
            let after1 = apply_all(v, seq![EntryView::PutManifest(m1), EntryView::DeleteManifest(from)]);
            let m2 = renamed_manifest(after1.manifests[to], from, now2);
            let after2 = apply_all(after1, seq![EntryView::PutManifest(m2), EntryView::DeleteManifest(to)]);
            &&& rename_allowed(after1, to, from, from_bytes)
            &&& after2.manifests == v.manifests.insert(from, renamed_manifest(v.manifests[from], from, now2))
            &&& after2.chunk_locations == v.chunk_locations
        }),
{
    lemma_rename_moves(v, from, to, to_bytes, now1);
    let m1 = renamed_manifest(v.manifests[from], to, now1);
    let after1 = apply_all(v, seq![EntryView::PutManifest(m1), EntryView::DeleteManifest(from)]);
    lemma_rename_moves(after1, to, from, from_bytes, now2);
    let m2 = renamed_manifest(after1.manifests[to], from, now2);
    let after2 = apply_all(after1, seq![EntryView::PutManifest(m2), EntryView::DeleteManifest(to)]);
    assert(m2 == renamed_manifest(v.manifests[from], from, now2));
    assert(after2.manifests =~= v.manifests.insert(from, m2));
}

/// However its bytes arrived, an upload gives one manifest: when the writes
/// of an upload concatenate to `data`, it finishes with the manifest of an
/// upload that took `data` in a single write, recording `data`'s length and
/// checksum.
pub proof fn lemma_upload_split_free(
    key: Seq<char>,
    content_type: Seq<char>,
    metadata: Seq<(Seq<char>, Seq<char>)>,
    chunk_size: usize,
    writes: Seq<Seq<u8>>,
    data: Seq<u8>,
    now: i64,
)
    requires
        crate::engine::concat(writes) == data,
    ensures
        ({
            let split = crate::engine::upload_manifest(key, content_type, metadata, chunk_size, crate::engine::concat(writes), now);
            let whole = crate::engine::upload_manifest(key, content_type, metadata, chunk_size, crate::engine::concat(seq![data]), now);
            &&& split == whole
            &&& split.total_size == data.len() as u64
            &&& split.checksum == crate::digest::hex_lower(crate::digest::sha256_of(data))
        }),
{
    let one = seq![data];
    assert(one.drop_last() =~= Seq::<Seq<u8>>::empty());
    assert(crate::engine::concat(one.drop_last()) == Seq::<u8>::empty());
    assert(crate::engine::concat(one) =~= data);
}
} // verus!
