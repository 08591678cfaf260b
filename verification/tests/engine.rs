use std::collections::HashMap;

use kaidadb::blob::BlobStore;
use kaidadb::cache::ChunkCache;
use kaidadb::chunk_format::{decode_chunk, encode_chunk};
use kaidadb::commit::{commit_manifest, delete_media, release_refs, rename, rename_plan};
use kaidadb::config::KaidaDbConfig;
use kaidadb::engine::{
    assemble_range, concat_chunks, plan_range, validate_key, verify_object, UploadState,
};
use kaidadb::error::KaidaDbError;
use kaidadb::gc::{orphan_action, GcReport, OrphanAction};
use kaidadb::index::{replay, Index, LogEntry, ParsedLine};
use kaidadb::sorted_map::Duplicate;
use kaidadb::types::{ChunkId, MediaManifest};

/// Chunk files kept in memory, with the index tracking their references
/// and the log that records each change, the way the server keeps them on
/// disk.
struct Store {
    index: Index,
    log: Vec<LogEntry>,
    files: HashMap<[u8; 32], Vec<u8>>,
    chunk_size: usize,
    max_object_size: u64,
    verify_on_read: bool,
}

impl Store {
    fn new(chunk_size: usize) -> Store {
        Store {
            index: Index::new(),
            log: Vec::new(),
            files: HashMap::new(),
            chunk_size,
            max_object_size: 0,
            verify_on_read: false,
        }
    }

    fn reopen(&self) -> Store {
        let lines = self.log.iter().map(|e| ParsedLine::Entry { entry: e.duplicate(), len: 10 }).collect();
        Store {
            index: replay(lines).index,
            log: self.log.iter().map(|e| e.duplicate()).collect(),
            files: self.files.clone(),
            chunk_size: self.chunk_size,
            max_object_size: self.max_object_size,
            verify_on_read: self.verify_on_read,
        }
    }

    fn record(&mut self, entries: Vec<LogEntry>, gone: Vec<ChunkId>) {
        self.log.extend(entries);
        for id in gone {
            self.files.remove(&id.0);
        }
    }

    fn keep(&mut self, id: ChunkId, bytes: Vec<u8>, refs: &mut Vec<ChunkId>) {
        let path = BlobStore::new("data".into()).chunk_path(&id);
        self.files.entry(id.0).or_insert_with(|| encode_chunk(&bytes));
        let entry = self.index.chunk_ref_added_entry(&id, &path);
        self.index.apply_entry(entry.duplicate());
        self.log.push(entry);
        refs.push(id);
    }

    fn begin(&self, key: &str, content_type: &str) -> Result<UploadState, KaidaDbError> {
        validate_key(key)?;
        Ok(UploadState::new(key.into(), content_type.into(), vec![], self.chunk_size, self.max_object_size))
    }

    fn write(&mut self, up: &mut UploadState, piece: &[u8], refs: &mut Vec<ChunkId>) -> Result<(), KaidaDbError> {
        for (id, bytes) in up.write(piece)? {
            self.keep(id, bytes, refs);
        }
        Ok(())
    }

    fn finish(&mut self, up: UploadState, mut refs: Vec<ChunkId>, now: i64) -> MediaManifest {
        let (manifest, tail) = up.finish(now);
        if let Some((id, bytes)) = tail {
            self.keep(id, bytes, &mut refs);
        }
        let (entries, gone) = commit_manifest(&mut self.index, manifest.clone());
        self.record(entries, gone);
        manifest
    }

    fn abort(&mut self, refs: &Vec<ChunkId>) -> Vec<ChunkId> {
        let (entries, gone) = release_refs(&mut self.index, refs);
        self.record(entries, gone.clone());
        gone
    }

    fn store_in_pieces(&mut self, key: &str, data: &[u8], piece: usize, content_type: &str) -> Result<MediaManifest, KaidaDbError> {
        let mut up = self.begin(key, content_type)?;
        let mut refs = Vec::new();
        for p in data.chunks(piece.max(1)) {
            if let Err(e) = self.write(&mut up, p, &mut refs) {
                self.abort(&refs);
                return Err(e);
            }
        }
        Ok(self.finish(up, refs, 7))
    }

    fn store_as(&mut self, key: &str, data: &[u8], content_type: &str) -> Result<MediaManifest, KaidaDbError> {
        self.store_in_pieces(key, data, data.len(), content_type)
    }

    fn store(&mut self, key: &str, data: &[u8]) -> MediaManifest {
        self.store_as(key, data, "application/octet-stream").unwrap()
    }

    fn read_chunk(&self, id: &ChunkId) -> Option<Vec<u8>> {
        decode_chunk(self.files.get(&id.0)?).ok()
    }

    fn chunks_of(&self, m: &MediaManifest) -> Option<Vec<Vec<u8>>> {
        m.chunks.iter().map(|c| self.read_chunk(c)).collect()
    }

    fn read(&self, key: &str) -> Option<Vec<u8>> {
        let m = self.index.get_manifest(key)?;
        let all = concat_chunks(&self.chunks_of(&m)?);
        verify_object(key, &all, &m.checksum, self.verify_on_read).ok()?;
        Some(all)
    }

    fn read_range(&self, key: &str, offset: u64, length: u64) -> Vec<u8> {
        let m = self.index.get_manifest(key).unwrap();
        match plan_range(m.total_size, m.chunk_size, offset, length) {
            None => vec![],
            Some(p) => {
                let wanted: Vec<Vec<u8>> = self.chunks_of(&m).unwrap()
                    [p.start_idx as usize..=(p.end_idx as usize).min(m.chunks.len() - 1)]
                    .to_vec();
                assemble_range(&p, offset, m.chunk_size, &wanted).unwrap()
            }
        }
    }

    /// The pieces a streamed read hands out, split where chunks end.
    fn stream(&self, key: &str, offset: u64, length: u64) -> Vec<Vec<u8>> {
        let m = self.index.get_manifest(key).unwrap();
        let bytes = self.read_range(key, offset, length);
        let mut pieces = Vec::new();
        let mut at = offset;
        let mut rest = &bytes[..];
        while !rest.is_empty() {
            let room = (m.chunk_size as u64 - at % m.chunk_size as u64) as usize;
            let n = room.min(rest.len());
            pieces.push(rest[..n].to_vec());
            rest = &rest[n..];
            at += n as u64;
        }
        pieces
    }

    fn delete(&mut self, key: &str) -> bool {
        match delete_media(&mut self.index, key) {
            Some((entries, gone)) => {
                self.record(entries, gone);
                true
            }
            None => false,
        }
    }

    fn list(&self, prefix: &str, limit: usize, cursor: &str) -> (Vec<MediaManifest>, Option<String>) {
        self.index.list_manifests(prefix, limit, cursor)
    }

    /// Sweeps the chunk files as the collector does: `recent` says which
    /// files are inside the grace period.
    fn gc(&mut self, recent: &dyn Fn(&ChunkId) -> bool) -> GcReport {
        let mut report = GcReport::default();
        let ids: Vec<ChunkId> = self.files.keys().map(|k| ChunkId(*k)).collect();
        for id in ids {
            let action = orphan_action(&self.index, &id.to_hex(), recent(&id));
            let removed = matches!(action, OrphanAction::Remove) && self.files.remove(&id.0).is_some();
            report.record(&action, removed);
        }
        let present: Vec<bool> = self
            .index
            .chunk_id_hexes()
            .iter()
            .map(|hex| self.files.contains_key(&ChunkId::from_hex(hex).unwrap().0))
            .collect();
        report.count_dangling(&present);
        report
    }

    /// Plants a chunk file that no index entry refers to.
    fn plant_orphan(&mut self, content: &[u8]) -> ChunkId {
        let id = ChunkId::from_data(content);
        self.files.insert(id.0, b"junk".to_vec());
        id
    }
}

fn pattern(n: u16) -> Vec<u8> {
    (0..n).map(|i| (i % 256) as u8).collect()
}

#[test]
fn test_key_validation() {
    // Empty, over-long, and control-character keys are rejected.
    assert!(validate_key("").is_err());
    let long = "a".repeat(2000);
    assert!(validate_key(&long).is_err());
    assert!(validate_key("bad\nkey").is_err());

    // A normal nested key with slashes is fine.
    assert!(validate_key("tv/show/s01/e01.mp4").is_ok());
}

#[test]
fn key_validation_messages() {
    let msg = |k: &str| match validate_key(k) {
        Err(KaidaDbError::InvalidKey(m)) => m,
        _ => String::new(),
    };
    assert_eq!(msg(""), "key cannot be empty");
    assert_eq!(msg(&"é".repeat(513)), "key exceeds 1024 bytes");
    assert!(validate_key(&"é".repeat(512)).is_ok());
    assert_eq!(msg("a\u{85}b"), "key contains control characters");
}

#[test]
fn test_store_and_read() {
    let mut s = Store::new(1024);
    let data = vec![42u8; 5000];
    let m = s.store("test-key", &data);
    assert_eq!(m.total_size, 5000);
    assert_eq!(m.chunk_count(), 5);
    assert_eq!(s.read("test-key").unwrap(), data);
}

#[test]
fn test_read_range() {
    let mut s = Store::new(1024);
    let data = pattern(5000);
    s.store("test-key", &data);
    assert_eq!(s.read_range("test-key", 100, 200), &data[100..300]);
    assert_eq!(s.read_range("test-key", 900, 300), &data[900..1200]);
    assert_eq!(s.read_range("test-key", 4800, 0), &data[4800..]);
}

#[test]
fn range_reads_at_the_edges() {
    let mut s = Store::new(1024);
    let data = pattern(5000);
    s.store("test-key", &data);
    assert_eq!(s.read_range("test-key", 500, 1500), &data[500..2000]);
    assert_eq!(s.read_range("test-key", 4999, 100), &data[4999..]);
    assert_eq!(s.read_range("test-key", 1024, 1024), &data[1024..2048]);
    assert!(s.read_range("test-key", 5000, 1).is_empty());
    // a length past the end of the address space saturates
    assert_eq!(s.read_range("test-key", 4000, u64::MAX), &data[4000..]);
    assert_eq!(s.read_range("test-key", 1, u64::MAX - 1), &data[1..]);
}

#[test]
fn test_delete() {
    let mut s = Store::new(1024);
    s.store_as("del-key", &vec![1u8; 2000], "video/mp4").unwrap();
    assert!(s.delete("del-key"));
    assert!(s.read("del-key").is_none());
    assert!(!s.delete("del-key"));
}

#[test]
fn delete_reclaims_every_chunk() {
    let mut s = Store::new(1024);
    s.store("del-key", &vec![1u8; 2000]);
    let (log, gone) = delete_media(&mut s.index, "del-key").unwrap();
    // 1024 and 976 bytes of the same value are two different chunks
    assert_eq!(gone.len(), 2);
    assert_eq!(log.len(), 3);
    assert!(s.index.get_manifest("del-key").is_none());
    assert_eq!(s.index.chunk_count(), 0);
    assert!(delete_media(&mut s.index, "del-key").is_none());
}

#[test]
fn engine_test_not_found() {
    let s = Store::new(1024);
    assert!(s.read("nope").is_none());
}

#[test]
fn test_list() {
    let mut s = Store::new(1024);
    s.store_as("a/1", b"data1", "text/plain").unwrap();
    s.store_as("a/2", b"data2", "text/plain").unwrap();
    s.store_as("b/1", b"data3", "text/plain").unwrap();
    assert_eq!(s.list("a/", 10, "").0.len(), 2);
    assert_eq!(s.list("", 10, "").0.len(), 3);
}

#[test]
fn test_stream() {
    let mut s = Store::new(1024);
    let data = pattern(3000);
    s.store_as("stream-key", &data, "video/mp4").unwrap();
    let collected: Vec<u8> = s.stream("stream-key", 0, 0).concat();
    assert_eq!(collected, data);
}

#[test]
fn engine_test_stream_range() {
    let mut s = Store::new(1024);
    let data = pattern(3000);
    s.store_as("stream-key", &data, "video/mp4").unwrap();
    let pieces = s.stream("stream-key", 500, 1500);
    assert_eq!(pieces.len(), 2);
    assert_eq!(pieces.concat(), &data[500..2000]);
}

#[test]
fn test_store_session_matches_buffered() {
    let mut s = Store::new(1024);
    let data = pattern(5000);
    let buffered = s.store_as("buffered", &data, "video/mp4").unwrap();
    let streamed = s.store_in_pieces("session", &data, 333, "video/mp4").unwrap();
    assert_eq!(streamed.total_size, buffered.total_size);
    assert_eq!(streamed.checksum, buffered.checksum);
    assert_eq!(streamed.chunks, buffered.chunks);
    assert_eq!(s.read("session").unwrap(), data);
}

#[test]
fn test_store_session_size_limit() {
    let mut s = Store::new(1024);
    s.max_object_size = 2048;
    let mut up = s.begin("too-big", "application/octet-stream").unwrap();
    let mut refs = Vec::new();
    s.write(&mut up, &vec![0u8; 1500], &mut refs).unwrap();
    match s.write(&mut up, &vec![0u8; 1000], &mut refs) {
        Err(KaidaDbError::TooLarge(m)) => {
            assert_eq!(m, "object exceeds max_object_size of 2048 bytes")
        }
        _ => panic!("expected TooLarge"),
    }
    assert_eq!(up.bytes_written(), 1500);
    s.abort(&refs);
    assert!(s.read("too-big").is_none());
    assert_eq!(s.index.chunk_count(), 0);
}

#[test]
fn test_overwrite_reclaims_old_chunks() {
    let mut s = Store::new(1024);
    s.store_as("k", &vec![1u8; 512], "text/plain").unwrap();
    assert_eq!(s.index.chunk_count(), 1);
    s.store_as("k", &vec![2u8; 512], "text/plain").unwrap();
    assert_eq!(s.index.chunk_count(), 1);
    assert_eq!(s.read("k").unwrap(), vec![2u8; 512]);
}

#[test]
fn repeated_store_and_delete_of_a_shared_chunk() {
    let mut s = Store::new(1024);
    let payload = vec![42u8; 800];
    for t in 0..8 {
        for i in 0..50 {
            let key = format!("k-{t}-{i}");
            s.store(&key, &payload);
            assert!(s.delete(&key));
        }
    }
    assert_eq!(s.index.chunk_count(), 0);
    s.store("final", &payload);
    assert_eq!(s.read("final").unwrap(), payload);
    assert_eq!(s.index.chunk_count(), 1);
}

#[test]
fn test_gc_removes_orphans_and_keeps_live() {
    let mut s = Store::new(1024);
    s.store_as("live", &vec![3u8; 600], "text/plain").unwrap();
    let orphan = s.plant_orphan(b"orphan-content");
    let report = s.gc(&|_| false);
    assert_eq!(report.orphans_removed, 1);
    assert_eq!(report.dangling, 0);
    assert!(!s.files.contains_key(&orphan.0));
    assert_eq!(s.read("live").unwrap(), vec![3u8; 600]);
}

#[test]
fn test_gc_grace_period_skips_recent_orphans() {
    let mut s = Store::new(1024);
    let orphan = s.plant_orphan(b"fresh-orphan");
    let report = s.gc(&|_| true);
    assert_eq!(report.orphans_removed, 0);
    assert_eq!(report.orphans_skipped, 1);
    assert!(s.files.contains_key(&orphan.0));
}

#[test]
fn gc_counts_index_entries_without_a_file() {
    let mut s = Store::new(1024);
    let m = s.store("live", &vec![3u8; 600]);
    s.files.remove(&m.chunks[0].0);
    let report = s.gc(&|_| false);
    assert_eq!((report.orphans_removed, report.orphans_skipped, report.dangling), (0, 0, 1));
    assert!(report.is_notable());
}

#[test]
fn test_verify_on_read_detects_corruption() {
    let mut s = Store::new(1024);
    s.verify_on_read = true;
    let data = vec![5u8; 1500];
    let m = s.store_as("v", &data, "text/plain").unwrap();
    assert_eq!(s.read("v").unwrap(), data);
    let file = s.files.get_mut(&m.chunks[0].0).unwrap();
    let last = file.len() - 1;
    file[last] ^= 0xFF;
    assert!(s.read("v").is_none());
}

#[test]
fn test_store_session_abort_rolls_back_chunks() {
    let mut s = Store::new(1024);
    let shared = vec![7u8; 1024];
    s.store_as("keeper", &shared, "text/plain").unwrap();
    let mut up = s.begin("doomed", "text/plain").unwrap();
    let mut refs = Vec::new();
    s.write(&mut up, &shared, &mut refs).unwrap();
    s.write(&mut up, &vec![9u8; 1024], &mut refs).unwrap();
    let gone = s.abort(&refs);
    assert_eq!(gone, vec![ChunkId::from_data(&vec![9u8; 1024])]);
    assert_eq!(s.read("keeper").unwrap(), shared);
    assert!(s.read("doomed").is_none());
}

// ----- the storage scenarios of the server's integration suite -----

#[test]
fn test_store_read_roundtrip() {
    let mut s = Store::new(1024);
    let data = vec![0xABu8; 5000];
    let m = s.store_as("test/video.mp4", &data, "video/mp4").unwrap();
    assert_eq!(m.total_size, 5000);
    assert_eq!(m.content_type, "video/mp4");
    assert_eq!(m.chunk_count(), 5);
    assert_eq!(s.read("test/video.mp4").unwrap(), data);
}

#[test]
fn test_range_read() {
    let mut s = Store::new(1024);
    let data: Vec<u8> = (0..4096u32).map(|i| (i % 256) as u8).collect();
    s.store("range-test", &data);
    assert_eq!(s.read_range("range-test", 0, 512), &data[0..512]);
    assert_eq!(s.read_range("range-test", 900, 300), &data[900..1200]);
    assert_eq!(s.read_range("range-test", 3500, 0), &data[3500..]);
    assert_eq!(s.read_range("range-test", 4000, 500), &data[4000..]);
}

#[test]
fn test_delete_cleanup() {
    let mut s = Store::new(1024);
    s.store_as("del-test", &vec![42u8; 2000], "video/mp4").unwrap();
    assert!(s.index.get_manifest("del-test").is_some());
    assert!(s.delete("del-test"));
    assert!(s.index.get_manifest("del-test").is_none());
    assert!(s.read("del-test").is_none());
}

#[test]
fn test_overwrite() {
    let mut s = Store::new(1024);
    s.store_as("overwrite-key", b"first version", "text/plain").unwrap();
    s.store_as("overwrite-key", b"second version", "text/plain").unwrap();
    assert_eq!(s.read("overwrite-key").unwrap(), b"second version");
}

#[test]
fn test_list_with_prefix() {
    let mut s = Store::new(1024);
    s.store_as("videos/a.mp4", b"a", "video/mp4").unwrap();
    s.store_as("videos/b.mp4", b"b", "video/mp4").unwrap();
    s.store_as("audio/c.mp3", b"c", "audio/mpeg").unwrap();
    assert_eq!(s.list("videos/", 100, "").0.len(), 2);
    assert_eq!(s.list("audio/", 100, "").0.len(), 1);
    assert_eq!(s.list("", 100, "").0.len(), 3);
}

#[test]
fn test_list_pagination() {
    let mut s = Store::new(1024);
    for i in 0..10 {
        s.store_as(&format!("item-{i:02}"), b"data", "text/plain").unwrap();
    }
    let (page1, cursor1) = s.list("", 3, "");
    assert_eq!(page1.len(), 3);
    assert!(cursor1.is_some());
    let (page2, cursor2) = s.list("", 3, &cursor1.unwrap());
    assert_eq!(page2.len(), 3);
    assert!(cursor2.is_some());
    assert_eq!(page2[0].key, "item-03");
}

#[test]
fn test_dedup_shared_chunks() {
    let mut s = Store::new(1024);
    let data = vec![0xFFu8; 2000];
    s.store("copy-a", &data);
    s.store("copy-b", &data);
    assert_eq!(s.read("copy-a").unwrap(), data);
    assert_eq!(s.read("copy-b").unwrap(), data);
    assert!(s.delete("copy-a"));
    assert_eq!(s.read("copy-b").unwrap(), data);
}

#[test]
fn test_stream_roundtrip() {
    let mut s = Store::new(1024);
    let data = pattern(5000);
    s.store_as("stream-test", &data, "video/mp4").unwrap();
    assert_eq!(s.stream("stream-test", 0, 0).concat(), data);
}

#[test]
fn integration_test_stream_range() {
    let mut s = Store::new(1024);
    let data = pattern(5000);
    s.store_as("stream-range", &data, "video/mp4").unwrap();
    assert_eq!(s.stream("stream-range", 1000, 2000).concat(), &data[1000..3000]);
}

#[test]
fn test_cache_integration() {
    let mut s = Store::new(1024);
    let mut cache = ChunkCache::new(1024 * 1024);
    let m = s.store_as("cached-key", &vec![42u8; 2000], "video/mp4").unwrap();
    for id in &m.chunks {
        cache.insert(id.clone(), s.read_chunk(id).unwrap());
    }
    for id in &m.chunks {
        assert!(cache.get(id).is_some());
    }
    let stats = cache.stats();
    assert_eq!(stats.hits, m.chunk_count() as u64);
    assert!(stats.current_size > 0);
}

#[test]
fn test_empty_key_rejected() {
    let mut s = Store::new(1024);
    assert!(s.store_as("", b"data", "text/plain").is_err());
}

#[test]
fn integration_test_not_found() {
    let mut s = Store::new(1024);
    assert!(s.read("nonexistent").is_none());
    assert!(!s.delete("nonexistent"));
}

#[test]
fn test_config_defaults() {
    let config = KaidaDbConfig::default();
    assert!(config.validate().is_ok());
    assert_eq!(config.storage.chunk_size, 2 * 1024 * 1024);
    assert_eq!(config.grpc_addr, "0.0.0.0:50051");
    assert_eq!(config.rest_addr, "0.0.0.0:8080");
}

#[test]
fn test_large_media_roundtrip() {
    let mut s = Store::new(1024);
    let data: Vec<u8> = (0..50_000u32).map(|i| (i % 251) as u8).collect();
    let m = s.store_as("large-file", &data, "video/mp4").unwrap();
    assert_eq!(m.total_size, 50_000);
    // ceil(50000 / 1024) = 49
    assert_eq!(m.chunk_count(), 49);
    assert_eq!(s.read("large-file").unwrap(), data);
}

#[test]
fn test_persistence_roundtrip() {
    let mut s = Store::new(1024);
    let data = vec![99u8; 3000];
    s.store_as("persist-key", &data, "video/mp4").unwrap();
    let reopened = s.reopen();
    assert_eq!(reopened.read("persist-key").unwrap(), data);
}

#[test]
fn rename_moves_the_manifest() {
    let mut s = Store::new(1024);
    s.store("a", b"hello");
    s.store("b", b"world");
    assert!(matches!(rename(&mut s.index, "a", "a"), Err(KaidaDbError::InvalidKey(_))));
    assert!(matches!(rename(&mut s.index, "x", "y"), Err(KaidaDbError::NotFound(k)) if k == "x"));
    assert!(matches!(rename(&mut s.index, "a", "b"), Err(KaidaDbError::AlreadyExists(k)) if k == "b"));
    assert!(matches!(rename(&mut s.index, "a", ""), Err(KaidaDbError::InvalidKey(_))));
    let (m, log) = rename(&mut s.index, "a", "c").unwrap();
    assert_eq!(m.key, "c");
    assert_eq!(log.len(), 2);
    assert!(s.index.get_manifest("a").is_none());
    assert_eq!(s.read("c").unwrap(), b"hello");
    let planned = rename_plan(&s.index, "c", "d", 99).unwrap();
    assert_eq!((planned.key.as_str(), planned.updated_at, planned.created_at), ("d", 99, 7));
}

#[test]
fn renaming_back_restores_the_object() {
    let mut s = Store::new(4);
    s.store("a", b"hello world");
    let before = s.index.get_manifest("a").unwrap();
    rename(&mut s.index, "a", "b").unwrap();
    let (m, _) = rename(&mut s.index, "b", "a").unwrap();
    assert!(s.index.get_manifest("b").is_none());
    assert_eq!(m.key, "a");
    assert_eq!(m.chunks, before.chunks);
    assert_eq!(m.checksum, before.checksum);
    assert_eq!(m.total_size, before.total_size);
    assert_eq!(m.created_at, before.created_at);
    assert_eq!(s.read("a").unwrap(), b"hello world");
}

#[test]
fn checksum_mismatch_is_reported() {
    match verify_object("v", b"abc", "00", true) {
        Err(KaidaDbError::ChunkIntegrity { chunk_id, detail }) => {
            assert_eq!(chunk_id, "v");
            assert_eq!(
                detail,
                "full-object checksum mismatch: stored=00, computed=ba7816bf8f01cfea414140de5dae2223b00361a396177a9cb410ff61f20015ad"
            );
        }
        _ => panic!("expected an integrity error"),
    }
    assert!(verify_object("v", b"abc", "00", false).is_ok());
    assert!(verify_object("v", b"abc", "", true).is_ok());
}

#[test]
fn chunk_files_fan_out_under_the_data_dir() {
    let b = BlobStore::new("/data".into());
    let id = ChunkId::from_data(b"abc");
    assert_eq!(b.data_dir(), "/data");
    assert_eq!(
        b.chunk_path(&id),
        format!("/data/chunks/ba/78/{}.kdc", id.to_hex())
    );
    assert_eq!(BlobStore::new("d/".into()).chunks_dir(), "d/chunks");
    assert_eq!(BlobStore::new(String::new()).chunks_dir(), "chunks");
}


#[test]
fn delete_lowers_counts_by_occurrences() {
    let mut s = Store::new(1024);
    let data = vec![0u8; 2048]; // two identical chunks
    let m = s.store("a", &data);
    let id = m.chunks[0];
    assert_eq!(m.chunks, vec![id, id]);
    assert_eq!(s.index.get_chunk_location(&id).unwrap().ref_count, 2);
    s.store("b", &data);
    assert_eq!(s.index.get_chunk_location(&id).unwrap().ref_count, 4);
    let (_, gone) = delete_media(&mut s.index, "a").unwrap();
    assert!(gone.is_empty());
    assert_eq!(s.index.get_chunk_location(&id).unwrap().ref_count, 2);
    assert_eq!(s.read("b").unwrap(), data);
    let (_, gone) = delete_media(&mut s.index, "b").unwrap();
    assert_eq!(gone, vec![id]);
    assert!(s.index.get_chunk_location(&id).is_none());
}

#[test]
fn gc_counts_each_missing_indexed_file() {
    let mut r = GcReport::default();
    r.count_dangling(&vec![true, false, true, false, false]);
    assert_eq!(r.dangling, 3);
    r.count_dangling(&vec![]);
    assert_eq!((r.dangling, r.orphans_removed, r.orphans_skipped), (3, 0, 0));
}
