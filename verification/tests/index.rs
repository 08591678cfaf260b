use kaidadb::index::{replay, should_compact, Index, LogEntry, ParsedLine, COMPACTION_FLOOR};
use kaidadb::sorted_map::Duplicate;
use kaidadb::types::{ChunkId, ChunkLocation, MediaManifest};

fn manifest(key: &str, total_size: u64) -> MediaManifest {
    MediaManifest {
        key: key.into(),
        chunks: vec![],
        total_size,
        chunk_size: 2 * 1024 * 1024,
        content_type: "video/mp4".into(),
        checksum: String::new(),
        metadata: vec![],
        created_at: 0,
        updated_at: 0,
    }
}

fn lines_of(entries: Vec<LogEntry>) -> Vec<ParsedLine> {
    entries.into_iter().map(|entry| ParsedLine::Entry { entry, len: 10 }).collect()
}

#[test]
fn test_manifest_crud() {
    let mut index = Index::new();

    let manifest = MediaManifest {
        key: "test-video".into(),
        chunks: vec![ChunkId::from_data(b"chunk1")],
        total_size: 1024,
        chunk_size: 2 * 1024 * 1024,
        content_type: "video/mp4".into(),
        checksum: "abc123".into(),
        metadata: Default::default(),
        created_at: 1000,
        updated_at: 1000,
    };

    index.put_manifest(manifest);

    let loaded = index.get_manifest("test-video").unwrap();
    assert_eq!(loaded.key, "test-video");
    assert_eq!(loaded.total_size, 1024);

    assert!(index.get_manifest("nonexistent").is_none());

    index.delete_manifest("test-video");
    assert!(index.get_manifest("test-video").is_none());
}

#[test]
fn test_chunk_location_ref_counting() {
    let mut index = Index::new();

    let chunk_id = ChunkId::from_data(b"data");
    let loc = ChunkLocation { path: "/some/path.kdc".into(), ref_count: 2 };

    index.put_chunk_location(&chunk_id, loc);
    let loaded = index.get_chunk_location(&chunk_id).unwrap();
    assert_eq!(loaded.ref_count, 2);

    // Decrement: 2 -> 1, not deleted
    assert!(!index.decrement_chunk_ref(&chunk_id));
    let loaded = index.get_chunk_location(&chunk_id).unwrap();
    assert_eq!(loaded.ref_count, 1);

    // Decrement: 1 -> deleted
    assert!(index.decrement_chunk_ref(&chunk_id));
    assert!(index.get_chunk_location(&chunk_id).is_none());
}

#[test]
fn test_list_manifests() {
    let mut index = Index::new();

    for i in 0..5 {
        index.put_manifest(manifest(&format!("videos/clip-{i:02}"), 0));
    }

    let (results, cursor) = index.list_manifests("videos/", 3, "");
    assert_eq!(results.len(), 3);
    assert!(cursor.is_some());

    let (results2, _) = index.list_manifests("videos/", 3, &cursor.unwrap());
    assert_eq!(results2.len(), 2);
}

#[test]
fn test_persistence_across_reopen() {
    // What was written to the log replays into the same index.
    let mut index = Index::new();
    let mut log = Vec::new();
    let manifest = MediaManifest {
        key: "persist-test".into(),
        chunks: vec![ChunkId::from_data(b"c1")],
        total_size: 500,
        chunk_size: 2 * 1024 * 1024,
        content_type: "text/plain".into(),
        checksum: "xyz".into(),
        metadata: Default::default(),
        created_at: 100,
        updated_at: 100,
    };
    index.put_manifest(manifest.duplicate());
    log.push(LogEntry::PutManifest(manifest));

    let chunk_id = ChunkId::from_data(b"c1");
    let loc = ChunkLocation { path: "chunks/ab/cd/hash.kdc".into(), ref_count: 1 };
    log.push(LogEntry::PutChunkLocation { chunk_id_hex: chunk_id.to_hex(), location: loc });

    let reopened = replay(lines_of(log)).index;
    let manifest = reopened.get_manifest("persist-test").unwrap();
    assert_eq!(manifest.total_size, 500);
    let loc = reopened.get_chunk_location(&chunk_id).unwrap();
    assert_eq!(loc.ref_count, 1);
}

#[test]
fn test_compaction() {
    let mut index = Index::new();
    for i in 0..10 {
        index.put_manifest(manifest(&format!("compact-{i}"), 0));
    }
    for i in 0..5 {
        index.delete_manifest(&format!("compact-{i}"));
    }

    // Compact: the live entries alone rebuild the index.
    let compacted = replay(lines_of(index.compaction_entries())).index;

    for i in 5..10 {
        assert!(compacted.get_manifest(&format!("compact-{i}")).is_some());
    }
    for i in 0..5 {
        assert!(compacted.get_manifest(&format!("compact-{i}")).is_none());
    }
}

#[test]
fn test_auto_compaction_shrinks_log() {
    // Rewriting one key keeps one live entry while the log grows: the log
    // is compacted once it reaches the floor, and not before.
    assert!(!should_compact(COMPACTION_FLOOR - 1, 1));
    assert!(should_compact(COMPACTION_FLOOR, 1));
    assert!(!should_compact(COMPACTION_FLOOR + 50, 600));
    assert!(should_compact(u64::MAX, u64::MAX));

    let mut index = Index::new();
    for i in 0..(COMPACTION_FLOOR + 50) {
        index.put_manifest(manifest("hot", i));
    }
    let compacted = index.compaction_entries();
    assert_eq!(compacted.len(), 1);
    let m = replay(lines_of(compacted)).index.get_manifest("hot").unwrap();
    assert_eq!(m.total_size, COMPACTION_FLOOR + 49);
}

#[test]
fn test_torn_tail_is_truncated_on_reopen() {
    let lines = vec![
        ParsedLine::Entry { entry: LogEntry::PutManifest(manifest("good-1", 1)), len: 30 },
        ParsedLine::Blank { len: 1 },
        ParsedLine::Entry { entry: LogEntry::PutManifest(manifest("good-2", 1)), len: 30 },
        ParsedLine::Corrupt,
        ParsedLine::Entry { entry: LogEntry::PutManifest(manifest("after", 1)), len: 30 },
    ];
    let out = replay(lines);
    assert!(out.truncated);
    assert_eq!(out.good_len, 61);
    assert_eq!(out.entry_count, 2);
    assert_eq!(out.live_count, 2);
    assert!(out.index.get_manifest("good-1").is_some());
    assert!(out.index.get_manifest("good-2").is_some());
    assert!(out.index.get_manifest("after").is_none());
}

#[test]
fn listing_skips_the_cursor_and_stops_at_the_prefix() {
    let mut index = Index::new();
    for k in ["a/1", "a/2", "a/3", "b/1"] {
        index.put_manifest(manifest(k, 0));
    }
    let (page, next) = index.list_manifests("a/", 2, "a/1");
    let keys: Vec<&str> = page.iter().map(|m| m.key.as_str()).collect();
    assert_eq!(keys, vec!["a/2", "a/3"]);
    assert_eq!(next.as_deref(), Some("a/3"));
    let (page, next) = index.list_manifests("a/", 0, "");
    assert!(page.is_empty());
    assert_eq!(next, None);
    assert_eq!(index.manifest_count(), 4);
}

#[test]
fn chunk_refs_are_added_and_counted() {
    let mut index = Index::new();
    let id = ChunkId::from_data(b"x");
    index.add_chunk_ref(&id, "p1");
    index.add_chunk_ref(&id, "p2");
    let loc = index.get_chunk_location(&id).unwrap();
    assert_eq!(loc.ref_count, 2);
    assert_eq!(loc.path, "p1");
    assert_eq!(index.chunk_count(), 1);
    assert_eq!(index.chunk_id_hexes(), vec![id.to_hex()]);
    index.delete_chunk_location(&id);
    assert_eq!(index.chunk_count(), 0);
}
