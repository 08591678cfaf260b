use kaidadb::cache::ChunkCache;
use kaidadb::types::ChunkId;

#[test]
fn test_cache_hit_miss() {
    let mut cache = ChunkCache::new(1024 * 1024); // 1MB
    let id = ChunkId::from_data(b"test");
    let data = b"hello".to_vec();

    assert!(cache.get(&id).is_none());
    assert_eq!(cache.stats().misses, 1);

    cache.insert(id.clone(), data.clone());

    let result = cache.get(&id);
    assert!(result.is_some());
    assert_eq!(&result.unwrap()[..], b"hello");
    assert_eq!(cache.stats().hits, 1);
}

#[test]
fn test_cache_eviction() {
    let mut cache = ChunkCache::new(100); // Tiny cache

    let id1 = ChunkId::from_data(b"chunk1");
    let id2 = ChunkId::from_data(b"chunk2");

    cache.insert(id1.clone(), vec![0u8; 60]);
    cache.insert(id2.clone(), vec![1u8; 60]);

    // id1 should have been evicted to make room for id2
    assert!(cache.get(&id1).is_none());
    assert!(cache.get(&id2).is_some());
}

#[test]
fn test_cache_invalidate() {
    let mut cache = ChunkCache::new(1024 * 1024);
    let id = ChunkId::from_data(b"data");

    cache.insert(id.clone(), b"value".to_vec());
    assert!(cache.get(&id).is_some());

    cache.invalidate(&id);
    assert!(cache.get(&id).is_none());
    assert_eq!(cache.stats().current_size, 0);
}

#[test]
fn test_cache_size_tracking() {
    let mut cache = ChunkCache::new(1024 * 1024);

    let id1 = ChunkId::from_data(b"a");
    let id2 = ChunkId::from_data(b"b");

    cache.insert(id1, vec![0u8; 100]);
    cache.insert(id2, vec![0u8; 200]);

    assert_eq!(cache.stats().current_size, 300);
    assert_eq!(cache.stats().entry_count, 2);
}

#[test]
fn oversized_chunk_is_not_cached() {
    let mut cache = ChunkCache::new(10);
    let id = ChunkId::from_data(b"big");
    cache.insert(id, vec![0u8; 11]);
    assert_eq!(cache.stats().entry_count, 0);
    assert_eq!(cache.stats().current_size, 0);
    assert!(cache.get(&id).is_none());
}

#[test]
fn replacing_a_chunk_counts_its_new_size() {
    let mut cache = ChunkCache::new(1000);
    let id = ChunkId::from_data(b"x");
    cache.insert(id, vec![0u8; 100]);
    cache.insert(id, vec![0u8; 40]);
    assert_eq!(cache.stats().current_size, 40);
    assert_eq!(cache.stats().entry_count, 1);
    assert_eq!(cache.get(&id).unwrap().len(), 40);
}

#[test]
fn a_hit_protects_a_chunk_from_eviction() {
    let mut cache = ChunkCache::new(100);
    let a = ChunkId::from_data(b"a");
    let b = ChunkId::from_data(b"b");
    let c = ChunkId::from_data(b"c");
    cache.insert(a, vec![0u8; 40]);
    cache.insert(b, vec![0u8; 40]);
    assert!(cache.get(&a).is_some()); // a is now the most recently used
    cache.insert(c, vec![0u8; 40]); // evicts b, the least recently used
    assert!(cache.get(&b).is_none());
    assert!(cache.get(&a).is_some());
    assert!(cache.get(&c).is_some());
    let s = cache.stats();
    assert_eq!(s.current_size, 80);
    assert_eq!(s.max_size, 100);
    assert_eq!(s.hits, 3);
    assert_eq!(s.misses, 1);
}

#[test]
fn entry_cap_pushes_out_the_oldest_and_its_bytes() {
    // A 100-byte budget gives an LRU of 64 entries.
    let mut cache = ChunkCache::new(100);
    for i in 0..65u8 {
        cache.insert(ChunkId::from_data(&[i]), vec![i]);
    }
    let s = cache.stats();
    assert_eq!(s.entry_count, 64);
    assert_eq!(s.current_size, 64);
    assert!(cache.get(&ChunkId::from_data(&[0u8])).is_none());
}

#[test]
fn reinserting_a_chunk_counts_its_bytes_once() {
    let mut cache = ChunkCache::new(100);
    let a = ChunkId::from_data(b"a");
    cache.insert(a, vec![1u8; 30]);
    cache.insert(a, vec![2u8; 50]);
    let s = cache.stats();
    assert_eq!((s.entry_count, s.current_size), (1, 50));
    assert_eq!(cache.get(&a), Some(vec![2u8; 50]));
    cache.insert(ChunkId::from_data(b"b"), vec![3u8; 60]);
    let s = cache.stats();
    assert_eq!((s.entry_count, s.current_size), (1, 60));
    cache.invalidate(&ChunkId::from_data(b"b"));
    assert_eq!(cache.stats().current_size, 0);
}
