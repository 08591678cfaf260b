use kaidadb::config::{
    default_cache_max_size, default_data_dir, default_gc_grace_secs, default_gc_interval_secs,
    default_grpc_addr, default_max_object_size, default_prefetch_window, default_rest_addr,
    default_stream_prefix, default_vod_mode, Durability, KaidaDbConfig,
};
use kaidadb::error::KaidaDbError;

#[test]
fn test_default_config() {
    let config = KaidaDbConfig::default();
    assert_eq!(config.storage.chunk_size, 2 * 1024 * 1024);
    assert!(config.validate().is_ok());
}

#[test]
fn test_invalid_chunk_size() {
    let mut config = KaidaDbConfig::default();
    config.storage.chunk_size = 100; // too small
    assert!(config.validate().is_err());
}

#[test]
fn chunk_size_bounds_are_inclusive() {
    let mut config = KaidaDbConfig::default();
    config.storage.chunk_size = 1024 * 1024;
    assert!(config.validate().is_ok());
    config.storage.chunk_size = 16 * 1024 * 1024;
    assert!(config.validate().is_ok());
    config.storage.chunk_size = 16 * 1024 * 1024 + 1;
    match config.validate() {
        Err(KaidaDbError::Config(m)) => {
            assert_eq!(m, "chunk_size must be between 1048576 and 16777216 bytes")
        }
        _ => panic!("expected a configuration error"),
    }
}

#[test]
fn defaults_match_the_documented_values() {
    let c = KaidaDbConfig::default();
    assert_eq!(c.data_dir, "./data");
    assert_eq!(c.grpc_addr, "0.0.0.0:50051");
    assert_eq!(c.rest_addr, "0.0.0.0:8080");
    assert_eq!(c.storage.max_object_size, 50 * 1024 * 1024 * 1024);
    assert_eq!(c.storage.durability, Durability::Sync);
    assert_eq!(c.storage.gc_interval_secs, 3600);
    assert_eq!(c.storage.gc_grace_secs, 3600);
    assert!(!c.storage.verify_checksum_on_read);
    assert_eq!(c.cache.max_size, 512 * 1024 * 1024);
    assert_eq!(c.cache.prefetch_window, 3);
    assert!(!c.cache.warm_on_write);
    assert_eq!(c.streaming.stream_prefix, "streams/");
    assert_eq!(c.streaming.base_url, "");
    assert!(c.streaming.vod_mode);
    assert_eq!(default_stream_prefix(), "streams/");
    assert!(default_vod_mode());
    assert_eq!(default_data_dir(), "./data");
    assert_eq!(default_grpc_addr(), "0.0.0.0:50051");
    assert_eq!(default_rest_addr(), "0.0.0.0:8080");
    assert_eq!(default_max_object_size(), 53687091200);
    assert_eq!(default_gc_interval_secs(), 3600);
    assert_eq!(default_gc_grace_secs(), 3600);
    assert_eq!(default_cache_max_size(), 536870912);
    assert_eq!(default_prefetch_window(), 3);
}
