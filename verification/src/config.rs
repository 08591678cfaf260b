//! Server configuration: its parts, their defaults, and validation.
use vstd::prelude::*;

use crate::error::KaidaDbError;
use crate::text::string_of;
use crate::types::{DEFAULT_CHUNK_SIZE, MAX_CHUNK_SIZE, MIN_CHUNK_SIZE};

verus! {

/// How aggressively the index write-ahead log is flushed to stable storage.
#[derive(Debug, Clone, Copy, PartialEq, Eq, Structural)]
pub enum Durability {
    /// Never fsync — fastest, but acked writes can vanish on power loss
    /// (written `none` in configuration files).
    NoSync,
    /// fsync at each operation boundary (manifest commit / delete / rename),
    /// which also flushes the preceding chunk-location entries.
    Sync,
}

impl Default for Durability {
    fn default() -> (r: Self)
        ensures
            r == Durability::Sync,
    {
        Durability::Sync
    }
}

/// Storage settings.
#[derive(Debug, Clone)]
pub struct StorageConfig {
    pub chunk_size: usize,
    /// Maximum size of a single stored object in bytes. `0` means unlimited.
    pub max_object_size: u64,
    /// Write-ahead log durability mode.
    pub durability: Durability,
    /// How often (seconds) to run orphan/fsck garbage collection. `0` disables.
    pub gc_interval_secs: u64,
    /// Orphan chunks younger than this (seconds) are left alone during GC.
    pub gc_grace_secs: u64,
    /// Recompute and verify the full-object checksum on every read.
    pub verify_checksum_on_read: bool,
}

/// Cache settings.
#[derive(Debug, Clone)]
pub struct CacheConfig {
    /// Maximum cache size in bytes
    pub max_size: usize,
    /// Number of chunks to prefetch ahead during streaming
    pub prefetch_window: usize,
    /// Whether to cache first N chunks on write
    pub warm_on_write: bool,
}

/// Streaming settings that playlist generation reads from the library
/// (the target segment duration, a float, stays with the server program).
#[derive(Debug, Clone)]
pub struct StreamingConfig {
    /// Base URL prefix for segment URLs in playlists; empty for relative paths.
    pub base_url: String,
    /// Key prefix for all streaming content
    pub stream_prefix: String,
    /// Whether to include EXT-X-ENDLIST (VOD mode)
    pub vod_mode: bool,
}

/// The whole configuration.
#[derive(Debug, Clone)]
pub struct KaidaDbConfig {
    pub data_dir: String,
    pub grpc_addr: String,
    pub rest_addr: String,
    pub storage: StorageConfig,
    pub cache: CacheConfig,
    pub streaming: StreamingConfig,
}

pub fn default_stream_prefix() -> (r: String)
    ensures
        r@ == "streams/"@,
{
    string_of("streams/")
}

pub fn default_vod_mode() -> (r: bool)
    ensures
        r,
{
    true
}

pub fn default_data_dir() -> (r: String)
    ensures
        r@ == "./data"@,
{
    string_of("./data")
}

pub fn default_grpc_addr() -> (r: String)
    ensures
        r@ == "0.0.0.0:50051"@,
{
    string_of("0.0.0.0:50051")
}

pub fn default_rest_addr() -> (r: String)
    ensures
        r@ == "0.0.0.0:8080"@,
{
    string_of("0.0.0.0:8080")
}

pub fn default_chunk_size() -> (r: usize)
    ensures
        r == DEFAULT_CHUNK_SIZE,
{
    DEFAULT_CHUNK_SIZE
}

/// 50 GiB.
pub fn default_max_object_size() -> (r: u64)
    ensures
        r == 53687091200,
{
    50 * 1024 * 1024 * 1024
}

/// Hourly.
pub fn default_gc_interval_secs() -> (r: u64)
    ensures
        r == 3600,
{
    3600
}

/// One hour.
pub fn default_gc_grace_secs() -> (r: u64)
    ensures
        r == 3600,
{
    3600
}

/// 512 MiB.
pub fn default_cache_max_size() -> (r: usize)
    ensures
        r == 536870912,
{
    512 * 1024 * 1024
}

pub fn default_prefetch_window() -> (r: usize)
    ensures
        r == 3,
{
    3
}

impl Default for StorageConfig {
    fn default() -> (r: Self)
        ensures
            r.chunk_size == DEFAULT_CHUNK_SIZE,
            r.max_object_size == 53687091200,
            r.durability == Durability::Sync,
            r.gc_interval_secs == 3600,
            r.gc_grace_secs == 3600,
            !r.verify_checksum_on_read,
    {
        StorageConfig {
            chunk_size: default_chunk_size(),
            max_object_size: default_max_object_size(),
            durability: Durability::default(),
            gc_interval_secs: default_gc_interval_secs(),
            gc_grace_secs: default_gc_grace_secs(),
            verify_checksum_on_read: false,
        }
    }
}

impl Default for CacheConfig {
    fn default() -> (r: Self)
        ensures
            r.max_size == 536870912,
            r.prefetch_window == 3,
            !r.warm_on_write,
    {
        CacheConfig {
            max_size: default_cache_max_size(),
            prefetch_window: default_prefetch_window(),
            warm_on_write: false,
        }
    }
}

impl Default for StreamingConfig {
    fn default() -> (r: Self)
        ensures
            r.base_url@ == Seq::<char>::empty(),
            r.stream_prefix@ == "streams/"@,
            r.vod_mode,
    {
        StreamingConfig {
            base_url: String::new(),
            stream_prefix: default_stream_prefix(),
            vod_mode: default_vod_mode(),
        }
    }
}

impl Default for KaidaDbConfig {
    fn default() -> (r: Self)
        ensures
            r.data_dir@ == "./data"@,
            r.grpc_addr@ == "0.0.0.0:50051"@,
            r.rest_addr@ == "0.0.0.0:8080"@,
            r.storage.chunk_size == DEFAULT_CHUNK_SIZE,
            r.storage.max_object_size == 53687091200,
            r.storage.durability == Durability::Sync,
            r.storage.gc_interval_secs == 3600,
            r.storage.gc_grace_secs == 3600,
            !r.storage.verify_checksum_on_read,
            r.cache.max_size == 536870912,
            r.cache.prefetch_window == 3,
            !r.cache.warm_on_write,
            r.streaming.base_url@ == Seq::<char>::empty(),
            r.streaming.stream_prefix@ == "streams/"@,
            r.streaming.vod_mode,
    {
        KaidaDbConfig {
            data_dir: default_data_dir(),
            grpc_addr: default_grpc_addr(),
            rest_addr: default_rest_addr(),
            storage: StorageConfig::default(),
            cache: CacheConfig::default(),
            streaming: StreamingConfig::default(),
        }
    }
}

impl KaidaDbConfig {
    /// The chunk size must lie between 1 MiB and 16 MiB.
    pub fn validate(&self) -> (r: Result<(), KaidaDbError>)
        ensures
            r is Ok <==> MIN_CHUNK_SIZE <= self.storage.chunk_size <= MAX_CHUNK_SIZE,
            r matches Err(e) ==> (e matches KaidaDbError::Config(m) && m@
                == "chunk_size must be between 1048576 and 16777216 bytes"@),
    {
        if self.storage.chunk_size < MIN_CHUNK_SIZE || self.storage.chunk_size > MAX_CHUNK_SIZE {
            return Err(
                KaidaDbError::Config(string_of("chunk_size must be between 1048576 and 16777216 bytes")),
            );
        }
        Ok(())
    }
}

/// The default configuration passes validation.
pub proof fn lemma_default_chunk_size_valid()
    ensures
        MIN_CHUNK_SIZE <= DEFAULT_CHUNK_SIZE <= MAX_CHUNK_SIZE,
{
}

} // verus!
