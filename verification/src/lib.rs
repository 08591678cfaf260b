//! KaidaDB core: content-addressed chunk storage, the write-ahead index,
//! chunk cache accounting and streaming-manifest generation.
use vstd::prelude::*;

pub mod error;
pub mod keys;
pub mod sorted_map;
pub mod digest;
pub mod types;
pub mod index;
pub mod text;
pub mod chunk_format;
pub mod engine;
pub mod cache;
pub mod streaming;
pub mod http;
pub mod config;
pub mod server_key;
pub mod display;
pub mod commit;
pub mod blob;
pub mod gc;
pub mod browse;
pub mod keymap;
pub mod dash;

verus! {

} // verus!
