use vstd::prelude::*;

use crate::text::{push_str, string_of};

verus! {

/// Errors reported by the storage library.
#[derive(Debug)]
pub enum KaidaDbError {
    NotFound(String),
    AlreadyExists(String),
    InvalidKey(String),
    Storage(String),
    ChunkIntegrity { chunk_id: String, detail: String },
    Io(String),
    Serialization(String),
    InvalidChunkFormat(String),
    Config(String),
    Internal(String),
    /// An upload over the configured maximum object size.
    TooLarge(String),
}

pub type Result<T> = core::result::Result<T, KaidaDbError>;

/// The text an error is displayed with.
pub open spec fn error_text(e: KaidaDbError) -> Seq<char> {
    match e {
        KaidaDbError::NotFound(s) => "key not found: "@ + s@,
        KaidaDbError::AlreadyExists(s) => "key already exists: "@ + s@,
        KaidaDbError::InvalidKey(s) => "invalid key: "@ + s@,
        KaidaDbError::Storage(s) => "storage error: "@ + s@,
        KaidaDbError::ChunkIntegrity { chunk_id, detail } => "chunk integrity error: chunk "@
            + chunk_id@ + " \u{2014} "@ + detail@,
        KaidaDbError::Io(s) => "io error: "@ + s@,
        KaidaDbError::Serialization(s) => "serialization error: "@ + s@,
        KaidaDbError::InvalidChunkFormat(s) => "invalid chunk format: "@ + s@,
        KaidaDbError::Config(s) => "configuration error: "@ + s@,
        KaidaDbError::Internal(s) => "internal error: "@ + s@,
        KaidaDbError::TooLarge(s) => "object too large: "@ + s@,
    }
}

impl KaidaDbError {
    /// The text the error is displayed with.
    pub fn message(&self) -> (r: String)
        ensures
            r@ == error_text(*self),
    {
        let (prefix, body): (&str, &String) = match self {
            KaidaDbError::NotFound(s) => ("key not found: ", s),
            KaidaDbError::AlreadyExists(s) => ("key already exists: ", s),
            KaidaDbError::InvalidKey(s) => ("invalid key: ", s),
            KaidaDbError::Storage(s) => ("storage error: ", s),
            KaidaDbError::ChunkIntegrity { chunk_id, detail } => {
                let mut r = string_of("chunk integrity error: chunk ");
                push_str(&mut r, chunk_id);
                push_str(&mut r, " \u{2014} ");
                push_str(&mut r, detail);
                return r;
            },
            KaidaDbError::Io(s) => ("io error: ", s),
            KaidaDbError::Serialization(s) => ("serialization error: ", s),
            KaidaDbError::InvalidChunkFormat(s) => ("invalid chunk format: ", s),
            KaidaDbError::Config(s) => ("configuration error: ", s),
            KaidaDbError::Internal(s) => ("internal error: ", s),
            KaidaDbError::TooLarge(s) => ("object too large: ", s),
        };
        let mut r = string_of(prefix);
        push_str(&mut r, body);
        r
    }
}

} // verus!
