//! Core data types: chunk identifiers, chunk locations, media manifests.
use vstd::prelude::*;

use crate::digest::{
    hex_decode, hex_decode_error, hex_decoded, hex_encode, hex_lower, is_hex_text, sha256_of,
    HexError, Sha256Hasher,
};
use crate::sorted_map::Duplicate;
use vstd::string::StringSliceAdditionalSpecFns;

verus! {

/// Default chunk size: 2 MiB
pub const DEFAULT_CHUNK_SIZE: usize = 2097152;

/// Minimum chunk size: 1 MiB
pub const MIN_CHUNK_SIZE: usize = 1048576;

/// Maximum chunk size: 16 MiB
pub const MAX_CHUNK_SIZE: usize = 16777216;

/// Chunk file magic bytes: "KDBC"
pub const CHUNK_MAGIC: [u8; 4] = [0x4Bu8, 0x44u8, 0x42u8, 0x43u8];

/// Current chunk format version
pub const CHUNK_FORMAT_VERSION: u8 = 1;

/// Chunk header size in bytes
pub const CHUNK_HEADER_SIZE: usize = 18;

/// Content-addressed chunk identifier (SHA-256 hash of the chunk's bytes).
#[derive(Clone, Copy, PartialEq, Eq, Hash, Debug)]
pub struct ChunkId(pub [u8; 32]);

impl View for ChunkId {
    type V = Seq<u8>;

    open spec fn view(&self) -> Seq<u8> {
        self.0@
    }
}

/// The identifier of a chunk whose bytes are `data`.
pub open spec fn chunk_id_of(data: Seq<u8>) -> Seq<u8> {
    sha256_of(data)
}

impl ChunkId {
    /// The identifier of the chunk holding `data`: its SHA-256 digest.
    pub fn from_data(data: &[u8]) -> (r: Self)
        ensures
            r@ == chunk_id_of(data@),
    {
        let mut hasher = Sha256Hasher::new();
        hasher.update(data);
        assert(Seq::<u8>::empty() + data@ =~= data@);
        ChunkId(hasher.finalize())
    }

    /// The identifier as 64 lowercase hex digits.
    pub fn to_hex(&self) -> (r: String)
        ensures
            r@ == hex_lower(self@),
    {
        hex_encode(&self.0)
    }

    /// Parses an identifier from hex text (either case). Hex text that is
    /// well formed must denote exactly 32 bytes.
    pub fn from_hex(s: &str) -> (r: Result<Self, HexError>)
        requires
            is_hex_text(s.spec_bytes()) ==> s.spec_bytes().len() == 64,
        ensures
            match r {
                Ok(id) => is_hex_text(s.spec_bytes()) && id@ == hex_decoded(s.spec_bytes()),
                Err(e) => !is_hex_text(s.spec_bytes()) && hex_decode_error(s.spec_bytes(), e),
            },
    {
        let bytes = hex_decode(s)?;
        let mut id = [0u8; 32];
        let mut i: usize = 0;
        while i < 32
            invariant
                bytes@.len() == 32,
                i <= 32,
                forall|j: int| 0 <= j < i ==> id@[j] == bytes@[j],
            decreases 32 - i,
        {
            id[i] = bytes[i];
            i = i + 1;
        }
        assert(id@ =~= bytes@);
        Ok(ChunkId(id))
    }

    /// The two-level fan-out directory names: the hex of the first byte and
    /// the hex of the second byte.
    pub fn fan_out(&self) -> (r: (String, String))
        ensures
            r.0@ == hex_lower(self@.subrange(0, 1)),
            r.1@ == hex_lower(self@.subrange(1, 2)),
    {
        let a = [self.0[0]];
        let b = [self.0[1]];
        assert(a@ =~= self@.subrange(0, 1));
        assert(b@ =~= self@.subrange(1, 2));
        (hex_encode(&a), hex_encode(&b))
    }

    /// Whether two identifiers are the same.
    pub fn same_as(&self, other: &ChunkId) -> (r: bool)
        ensures
            r == (self@ == other@),
    {
        let mut i: usize = 0;
        while i < 32
            invariant
                i <= 32,
                forall|j: int| 0 <= j < i ==> self@[j] == other@[j],
            decreases 32 - i,
        {
            if self.0[i] != other.0[i] {
                return false;
            }
            i = i + 1;
        }
        assert(self@ =~= other@);
        true
    }
}

/// Copies a byte vector.
pub fn copy_bytes(v: &[u8]) -> (r: Vec<u8>)
    ensures
        r@ == v@,
{
    let mut r: Vec<u8> = Vec::with_capacity(v.len());
    let mut i: usize = 0;
    while i < v.len()
        invariant
            i <= v.len(),
            r@ == v@.subrange(0, i as int),
        decreases v.len() - i,
    {
        r.push(v[i]);
        i = i + 1;
        assert(r@ =~= v@.subrange(0, i as int));
    }
    assert(v@.subrange(0, v@.len() as int) =~= v@);
    r
}

/// Copies a list of chunk identifiers.
pub fn copy_chunk_ids(v: &Vec<ChunkId>) -> (r: Vec<ChunkId>)
    ensures
        r@ == v@,
{
    let mut r: Vec<ChunkId> = Vec::with_capacity(v.len());
    let mut i: usize = 0;
    while i < v.len()
        invariant
            i <= v.len(),
            r@ == v@.subrange(0, i as int),
        decreases v.len() - i,
    {
        r.push(v[i]);
        i = i + 1;
        assert(r@ =~= v@.subrange(0, i as int));
    }
    assert(v@.subrange(0, v@.len() as int) =~= v@);
    r
}

/// The contents of a list of string pairs.
pub open spec fn pairs_view(v: Seq<(String, String)>) -> Seq<(Seq<char>, Seq<char>)> {
    v.map_values(|p: (String, String)| (p.0@, p.1@))
}

/// Copies a list of string pairs.
pub fn copy_string_pairs(v: &Vec<(String, String)>) -> (r: Vec<(String, String)>)
    ensures
        pairs_view(r@) == pairs_view(v@),
{
    let mut r: Vec<(String, String)> = Vec::with_capacity(v.len());
    let mut i: usize = 0;
    while i < v.len()
        invariant
            i <= v.len(),
            pairs_view(r@) == pairs_view(v@.subrange(0, i as int)),
        decreases v.len() - i,
    {
        let a = v[i].0.clone();
        let b = v[i].1.clone();
        let ghost r0 = r@;
        r.push((a, b));
        proof {
            assert(r@ == r0.push((a, b)));
            assert(pairs_view(r@) =~= pairs_view(r0).push((a@, b@)));
            assert(v@.subrange(0, i + 1) =~= v@.subrange(0, i as int).push(v@[i as int]));
            assert(pairs_view(v@.subrange(0, i + 1)) =~= pairs_view(v@.subrange(0, i as int)).push(
                (v@[i as int].0@, v@[i as int].1@),
            ));
        }
        i = i + 1;
    }
    assert(v@.subrange(0, v@.len() as int) =~= v@);
    r
}

/// Location of a chunk on disk
#[derive(Debug, Clone)]
pub struct ChunkLocation {
    pub path: String,
    pub ref_count: u32,
}

/// What a `ChunkLocation` holds.
pub struct LocationView {
    pub path: Seq<char>,
    pub ref_count: u32,
}

impl View for ChunkLocation {
    type V = LocationView;

    open spec fn view(&self) -> LocationView {
        LocationView { path: self.path@, ref_count: self.ref_count }
    }
}

impl Duplicate for ChunkLocation {
    fn duplicate(&self) -> (r: Self) {
        ChunkLocation { path: self.path.clone(), ref_count: self.ref_count }
    }
}

/// Media manifest — stored in the index for each user key. The custom
/// metadata is a list of (name, value) pairs with distinct names.
#[derive(Debug, Clone)]
pub struct MediaManifest {
    pub key: String,
    pub chunks: Vec<ChunkId>,
    pub total_size: u64,
    pub chunk_size: usize,
    pub content_type: String,
    pub checksum: String,
    pub metadata: Vec<(String, String)>,
    pub created_at: i64,
    pub updated_at: i64,
}

/// What a `MediaManifest` holds.
pub struct ManifestView {
    pub key: Seq<char>,
    pub chunks: Seq<ChunkId>,
    pub total_size: u64,
    pub chunk_size: usize,
    pub content_type: Seq<char>,
    pub checksum: Seq<char>,
    pub metadata: Seq<(Seq<char>, Seq<char>)>,
    pub created_at: i64,
    pub updated_at: i64,
}

impl View for MediaManifest {
    type V = ManifestView;

    open spec fn view(&self) -> ManifestView {
        ManifestView {
            key: self.key@,
            chunks: self.chunks@,
            total_size: self.total_size,
            chunk_size: self.chunk_size,
            content_type: self.content_type@,
            checksum: self.checksum@,
            metadata: pairs_view(self.metadata@),
            created_at: self.created_at,
            updated_at: self.updated_at,
        }
    }
}

impl Duplicate for MediaManifest {
    fn duplicate(&self) -> (r: Self) {
        MediaManifest {
            key: self.key.clone(),
            chunks: copy_chunk_ids(&self.chunks),
            total_size: self.total_size,
            chunk_size: self.chunk_size,
            content_type: self.content_type.clone(),
            checksum: self.checksum.clone(),
            metadata: copy_string_pairs(&self.metadata),
            created_at: self.created_at,
            updated_at: self.updated_at,
        }
    }
}

impl MediaManifest {
    /// The number of chunks, as a `u32` (truncated as `as u32` truncates).
    pub fn chunk_count(&self) -> (r: u32)
        ensures
            r == self.chunks@.len() as u32,
    {
        self.chunks.len() as u32
    }
}


/// An identifier's hex text parses back to the identifier: `to_hex` gives
/// 64 hex digits, which `from_hex` accepts and reads as the same bytes.
pub proof fn lemma_chunk_id_hex_roundtrip(id: ChunkId)
    ensures
        vstd::utf8::encode_utf8(crate::digest::hex_lower(id@)).len() == 64,
        crate::digest::is_hex_text(vstd::utf8::encode_utf8(crate::digest::hex_lower(id@))),
        crate::digest::hex_decoded(vstd::utf8::encode_utf8(crate::digest::hex_lower(id@))) == id@,
{
    crate::digest::lemma_hex_roundtrip(id@);
}

/// What a client is told of a stored object.
#[derive(Debug, Clone)]
pub struct MediaMetadata {
    pub key: String,
    pub total_size: u64,
    pub chunk_count: u32,
    pub content_type: String,
    pub checksum: String,
    pub metadata: Vec<(String, String)>,
    pub created_at: i64,
    pub updated_at: i64,
}

/// The description of an object that its manifest gives.
pub fn manifest_to_metadata(m: &MediaManifest) -> (r: MediaMetadata)
    ensures
        r.key@ == m.key@,
        r.total_size == m.total_size,
        r.chunk_count == m.chunks@.len() as u32,
        r.content_type@ == m.content_type@,
        r.checksum@ == m.checksum@,
        pairs_view(r.metadata@) == pairs_view(m.metadata@),
        r.created_at == m.created_at,
        r.updated_at == m.updated_at,
{
    MediaMetadata {
        key: m.key.clone(),
        total_size: m.total_size,
        chunk_count: m.chunk_count(),
        content_type: m.content_type.clone(),
        checksum: m.checksum.clone(),
        metadata: copy_string_pairs(&m.metadata),
        created_at: m.created_at,
        updated_at: m.updated_at,
    }
}

} // verus!
