//! Where chunk files live: a two-level hex fan-out under `chunks/` in the
//! data directory, one `.kdc` file per chunk.
use vstd::prelude::*;

use crate::digest::hex_lower;
use crate::text::{push_str, string_of};
use crate::types::ChunkId;

verus! {

/// `PathBuf::join` for a relative `part`: a `/` goes between unless `base`
/// is empty or already ends with one.
pub open spec fn path_join(base: Seq<char>, part: Seq<char>) -> Seq<char> {
    if base.len() == 0 || base.last() == '/' {
        base + part
    } else {
        base + seq!['/'] + part
    }
}

/// Joins a relative part onto a path.
pub fn join_path(base: &str, part: &str) -> (r: String)
    ensures
        r@ == path_join(base@, part@),
{
    let v = crate::text::chars_of(base);
    let mut s = string_of(base);
    if v.len() != 0 && v[v.len() - 1] != '/' {
        crate::text::push_char(&mut s, '/');
    }
    push_str(&mut s, part);
    assert(s@ =~= path_join(base@, part@));
    s
}

/// The file a chunk is stored in under `data_dir`:
/// `chunks/<hex of byte 0>/<hex of byte 1>/<hex of id>.kdc`.
pub open spec fn chunk_path_spec(data_dir: Seq<char>, id: Seq<u8>) -> Seq<char> {
    path_join(
        path_join(path_join(path_join(data_dir, "chunks"@), hex_lower(id.subrange(0, 1))), hex_lower(id.subrange(1, 2))),
        hex_lower(id) + ".kdc"@,
    )
}

/// Manages chunk files on disk with two-level hex fan-out.
pub struct BlobStore {
    data_dir: String,
}

impl View for BlobStore {
    type V = Seq<char>;

    /// The data directory.
    closed spec fn view(&self) -> Seq<char> {
        self.data_dir@
    }
}

impl BlobStore {
    /// A store of chunk files under `data_dir` (the directories themselves
    /// are made by whoever opens the store on disk).
    pub fn new(data_dir: String) -> (r: Self)
        ensures
            r@ == data_dir@,
    {
        BlobStore { data_dir }
    }

    /// The data directory.
    pub fn data_dir(&self) -> (r: &str)
        ensures
            r@ == self@,
    {
        self.data_dir.as_str()
    }

    /// The directory that holds the fan-out directories.
    pub fn chunks_dir(&self) -> (r: String)
        ensures
            r@ == path_join(self@, "chunks"@),
    {
        join_path(self.data_dir.as_str(), "chunks")
    }

    /// The file chunk `chunk_id` is stored in.
    pub fn chunk_path(&self, chunk_id: &ChunkId) -> (r: String)
        ensures
            r@ == chunk_path_spec(self@, chunk_id@),
    {
        let (a, b) = chunk_id.fan_out();
        let d = self.chunks_dir();
        let d = join_path(d.as_str(), a.as_str());
        let d = join_path(d.as_str(), b.as_str());
        let mut name = chunk_id.to_hex();
        push_str(&mut name, ".kdc");
        join_path(d.as_str(), name.as_str())
    }
}

} // verus!
