//! The storage engine's decisions: which keys are accepted, how an upload is
//! cut into content-addressed chunks, which bytes of which chunks a range
//! read returns, and what a rename commits.
use vstd::prelude::*;
use vstd::string::StringSliceAdditionalSpecFns;

use crate::digest::{hex_encode, hex_lower, sha256_absorbed, sha256_of, Sha256Hasher};
use crate::chunk_format::{chunk_encoding, decode_result, lemma_decode_encode};
use crate::error::KaidaDbError;
use crate::index::{Index};
use crate::sorted_map::Duplicate;
use crate::text::{chars_of, push_decimal, push_str, string_of, decimal};
use crate::types::{
    chunk_id_of, copy_bytes, pairs_view, ChunkId, ManifestView, MediaManifest,
};

verus! {

/// Maximum allowed key length in bytes.
pub const MAX_KEY_LEN: usize = 1024;

/// A control character (Unicode category Cc), as `char::is_control` decides.
pub open spec fn is_control_char(c: char) -> bool {
    (c as u32) <= 0x1f || (0x7f <= (c as u32) && (c as u32) <= 0x9f)
}

/// What `validate_key` reports on a key.
pub open spec fn key_check(key: Seq<char>, bytes: nat, r: Result<(), KaidaDbError>) -> bool {
    if key.len() == 0 {
        r matches Err(KaidaDbError::InvalidKey(m)) && m@ == "key cannot be empty"@
    } else if bytes > 1024 {
        r matches Err(KaidaDbError::InvalidKey(m)) && m@ == "key exceeds 1024 bytes"@
    } else if exists|i: int| 0 <= i < key.len() && is_control_char(#[trigger] key[i]) {
        r matches Err(KaidaDbError::InvalidKey(m)) && m@ == "key contains control characters"@
    } else {
        r is Ok
    }
}

/// Rejects empty keys, keys over 1024 bytes and keys with control characters.
pub fn validate_key(key: &str) -> (r: Result<(), KaidaDbError>)
    ensures
        key_check(key@, key.len() as nat, r),
{
    if key.is_empty() {
        return Err(KaidaDbError::InvalidKey(string_of("key cannot be empty")));
    }
    if key.len() > MAX_KEY_LEN {
        return Err(KaidaDbError::InvalidKey(string_of("key exceeds 1024 bytes")));
    }
    let chars = chars_of(key);
    let mut i: usize = 0;
    while i < chars.len()
        invariant
            chars@ == key@,
            key@.len() > 0,
            key.len() <= 1024,
            i <= chars@.len(),
            forall|j: int| 0 <= j < i ==> !is_control_char(#[trigger] chars@[j]),
        decreases chars@.len() - i,
    {
        let c = chars[i] as u32;
        if c <= 0x1f || (0x7f <= c && c <= 0x9f) {
            assert(is_control_char(key@[i as int]));
            return Err(KaidaDbError::InvalidKey(string_of("key contains control characters")));
        }
        i = i + 1;
    }
    assert(!exists|i: int| 0 <= i < key@.len() && is_control_char(#[trigger] key@[i]));
    Ok(())
}

/// Which characters a key may hold: a non-empty key of at most 1024 bytes
/// is accepted exactly when every character is printable in the sense of
/// Unicode, i.e. lies in U+0020..U+007E or at U+00A0 and above (so a space
/// is fine); otherwise it is refused as holding control characters.
pub proof fn lemma_key_characters(key: Seq<char>, bytes: nat, r: Result<(), KaidaDbError>)
    requires
        key_check(key, bytes, r),
        key.len() > 0,
        bytes <= 1024,
    ensures
        r is Ok <==> forall|i: int| 0 <= i < key.len() ==> {
            let c = (#[trigger] key[i]) as u32;
            (0x20 <= c && c <= 0x7e) || 0xa0 <= c
        },
        r is Err ==> (r matches Err(KaidaDbError::InvalidKey(m)) && m@ == "key contains control characters"@),
{
    if exists|i: int| 0 <= i < key.len() && is_control_char(#[trigger] key[i]) {
        let i = choose|i: int| 0 <= i < key.len() && is_control_char(#[trigger] key[i]);
        assert(!((0x20 <= key[i] as u32 && key[i] as u32 <= 0x7e) || 0xa0 <= key[i] as u32));
    } else {
        assert forall|i: int| 0 <= i < key.len() implies {
            let c = (#[trigger] key[i]) as u32;
            (0x20 <= c && c <= 0x7e) || 0xa0 <= c
        } by {
            assert(!is_control_char(key[i]));
        }
    }
}

/// `data` cut into consecutive pieces of `n` bytes; the last may be shorter.
pub open spec fn pieces(data: Seq<u8>, n: nat) -> Seq<Seq<u8>>
    decreases data.len(),
{
    if n == 0 || data.len() == 0 {
        Seq::empty()
    } else if data.len() <= n {
        seq![data]
    } else {
        seq![data.take(n as int)] + pieces(data.skip(n as int), n)
    }
}

/// The chunk identifiers of a sequence of chunks.
pub open spec fn ids_of(ps: Seq<Seq<u8>>) -> Seq<Seq<u8>> {
    ps.map_values(|p: Seq<u8>| chunk_id_of(p))
}

/// The concatenation of a sequence of byte strings.
pub open spec fn concat(ps: Seq<Seq<u8>>) -> Seq<u8>
    decreases ps.len(),
{
    if ps.len() == 0 {
        Seq::empty()
    } else {
        concat(ps.drop_last()) + ps.last()
    }
}

/// Appending a final piece after whole pieces.
pub proof fn lemma_pieces_append(a: Seq<u8>, c: Seq<u8>, n: nat)
    requires
        n > 0,
        a.len() as int % (n as int) == 0,
        0 < c.len() <= n,
    ensures
        pieces(a + c, n) == pieces(a, n).push(c),
    decreases a.len(),
{
    if a.len() == 0 {
        assert(a + c =~= c);
        assert(pieces(a, n) =~= Seq::<Seq<u8>>::empty());
        assert(pieces(c, n) =~= seq![c]);
    } else {
        assert(a.len() >= n) by {
            if a.len() < n {
                assert(a.len() as int % (n as int) == a.len()) by (nonlinear_arith)
                    requires
                        0 < a.len() < n,
                ;
            }
        }
        let t = a.skip(n as int);
        assert(t.len() as int % (n as int) == 0) by {
            assert(t.len() == a.len() - n);
            vstd::arithmetic::div_mod::lemma_mod_sub_multiples_vanish(a.len() as int, n as int);
        }
        lemma_pieces_append(t, c, n);
        assert((a + c).take(n as int) =~= a.take(n as int));
        assert((a + c).skip(n as int) =~= t + c);
        if a.len() == n {
            assert(t.len() == 0);
            assert(pieces(a, n) =~= seq![a]);
            assert(a.take(n as int) =~= a);
            assert(pieces(t, n) =~= Seq::<Seq<u8>>::empty());
        }
        assert(pieces(a, n).push(c) =~= seq![a.take(n as int)] + pieces(t, n).push(c));
    }
}

/// The pieces of a byte string put back together give the byte string.
pub proof fn lemma_pieces_concat(data: Seq<u8>, n: nat)
    requires
        n > 0,
    ensures
        concat(pieces(data, n)) == data,
        forall|i: int| 0 <= i < pieces(data, n).len() - 1 ==> (#[trigger] pieces(data, n)[i]).len() == n,
        pieces(data, n).len() == (data.len() + n - 1) / (n as int),
        forall|i: int| 0 <= i < pieces(data, n).len() ==> (#[trigger] pieces(data, n)[i]).len() > 0,
    decreases data.len(),
{
    if data.len() == 0 {
        assert(pieces(data, n) =~= Seq::<Seq<u8>>::empty());
        assert(concat(pieces(data, n)) =~= data);
        assert((n - 1) / (n as int) == 0) by (nonlinear_arith)
            requires
                n > 0,
        ;
    } else if data.len() <= n {
        assert(seq![data].drop_last() =~= Seq::<Seq<u8>>::empty());
        assert(concat(seq![data]) =~= concat(Seq::<Seq<u8>>::empty()) + data);
        assert((data.len() + n - 1) / (n as int) == 1) by (nonlinear_arith)
            requires
                0 < data.len() <= n,
        ;
    } else {
        let t = data.skip(n as int);
        lemma_pieces_concat(t, n);
        let ps = pieces(data, n);
        let pt = pieces(t, n);
        assert(ps == seq![data.take(n as int)] + pt);
        lemma_concat_prepend(data.take(n as int), pt);
        assert(data.take(n as int) + t =~= data);
        assert forall|i: int| 0 <= i < ps.len() - 1 implies (#[trigger] ps[i]).len() == n by {
            if i > 0 {
                assert(ps[i] == pt[i - 1]);
            }
        }
        assert forall|i: int| 0 <= i < ps.len() implies (#[trigger] ps[i]).len() > 0 by {
            if i > 0 {
                assert(ps[i] == pt[i - 1]);
            }
        }
        assert((data.len() + n - 1) / (n as int) == 1 + (t.len() + n - 1) / (n as int)) by {
            assert(data.len() + n - 1 == (t.len() + n - 1) + n);
            vstd::arithmetic::div_mod::lemma_div_plus_one(t.len() + n - 1, n as int);
        }
    }
}

proof fn lemma_concat_prepend(x: Seq<u8>, ps: Seq<Seq<u8>>)
    ensures
        concat(seq![x] + ps) == x + concat(ps),
    decreases ps.len(),
{
    if ps.len() == 0 {
        assert(seq![x] + ps =~= seq![x]);
        assert(seq![x].drop_last() =~= Seq::<Seq<u8>>::empty());
        assert(concat(seq![x]) =~= concat(Seq::<Seq<u8>>::empty()) + x);
        assert(x + concat(ps) =~= x);
    } else {
        lemma_concat_prepend(x, ps.drop_last());
        assert((seq![x] + ps).drop_last() =~= seq![x] + ps.drop_last());
        assert((seq![x] + ps).last() == ps.last());
        assert(x + concat(ps.drop_last()) + ps.last() =~= x + (concat(ps.drop_last()) + ps.last()));
    }
}


/// The chunks a range read touches and where the range ends.
pub struct RangePlan {
    /// Index of the first chunk read.
    pub start_idx: u64,
    /// Index of the last chunk read.
    pub end_idx: u64,
    /// One past the last byte returned.
    pub end: u64,
}

/// Where a read of `length` bytes from `offset` ends (`length == 0` reads
/// to the end of the object; the end saturates at the object's size, also
/// when `offset + length` would not fit in 64 bits).
pub open spec fn range_end(total_size: u64, offset: u64, length: u64) -> int {
    if length == 0 {
        total_size as int
    } else if offset + length < total_size {
        offset + length
    } else {
        total_size as int
    }
}

/// Plans a range read of an object of `total_size` bytes cut into chunks of
/// `chunk_size` bytes: none when `offset` is at or past the end.
pub fn plan_range(total_size: u64, chunk_size: usize, offset: u64, length: u64) -> (r: Option<
    RangePlan,
>)
    requires
        chunk_size > 0,
    ensures
        r is None <==> offset >= total_size,
        r matches Some(p) ==> {
            &&& p.end == range_end(total_size, offset, length)
            &&& offset < p.end <= total_size
            &&& p.start_idx == offset / (chunk_size as u64)
            &&& p.end_idx == (p.end - 1) / (chunk_size as int)
        },
{
    if offset >= total_size {
        return None;
    }
    let end = if length == 0 || length >= total_size - offset {
        total_size
    } else {
        offset + length
    };
    Some(
        RangePlan {
            start_idx: offset / chunk_size as u64,
            end_idx: (end - 1) / chunk_size as u64,
            end,
        },
    )
}

/// The part `[start, end)` of chunk `idx` (holding `len` bytes) that a
/// planned range read returns.
pub open spec fn slice_bounds(p: RangePlan, offset: u64, chunk_size: u64, idx: int, len: int) -> (
    int,
    int,
) {
    let chunk_start = idx * chunk_size;
    let s = if idx == p.start_idx {
        offset - chunk_start
    } else {
        0
    };
    let e = if idx == p.end_idx {
        p.end - chunk_start
    } else {
        len
    };
    (s, if e < len {
        e
    } else {
        len
    })
}

/// Whether every chunk's part is well placed within the chunk.
pub open spec fn slices_ok(p: RangePlan, offset: u64, chunk_size: u64, chunks: Seq<Seq<u8>>) -> bool {
    &&& p.start_idx + chunks.len() <= p.end_idx + 1
    &&& forall|j: int|
        0 <= j < chunks.len() ==> {
            let b = slice_bounds(p, offset, chunk_size, p.start_idx + j, (#[trigger] chunks[j]).len() as int);
            0 <= b.0 <= b.1
        }
}

/// The bytes a planned range read returns from the chunks it read, in
/// order (the first of them is chunk `p.start_idx`).
pub open spec fn assembled(p: RangePlan, offset: u64, chunk_size: u64, chunks: Seq<Seq<u8>>) -> Seq<
    u8,
>
    decreases chunks.len(),
{
    if chunks.len() == 0 {
        Seq::empty()
    } else {
        let j = chunks.len() - 1;
        let b = slice_bounds(p, offset, chunk_size, p.start_idx + j, chunks[j].len() as int);
        assembled(p, offset, chunk_size, chunks.drop_last()) + chunks[j].subrange(b.0, b.1)
    }
}

/// The part of chunk `idx` (of `chunk_len` bytes) that a planned range read
/// returns.
pub fn slice_in_chunk(p: &RangePlan, offset: u64, chunk_size: usize, idx: u64, chunk_len: usize) -> (r: (
    usize,
    usize,
))
    requires
        chunk_size > 0,
        p.start_idx <= idx <= p.end_idx,
        idx == p.start_idx ==> idx as int * chunk_size <= offset < idx as int * chunk_size + chunk_size,
        idx as int * chunk_size < p.end,
    ensures
        r.0 as int == slice_bounds(*p, offset, chunk_size as u64, idx as int, chunk_len as int).0,
        r.1 as int == slice_bounds(*p, offset, chunk_size as u64, idx as int, chunk_len as int).1,
{
    let chunk_start = idx * chunk_size as u64;
    let s: usize = if idx == p.start_idx {
        (offset - chunk_start) as usize
    } else {
        0
    };
    let e: u64 = if idx == p.end_idx {
        p.end - chunk_start
    } else {
        chunk_len as u64
    };
    let e2: usize = if e < chunk_len as u64 {
        e as usize
    } else {
        chunk_len
    };
    (s, e2)
}


/// The views of a list of byte vectors.
pub open spec fn byte_seqs(v: Seq<Vec<u8>>) -> Seq<Seq<u8>> {
    v.map_values(|c: Vec<u8>| c@)
}

/// Whether `p` is the plan of a read from `offset` over chunks of
/// `chunk_size` bytes.
pub open spec fn is_plan(p: RangePlan, offset: u64, chunk_size: usize) -> bool {
    &&& chunk_size > 0
    &&& offset < p.end
    &&& p.start_idx == offset / (chunk_size as u64)
    &&& p.end_idx == (p.end - 1) / (chunk_size as int)
}

proof fn lemma_plan_facts(p: RangePlan, offset: u64, chunk_size: usize, idx: int)
    requires
        is_plan(p, offset, chunk_size),
        p.start_idx <= idx <= p.end_idx,
    ensures
        idx == p.start_idx ==> idx * chunk_size <= offset < idx * chunk_size + chunk_size,
        idx * chunk_size < p.end,
        p.start_idx <= p.end_idx,
{
    let n = chunk_size as int;
    vstd::arithmetic::div_mod::lemma_fundamental_div_mod(offset as int, n);
    vstd::arithmetic::div_mod::lemma_fundamental_div_mod(p.end - 1, n);
    vstd::arithmetic::div_mod::lemma_mod_bound(offset as int, n);
    vstd::arithmetic::div_mod::lemma_mod_bound(p.end - 1, n);
    vstd::arithmetic::div_mod::lemma_div_is_ordered(offset as int, p.end - 1, n);
    assert(idx * n <= p.end_idx * n) by (nonlinear_arith)
        requires
            idx <= p.end_idx,
            n > 0,
    ;
    assert(idx * n == n * idx && p.end_idx * n == n * p.end_idx) by (nonlinear_arith);
    assert(p.start_idx <= p.end_idx);
    assert(idx * n < p.end);
}

proof fn lemma_plan_ordered(p: RangePlan, offset: u64, chunk_size: usize)
    requires
        is_plan(p, offset, chunk_size),
    ensures
        p.start_idx <= p.end_idx,
{
    vstd::arithmetic::div_mod::lemma_div_is_ordered(offset as int, p.end - 1, chunk_size as int);
}

/// Assembles the bytes of a planned range read from the chunks read for it
/// (the first is chunk `p.start_idx`); none when a chunk is too short for
/// its part or there are more chunks than the plan covers.
pub fn assemble_range(p: &RangePlan, offset: u64, chunk_size: usize, chunks: &Vec<Vec<u8>>) -> (r: Option<
    Vec<u8>,
>)
    requires
        is_plan(*p, offset, chunk_size),
    ensures
        r is Some <==> slices_ok(*p, offset, chunk_size as u64, byte_seqs(chunks@)),
        r matches Some(v) ==> v@ == assembled(*p, offset, chunk_size as u64, byte_seqs(chunks@)),
{
    let ghost cs = byte_seqs(chunks@);
    proof {
        lemma_plan_ordered(*p, offset, chunk_size);
    }
    let mut out: Vec<u8> = Vec::new();
    let mut j: usize = 0;
    while j < chunks.len()
        invariant
            is_plan(*p, offset, chunk_size),
            cs == byte_seqs(chunks@),
            j <= chunks@.len(),
            p.start_idx <= p.end_idx,
            p.start_idx + j <= p.end_idx + 1,
            slices_ok(*p, offset, chunk_size as u64, cs.take(j as int)),
            out@ == assembled(*p, offset, chunk_size as u64, cs.take(j as int)),
        decreases chunks@.len() - j,
    {
        if p.end_idx - p.start_idx < j as u64 {
            assert(!slices_ok(*p, offset, chunk_size as u64, cs));
            return None;
        }
        let idx = p.start_idx + j as u64;
        proof {
            lemma_plan_facts(*p, offset, chunk_size, idx as int);
        }
        let chunk = &chunks[j];
        let (s, e) = slice_in_chunk(p, offset, chunk_size, idx, chunk.len());
        if s > e {
            assert(cs[j as int] == chunk@);
            assert(!slices_ok(*p, offset, chunk_size as u64, cs));
            return None;
        }
        let ghost o0 = out@;
        let mut k: usize = s;
        while k < e
            invariant
                s <= k <= e <= chunk@.len(),
                out@ == o0 + chunk@.subrange(s as int, k as int),
            decreases e - k,
        {
            out.push(chunk[k]);
            k = k + 1;
            assert(out@ =~= o0 + chunk@.subrange(s as int, k as int));
        }
        proof {
            assert(cs[j as int] == chunk@);
            assert(cs.take(j + 1).drop_last() =~= cs.take(j as int));
            assert(cs.take(j + 1)[j as int] == chunk@);
            assert(slices_ok(*p, offset, chunk_size as u64, cs.take(j + 1))) by {
                assert forall|i: int| 0 <= i < j + 1 implies {
                    let b = slice_bounds(
                        *p,
                        offset,
                        chunk_size as u64,
                        p.start_idx + i,
                        (#[trigger] cs.take(j + 1)[i]).len() as int,
                    );
                    0 <= b.0 <= b.1
                } by {
                    if i < j {
                        assert(cs.take(j + 1)[i] == cs.take(j as int)[i]);
                    }
                }
            }
        }
        j = j + 1;
    }
    assert(cs.take(j as int) =~= cs);
    Some(out)
}

/// Chunk `i` of a piece list covers bytes `[i*n, min(i*n+n, len))`.
pub proof fn lemma_pieces_index(d: Seq<u8>, n: nat, i: int)
    requires
        n > 0,
        0 <= i < pieces(d, n).len(),
    ensures
        i * n < d.len(),
        pieces(d, n)[i] == d.subrange(i * n, if i * n + n < d.len() {
            i * n + n
        } else {
            d.len() as int
        }),
    decreases d.len(),
{
    if d.len() <= n {
        assert(i == 0);
        assert(i * n == 0) by (nonlinear_arith) requires i == 0;
        assert(d.subrange(0, d.len() as int) =~= d);
    } else {
        let t = d.skip(n as int);
        if i == 0 {
            assert(i * n == 0) by (nonlinear_arith) requires i == 0;
            assert(d.take(n as int) =~= d.subrange(0, n as int));
        } else {
            lemma_pieces_index(t, n, i - 1);
            let a = (i - 1) * n;
            assert(a + n == i * n) by (nonlinear_arith)
                requires
                    a == (i - 1) * n,
            ;
            assert(pieces(d, n)[i] == pieces(t, n)[i - 1]);
            let hi = if i * n + n < d.len() {
                i * n + n
            } else {
                d.len() as int
            };
            assert(a < t.len());
            assert(0 <= a <= hi - n <= t.len());
            assert(t.subrange(a, hi - n) =~= d.subrange(i * n, hi));
        }
    }
}

/// A range read over the chunks of an object returns exactly the requested
/// bytes: for data `d` cut into chunks of `chunk_size` bytes, reading the
/// planned chunks and assembling them gives `d[offset..end]`.
pub proof fn lemma_range_read(d: Seq<u8>, chunk_size: usize, offset: u64, length: u64, p: RangePlan)
    requires
        chunk_size > 0,
        d.len() <= u64::MAX,
        offset < d.len(),
        p.end == range_end(d.len() as u64, offset, length),
        is_plan(p, offset, chunk_size),
    ensures
        ({
            let ps = pieces(d, chunk_size as nat);
            let chunks = ps.subrange(p.start_idx as int, p.end_idx + 1);
            &&& p.end_idx < ps.len()
            &&& slices_ok(p, offset, chunk_size as u64, chunks)
            &&& assembled(p, offset, chunk_size as u64, chunks) == d.subrange(offset as int, p.end as int)
        }),
{
    let n = chunk_size as int;
    let ps = pieces(d, chunk_size as nat);
    lemma_pieces_concat(d, chunk_size as nat);
    assert(p.end <= d.len());
    assert(p.end_idx < ps.len()) by {
        assert(ps.len() == (d.len() + n - 1) / n);
        vstd::arithmetic::div_mod::lemma_div_is_ordered(p.end - 1, d.len() - 1, n);
        assert((d.len() - 1) / n < (d.len() + n - 1) / n) by {
            assert(d.len() + n - 1 == (d.len() - 1) + n);
            vstd::arithmetic::div_mod::lemma_div_plus_one(d.len() - 1, n);
        }
    }
    lemma_plan_ordered(p, offset, chunk_size);
    let chunks = ps.subrange(p.start_idx as int, p.end_idx + 1);
    let j = p.end_idx - p.start_idx + 1;
    lemma_range_prefix(d, chunk_size, offset, p, j);
    assert(chunks.take(j) =~= chunks);
    assert((p.end_idx + 1) * n >= p.end) by {
        vstd::arithmetic::div_mod::lemma_fundamental_div_mod(p.end - 1, n);
        vstd::arithmetic::div_mod::lemma_mod_bound(p.end - 1, n);
        assert((p.end_idx + 1) * n == p.end_idx * n + n) by (nonlinear_arith);
    }
}

proof fn lemma_range_prefix(d: Seq<u8>, chunk_size: usize, offset: u64, p: RangePlan, j: int)
    requires
        chunk_size > 0,
        offset < p.end <= d.len(),
        is_plan(p, offset, chunk_size),
        p.end_idx < pieces(d, chunk_size as nat).len(),
        1 <= j <= p.end_idx - p.start_idx + 1,
    ensures
        ({
            let chunks = pieces(d, chunk_size as nat).subrange(p.start_idx as int, p.end_idx + 1);
            &&& slices_ok(p, offset, chunk_size as u64, chunks.take(j))
            &&& assembled(p, offset, chunk_size as u64, chunks.take(j)) == d.subrange(
                offset as int,
                if (p.start_idx + j) * (chunk_size as int) < p.end {
                    (p.start_idx + j) * (chunk_size as int)
                } else {
                    p.end as int
                },
            )
        }),
    decreases j,
{
    if j > 1 {
        lemma_range_prefix(d, chunk_size, offset, p, j - 1);
        assert(p.start_idx + (j - 1) == p.start_idx + j - 1);
    }
    lemma_range_step(d, chunk_size, offset, p, j);
}

proof fn lemma_range_step(d: Seq<u8>, chunk_size: usize, offset: u64, p: RangePlan, j: int)
    requires
        chunk_size > 0,
        offset < p.end <= d.len(),
        is_plan(p, offset, chunk_size),
        p.end_idx < pieces(d, chunk_size as nat).len(),
        1 <= j <= p.end_idx - p.start_idx + 1,
        j > 1 ==> slices_ok(
            p,
            offset,
            chunk_size as u64,
            pieces(d, chunk_size as nat).subrange(p.start_idx as int, p.end_idx + 1).take(j - 1),
        ),
        j > 1 ==> assembled(
            p,
            offset,
            chunk_size as u64,
            pieces(d, chunk_size as nat).subrange(p.start_idx as int, p.end_idx + 1).take(j - 1),
        ) == d.subrange(
            offset as int,
            if (p.start_idx + j - 1) * (chunk_size as int) < p.end {
                (p.start_idx + j - 1) * (chunk_size as int)
            } else {
                p.end as int
            },
        ),
    ensures
        ({
            let chunks = pieces(d, chunk_size as nat).subrange(p.start_idx as int, p.end_idx + 1);
            &&& slices_ok(p, offset, chunk_size as u64, chunks.take(j))
            &&& assembled(p, offset, chunk_size as u64, chunks.take(j)) == d.subrange(
                offset as int,
                if (p.start_idx + j) * (chunk_size as int) < p.end {
                    (p.start_idx + j) * (chunk_size as int)
                } else {
                    p.end as int
                },
            )
        }),
{
    let n = chunk_size as int;
    let ps = pieces(d, chunk_size as nat);
    let chunks = ps.subrange(p.start_idx as int, p.end_idx + 1);
    let idx = p.start_idx + j - 1;
    let c = chunks.take(j)[j - 1];
    assert(c == ps[idx]);
    lemma_pieces_index(d, chunk_size as nat, idx);
    lemma_plan_facts(p, offset, chunk_size, idx);
    let lo = idx * n;
    let hi = if lo + n < d.len() {
        lo + n
    } else {
        d.len() as int
    };
    assert(c == d.subrange(lo, hi));
    assert(lo < p.end);
    assert((idx + 1) * n == lo + n) by (nonlinear_arith)
        requires
            lo == idx * n,
    ;
    let b = slice_bounds(p, offset, chunk_size as u64, idx, c.len() as int);
    // the part of this chunk that the range covers
    let new_hi = if (p.start_idx + j) * n < p.end {
        (p.start_idx + j) * n
    } else {
        p.end as int
    };
    if idx < p.end_idx {
        assert((idx + 1) * n <= p.end_idx * n) by (nonlinear_arith)
            requires
                idx + 1 <= p.end_idx,
                n > 0,
        ;
        lemma_plan_facts(p, offset, chunk_size, p.end_idx as int);
    }
    assert(0 <= b.0 <= b.1);
    assert(lo + b.1 == new_hi);
    let prev_hi = if idx * n < p.end {
        idx * n
    } else {
        p.end as int
    };
    assert(chunks.take(j).drop_last() =~= chunks.take(j - 1));
    assert(chunks.take(j).len() == j);
    assert(assembled(p, offset, chunk_size as u64, chunks.take(j)) == assembled(
        p,
        offset,
        chunk_size as u64,
        chunks.take(j - 1),
    ) + c.subrange(b.0, b.1));
    if j == 1 {
        assert(assembled(p, offset, chunk_size as u64, chunks.take(0)) =~= Seq::<u8>::empty());
        assert(chunks.take(0) =~= Seq::<Seq<u8>>::empty());
        assert(b.0 == offset - lo);
        assert(c.subrange(b.0, b.1) =~= d.subrange(offset as int, new_hi));
    } else {
        lemma_plan_facts(p, offset, chunk_size, p.start_idx as int);
        assert(idx * n >= p.start_idx * n + n) by (nonlinear_arith)
            requires
                idx >= p.start_idx + 1,
                n > 0,
        ;
        assert(offset < lo);
        assert(prev_hi == lo);
        assert(b.0 == 0);
        assert(c.subrange(b.0, b.1) =~= d.subrange(lo, new_hi));
        assert(d.subrange(offset as int, lo) + d.subrange(lo, new_hi) =~= d.subrange(
            offset as int,
            new_hi,
        ));
    }
    assert(slices_ok(p, offset, chunk_size as u64, chunks.take(j))) by {
        assert forall|i: int| 0 <= i < j implies {
            let bb = slice_bounds(
                p,
                offset,
                chunk_size as u64,
                p.start_idx + i,
                (#[trigger] chunks.take(j)[i]).len() as int,
            );
            0 <= bb.0 <= bb.1
        } by {
            if i < j - 1 {
                assert(chunks.take(j)[i] == chunks.take(j - 1)[i]);
            }
        }
    }
}

/// An upload in progress: bytes are gathered into a chunk-sized buffer and
/// cut off as content-addressed chunks as each one fills.
pub struct UploadState {
    key: String,
    content_type: String,
    metadata: Vec<(String, String)>,
    chunk_size: usize,
    max_object_size: u64,
    hasher: Sha256Hasher,
    total_size: u64,
    chunks: Vec<ChunkId>,
    buf: Vec<u8>,
    written: Ghost<Seq<u8>>,
}

/// What a finished upload's manifest holds.
pub open spec fn upload_manifest(
    key: Seq<char>,
    content_type: Seq<char>,
    metadata: Seq<(Seq<char>, Seq<char>)>,
    chunk_size: usize,
    data: Seq<u8>,
    now: i64,
) -> ManifestView {
    ManifestView {
        key: key,
        chunks: ids_of(pieces(data, chunk_size as nat)).map_values(|id: Seq<u8>| ChunkId(id_array(id))),
        total_size: data.len() as u64,
        chunk_size: chunk_size,
        content_type: content_type,
        checksum: hex_lower(sha256_of(data)),
        metadata: metadata,
        created_at: now,
        updated_at: now,
    }
}

/// The array form of a 32-byte identifier.
pub open spec fn id_array(id: Seq<u8>) -> [u8; 32] {
    choose|a: [u8; 32]| a@ == id
}

impl UploadState {
    /// Every byte accepted so far, in order.
    pub closed spec fn written(&self) -> Seq<u8> {
        self.written@
    }

    pub closed spec fn key_view(&self) -> Seq<char> {
        self.key@
    }

    pub closed spec fn content_type_view(&self) -> Seq<char> {
        self.content_type@
    }

    pub closed spec fn metadata_view(&self) -> Seq<(Seq<char>, Seq<char>)> {
        pairs_view(self.metadata@)
    }

    pub closed spec fn chunk_size_view(&self) -> usize {
        self.chunk_size
    }

    pub closed spec fn max_size_view(&self) -> u64 {
        self.max_object_size
    }

    /// The bytes already cut into chunks.
    pub closed spec fn flushed(&self) -> Seq<u8> {
        self.written@.take(self.total_size as int)
    }

    pub closed spec fn wf(&self) -> bool {
        &&& self.chunk_size > 0
        &&& self.buf@.len() < self.chunk_size
        &&& self.written@ == self.flushed() + self.buf@
        &&& self.total_size as int == self.flushed().len()
        &&& self.flushed().len() as int % (self.chunk_size as int) == 0
        &&& self.written@.len() <= u64::MAX
        &&& sha256_absorbed(self.hasher) == self.flushed()
        &&& self.chunks@.map_values(|c: ChunkId| c@) == ids_of(
            pieces(self.flushed(), self.chunk_size as nat),
        )
    }

    /// Starts an upload for `key` with chunks of `chunk_size` bytes and at
    /// most `max_object_size` bytes in all (`0` means no limit).
    pub fn new(
        key: String,
        content_type: String,
        metadata: Vec<(String, String)>,
        chunk_size: usize,
        max_object_size: u64,
    ) -> (r: Self)
        requires
            chunk_size > 0,
        ensures
            r.wf(),
            r.written() == Seq::<u8>::empty(),
            r.key_view() == key@,
            r.content_type_view() == content_type@,
            r.metadata_view() == pairs_view(metadata@),
            r.chunk_size_view() == chunk_size,
            r.max_size_view() == max_object_size,
    {
        let r = UploadState {
            key,
            content_type,
            metadata,
            chunk_size,
            max_object_size,
            hasher: Sha256Hasher::new(),
            total_size: 0,
            chunks: Vec::new(),
            buf: Vec::new(),
            written: Ghost(Seq::empty()),
        };
        assert(r.flushed() =~= Seq::<u8>::empty());
        assert(r.written@ =~= r.flushed() + r.buf@);
        assert(r.chunks@.map_values(|c: ChunkId| c@) =~= ids_of(pieces(r.flushed(), chunk_size as nat)));
        r
    }

    /// Number of bytes accepted so far (including the unflushed tail).
    pub fn bytes_written(&self) -> (r: u64)
        requires
            self.wf(),
        ensures
            r == self.written().len(),
    {
        self.total_size + self.buf.len() as u64
    }

    /// Cuts the full buffer off as a chunk: its id joins the chunk list and
    /// its bytes the checksum.
    fn flush_full(&mut self) -> (r: (ChunkId, Vec<u8>))
        requires
            old(self).chunk_size > 0,
            old(self).buf@.len() == old(self).chunk_size,
            old(self).written@ == old(self).flushed() + old(self).buf@,
            old(self).total_size as int == old(self).flushed().len(),
            old(self).flushed().len() as int % (old(self).chunk_size as int) == 0,
            old(self).written@.len() <= u64::MAX,
            sha256_absorbed(old(self).hasher) == old(self).flushed(),
            old(self).chunks@.map_values(|c: ChunkId| c@) == ids_of(
                pieces(old(self).flushed(), old(self).chunk_size as nat),
            ),
        ensures
            final(self).wf(),
            final(self).written() == old(self).written(),
            final(self).flushed() == old(self).written(),
            r.1@ == old(self).buf@,
            r.0@ == chunk_id_of(r.1@),
            final(self).key == old(self).key,
            final(self).content_type == old(self).content_type,
            final(self).metadata == old(self).metadata,
            final(self).chunk_size == old(self).chunk_size,
            final(self).max_object_size == old(self).max_object_size,
    {
        let mut data: Vec<u8> = Vec::new();
        core::mem::swap(&mut data, &mut self.buf);
        let id = ChunkId::from_data(data.as_slice());
        self.hasher.update(data.as_slice());
        self.total_size = self.total_size + data.len() as u64;
        let ghost f0 = old(self).flushed();
        self.chunks.push(id);
        proof {
            let n = self.chunk_size as nat;
            assert(self.flushed() =~= old(self).written@);
            assert(old(self).written@ == f0 + data@);
            lemma_pieces_append(f0, data@, n);
            assert(self.chunks@.map_values(|c: ChunkId| c@) =~= old(self).chunks@.map_values(
                |c: ChunkId| c@,
            ).push(id@));
            assert(ids_of(pieces(f0 + data@, n)) =~= ids_of(pieces(f0, n)).push(chunk_id_of(data@)));
            assert(self.flushed().len() as int % (n as int) == 0) by {
                vstd::arithmetic::div_mod::lemma_mod_add_multiples_vanish(f0.len() as int, n as int);
            }
            assert(self.written@ =~= self.flushed() + self.buf@);
        }
        (id, data)
    }

    /// Feeds bytes into the upload. Fails with `TooLarge` when a size limit
    /// is set and would be crossed; otherwise returns the chunks that filled
    /// up, in order, each with its identifier.
    pub fn write(&mut self, data: &[u8]) -> (r: Result<Vec<(ChunkId, Vec<u8>)>, KaidaDbError>)
        requires
            old(self).wf(),
            old(self).written().len() + data@.len() <= u64::MAX,
        ensures
            final(self).wf(),
            final(self).key_view() == old(self).key_view(),
            final(self).content_type_view() == old(self).content_type_view(),
            final(self).metadata_view() == old(self).metadata_view(),
            final(self).chunk_size_view() == old(self).chunk_size_view(),
            final(self).max_size_view() == old(self).max_size_view(),
            match r {
                Err(e) => {
                    &&& old(self).max_size_view() != 0
                    &&& old(self).written().len() + data@.len() > old(self).max_size_view()
                    &&& final(self).written() == old(self).written()
                    &&& e matches KaidaDbError::TooLarge(m) && m@ == "object exceeds max_object_size of "@
                        + decimal(old(self).max_size_view() as nat) + " bytes"@
                },
                Ok(out) => {
                    &&& !(old(self).max_size_view() != 0 && old(self).written().len() + data@.len()
                        > old(self).max_size_view())
                    &&& final(self).written() == old(self).written() + data@
                    &&& out@.map_values(|p: (ChunkId, Vec<u8>)| p.1@) == pieces(
                        final(self).flushed().skip(old(self).flushed().len() as int),
                        old(self).chunk_size_view() as nat,
                    )
                    &&& forall|i: int| 0 <= i < out@.len() ==> (#[trigger] out@[i]).0@ == chunk_id_of(
                        out@[i].1@,
                    )
                },
            },
    {
        if self.max_object_size != 0 && self.bytes_written() + data.len() as u64 > self.max_object_size {
            let mut m = string_of("object exceeds max_object_size of ");
            push_decimal(&mut m, self.max_object_size);
            push_str(&mut m, " bytes");
            return Err(KaidaDbError::TooLarge(m));
        }
        let ghost f0 = self.flushed();
        let ghost w0 = self.written@;
        let n = self.chunk_size;
        let mut out: Vec<(ChunkId, Vec<u8>)> = Vec::new();
        let mut pos: usize = 0;
        while pos < data.len()
            invariant
                self.wf(),
                self.chunk_size == n,
                pos <= data.len(),
                self.written@ == w0 + data@.take(pos as int),
                w0.len() + data@.len() <= u64::MAX,
                f0.len() <= self.flushed().len(),
                self.flushed().take(f0.len() as int) == f0,
                f0.len() as int % (n as int) == 0,
                out@.map_values(|p: (ChunkId, Vec<u8>)| p.1@) == pieces(
                    self.flushed().skip(f0.len() as int),
                    n as nat,
                ),
                forall|i: int| 0 <= i < out@.len() ==> (#[trigger] out@[i]).0@ == chunk_id_of(
                    out@[i].1@,
                ),
                self.key == old(self).key,
                self.content_type == old(self).content_type,
                self.metadata == old(self).metadata,
                self.max_object_size == old(self).max_object_size,
            decreases data.len() - pos,
        {
            let space = n - self.buf.len();
            let rest = data.len() - pos;
            let take = if space < rest {
                space
            } else {
                rest
            };
            let ghost b0 = self.buf@;
            let mut piece: Vec<u8> = Vec::with_capacity(take);
            let mut k: usize = 0;
            while k < take
                invariant
                    k <= take,
                    pos + take <= data.len(),
                    piece@ == data@.subrange(pos as int, pos + k),
                decreases take - k,
            {
                piece.push(data[pos + k]);
                k = k + 1;
                assert(piece@ =~= data@.subrange(pos as int, pos + k));
            }
            self.buf.append(&mut piece);
            assert(self.buf@ =~= b0 + data@.subrange(pos as int, pos + take));
            let ghost f1 = self.flushed();
            self.written = Ghost(self.written@ + data@.subrange(pos as int, pos + take));
            proof {
                assert(data@.take(pos + take) =~= data@.take(pos as int) + data@.subrange(
                    pos as int,
                    pos + take,
                ));
                assert(self.written@ =~= w0 + data@.take(pos + take));
                assert(self.flushed() =~= f1);
                assert(self.written@ =~= self.flushed() + self.buf@);
            }
            pos = pos + take;
            if self.buf.len() >= n {
                let ghost pre = self.flushed().skip(f0.len() as int);
                let ghost o0 = out@;
                let ghost before_f = self.flushed();
                let ghost before_b = self.buf@;
                let flushed = self.flush_full();
                out.push(flushed);
                proof {
                    let post = self.flushed().skip(f0.len() as int);
                    assert(post =~= pre + flushed.1@) by {
                        assert(self.flushed() == before_f + before_b);
                        assert(pre + flushed.1@ =~= (before_f + before_b).skip(f0.len() as int));
                    }
                    assert(pre.len() as int % (n as int) == 0) by {
                        assert(pre.len() == self.flushed().len() - n - f0.len());
                        assert(f1.len() == pre.len() + f0.len());
                        vstd::arithmetic::div_mod::lemma_mod_sub_multiples_vanish(
                            f1.len() as int,
                            n as int,
                        );
                        assert((f1.len() - f0.len()) % (n as int) == 0) by {
                            let q0 = f0.len() as int / n as int;
                            vstd::arithmetic::div_mod::lemma_fundamental_div_mod(
                                f0.len() as int,
                                n as int,
                            );
                            vstd::arithmetic::div_mod::lemma_mod_multiples_vanish(
                                -q0,
                                f1.len() as int,
                                n as int,
                            );
                            assert(f1.len() - f0.len() == f1.len() + (-q0) * n) by (nonlinear_arith)
                                requires
                                    f0.len() == n * q0,
                            ;
                        }
                    }
                    lemma_pieces_append(pre, flushed.1@, n as nat);
                    assert(out@.map_values(|p: (ChunkId, Vec<u8>)| p.1@) =~= o0.map_values(
                        |p: (ChunkId, Vec<u8>)| p.1@,
                    ).push(flushed.1@));
                    assert(self.flushed().take(f0.len() as int) =~= f0);
                }
            }
        }
        assert(data@.take(pos as int) =~= data@);
        Ok(out)
    }

    /// Ends the upload: cuts off the unfilled tail as a last chunk (when
    /// there is one) and returns it with the manifest that records every
    /// chunk, the total size, and the SHA-256 checksum of all the bytes.
    pub fn finish(self, now: i64) -> (r: (MediaManifest, Option<(ChunkId, Vec<u8>)>))
        requires
            self.wf(),
        ensures
            r.0@ == upload_manifest(
                self.key_view(),
                self.content_type_view(),
                self.metadata_view(),
                self.chunk_size_view(),
                self.written(),
                now,
            ),
            match r.1 {
                Some((id, bytes)) => {
                    &&& self.written().len() > self.flushed().len()
                    &&& bytes@ == self.written().skip(self.flushed().len() as int)
                    &&& id@ == chunk_id_of(bytes@)
                },
                None => self.written() == self.flushed(),
            },
    {
        let mut s = self;
        let ghost w = s.written@;
        let ghost f0 = s.flushed();
        let n = s.chunk_size;
        let ghost chunks0 = s.chunks@;
        let mut tail: Option<(ChunkId, Vec<u8>)> = None;
        if s.buf.len() > 0 {
            let mut data: Vec<u8> = Vec::new();
            core::mem::swap(&mut data, &mut s.buf);
            let id = ChunkId::from_data(data.as_slice());
            s.hasher.update(data.as_slice());
            s.total_size = s.total_size + data.len() as u64;
            s.chunks.push(id);
            proof {
                lemma_pieces_append(f0, data@, n as nat);
                assert(s.chunks@.map_values(|c: ChunkId| c@) =~= chunks0.map_values(
                    |c: ChunkId| c@,
                ).push(id@));
                assert(w == f0 + data@);
                assert(ids_of(pieces(f0 + data@, n as nat)) =~= ids_of(pieces(f0, n as nat)).push(
                    chunk_id_of(data@),
                ));
                assert(w.skip(f0.len() as int) =~= data@);
            }
            tail = Some((id, data));
        } else {
            assert(w =~= f0);
        }
        assert(sha256_absorbed(s.hasher) == w);
        assert(s.chunks@.map_values(|c: ChunkId| c@) == ids_of(pieces(w, n as nat)));
        let digest = s.hasher.finalize();
        let checksum = hex_encode(&digest);
        let manifest = MediaManifest {
            key: s.key,
            chunks: s.chunks,
            total_size: s.total_size,
            chunk_size: n,
            content_type: s.content_type,
            checksum,
            metadata: s.metadata,
            created_at: now,
            updated_at: now,
        };
        proof {
            let want = ids_of(pieces(w, n as nat)).map_values(|id: Seq<u8>| ChunkId(id_array(id)));
            assert(manifest.chunks@.len() == want.len());
            assert forall|i: int| 0 <= i < want.len() implies manifest.chunks@[i] == want[i] by {
                let c = manifest.chunks@[i];
                assert(c@ == ids_of(pieces(w, n as nat))[i]);
                let a = id_array(c@);
                assert(a@ == c@) by {
                    assert(c.0@ == c@);
                }
                assert(a =~= c.0) by {
                    assert(a@ =~= c.0@);
                }
            }
            assert(manifest.chunks@ =~= want);
        }
        (manifest, tail)
    }
}

/// Concatenates chunk contents in order: an object read back whole.
pub fn concat_chunks(chunks: &Vec<Vec<u8>>) -> (r: Vec<u8>)
    ensures
        r@ == concat(byte_seqs(chunks@)),
{
    let ghost cs = byte_seqs(chunks@);
    let mut out: Vec<u8> = Vec::new();
    let mut i: usize = 0;
    assert(cs.take(0) =~= Seq::<Seq<u8>>::empty());
    while i < chunks.len()
        invariant
            i <= chunks@.len(),
            cs == byte_seqs(chunks@),
            out@ == concat(cs.take(i as int)),
        decreases chunks@.len() - i,
    {
        let c = &chunks[i];
        let ghost o0 = out@;
        let mut k: usize = 0;
        while k < c.len()
            invariant
                k <= c@.len(),
                out@ == o0 + c@.take(k as int),
            decreases c@.len() - k,
        {
            out.push(c[k]);
            k = k + 1;
            assert(out@ =~= o0 + c@.take(k as int));
        }
        assert(cs.take(i + 1).drop_last() =~= cs.take(i as int));
        assert(cs.take(i + 1).last() == c@);
        assert(c@.take(c@.len() as int) =~= c@);
        i = i + 1;
    }
    assert(cs.take(chunks@.len() as int) =~= cs);
    out
}

/// What checking an object read back whole against its stored checksum
/// gives: a mismatch, when checking is on and a checksum is stored, is a
/// `ChunkIntegrity` error naming the key and both checksums.
pub open spec fn object_check(key: Seq<char>, data: Seq<u8>, checksum: Seq<char>, verify: bool, r: Result<(), KaidaDbError>) -> bool {
    let actual = hex_lower(sha256_of(data));
    if verify && checksum.len() > 0 && actual != checksum {
        r matches Err(KaidaDbError::ChunkIntegrity { chunk_id, detail }) && chunk_id@ == key && detail@
            == "full-object checksum mismatch: stored="@ + checksum + ", computed="@ + actual
    } else {
        r is Ok
    }
}

/// Checks an object read back whole against its stored checksum.
pub fn verify_object(key: &str, data: &[u8], checksum: &str, verify: bool) -> (r: Result<(), KaidaDbError>)
    ensures
        object_check(key@, data@, checksum@, verify, r),
{
    if !verify || checksum.is_empty() {
        return Ok(());
    }
    let mut h = Sha256Hasher::new();
    h.update(data);
    assert(Seq::<u8>::empty() + data@ =~= data@);
    let actual = hex_encode(&h.finalize());
    if crate::keys::key_eq(actual.as_str(), checksum) {
        return Ok(());
    }
    let mut detail = string_of("full-object checksum mismatch: stored=");
    push_str(&mut detail, checksum);
    push_str(&mut detail, ", computed=");
    push_str(&mut detail, actual.as_str());
    Err(KaidaDbError::ChunkIntegrity { chunk_id: string_of(key), detail })
}

/// What a read gives back of a write: the chunks an upload of `data` is cut
/// into concatenate to `data`, each chunk file written decodes to its
/// chunk, and the whole read back matches the checksum the manifest
/// records, so a checking read succeeds.
pub proof fn lemma_store_then_read(
    key: Seq<char>,
    content_type: Seq<char>,
    metadata: Seq<(Seq<char>, Seq<char>)>,
    chunk_size: usize,
    data: Seq<u8>,
    now: i64,
    i: int,
    decoded: Result<Vec<u8>, KaidaDbError>,
    checked: Result<(), KaidaDbError>,
)
    requires
        chunk_size > 0,
        0 <= i < pieces(data, chunk_size as nat).len(),
        decode_result(chunk_encoding(pieces(data, chunk_size as nat)[i]), decoded),
        object_check(key, concat(pieces(data, chunk_size as nat)), upload_manifest(key, content_type, metadata, chunk_size, data, now).checksum, true, checked),
    ensures
        concat(pieces(data, chunk_size as nat)) == data,
        decoded matches Ok(p) && p@ == pieces(data, chunk_size as nat)[i],
        checked is Ok,
{
    lemma_pieces_concat(data, chunk_size as nat);
    let p = pieces(data, chunk_size as nat)[i];
    lemma_pieces_index(data, chunk_size as nat, i);
    assert(p.len() <= data.len());
    lemma_decode_encode(p, decoded);
}

} // verus!
