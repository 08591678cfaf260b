//! The on-disk chunk format (.kdc).
//!
//! ```text
//! [0-3]   Magic: 0x4B444243 ("KDBC")
//! [4]     Version: u8
//! [5]     Flags: u8
//! [6-9]   CRC32 of payload (little-endian)
//! [10-17] Payload length: u64 (little-endian)
//! [18..]  Payload bytes
//! ```
use vstd::prelude::*;

use crate::digest::{crc32, crc32_of};
use crate::error::KaidaDbError;
use crate::text::{hex_numeral, push_decimal, push_hex_numeral, push_str, string_of, decimal};
use crate::types::{copy_bytes, CHUNK_FORMAT_VERSION, CHUNK_HEADER_SIZE, CHUNK_MAGIC};

verus! {

/// The four little-endian bytes of `x`.
pub open spec fn le_bytes_u32(x: u32) -> Seq<u8> {
    seq![
        (x & 0xff) as u8,
        ((x >> 8u32) & 0xff) as u8,
        ((x >> 16u32) & 0xff) as u8,
        ((x >> 24u32) & 0xff) as u8,
    ]
}

/// The eight little-endian bytes of `x`.
pub open spec fn le_bytes_u64(x: u64) -> Seq<u8> {
    seq![
        (x & 0xff) as u8,
        ((x >> 8u64) & 0xff) as u8,
        ((x >> 16u64) & 0xff) as u8,
        ((x >> 24u64) & 0xff) as u8,
        ((x >> 32u64) & 0xff) as u8,
        ((x >> 40u64) & 0xff) as u8,
        ((x >> 48u64) & 0xff) as u8,
        ((x >> 56u64) & 0xff) as u8,
    ]
}

/// The `u32` whose little-endian bytes are `b[0..4]`.
pub open spec fn u32_from_le(b: Seq<u8>) -> u32 {
    (b[0] as u32) | ((b[1] as u32) << 8u32) | ((b[2] as u32) << 16u32) | ((b[3] as u32) << 24u32)
}

/// The `u64` whose little-endian bytes are `b[0..8]`.
pub open spec fn u64_from_le(b: Seq<u8>) -> u64 {
    (b[0] as u64) | ((b[1] as u64) << 8u64) | ((b[2] as u64) << 16u64) | ((b[3] as u64)
        << 24u64) | ((b[4] as u64) << 32u64) | ((b[5] as u64) << 40u64) | ((b[6] as u64) << 48u64)
        | ((b[7] as u64) << 56u64)
}

/// The magic bytes, "KDBC".
pub open spec fn magic_spec() -> Seq<u8> {
    seq![0x4Bu8, 0x44u8, 0x42u8, 0x43u8]
}

/// The encoded chunk holding `data`: header, then the payload.
pub open spec fn chunk_encoding(data: Seq<u8>) -> Seq<u8> {
    magic_spec() + seq![1u8, 0u8] + le_bytes_u32(crc32_of(data)) + le_bytes_u64(data.len() as u64)
        + data
}

/// The payload length a header declares.
pub open spec fn declared_len(raw: Seq<u8>) -> u64 {
    u64_from_le(raw.subrange(10, 18))
}

/// The CRC a header declares.
pub open spec fn declared_crc(raw: Seq<u8>) -> u32 {
    u32_from_le(raw.subrange(6, 10))
}

/// The payload of an encoded chunk whose header is sound.
pub open spec fn chunk_payload(raw: Seq<u8>) -> Seq<u8> {
    raw.subrange(18, 18 + declared_len(raw))
}

/// What `decode_chunk` reports on `raw`.
pub open spec fn decode_result(raw: Seq<u8>, r: Result<Vec<u8>, KaidaDbError>) -> bool {
    if raw.len() < 18 {
        r matches Err(KaidaDbError::InvalidChunkFormat(m)) && m@ == "data too short for header"@
    } else if raw.subrange(0, 4) != magic_spec() {
        r matches Err(KaidaDbError::InvalidChunkFormat(m)) && m@ == "bad magic bytes"@
    } else if raw[4] != 1 {
        r matches Err(KaidaDbError::InvalidChunkFormat(m)) && m@ == "unsupported version: "@
            + decimal(raw[4] as nat)
    } else if raw.len() - 18 < declared_len(raw) {
        r matches Err(KaidaDbError::InvalidChunkFormat(m)) && m@ == "expected "@ + decimal(
            declared_len(raw) as nat,
        ) + " payload bytes, got "@ + decimal((raw.len() - 18) as nat)
    } else if crc32_of(chunk_payload(raw)) != declared_crc(raw) {
        r matches Err(KaidaDbError::ChunkIntegrity { chunk_id, detail }) && chunk_id@
            == "unknown"@ && detail@ == "CRC mismatch: stored=0x"@ + hex_numeral(
            declared_crc(raw) as nat,
        ) + ", computed=0x"@ + hex_numeral(crc32_of(chunk_payload(raw)) as nat)
    } else {
        r matches Ok(p) && p@ == chunk_payload(raw)
    }
}

proof fn lemma_u32_le_roundtrip(x: u32)
    ensures
        u32_from_le(le_bytes_u32(x)) == x,
{
    let b0 = (x & 0xff) as u8;
    let b1 = ((x >> 8u32) & 0xff) as u8;
    let b2 = ((x >> 16u32) & 0xff) as u8;
    let b3 = ((x >> 24u32) & 0xff) as u8;
    assert((b0 as u32) | ((b1 as u32) << 8u32) | ((b2 as u32) << 16u32) | ((b3 as u32) << 24u32)
        == x) by (bit_vector)
        requires
            b0 == (x & 0xff) as u8,
            b1 == ((x >> 8u32) & 0xff) as u8,
            b2 == ((x >> 16u32) & 0xff) as u8,
            b3 == ((x >> 24u32) & 0xff) as u8,
    ;
}

proof fn lemma_u64_le_roundtrip(x: u64)
    ensures
        u64_from_le(le_bytes_u64(x)) == x,
{
    let b0 = (x & 0xff) as u8;
    let b1 = ((x >> 8u64) & 0xff) as u8;
    let b2 = ((x >> 16u64) & 0xff) as u8;
    let b3 = ((x >> 24u64) & 0xff) as u8;
    let b4 = ((x >> 32u64) & 0xff) as u8;
    let b5 = ((x >> 40u64) & 0xff) as u8;
    let b6 = ((x >> 48u64) & 0xff) as u8;
    let b7 = ((x >> 56u64) & 0xff) as u8;
    assert((b0 as u64) | ((b1 as u64) << 8u64) | ((b2 as u64) << 16u64) | ((b3 as u64) << 24u64)
        | ((b4 as u64) << 32u64) | ((b5 as u64) << 40u64) | ((b6 as u64) << 48u64) | ((b7 as u64)
        << 56u64) == x) by (bit_vector)
        requires
            b0 == (x & 0xff) as u8,
            b1 == ((x >> 8u64) & 0xff) as u8,
            b2 == ((x >> 16u64) & 0xff) as u8,
            b3 == ((x >> 24u64) & 0xff) as u8,
            b4 == ((x >> 32u64) & 0xff) as u8,
            b5 == ((x >> 40u64) & 0xff) as u8,
            b6 == ((x >> 48u64) & 0xff) as u8,
            b7 == ((x >> 56u64) & 0xff) as u8,
    ;
}

/// Encodes a chunk payload into the .kdc format.
pub fn encode_chunk(data: &[u8]) -> (r: Vec<u8>)
    ensures
        r@ == chunk_encoding(data@),
{
    let crc = crc32(data);
    let len = data.len() as u64;
    let mut buf: Vec<u8> = Vec::with_capacity(data.len());
    buf.push(CHUNK_MAGIC[0]);
    buf.push(CHUNK_MAGIC[1]);
    buf.push(CHUNK_MAGIC[2]);
    buf.push(CHUNK_MAGIC[3]);
    buf.push(CHUNK_FORMAT_VERSION);
    buf.push(0u8);
    buf.push((crc & 0xff) as u8);
    buf.push(((crc >> 8u32) & 0xff) as u8);
    buf.push(((crc >> 16u32) & 0xff) as u8);
    buf.push(((crc >> 24u32) & 0xff) as u8);
    buf.push((len & 0xff) as u8);
    buf.push(((len >> 8u64) & 0xff) as u8);
    buf.push(((len >> 16u64) & 0xff) as u8);
    buf.push(((len >> 24u64) & 0xff) as u8);
    buf.push(((len >> 32u64) & 0xff) as u8);
    buf.push(((len >> 40u64) & 0xff) as u8);
    buf.push(((len >> 48u64) & 0xff) as u8);
    buf.push(((len >> 56u64) & 0xff) as u8);
    let ghost header = buf@;
    let mut i: usize = 0;
    while i < data.len()
        invariant
            header.len() == 18,
            i <= data.len(),
            buf@ == header + data@.subrange(0, i as int),
        decreases data.len() - i,
    {
        buf.push(data[i]);
        i = i + 1;
        assert(buf@ =~= header + data@.subrange(0, i as int));
    }
    assert(data@.subrange(0, data@.len() as int) =~= data@);
    assert(buf@ =~= chunk_encoding(data@));
    buf
}

/// Decodes a chunk from the .kdc format and checks its CRC, returning the
/// payload.
pub fn decode_chunk(raw: &[u8]) -> (r: Result<Vec<u8>, KaidaDbError>)
    ensures
        decode_result(raw@, r),
{
    if raw.len() < CHUNK_HEADER_SIZE {
        return Err(KaidaDbError::InvalidChunkFormat(string_of("data too short for header")));
    }
    if raw[0] != CHUNK_MAGIC[0] || raw[1] != CHUNK_MAGIC[1] || raw[2] != CHUNK_MAGIC[2] || raw[3]
        != CHUNK_MAGIC[3] {
        assert(raw@.subrange(0, 4) != magic_spec()) by {
            if raw@.subrange(0, 4) == magic_spec() {
                assert(raw@.subrange(0, 4)[0] == raw@[0]);
                assert(raw@.subrange(0, 4)[1] == raw@[1]);
                assert(raw@.subrange(0, 4)[2] == raw@[2]);
                assert(raw@.subrange(0, 4)[3] == raw@[3]);
            }
        }
        return Err(KaidaDbError::InvalidChunkFormat(string_of("bad magic bytes")));
    }
    assert(raw@.subrange(0, 4) =~= magic_spec());
    let version = raw[4];
    if version != CHUNK_FORMAT_VERSION {
        let mut m = string_of("unsupported version: ");
        push_decimal(&mut m, version as u64);
        return Err(KaidaDbError::InvalidChunkFormat(m));
    }
    let stored_crc: u32 = (raw[6] as u32) | ((raw[7] as u32) << 8u32) | ((raw[8] as u32) << 16u32)
        | ((raw[9] as u32) << 24u32);
    let payload_len: u64 = (raw[10] as u64) | ((raw[11] as u64) << 8u64) | ((raw[12] as u64)
        << 16u64) | ((raw[13] as u64) << 24u64) | ((raw[14] as u64) << 32u64) | ((raw[15] as u64)
        << 40u64) | ((raw[16] as u64) << 48u64) | ((raw[17] as u64) << 56u64);
    assert(stored_crc == declared_crc(raw@));
    assert(payload_len == declared_len(raw@));
    let available = raw.len() - CHUNK_HEADER_SIZE;
    if (available as u64) < payload_len {
        let mut m = string_of("expected ");
        push_decimal(&mut m, payload_len);
        push_str(&mut m, " payload bytes, got ");
        push_decimal(&mut m, available as u64);
        return Err(KaidaDbError::InvalidChunkFormat(m));
    }
    let plen = payload_len as usize;
    let rlen = raw.len();
    let mut payload: Vec<u8> = Vec::with_capacity(plen);
    let mut i: usize = 0;
    while i < plen
        invariant
            plen as int == declared_len(raw@),
            rlen == raw@.len(),
            18 + plen <= raw@.len(),
            i <= plen,
            payload@ == raw@.subrange(18, 18 + i as int),
        decreases plen - i,
    {
        payload.push(raw[CHUNK_HEADER_SIZE + i]);
        i = i + 1;
        assert(payload@ =~= raw@.subrange(18, 18 + i as int));
    }
    let computed_crc = crc32(payload.as_slice());
    if stored_crc != computed_crc {
        let mut d = string_of("CRC mismatch: stored=0x");
        push_hex_numeral(&mut d, stored_crc as u64);
        push_str(&mut d, ", computed=0x");
        push_hex_numeral(&mut d, computed_crc as u64);
        return Err(KaidaDbError::ChunkIntegrity { chunk_id: string_of("unknown"), detail: d });
    }
    Ok(payload)
}

/// Decoding an encoded chunk gives back its payload.
pub proof fn lemma_decode_encode(data: Seq<u8>, r: Result<Vec<u8>, KaidaDbError>)
    requires
        data.len() <= u64::MAX,
        decode_result(chunk_encoding(data), r),
    ensures
        r matches Ok(p) && p@ == data,
{
    let raw = chunk_encoding(data);
    let crc = crc32_of(data);
    let len = data.len() as u64;
    assert(raw.subrange(0, 4) =~= magic_spec());
    assert(raw.subrange(6, 10) =~= le_bytes_u32(crc));
    assert(raw.subrange(10, 18) =~= le_bytes_u64(len));
    lemma_u32_le_roundtrip(crc);
    lemma_u64_le_roundtrip(len);
    assert(declared_len(raw) == len);
    assert(chunk_payload(raw) =~= data);
}

} // verus!
