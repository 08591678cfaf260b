use kaidadb::chunk_format::{decode_chunk, encode_chunk};
use kaidadb::digest::HexError;
use kaidadb::error::KaidaDbError;
use kaidadb::types::{manifest_to_metadata, ChunkId, MediaManifest, CHUNK_HEADER_SIZE};

#[test]
fn test_chunk_id_from_data() {
    let data = b"hello world";
    let id = ChunkId::from_data(data);
    let hex_str = id.to_hex();
    assert_eq!(hex_str.len(), 64);

    let id2 = ChunkId::from_data(data);
    assert_eq!(id, id2);

    let id3 = ChunkId::from_data(b"different data");
    assert_ne!(id, id3);
}

#[test]
fn test_chunk_id_hex_roundtrip() {
    let data = b"test data";
    let id = ChunkId::from_data(data);
    let hex_str = id.to_hex();
    let id2 = ChunkId::from_hex(&hex_str).unwrap();
    assert_eq!(id, id2);
}

#[test]
fn test_chunk_id_fan_out() {
    let id = ChunkId::from_data(b"test");
    let (a, b) = id.fan_out();
    assert_eq!(a.len(), 2);
    assert_eq!(b.len(), 2);
}

#[test]
fn chunk_id_is_the_sha256_digest() {
    let id = ChunkId::from_data(b"abc");
    assert_eq!(id.to_hex(), "ba7816bf8f01cfea414140de5dae2223b00361a396177a9cb410ff61f20015ad");
    let (a, b) = id.fan_out();
    assert_eq!((a.as_str(), b.as_str()), ("ba", "78"));
    assert!(id.same_as(&ChunkId::from_hex(&id.to_hex().to_uppercase()).unwrap()));
}

#[test]
fn from_hex_reports_bad_text() {
    assert!(matches!(ChunkId::from_hex("abc"), Err(HexError::OddLength)));
    assert!(matches!(
        ChunkId::from_hex("zz"),
        Err(HexError::InvalidHexCharacter { c: 'z', index: 0 })
    ));
}

#[test]
fn chunk_count_counts_chunks() {
    let m = MediaManifest {
        key: "k".into(),
        chunks: vec![ChunkId::from_data(b"1"), ChunkId::from_data(b"2")],
        total_size: 2,
        chunk_size: 1,
        content_type: String::new(),
        checksum: String::new(),
        metadata: vec![],
        created_at: 0,
        updated_at: 0,
    };
    assert_eq!(m.chunk_count(), 2);
}

#[test]
fn test_encode_decode_roundtrip() {
    let data = b"hello, kaidadb chunk!";
    let encoded = encode_chunk(data);
    let decoded = decode_chunk(&encoded).unwrap();
    assert_eq!(&decoded[..], data);
}

#[test]
fn test_decode_bad_magic() {
    let mut encoded = encode_chunk(b"data");
    encoded[0] = 0xFF;
    assert!(decode_chunk(&encoded).is_err());
}

#[test]
fn test_decode_corrupted_payload() {
    let mut encoded = encode_chunk(b"data");
    let last = encoded.len() - 1;
    encoded[last] ^= 0xFF;
    assert!(decode_chunk(&encoded).is_err());
}

#[test]
fn test_decode_truncated() {
    let encoded = encode_chunk(b"data");
    assert!(decode_chunk(&encoded[..10]).is_err());
}

#[test]
fn chunk_encoding_layout_and_errors() {
    let encoded = encode_chunk(b"ab");
    assert_eq!(encoded.len(), CHUNK_HEADER_SIZE + 2);
    assert_eq!(&encoded[0..4], b"KDBC");
    assert_eq!(encoded[4], 1);
    assert_eq!(&encoded[10..18], &2u64.to_le_bytes());
    assert_eq!(&encoded[6..10], &crc32fast::hash(b"ab").to_le_bytes());

    let mut v = encoded.clone();
    v[4] = 9;
    match decode_chunk(&v) {
        Err(KaidaDbError::InvalidChunkFormat(m)) => assert_eq!(m, "unsupported version: 9"),
        _ => panic!("expected a format error"),
    }
    let mut v = encoded.clone();
    v[18] ^= 1;
    match decode_chunk(&v) {
        Err(KaidaDbError::ChunkIntegrity { chunk_id, detail }) => {
            assert_eq!(chunk_id, "unknown");
            assert!(detail.starts_with("CRC mismatch: stored=0x"));
        }
        _ => panic!("expected an integrity error"),
    }
    match decode_chunk(&encoded[..19]) {
        Err(KaidaDbError::InvalidChunkFormat(m)) => assert_eq!(m, "expected 2 payload bytes, got 1"),
        _ => panic!("expected a format error"),
    }
}

#[test]
fn metadata_describes_the_manifest() {
    let m = MediaManifest {
        key: "tv/e1.mp4".into(),
        chunks: vec![ChunkId::from_data(b"a"), ChunkId::from_data(b"b")],
        total_size: 3_000_000,
        chunk_size: 2 * 1024 * 1024,
        content_type: "video/mp4".into(),
        checksum: "ff".into(),
        metadata: vec![("title".into(), "Pilot".into())],
        created_at: 5,
        updated_at: 9,
    };
    let d = manifest_to_metadata(&m);
    assert_eq!(d.key, "tv/e1.mp4");
    assert_eq!((d.total_size, d.chunk_count), (3_000_000, 2));
    assert_eq!((d.content_type.as_str(), d.checksum.as_str()), ("video/mp4", "ff"));
    assert_eq!(d.metadata, vec![("title".to_string(), "Pilot".to_string())]);
    assert_eq!((d.created_at, d.updated_at), (5, 9));
}
