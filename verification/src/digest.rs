//! Hashing and hex encoding: SHA-256 (sha2), CRC32 (crc32fast), hex (hex).
use vstd::prelude::*;

use sha2::Digest;
use vstd::string::StringSliceAdditionalSpecFns;

verus! {

/// The SHA-256 digest of a byte string.
pub uninterp spec fn sha256_of(data: Seq<u8>) -> Seq<u8>;

/// The CRC32 (IEEE) checksum of a byte string.
pub uninterp spec fn crc32_of(data: Seq<u8>) -> u32;

/// Everything fed into an incremental SHA-256 hasher so far, in order.
pub uninterp spec fn sha256_absorbed(h: Sha256Hasher) -> Seq<u8>;

/// An incremental SHA-256 computation (sha2's `Sha256`).
#[verifier::external_body]
pub struct Sha256Hasher {
    inner: sha2::Sha256,
}

impl Sha256Hasher {
    /// `Sha256::new()`: a hasher that has absorbed nothing.
    #[verifier::external_body]
    pub fn new() -> (h: Self)
        ensures
            sha256_absorbed(h) == Seq::<u8>::empty(),
    {
        Sha256Hasher { inner: sha2::Sha256::new() }
    }

    /// `Sha256::update`: appends `data` to what the hasher has absorbed.
    #[verifier::external_body]
    pub fn update(&mut self, data: &[u8])
        ensures
            sha256_absorbed(*final(self)) == sha256_absorbed(*old(self)) + data@,
    {
        self.inner.update(data);
    }

    /// `Sha256::finalize`: the digest of everything absorbed.
    #[verifier::external_body]
    pub fn finalize(self) -> (r: [u8; 32])
        ensures
            r@ == sha256_of(sha256_absorbed(self)),
    {
        let out = self.inner.finalize();
        let mut r = [0u8; 32];
        r.copy_from_slice(&out);
        r
    }
}

/// `crc32fast::hash`: the CRC32 of `data`.
#[verifier::external_body]
pub fn crc32(data: &[u8]) -> (r: u32)
    ensures
        r == crc32_of(data@),
{
    crc32fast::hash(data)
}

/// The lowercase hex digit for a nibble.
pub open spec fn hex_digit(n: int) -> char {
    if n < 10 {
        (48 + n) as char
    } else {
        (87 + n) as char
    }
}

/// Lowercase hex encoding: two digits per byte, high nibble first.
pub open spec fn hex_lower(data: Seq<u8>) -> Seq<char> {
    Seq::new(
        2 * data.len(),
        |i: int|
            if i % 2 == 0 {
                hex_digit(data[i / 2] as int / 16)
            } else {
                hex_digit(data[i / 2] as int % 16)
            },
    )
}

/// Hex text reads back as the bytes it was made from: the lowercase hex of
/// `b` is well-formed hex text of twice `b`'s length that denotes `b`.
pub proof fn lemma_hex_roundtrip(b: Seq<u8>)
    ensures
        vstd::utf8::encode_utf8(hex_lower(b)).len() == 2 * b.len(),
        is_hex_text(vstd::utf8::encode_utf8(hex_lower(b))),
        hex_decoded(vstd::utf8::encode_utf8(hex_lower(b))) == b,
{
    let t = hex_lower(b);
    assert forall|i: int| 0 <= i < t.len() implies '\0' <= #[trigger] t[i] <= '\u{7f}' && (48 <= t[i] as u32 <= 57 || 97 <= t[i] as u32 <= 102) by {
        let n: int = if i % 2 == 0 { b[i / 2] as int / 16 } else { b[i / 2] as int % 16 };
        assert(0 <= n < 16);
    }
    assert(vstd::utf8::is_ascii_chars(t));
    vstd::utf8::is_ascii_chars_encode_utf8(t);
    let e = vstd::utf8::encode_utf8(t);
    assert forall|i: int| 0 <= i < e.len() implies is_hex_byte(#[trigger] e[i]) by {
        assert(e[i] == t[i] as u8);
    }
    let d = hex_decoded(e);
    assert forall|i: int| 0 <= i < b.len() implies d[i] == b[i] by {
        assert(e[2 * i] == t[2 * i] as u8);
        assert(e[2 * i + 1] == t[2 * i + 1] as u8);
        assert((2 * i) % 2 == 0 && (2 * i) / 2 == i);
        assert((2 * i + 1) % 2 == 1 && (2 * i + 1) / 2 == i);
        assert(hex_byte_value(e[2 * i]) == b[i] as int / 16);
        assert(hex_byte_value(e[2 * i + 1]) == b[i] as int % 16);
    }
    assert(d =~= b);
}

/// `hex::encode`: the lowercase hex encoding of `data`.
#[verifier::external_body]
pub fn hex_encode(data: &[u8]) -> (r: String)
    ensures
        r@ == hex_lower(data@),
{
    hex::encode(data)
}

/// Whether a byte is a hex digit of either case.
pub open spec fn is_hex_byte(b: u8) -> bool {
    (48 <= b <= 57) || (65 <= b <= 70) || (97 <= b <= 102)
}

/// The value of a hex digit byte.
pub open spec fn hex_byte_value(b: u8) -> int {
    if 48 <= b <= 57 {
        b - 48
    } else if 65 <= b <= 70 {
        b - 55
    } else {
        b - 87
    }
}

/// The bytes that a hex string of even length denotes.
pub open spec fn hex_decoded(s: Seq<u8>) -> Seq<u8> {
    Seq::new(
        s.len() / 2,
        |i: int| (hex_byte_value(s[2 * i]) * 16 + hex_byte_value(s[2 * i + 1])) as u8,
    )
}

/// Whether every byte of `s` is a hex digit and their number is even.
pub open spec fn is_hex_text(s: Seq<u8>) -> bool {
    s.len() % 2 == 0 && forall|i: int| 0 <= i < s.len() ==> is_hex_byte(#[trigger] s[i])
}

/// Why a string is not hex text.
#[derive(Debug)]
pub enum HexError {
    InvalidHexCharacter { c: char, index: usize },
    OddLength,
    InvalidStringLength,
}

/// The error `hex::decode` reports on `s`: odd length first, then the first
/// byte that is not a hex digit.
pub open spec fn hex_decode_error(s: Seq<u8>, e: HexError) -> bool {
    if s.len() % 2 != 0 {
        e is OddLength
    } else {
        match e {
            HexError::InvalidHexCharacter { c, index } => {
                &&& index < s.len()
                &&& !is_hex_byte(s[index as int])
                &&& forall|j: int| 0 <= j < index ==> is_hex_byte(#[trigger] s[j])
                &&& c == s[index as int] as char
            },
            _ => false,
        }
    }
}

/// `hex::decode`: the bytes that the hex string `s` denotes, either case.
#[verifier::external_body]
pub fn hex_decode(s: &str) -> (r: Result<Vec<u8>, HexError>)
    ensures
        match r {
            Ok(v) => is_hex_text(s.spec_bytes()) && v@ == hex_decoded(s.spec_bytes()),
            Err(e) => !is_hex_text(s.spec_bytes()) && hex_decode_error(s.spec_bytes(), e),
        },
{
    match hex::decode(s) {
        Ok(v) => Ok(v),
        Err(hex::FromHexError::InvalidHexCharacter { c, index }) => Err(
            HexError::InvalidHexCharacter { c, index },
        ),
        Err(hex::FromHexError::OddLength) => Err(HexError::OddLength),
        Err(hex::FromHexError::InvalidStringLength) => Err(HexError::InvalidStringLength),
    }
}

} // verus!
