//! The server key: a random alphanumeric password whose SHA-256 hash (in
//! hex) is kept on disk and checked against what clients present.
use vstd::prelude::*;

use crate::digest::{hex_encode, hex_lower, sha256_of, Sha256Hasher};
use crate::error::KaidaDbError;
use crate::text::{push_char, string_of};
use rand::Rng;
use vstd::string::StringSliceAdditionalSpecFns;

verus! {

/// Length of a generated key, in characters.
pub const KEY_LENGTH: usize = 32;

/// The `idx`-th of the 62 key characters: digits, then lowercase, then
/// uppercase letters.
pub open spec fn key_char_spec(idx: int) -> char {
    if idx <= 9 {
        (48 + idx) as char
    } else if idx <= 35 {
        (97 + idx - 10) as char
    } else {
        (65 + idx - 36) as char
    }
}

/// Whether `c` is an ASCII letter or digit.
pub open spec fn is_alphanumeric(c: char) -> bool {
    ('0' <= c && c <= '9') || ('a' <= c && c <= 'z') || ('A' <= c && c <= 'Z')
}

/// `rand::thread_rng().gen_range(0..n)`: a number below `n`, drawn at random.
#[verifier::external_body]
fn random_below(n: u8) -> (r: u8)
    requires
        n > 0,
    ensures
        r < n,
{
    rand::thread_rng().gen_range(0..n)
}

/// The key character for an index below 62.
fn key_char(idx: u8) -> (c: char)
    requires
        idx < 62,
    ensures
        c == key_char_spec(idx as int),
        is_alphanumeric(c),
{
    if idx <= 9 {
        (48 + idx) as char
    } else if idx <= 35 {
        (97 + idx - 10) as char
    } else {
        (65 + idx - 36) as char
    }
}

/// Generate a random alphanumeric password of `KEY_LENGTH` characters.
pub fn generate_key() -> (r: String)
    ensures
        r@.len() == KEY_LENGTH,
        forall|i: int| 0 <= i < r@.len() ==> is_alphanumeric(#[trigger] r@[i]),
{
    let mut s = String::new();
    let mut i: usize = 0;
    while i < KEY_LENGTH
        invariant
            i <= KEY_LENGTH,
            s@.len() == i,
            forall|j: int| 0 <= j < s@.len() ==> is_alphanumeric(#[trigger] s@[j]),
        decreases KEY_LENGTH - i,
    {
        let idx = random_below(62);
        push_char(&mut s, key_char(idx));
        i = i + 1;
    }
    s
}

/// The stored form of a key: the lowercase hex of the SHA-256 of its UTF-8
/// bytes.
pub open spec fn key_hash_spec(plaintext: Seq<u8>) -> Seq<char> {
    hex_lower(sha256_of(plaintext))
}

/// Hash a plaintext key with SHA-256, returning hex-encoded hash.
pub fn hash_key(plaintext: &str) -> (r: String)
    ensures
        r@ == key_hash_spec(plaintext.spec_bytes()),
        r@.len() == 64,
        forall|i: int|
            0 <= i < r@.len() ==> ('0' <= #[trigger] r@[i] <= '9' || 'a' <= r@[i] <= 'f'),
{
    let mut hasher = Sha256Hasher::new();
    hasher.update(plaintext.as_bytes());
    let digest = hasher.finalize();
    assert(Seq::<u8>::empty() + plaintext.spec_bytes() =~= plaintext.spec_bytes());
    let r = hex_encode(&digest);
    assert forall|i: int| 0 <= i < r@.len() implies ('0' <= #[trigger] r@[i] <= '9' || 'a' <= r@[i] <= 'f') by {
        let b = digest@[i / 2] as int;
        let n: int = if i % 2 == 0 { b / 16 } else { b % 16 };
        assert(0 <= n < 16);
    }
    r
}

/// Whether `provided` is the key whose hash is `stored`.
pub open spec fn key_matches(provided: Seq<u8>, stored: Seq<char>) -> bool {
    key_hash_spec(provided) == stored
}

/// Verify a plaintext key against a stored hash.
pub fn verify_key(provided: &str, stored_hash: &str) -> (r: bool)
    ensures
        r == key_matches(provided.spec_bytes(), stored_hash@),
        stored_hash@.len() != 64 ==> !r,
{
    let h = hash_key(provided);
    crate::keys::key_eq(h.as_str(), stored_hash)
}

/// A key verifies against the hash made of it.
pub proof fn lemma_key_verifies_against_own_hash(plaintext: Seq<u8>)
    ensures
        key_matches(plaintext, key_hash_spec(plaintext)),
{
}

/// Whether a request may go on: one from the loopback address always, a
/// remote one only when it carries the key whose hash is stored.
pub open spec fn request_allowed_spec(from_loopback: bool, provided: Option<Seq<u8>>, stored: Seq<char>) -> bool {
    from_loopback || match provided {
        Some(p) => key_matches(p, stored),
        None => false,
    }
}

/// Whether a request may go on, from where it came and the key it carries.
pub fn request_allowed(from_loopback: bool, provided: Option<&str>, stored_hash: &str) -> (r: bool)
    ensures
        r == request_allowed_spec(
            from_loopback,
            match provided {
                Some(p) => Some(p.spec_bytes()),
                None => None,
            },
            stored_hash@,
        ),
{
    if from_loopback {
        return true;
    }
    match provided {
        Some(p) => verify_key(p, stored_hash),
        None => false,
    }
}

/// Whether `c` is Unicode white space (what `char::is_whitespace` accepts).
pub open spec fn is_white_space(c: char) -> bool {
    let u = c as u32;
    (9 <= u && u <= 13) || u == 32 || u == 0x85 || u == 0xA0 || u == 0x1680 || (0x2000 <= u && u
        <= 0x200A) || u == 0x2028 || u == 0x2029 || u == 0x202F || u == 0x205F || u == 0x3000
}

/// `s` without leading white space.
pub open spec fn trim_start_ws(s: Seq<char>) -> Seq<char>
    decreases s.len(),
{
    if s.len() > 0 && is_white_space(s[0]) {
        trim_start_ws(s.drop_first())
    } else {
        s
    }
}

/// `s` without trailing white space.
pub open spec fn trim_end_ws(s: Seq<char>) -> Seq<char>
    decreases s.len(),
{
    if s.len() > 0 && is_white_space(s.last()) {
        trim_end_ws(s.drop_last())
    } else {
        s
    }
}

/// `s` without leading and trailing white space (`str::trim`).
pub open spec fn trimmed(s: Seq<char>) -> Seq<char> {
    trim_end_ws(trim_start_ws(s))
}

fn white_space(c: char) -> (r: bool)
    ensures
        r == is_white_space(c),
{
    let u = c as u32;
    (9 <= u && u <= 13) || u == 32 || u == 0x85 || u == 0xA0 || u == 0x1680 || (0x2000 <= u && u
        <= 0x200A) || u == 0x2028 || u == 0x2029 || u == 0x202F || u == 0x205F || u == 0x3000
}

/// `str::trim`.
pub fn trim(s: &str) -> (r: String)
    ensures
        r@ == trimmed(s@),
{
    let v = crate::text::chars_of(s);
    let n = v.len();
    let mut lo: usize = 0;
    assert(v@.skip(0) =~= v@);
    while lo < n && white_space(v[lo])
        invariant
            lo <= n == v@.len(),
            v@ == s@,
            trim_start_ws(v@.skip(lo as int)) == trim_start_ws(v@),
        decreases n - lo,
    {
        assert(v@.skip(lo as int).drop_first() =~= v@.skip(lo + 1));
        lo = lo + 1;
    }
    let ghost st = trim_start_ws(v@);
    assert(st == v@.skip(lo as int));
    let mut hi: usize = n;
    assert(v@.subrange(lo as int, n as int) =~= v@.skip(lo as int));
    while hi > lo && white_space(v[hi - 1])
        invariant
            lo <= hi <= n == v@.len(),
            trim_end_ws(v@.subrange(lo as int, hi as int)) == trim_end_ws(st),
        decreases hi,
    {
        assert(v@.subrange(lo as int, hi as int).drop_last() =~= v@.subrange(lo as int, hi - 1));
        hi = hi - 1;
    }
    crate::streaming::string_from_chars(&v, lo, hi)
}

/// What reading a key file gives: its trimmed contents when they are
/// 64 bytes long.
pub fn parse_key_file(contents: &str) -> (r: Result<String, KaidaDbError>)
    ensures
        match r {
            Ok(h) => h@ == trimmed(contents@) && crate::keys::key_bytes(h@).len() == 64,
            Err(e) => (e matches KaidaDbError::Config(m) && m@
                == "server key file is corrupt (expected 64-char hex hash)"@)
                && crate::keys::key_bytes(trimmed(contents@)).len() != 64,
        },
{
    let hash = trim(contents);
    let hs = hash.as_str();
    let hlen = hs.as_bytes().len();
    assert(hlen == crate::keys::key_bytes(hash@).len());
    if hlen != 64 {
        return Err(
            KaidaDbError::Config(string_of("server key file is corrupt (expected 64-char hex hash)")),
        );
    }
    Ok(hash)
}

} // verus!
