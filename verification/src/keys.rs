//! Ordering and matching of string keys.
//!
//! Keys are compared the way `str`'s `Ord` compares them: lexicographically
//! on their UTF-8 bytes.
use vstd::prelude::*;
use vstd::utf8::*;

verus! {

broadcast use vstd::utf8::encode_utf8_decode_utf8;

/// Strict lexicographic order on byte sequences.
pub open spec fn bytes_lt(a: Seq<u8>, b: Seq<u8>) -> bool
    decreases a.len(),
{
    if b.len() == 0 {
        false
    } else if a.len() == 0 {
        true
    } else if a[0] != b[0] {
        a[0] < b[0]
    } else {
        bytes_lt(a.drop_first(), b.drop_first())
    }
}

/// The UTF-8 encoding of a key, the bytes that `str` comparisons look at.
pub open spec fn key_bytes(k: Seq<char>) -> Seq<u8> {
    encode_utf8(k)
}

/// `a < b` for string keys, as `String`'s `Ord` decides it.
pub open spec fn key_lt(a: Seq<char>, b: Seq<char>) -> bool {
    bytes_lt(key_bytes(a), key_bytes(b))
}

/// `k.starts_with(p)` for string keys: `p`'s bytes begin `k`'s bytes.
pub open spec fn key_has_prefix(k: Seq<char>, p: Seq<char>) -> bool {
    key_bytes(p).is_prefix_of(key_bytes(k))
}

/// The three outcomes of comparing two keys.
pub enum KeyOrder {
    Less,
    Equal,
    Greater,
}

pub proof fn lemma_bytes_lt_irreflexive(a: Seq<u8>)
    ensures
        !bytes_lt(a, a),
    decreases a.len(),
{
    if a.len() > 0 {
        lemma_bytes_lt_irreflexive(a.drop_first());
    }
}

pub proof fn lemma_bytes_lt_asymmetric(a: Seq<u8>, b: Seq<u8>)
    ensures
        !(bytes_lt(a, b) && bytes_lt(b, a)),
    decreases a.len(),
{
    if a.len() > 0 && b.len() > 0 && a[0] == b[0] {
        lemma_bytes_lt_asymmetric(a.drop_first(), b.drop_first());
    }
}

pub proof fn lemma_bytes_lt_transitive(a: Seq<u8>, b: Seq<u8>, c: Seq<u8>)
    requires
        bytes_lt(a, b),
        bytes_lt(b, c),
    ensures
        bytes_lt(a, c),
    decreases a.len(),
{
    if a.len() > 0 && b.len() > 0 && c.len() > 0 && a[0] == b[0] && b[0] == c[0] {
        lemma_bytes_lt_transitive(a.drop_first(), b.drop_first(), c.drop_first());
    }
}

pub proof fn lemma_bytes_lt_total(a: Seq<u8>, b: Seq<u8>)
    ensures
        a == b || bytes_lt(a, b) || bytes_lt(b, a),
    decreases a.len(),
{
    if a.len() > 0 && b.len() > 0 && a[0] == b[0] {
        lemma_bytes_lt_total(a.drop_first(), b.drop_first());
        if a.drop_first() == b.drop_first() {
            assert(a =~= seq![a[0]] + a.drop_first());
            assert(b =~= seq![b[0]] + b.drop_first());
        }
    } else if a.len() == 0 && b.len() == 0 {
        assert(a =~= b);
    }
}

/// A sequence is never below one of its prefixes.
pub proof fn lemma_prefix_not_below(p: Seq<u8>, x: Seq<u8>)
    requires
        p.is_prefix_of(x),
    ensures
        !bytes_lt(x, p),
    decreases p.len(),
{
    if p.len() > 0 {
        assert(x[0] == p[0]);
        assert(p.drop_first().is_prefix_of(x.drop_first())) by {
            assert forall|i: int| 0 <= i < p.drop_first().len() implies p.drop_first()[i] == x.drop_first()[i] by {
                assert(p[i + 1] == x[i + 1]);
            }
        }
        lemma_prefix_not_below(p.drop_first(), x.drop_first());
    }
}

/// The sequences with a given prefix form an interval: one that lies
/// between two of them has the prefix too.
pub proof fn lemma_prefix_interval(p: Seq<u8>, a: Seq<u8>, x: Seq<u8>, b: Seq<u8>)
    requires
        p.is_prefix_of(a),
        p.is_prefix_of(b),
        !bytes_lt(x, a),
        !bytes_lt(b, x),
    ensures
        p.is_prefix_of(x),
    decreases p.len(),
{
    if p.len() > 0 {
        assert(a[0] == p[0] && b[0] == p[0]);
        assert(x.len() > 0);
        assert(x[0] == p[0]);
        let t = p.drop_first();
        assert(t.is_prefix_of(a.drop_first())) by {
            assert forall|i: int| 0 <= i < t.len() implies t[i] == a.drop_first()[i] by {
                assert(p[i + 1] == a[i + 1]);
            }
        }
        assert(t.is_prefix_of(b.drop_first())) by {
            assert forall|i: int| 0 <= i < t.len() implies t[i] == b.drop_first()[i] by {
                assert(p[i + 1] == b[i + 1]);
            }
        }
        lemma_prefix_interval(t, a.drop_first(), x.drop_first(), b.drop_first());
        assert forall|i: int| 0 <= i < p.len() implies p[i] == x[i] by {
            if i > 0 {
                assert(t[i - 1] == x.drop_first()[i - 1]);
            }
        }
    }
}

/// Two keys are equal exactly when their encodings are.
pub proof fn lemma_key_bytes_injective(a: Seq<char>, b: Seq<char>)
    ensures
        (key_bytes(a) == key_bytes(b)) == (a == b),
{
    if key_bytes(a) == key_bytes(b) {
        assert(decode_utf8(encode_utf8(a)) == a);
        assert(decode_utf8(encode_utf8(b)) == b);
    }
}

pub proof fn lemma_key_lt_irreflexive(a: Seq<char>)
    ensures
        !key_lt(a, a),
{
    lemma_bytes_lt_irreflexive(key_bytes(a));
}

pub proof fn lemma_key_lt_transitive(a: Seq<char>, b: Seq<char>, c: Seq<char>)
    requires
        key_lt(a, b),
        key_lt(b, c),
    ensures
        key_lt(a, c),
{
    lemma_bytes_lt_transitive(key_bytes(a), key_bytes(b), key_bytes(c));
}

pub proof fn lemma_key_lt_total(a: Seq<char>, b: Seq<char>)
    ensures
        a == b || key_lt(a, b) || key_lt(b, a),
{
    lemma_bytes_lt_total(key_bytes(a), key_bytes(b));
    lemma_key_bytes_injective(a, b);
}

pub proof fn lemma_key_lt_asymmetric(a: Seq<char>, b: Seq<char>)
    ensures
        !(key_lt(a, b) && key_lt(b, a)),
{
    lemma_bytes_lt_asymmetric(key_bytes(a), key_bytes(b));
}

proof fn lemma_bytes_lt_skip(a: Seq<u8>, b: Seq<u8>, i: int)
    requires
        0 <= i < a.len(),
        i < b.len(),
        a[i] == b[i],
    ensures
        bytes_lt(a.skip(i), b.skip(i)) == bytes_lt(a.skip(i + 1), b.skip(i + 1)),
{
    assert(a.skip(i).drop_first() =~= a.skip(i + 1));
    assert(b.skip(i).drop_first() =~= b.skip(i + 1));
}

/// Compares two byte strings lexicographically.
pub fn bytes_order(a: &[u8], b: &[u8]) -> (r: KeyOrder)
    ensures
        r is Less <==> bytes_lt(a@, b@),
        r is Equal <==> a@ == b@,
        r is Greater <==> bytes_lt(b@, a@),
{
    let mut i: usize = 0;
    assert(a@.skip(0) =~= a@);
    assert(b@.skip(0) =~= b@);
    while i < a.len() && i < b.len()
        invariant
            i <= a.len(),
            i <= b.len(),
            a@.take(i as int) == b@.take(i as int),
            bytes_lt(a@, b@) == bytes_lt(a@.skip(i as int), b@.skip(i as int)),
            bytes_lt(b@, a@) == bytes_lt(b@.skip(i as int), a@.skip(i as int)),
        decreases a.len() - i,
    {
        if a[i] < b[i] {
            assert(bytes_lt(a@.skip(i as int), b@.skip(i as int)));
            assert(!bytes_lt(b@.skip(i as int), a@.skip(i as int)));
            assert(a@[i as int] != b@[i as int]);
            return KeyOrder::Less;
        }
        if a[i] > b[i] {
            assert(bytes_lt(b@.skip(i as int), a@.skip(i as int)));
            assert(!bytes_lt(a@.skip(i as int), b@.skip(i as int)));
            assert(a@[i as int] != b@[i as int]);
            return KeyOrder::Greater;
        }
        proof {
            lemma_bytes_lt_skip(a@, b@, i as int);
            lemma_bytes_lt_skip(b@, a@, i as int);
            assert(a@.take(i + 1) =~= a@.take(i as int).push(a@[i as int]));
            assert(b@.take(i + 1) =~= b@.take(i as int).push(b@[i as int]));
        }
        i = i + 1;
    }
    if a.len() == b.len() {
        assert(a@ =~= a@.take(i as int));
        assert(b@ =~= b@.take(i as int));
        proof {
            lemma_bytes_lt_irreflexive(a@);
        }
        KeyOrder::Equal
    } else if i == a.len() {
        assert(a@.skip(i as int).len() == 0);
        assert(b@.skip(i as int).len() > 0);
        assert(a@.take(i as int) =~= a@);
        assert(a@ != b@);
        KeyOrder::Less
    } else {
        assert(b@.skip(i as int).len() == 0);
        assert(a@.skip(i as int).len() > 0);
        assert(b@.take(i as int) =~= b@);
        assert(a@ != b@);
        KeyOrder::Greater
    }
}

/// Compares two string keys the way `String`'s `Ord` does.
pub fn key_order(a: &str, b: &str) -> (r: KeyOrder)
    ensures
        r is Less <==> key_lt(a@, b@),
        r is Equal <==> a@ == b@,
        r is Greater <==> key_lt(b@, a@),
{
    let r = bytes_order(a.as_bytes(), b.as_bytes());
    proof {
        lemma_key_bytes_injective(a@, b@);
    }
    r
}

/// `a == b` for string keys.
pub fn key_eq(a: &str, b: &str) -> (r: bool)
    ensures
        r == (a@ == b@),
{
    match key_order(a, b) {
        KeyOrder::Equal => true,
        _ => false,
    }
}

/// Whether the byte string `p` begins `s`.
pub fn bytes_start_with(s: &[u8], p: &[u8]) -> (r: bool)
    ensures
        r == p@.is_prefix_of(s@),
{
    if p.len() > s.len() {
        return false;
    }
    let mut i: usize = 0;
    while i < p.len()
        invariant
            i <= p.len() <= s.len(),
            forall|j: int| 0 <= j < i ==> p@[j] == s@[j],
        decreases p.len() - i,
    {
        if p[i] != s[i] {
            return false;
        }
        i = i + 1;
    }
    true
}

/// `k.starts_with(p)` for string keys.
pub fn key_starts_with(k: &str, p: &str) -> (r: bool)
    ensures
        r == key_has_prefix(k@, p@),
{
    bytes_start_with(k.as_bytes(), p.as_bytes())
}

} // verus!
