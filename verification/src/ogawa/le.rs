//! Little-endian integer encoding, as used by every integer field of the
//! Ogawa headers.

use vstd::prelude::*;

verus! {

/// The unsigned integer whose little-endian encoding is `bytes`.
pub open spec fn le_value(bytes: Seq<u8>) -> nat
    decreases bytes.len(),
{
    if bytes.len() == 0 {
        0
    } else {
        bytes[0] as nat + 256 * le_value(bytes.drop_first())
    }
}

/// 256 to the power `n`: one more than the largest value that fits `n` bytes.
pub open spec fn byte_range(n: nat) -> nat
    decreases n,
{
    if n == 0 {
        1
    } else {
        256 * byte_range((n - 1) as nat)
    }
}

/// The `n`-byte little-endian encoding of `v` (truncated to `n` bytes).
pub open spec fn le_bytes(v: nat, n: nat) -> Seq<u8>
    decreases n,
{
    if n == 0 {
        Seq::empty()
    } else {
        seq![(v % 256) as u8] + le_bytes(v / 256, (n - 1) as nat)
    }
}

/// `le_bytes` always yields exactly `n` bytes.
pub proof fn lemma_le_bytes_len(v: nat, n: nat)
    ensures
        le_bytes(v, n).len() == n,
    decreases n,
{
    if n > 0 {
        lemma_le_bytes_len(v / 256, (n - 1) as nat);
    }
}

/// A value of `bytes.len()` bytes is below `byte_range(bytes.len())`.
pub proof fn lemma_le_value_bound(bytes: Seq<u8>)
    ensures
        le_value(bytes) < byte_range(bytes.len()),
    decreases bytes.len(),
{
    if bytes.len() > 0 {
        lemma_le_value_bound(bytes.drop_first());
    }
}

/// Decoding an encoding gives back the value, reduced to the encoded width.
pub proof fn lemma_le_value_of_le_bytes(v: nat, n: nat)
    ensures
        le_value(le_bytes(v, n)) == v % byte_range(n),
    decreases n,
{
    lemma_le_bytes_len(v, n);
    if n > 0 {
        let rest = le_bytes(v / 256, (n - 1) as nat);
        lemma_le_value_of_le_bytes(v / 256, (n - 1) as nat);
        assert(le_bytes(v, n).drop_first() =~= rest);
        let r = byte_range((n - 1) as nat);
        assert(r > 0) by {
            lemma_byte_range_positive((n - 1) as nat);
        }
        lemma_mod_split(v, r);
    }
}

/// `byte_range` is positive.
pub proof fn lemma_byte_range_positive(n: nat)
    ensures
        byte_range(n) > 0,
    decreases n,
{
    if n > 0 {
        lemma_byte_range_positive((n - 1) as nat);
    }
}

proof fn lemma_mod_split(v: nat, r: nat)
    requires
        r > 0,
    ensures
        v % 256 + 256 * ((v / 256) % r) == v % (256 * r),
{
    vstd::arithmetic::div_mod::lemma_breakdown(v as int, 256, r as int);
}

/// Encoding a decoded byte sequence gives back the bytes.
pub proof fn lemma_le_bytes_of_le_value(bytes: Seq<u8>)
    ensures
        le_bytes(le_value(bytes), bytes.len()) == bytes,
    decreases bytes.len(),
{
    if bytes.len() > 0 {
        let rest = bytes.drop_first();
        lemma_le_bytes_of_le_value(rest);
        let v = le_value(bytes);
        assert(v % 256 == bytes[0] as nat);
        assert(v / 256 == le_value(rest));
        assert(le_bytes(v, bytes.len()) =~= bytes);
    }
}

/// A value below `byte_range(n)` survives the round trip through `n` bytes.
pub proof fn lemma_le_roundtrip(v: nat, n: nat)
    requires
        v < byte_range(n),
    ensures
        le_value(le_bytes(v, n)) == v,
        le_bytes(v, n).len() == n,
{
    lemma_le_value_of_le_bytes(v, n);
    lemma_le_bytes_len(v, n);
    vstd::arithmetic::div_mod::lemma_small_mod(v, byte_range(n));
}

/// The value of a byte string is the value of its first `k` bytes plus
/// the value of the rest, shifted by `k` bytes.
pub proof fn lemma_le_value_split(s: Seq<u8>, k: int)
    requires
        0 <= k <= s.len(),
    ensures
        le_value(s) == le_value(s.subrange(0, k)) + byte_range(k as nat) * le_value(s.subrange(k, s.len() as int)),
    decreases k,
{
    if k == 0 {
        assert(s.subrange(0, 0) =~= Seq::<u8>::empty());
        assert(s.subrange(0, s.len() as int) =~= s);
        assert(le_value(s.subrange(0, 0)) == 0);
        assert(byte_range(0) == 1);
        assert(1 * le_value(s) == le_value(s));
    } else {
        let d = s.drop_first();
        lemma_le_value_split(d, k - 1);
        assert(s.subrange(0, k).drop_first() =~= d.subrange(0, k - 1));
        assert(s.subrange(k, s.len() as int) =~= d.subrange(k - 1, d.len() as int));
        let a = le_value(d.subrange(0, k - 1));
        let b = byte_range((k - 1) as nat);
        let c = le_value(d.subrange(k - 1, d.len() as int));
        assert(256 * (a + b * c) == 256 * a + (256 * b) * c) by (nonlinear_arith);
        assert(le_value(s) == s[0] as nat + 256 * le_value(d));
        assert(s.subrange(0, k)[0] == s[0]);
        assert(le_value(s.subrange(0, k)) == s[0] as nat + 256 * a);
        assert(byte_range(k as nat) == 256 * b);
        assert(le_value(s.subrange(k, s.len() as int)) == c);
        assert(le_value(s) == le_value(s.subrange(0, k)) + (256 * b) * c);
    }
}

} // verus!
