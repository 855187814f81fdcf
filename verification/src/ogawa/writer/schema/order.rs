//! Byte-wise ordering of texts and a stable sort of keyed entries, as used
//! to lay out material entries in a fixed order.

use vstd::prelude::*;

verus! {

/// Lexicographic order on byte strings (a proper prefix comes first): the
/// order of Rust strings.
pub open spec fn seq_less(a: Seq<u8>, b: Seq<u8>) -> bool
    decreases a.len(),
{
    if a.len() == 0 {
        b.len() > 0
    } else if b.len() == 0 {
        false
    } else if a[0] != b[0] {
        a[0] < b[0]
    } else {
        seq_less(a.drop_first(), b.drop_first())
    }
}

/// Order on keys of two byte strings: by the first, then by the second.
pub open spec fn key_less(a: (Seq<u8>, Seq<u8>), b: (Seq<u8>, Seq<u8>)) -> bool {
    seq_less(a.0, b.0) || (a.0 == b.0 && seq_less(a.1, b.1))
}

/// The byte-string order is irreflexive, transitive and total.
pub proof fn lemma_seq_less_order(a: Seq<u8>, b: Seq<u8>, c: Seq<u8>)
    ensures
        !seq_less(a, a),
        seq_less(a, b) && seq_less(b, c) ==> seq_less(a, c),
        !seq_less(a, b) && !seq_less(b, a) ==> a == b,
        seq_less(a, b) ==> !seq_less(b, a),
    decreases a.len(),
{
    if a.len() > 0 && b.len() > 0 && c.len() > 0 {
        lemma_seq_less_order(a.drop_first(), b.drop_first(), c.drop_first());
        if a[0] == b[0] && !seq_less(a, b) && !seq_less(b, a) {
            assert(a =~= seq![a[0]] + a.drop_first());
            assert(b =~= seq![b[0]] + b.drop_first());
        }
    } else if a.len() > 0 && b.len() > 0 {
        lemma_seq_less_order(a.drop_first(), b.drop_first(), b.drop_first());
        if a[0] == b[0] && !seq_less(a, b) && !seq_less(b, a) {
            assert(a =~= seq![a[0]] + a.drop_first());
            assert(b =~= seq![b[0]] + b.drop_first());
        }
    } else if a.len() > 0 {
        lemma_seq_less_order(a.drop_first(), a.drop_first(), a.drop_first());
    } else {
        if !seq_less(a, b) && !seq_less(b, a) {
            assert(a =~= b);
        }
    }
}

/// The key order is irreflexive, transitive and total.
pub proof fn lemma_key_less_order(a: (Seq<u8>, Seq<u8>), b: (Seq<u8>, Seq<u8>), c: (Seq<u8>, Seq<u8>))
    ensures
        !key_less(a, a),
        key_less(a, b) && key_less(b, c) ==> key_less(a, c),
        !key_less(a, b) && !key_less(b, a) ==> a == b,
        key_less(a, b) ==> !key_less(b, a),
{
    lemma_seq_less_order(a.0, b.0, c.0);
    lemma_seq_less_order(a.1, b.1, c.1);
    lemma_seq_less_order(b.0, a.0, c.0);
    lemma_seq_less_order(b.1, a.1, c.1);
    lemma_seq_less_order(a.0, c.0, b.0);
    lemma_seq_less_order(a.1, c.1, b.1);
}

/// Compare two byte strings.
pub fn bytes_less(a: &[u8], b: &[u8]) -> (r: bool)
    ensures
        r == seq_less(a@, b@),
{
    let mut i: usize = 0;
    assert(a@.skip(0) =~= a@);
    assert(b@.skip(0) =~= b@);
    while i < a.len() && i < b.len()
        invariant
            i <= a@.len(),
            i <= b@.len(),
            seq_less(a@, b@) == seq_less(a@.skip(i as int), b@.skip(i as int)),
        decreases a@.len() - i,
    {
        if a[i] != b[i] {
            return a[i] < b[i];
        }
        assert(a@.skip(i as int).drop_first() =~= a@.skip(i + 1));
        assert(b@.skip(i as int).drop_first() =~= b@.skip(i + 1));
        i = i + 1;
    }
    a.len() < b.len()
}

/// Compare two keys.
pub fn keys_less(a: (&[u8], &[u8]), b: (&[u8], &[u8])) -> (r: bool)
    ensures
        r == key_less((a.0@, a.1@), (b.0@, b.1@)),
{
    if bytes_less(a.0, b.0) {
        return true;
    }
    if bytes_less(b.0, a.0) {
        proof {
            lemma_seq_less_order(a.0@, b.0@, a.0@);
        }
        return false;
    }
    proof {
        lemma_seq_less_order(a.0@, b.0@, a.0@);
    }
    bytes_less(a.1, b.1)
}

/// `perm` lists every position of `keys` once, in key order, positions of
/// equal keys in their relative order.
pub open spec fn is_stable_order(keys: Seq<(Seq<u8>, Seq<u8>)>, perm: Seq<int>) -> bool {
    &&& perm.len() == keys.len()
    &&& forall|i: int| 0 <= i < perm.len() ==> 0 <= #[trigger] perm[i] < keys.len()
    &&& forall|i: int, j: int| 0 <= i < j < perm.len() ==> perm[i] != perm[j]
    &&& forall|i: int, j: int| 0 <= i < j < perm.len() ==> !key_less(keys[perm[j]], keys[perm[i]])
    &&& forall|i: int, j: int|
        0 <= i < j < perm.len() && keys[perm[i]] == keys[perm[j]] ==> perm[i] < perm[j]
}

/// The positions of a vector as integers.
pub open spec fn positions(v: Seq<usize>) -> Seq<int> {
    v.map_values(|x: usize| x as int)
}

/// The keys of a list of key pairs.
pub open spec fn keys_view(keys: Seq<(Vec<u8>, Vec<u8>)>) -> Seq<(Seq<u8>, Seq<u8>)> {
    keys.map_values(|k: (Vec<u8>, Vec<u8>)| (k.0@, k.1@))
}

/// Order the positions of `keys` by key, keeping equal keys in their
/// relative order.
pub fn stable_order(keys: &Vec<(Vec<u8>, Vec<u8>)>) -> (r: Vec<usize>)
    ensures
        is_stable_order(keys_view(keys@), positions(r@)),
{
    let ghost ks = keys_view(keys@);
    let mut perm: Vec<usize> = Vec::new();
    let mut k: usize = 0;
    while k < keys.len()
        invariant
            k <= keys@.len(),
            ks == keys_view(keys@),
            perm@.len() == k,
            forall|i: int| 0 <= i < perm@.len() ==> #[trigger] perm@[i] < k,
            forall|i: int, j: int| 0 <= i < j < perm@.len() ==> perm@[i] != perm@[j],
            forall|i: int, j: int|
                0 <= i < j < perm@.len() ==> !key_less(ks[perm@[j] as int], ks[perm@[i] as int]),
            forall|i: int, j: int|
                0 <= i < j < perm@.len() && ks[perm@[i] as int] == ks[perm@[j] as int] ==> perm@[i] < perm@[j],
        decreases keys@.len() - k,
    {
        let mut p: usize = 0;
        while p < perm.len() && !keys_less(
            (keys[k].0.as_slice(), keys[k].1.as_slice()),
            (keys[perm[p]].0.as_slice(), keys[perm[p]].1.as_slice()),
        )
            invariant
                k < keys@.len(),
                ks == keys_view(keys@),
                perm@.len() == k,
                p <= perm@.len(),
                forall|i: int| 0 <= i < perm@.len() ==> #[trigger] perm@[i] < k,
                forall|q: int| 0 <= q < p ==> !key_less(ks[k as int], ks[#[trigger] perm@[q] as int]),
            decreases perm@.len() - p,
        {
            p = p + 1;
        }
        let ghost old_perm = perm@;
        proof {
            assert forall|q: int| p <= q < old_perm.len() implies key_less(ks[k as int], ks[#[trigger] old_perm[q] as int]) by {
                lemma_key_less_order(ks[k as int], ks[old_perm[p as int] as int], ks[old_perm[q] as int]);
                if q > p {
                    lemma_key_less_order(ks[old_perm[q] as int], ks[old_perm[p as int] as int], ks[k as int]);
                    lemma_key_less_order(ks[old_perm[p as int] as int], ks[old_perm[q] as int], ks[k as int]);
                }
            }
        }
        perm.insert(p, k);
        proof {
            assert forall|i: int, j: int| 0 <= i < j < perm@.len() implies !key_less(ks[perm@[j] as int], ks[perm@[i] as int]) by {
                if j == p {
                    lemma_key_less_order(ks[k as int], ks[perm@[i] as int], ks[k as int]);
                    let ii = i;
                    assert(perm@[i] == old_perm[ii]);
                    lemma_key_less_order(ks[old_perm[ii] as int], ks[k as int], ks[k as int]);
                } else if i == p {
                    assert(perm@[j] == old_perm[j - 1]);
                    lemma_key_less_order(ks[k as int], ks[old_perm[j - 1] as int], ks[k as int]);
                } else {
                    let i0 = if i < p { i } else { i - 1 };
                    let j0 = if j < p { j } else { j - 1 };
                    assert(perm@[i] == old_perm[i0]);
                    assert(perm@[j] == old_perm[j0]);
                }
            }
            assert forall|i: int, j: int|
                0 <= i < j < perm@.len() && ks[perm@[i] as int] == ks[perm@[j] as int] implies perm@[i] < perm@[j] by {
                if j == p {
                    assert(perm@[i] == old_perm[i]);
                } else if i == p {
                    assert(perm@[j] == old_perm[j - 1]);
                    lemma_key_less_order(ks[k as int], ks[old_perm[j - 1] as int], ks[k as int]);
                } else {
                    let i0 = if i < p { i } else { i - 1 };
                    let j0 = if j < p { j } else { j - 1 };
                    assert(perm@[i] == old_perm[i0]);
                    assert(perm@[j] == old_perm[j0]);
                }
            }
            assert forall|i: int, j: int| 0 <= i < j < perm@.len() implies perm@[i] != perm@[j] by {
                if j == p {
                    assert(perm@[i] == old_perm[i]);
                } else if i == p {
                    assert(perm@[j] == old_perm[j - 1]);
                } else {
                    let i0 = if i < p { i } else { i - 1 };
                    let j0 = if j < p { j } else { j - 1 };
                    assert(perm@[i] == old_perm[i0]);
                    assert(perm@[j] == old_perm[j0]);
                }
            }
            assert forall|i: int| 0 <= i < perm@.len() implies #[trigger] perm@[i] < k + 1 by {
                if i < p {
                    assert(perm@[i] == old_perm[i]);
                } else if i > p {
                    assert(perm@[i] == old_perm[i - 1]);
                }
            }
        }
        k = k + 1;
    }
    proof {
        let ps = positions(perm@);
        assert forall|i: int| 0 <= i < ps.len() implies 0 <= #[trigger] ps[i] < ks.len() by {
            assert(ps[i] == perm@[i] as int);
        }
        assert forall|i: int, j: int| 0 <= i < j < ps.len() implies !key_less(ks[ps[j]], ks[ps[i]]) by {
            assert(ps[i] == perm@[i] as int);
            assert(ps[j] == perm@[j] as int);
        }
        assert forall|i: int, j: int| 0 <= i < j < ps.len() && ks[ps[i]] == ks[ps[j]] implies ps[i] < ps[j] by {
            assert(ps[i] == perm@[i] as int);
            assert(ps[j] == perm@[j] as int);
        }
        assert forall|i: int, j: int| 0 <= i < j < ps.len() implies ps[i] != ps[j] by {
            assert(ps[i] == perm@[i] as int);
            assert(ps[j] == perm@[j] as int);
        }
    }
    perm
}

/// `perm` lists every position of `keys` once, by increasing key, positions
/// of equal keys in their relative order.
pub open spec fn is_stable_order_u32(keys: Seq<u32>, perm: Seq<int>) -> bool {
    &&& perm.len() == keys.len()
    &&& forall|i: int| 0 <= i < perm.len() ==> 0 <= #[trigger] perm[i] < keys.len()
    &&& forall|i: int, j: int| 0 <= i < j < perm.len() ==> perm[i] != perm[j]
    &&& forall|i: int, j: int| 0 <= i < j < perm.len() ==> keys[perm[i]] <= keys[perm[j]]
    &&& forall|i: int, j: int|
        0 <= i < j < perm.len() && keys[perm[i]] == keys[perm[j]] ==> perm[i] < perm[j]
}

/// Order the positions of `keys` by increasing key, keeping equal keys in
/// their relative order.
pub fn stable_order_u32(keys: &[u32]) -> (r: Vec<usize>)
    ensures
        is_stable_order_u32(keys@, positions(r@)),
{
    let ghost ks = keys@;
    let mut perm: Vec<usize> = Vec::new();
    let mut k: usize = 0;
    while k < keys.len()
        invariant
            k <= keys@.len(),
            ks == keys@,
            perm@.len() == k,
            forall|i: int| 0 <= i < perm@.len() ==> #[trigger] perm@[i] < k,
            forall|i: int, j: int| 0 <= i < j < perm@.len() ==> perm@[i] != perm@[j],
            forall|i: int, j: int| 0 <= i < j < perm@.len() ==> ks[perm@[i] as int] <= ks[perm@[j] as int],
            forall|i: int, j: int|
                0 <= i < j < perm@.len() && ks[perm@[i] as int] == ks[perm@[j] as int] ==> perm@[i] < perm@[j],
        decreases keys@.len() - k,
    {
        let mut p: usize = 0;
        while p < perm.len() && keys[perm[p]] <= keys[k]
            invariant
                k < keys@.len(),
                ks == keys@,
                perm@.len() == k,
                p <= perm@.len(),
                forall|i: int| 0 <= i < perm@.len() ==> #[trigger] perm@[i] < k,
                forall|q: int| 0 <= q < p ==> ks[#[trigger] perm@[q] as int] <= ks[k as int],
            decreases perm@.len() - p,
        {
            p = p + 1;
        }
        let ghost old_perm = perm@;
        proof {
            assert forall|q: int| p <= q < old_perm.len() implies ks[k as int] < ks[#[trigger] old_perm[q] as int] by {
                assert(ks[old_perm[p as int] as int] > ks[k as int]);
                if q > p {
                    assert(ks[old_perm[p as int] as int] <= ks[old_perm[q] as int]);
                }
            }
        }
        perm.insert(p, k);
        proof {
            assert forall|i: int, j: int| 0 <= i < j < perm@.len() implies ks[perm@[i] as int] <= ks[perm@[j] as int] by {
                if j == p {
                    assert(perm@[i] == old_perm[i]);
                } else if i == p {
                    assert(perm@[j] == old_perm[j - 1]);
                } else {
                    let i0 = if i < p { i } else { i - 1 };
                    let j0 = if j < p { j } else { j - 1 };
                    assert(perm@[i] == old_perm[i0]);
                    assert(perm@[j] == old_perm[j0]);
                }
            }
            assert forall|i: int, j: int|
                0 <= i < j < perm@.len() && ks[perm@[i] as int] == ks[perm@[j] as int] implies perm@[i] < perm@[j] by {
                if j == p {
                    assert(perm@[i] == old_perm[i]);
                } else if i == p {
                    assert(perm@[j] == old_perm[j - 1]);
                } else {
                    let i0 = if i < p { i } else { i - 1 };
                    let j0 = if j < p { j } else { j - 1 };
                    assert(perm@[i] == old_perm[i0]);
                    assert(perm@[j] == old_perm[j0]);
                }
            }
            assert forall|i: int, j: int| 0 <= i < j < perm@.len() implies perm@[i] != perm@[j] by {
                if j == p {
                    assert(perm@[i] == old_perm[i]);
                } else if i == p {
                    assert(perm@[j] == old_perm[j - 1]);
                } else {
                    let i0 = if i < p { i } else { i - 1 };
                    let j0 = if j < p { j } else { j - 1 };
                    assert(perm@[i] == old_perm[i0]);
                    assert(perm@[j] == old_perm[j0]);
                }
            }
            assert forall|i: int| 0 <= i < perm@.len() implies #[trigger] perm@[i] < k + 1 by {
                if i < p {
                    assert(perm@[i] == old_perm[i]);
                } else if i > p {
                    assert(perm@[i] == old_perm[i - 1]);
                }
            }
        }
        k = k + 1;
    }
    proof {
        let ps = positions(perm@);
        assert forall|i: int| 0 <= i < ps.len() implies 0 <= #[trigger] ps[i] < ks.len() by {
            assert(ps[i] == perm@[i] as int);
        }
        assert forall|i: int, j: int| 0 <= i < j < ps.len() implies ks[ps[i]] <= ks[ps[j]] by {
            assert(ps[i] == perm@[i] as int);
            assert(ps[j] == perm@[j] as int);
        }
        assert forall|i: int, j: int| 0 <= i < j < ps.len() && ks[ps[i]] == ks[ps[j]] implies ps[i] < ps[j] by {
            assert(ps[i] == perm@[i] as int);
            assert(ps[j] == perm@[j] as int);
        }
        assert forall|i: int, j: int| 0 <= i < j < ps.len() implies ps[i] != ps[j] by {
            assert(ps[i] == perm@[i] as int);
            assert(ps[j] == perm@[j] as int);
        }
    }
    perm
}

} // verus!
