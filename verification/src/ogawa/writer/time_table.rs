//! Encoding of the time sampling table of an archive, and the law that the
//! reader decodes what the writer encodes.

use vstd::prelude::*;
use crate::ogawa::le::{le_bytes, le_value, byte_range, lemma_le_roundtrip, lemma_le_bytes_len};
use crate::ogawa::read_util::{parse_time_samplings_from, stored_time};
use crate::ogawa::writer::image::words;

verus! {

/// One stored time sampling: its largest sample count (4 bytes), its time
/// per cycle (8 bytes), its number of times (4 bytes) and the times (8 bytes
/// each), all little-endian.
pub open spec fn sampling_bytes(r: (u32, u64, Seq<u64>)) -> Seq<u8> {
    le_bytes(r.0 as nat, 4) + le_bytes(r.1 as nat, 8) + le_bytes(r.2.len(), 4) + words(r.2)
}

/// The time sampling table: the stored samplings one after the other.
pub open spec fn samplings_bytes(rs: Seq<(u32, u64, Seq<u64>)>) -> Seq<u8>
    decreases rs.len(),
{
    if rs.len() == 0 {
        Seq::empty()
    } else {
        sampling_bytes(rs[0]) + samplings_bytes(rs.drop_first())
    }
}

/// Every sampling has at least one time and its count fits 4 bytes.
pub open spec fn storable_samplings(rs: Seq<(u32, u64, Seq<u64>)>) -> bool {
    forall|i: int| 0 <= i < rs.len() ==> 0 < #[trigger] rs[i].2.len() < 0x1_0000_0000
}

/// Appending a sampling appends its bytes.
pub proof fn lemma_samplings_bytes_push(rs: Seq<(u32, u64, Seq<u64>)>, r: (u32, u64, Seq<u64>))
    ensures
        samplings_bytes(rs.push(r)) == samplings_bytes(rs) + sampling_bytes(r),
    decreases rs.len(),
{
    if rs.len() == 0 {
        assert(rs.push(r).drop_first() =~= Seq::<(u32, u64, Seq<u64>)>::empty());
        assert(rs.push(r)[0] == r);
        assert(samplings_bytes(rs.push(r).drop_first()) =~= Seq::<u8>::empty());
        assert(samplings_bytes(rs.push(r)) =~= sampling_bytes(r));
        assert(samplings_bytes(rs) + sampling_bytes(r) =~= sampling_bytes(r));
    } else {
        lemma_samplings_bytes_push(rs.drop_first(), r);
        assert(rs.push(r).drop_first() =~= rs.drop_first().push(r));
        assert(rs.push(r)[0] == rs[0]);
        assert(samplings_bytes(rs.push(r)) =~= samplings_bytes(rs) + sampling_bytes(r));
    }
}

/// Eight bytes per word.
pub proof fn lemma_words_len(ts: Seq<u64>)
    ensures
        words(ts).len() == 8 * ts.len(),
    decreases ts.len(),
{
    if ts.len() > 0 {
        lemma_words_len(ts.drop_last());
        lemma_le_bytes_len(ts.last() as nat, 8);
    }
}

/// The `k`-th word of an encoding is the encoding of the `k`-th value.
pub proof fn lemma_words_index(ts: Seq<u64>, k: int)
    requires
        0 <= k < ts.len(),
    ensures
        words(ts).len() == 8 * ts.len(),
        words(ts).subrange(8 * k, 8 * k + 8) == le_bytes(ts[k] as nat, 8),
    decreases ts.len(),
{
    lemma_words_len(ts);
    let init = ts.drop_last();
    lemma_words_len(init);
    lemma_le_bytes_len(ts.last() as nat, 8);
    if k == ts.len() - 1 {
        assert(words(ts).subrange(8 * k, 8 * k + 8) =~= le_bytes(ts.last() as nat, 8));
    } else {
        lemma_words_index(init, k);
        assert(words(ts).subrange(8 * k, 8 * k + 8) =~= words(init).subrange(8 * k, 8 * k + 8));
    }
}

proof fn lemma_u64_roundtrip(v: u64)
    ensures
        le_value(le_bytes(v as nat, 8)) == v,
        le_bytes(v as nat, 8).len() == 8,
{
    reveal_with_fuel(byte_range, 9);
    lemma_le_roundtrip(v as nat, 8);
}

proof fn lemma_parse_from(prefix: Seq<u8>, rs: Seq<(u32, u64, Seq<u64>)>)
    requires
        storable_samplings(rs),
    ensures
        parse_time_samplings_from(prefix + samplings_bytes(rs), prefix.len() as int) == Some(rs),
    decreases rs.len(),
{
    let buf = prefix + samplings_bytes(rs);
    let pos = prefix.len() as int;
    if rs.len() == 0 {
        assert(buf =~= prefix);
        assert(rs =~= Seq::<(u32, u64, Seq<u64>)>::empty());
    } else {
        let r = rs[0];
        let rest = rs.drop_first();
        assert(storable_samplings(rest)) by {
            assert forall|i: int| 0 <= i < rest.len() implies 0 < #[trigger] rest[i].2.len() < 0x1_0000_0000 by {
                assert(rest[i] == rs[i + 1]);
            }
        }
        let n = r.2.len();
        assert(0 < n < 0x1_0000_0000);
        let b = sampling_bytes(r);
        lemma_words_len(r.2);
        lemma_le_bytes_len(r.0 as nat, 4);
        lemma_le_bytes_len(r.2.len(), 4);
        lemma_u64_roundtrip(r.1);
        reveal_with_fuel(byte_range, 5);
        lemma_le_roundtrip(r.0 as nat, 4);
        lemma_le_roundtrip(n, 4);
        assert(b.len() == 16 + 8 * n);
        assert(buf =~= (prefix + b) + samplings_bytes(rest));
        assert(buf.subrange(pos, pos + 4) =~= le_bytes(r.0 as nat, 4));
        assert(buf.subrange(pos + 4, pos + 12) =~= le_bytes(r.1 as nat, 8));
        assert(buf.subrange(pos + 12, pos + 16) =~= le_bytes(n, 4));
        let p = pos + 16;
        assert(p + 8 * n <= buf.len());
        let times = Seq::new(n as nat, |k: int| stored_time(buf, p, k));
        assert forall|k: int| 0 <= k < n implies #[trigger] times[k] == r.2[k] by {
            lemma_words_index(r.2, k);
            assert(buf.subrange(p + 8 * k, p + 8 * k + 8) =~= words(r.2).subrange(8 * k, 8 * k + 8));
            lemma_u64_roundtrip(r.2[k]);
        }
        assert(times =~= r.2);
        lemma_parse_from(prefix + b, rest);
        assert(p + 8 * n == (prefix + b).len());
        assert(seq![r] + rest =~= rs);
    }
}

/// What the writer stores as the time sampling table, the reader decodes
/// back to the same samplings, as long as each has at least one time.
pub proof fn lemma_time_samplings_roundtrip(rs: Seq<(u32, u64, Seq<u64>)>)
    requires
        storable_samplings(rs),
    ensures
        parse_time_samplings_from(samplings_bytes(rs), 0) == Some(rs),
{
    lemma_parse_from(Seq::empty(), rs);
    assert(Seq::<u8>::empty() + samplings_bytes(rs) =~= samplings_bytes(rs));
}

} // verus!
