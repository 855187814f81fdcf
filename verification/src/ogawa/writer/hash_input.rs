//! The byte strings that the hashes of an archive are computed over: the
//! header of a property, the dimensions of an array sample, a list of
//! hashes, and an object (its children's hashes, its data hash, metadata
//! and name). The hash function itself is applied by the caller.

use vstd::prelude::*;
use vstd::utf8::encode_utf8;
use crate::ogawa::le::le_bytes;
use crate::ogawa::writer::image::words;
use crate::ogawa::writer::property::{OProperty, OPropertyData};
use crate::ogawa::writer::write_util::{write_u64_le, extend_bytes, written_pod_code, pod_to_u8, write_with_hint};
use crate::ogawa::writer::headers::md_text;
use crate::util::metadata::MetaData;

verus! {

broadcast use vstd::utf8::group_utf8_lib;

/// The bytes a property header is hashed over: its name and serialized
/// metadata and, unless it is a compound, its type code, its extent, a zero
/// byte for a scalar, the time per cycle, the number of stored times (4
/// bytes) and the times, all little-endian.
pub open spec fn property_hash_bytes(p: OProperty, tpc: u64, times: Seq<u64>) -> Seq<u8> {
    encode_utf8(p.name@) + encode_utf8(md_text(p.meta_data)) + match p.data {
        OPropertyData::Compound(_) => Seq::<u8>::empty(),
        OPropertyData::Scalar(_) => seq![written_pod_code(p.data_type.pod) as u8, p.data_type.extent, 0u8]
            + le_bytes(tpc as nat, 8) + le_bytes(times.len() as u32 as nat, 4) + words(times),
        OPropertyData::Array(_) => seq![written_pod_code(p.data_type.pod) as u8, p.data_type.extent]
            + le_bytes(tpc as nat, 8) + le_bytes(times.len() as u32 as nat, 4) + words(times),
    }
}

fn push_words(buf: &mut Vec<u8>, vs: &[u64])
    ensures
        final(buf)@ == old(buf)@ + words(vs@),
{
    let mut k: usize = 0;
    while k < vs.len()
        invariant
            k <= vs@.len(),
            buf@ == old(buf)@ + words(vs@.subrange(0, k as int)),
        decreases vs@.len() - k,
    {
        write_u64_le(buf, vs[k]);
        proof {
            let s = vs@.subrange(0, k + 1);
            assert(s.drop_last() =~= vs@.subrange(0, k as int));
        }
        k = k + 1;
    }
    assert(vs@.subrange(0, vs@.len() as int) =~= vs@);
}

/// The bytes a property header is hashed over, for the property's time
/// sampling given as its time per cycle and stored times.
pub fn property_hash_input(p: &OProperty, tpc: u64, times: &[u64]) -> (r: Vec<u8>)
    ensures
        r@ == property_hash_bytes(*p, tpc, times@),
{
    let mut buf: Vec<u8> = Vec::new();
    extend_bytes(&mut buf, p.name.as_str().as_bytes());
    let meta = p.meta_data.serialize();
    extend_bytes(&mut buf, meta.as_str().as_bytes());
    let ghost head = buf@;
    match &p.data {
        OPropertyData::Compound(_) => {},
        OPropertyData::Scalar(_) => {
            buf.push(pod_to_u8(p.data_type.pod));
            buf.push(p.data_type.extent);
            buf.push(0);
            write_u64_le(&mut buf, tpc);
            write_with_hint(&mut buf, times.len() as u32, 2);
            push_words(&mut buf, times);
        },
        OPropertyData::Array(_) => {
            buf.push(pod_to_u8(p.data_type.pod));
            buf.push(p.data_type.extent);
            write_u64_le(&mut buf, tpc);
            write_with_hint(&mut buf, times.len() as u32, 2);
            push_words(&mut buf, times);
        },
    }
    assert(buf@ =~= property_hash_bytes(*p, tpc, times@));
    buf
}

/// The bytes that mix an array sample's dimensions into its digest: each
/// dimension as 8 bytes, then the two digest halves; `None` for no
/// dimensions (the digest is then left as it is).
pub fn dims_hash_input(dims: &[usize], digest: (u64, u64)) -> (r: Option<Vec<u8>>)
    ensures
        dims@.len() == 0 ==> r is None,
        dims@.len() > 0 ==> (r matches Some(b) && b@ == words(Seq::new(dims@.len(), |k: int| dims@[k] as u64))
            + le_bytes(digest.0 as nat, 8) + le_bytes(digest.1 as nat, 8)),
{
    if dims.len() == 0 {
        return None;
    }
    let mut ds: Vec<u64> = Vec::new();
    let mut k: usize = 0;
    while k < dims.len()
        invariant
            k <= dims@.len(),
            ds@ == Seq::new(k as nat, |q: int| dims@[q] as u64),
        decreases dims@.len() - k,
    {
        ds.push(dims[k] as u64);
        assert(ds@ =~= Seq::new((k + 1) as nat, |q: int| dims@[q] as u64));
        k = k + 1;
    }
    let mut buf: Vec<u8> = Vec::new();
    push_words(&mut buf, ds.as_slice());
    write_u64_le(&mut buf, digest.0);
    write_u64_le(&mut buf, digest.1);
    assert(buf@ =~= words(Seq::new(dims@.len(), |q: int| dims@[q] as u64)) + le_bytes(digest.0 as nat, 8) + le_bytes(digest.1 as nat, 8));
    Some(buf)
}

/// A list of hashes as bytes: each as 8 little-endian bytes.
pub fn hashes_input(hashes: &[u64]) -> (r: Vec<u8>)
    ensures
        r@ == words(hashes@),
{
    let mut buf: Vec<u8> = Vec::new();
    push_words(&mut buf, hashes);
    assert(buf@ =~= words(hashes@));
    buf
}

/// The bytes an object is hashed over: its children's hashes (when it has
/// children), its two data hash halves, its serialized metadata and name.
pub open spec fn object_hash_bytes(child_hashes: Seq<u64>, data_hash: (u64, u64), md: MetaData, name: Seq<char>) -> Seq<u8> {
    words(child_hashes) + le_bytes(data_hash.0 as nat, 8) + le_bytes(data_hash.1 as nat, 8) + encode_utf8(md_text(md))
        + encode_utf8(name)
}

/// The bytes an object is hashed over.
pub fn object_hash_input(child_hashes: &[u64], data_hash: (u64, u64), md: &MetaData, name: &str) -> (r: Vec<u8>)
    ensures
        r@ == object_hash_bytes(child_hashes@, data_hash, *md, name@),
{
    let mut buf: Vec<u8> = Vec::new();
    push_words(&mut buf, child_hashes);
    write_u64_le(&mut buf, data_hash.0);
    write_u64_le(&mut buf, data_hash.1);
    let meta = md.serialize();
    extend_bytes(&mut buf, meta.as_str().as_bytes());
    extend_bytes(&mut buf, name.as_bytes());
    assert(buf@ =~= object_hash_bytes(child_hashes@, data_hash, *md, name@));
    buf
}

} // verus!
