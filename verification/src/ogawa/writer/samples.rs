//! Writing the samples of a scalar or array property into an archive image:
//! which samples are stored, where the shared ones point, and the change
//! range that the property header records.
//!
//! A sample is identified by its content key. Sample 0 is always stored. A
//! later sample is stored only when its key differs from the sample before
//! it; the first and last such indices are the change range. The property's
//! group lists sample 0, then one entry per index of the change range, an
//! unchanged index repeating the entry of the sample before it.

use vstd::prelude::*;
use crate::ogawa::format::{data_offset_of, make_data_offset, EMPTY_DATA};
use crate::ogawa::writer::headers::PropertySampleState;
use crate::ogawa::writer::image::{
    ArchiveImage, ContentKey, ImageView, keyed_write, data_write, fits, raised_max, words,
    lemma_keyed_write_growth, lemma_data_write_growth,
};
use crate::ogawa::writer::write_util::{
    encode_sample_for_pod, encoded_sample, written_pod_code, pod_to_u8, write_u64_le,
};
use crate::util::error::Error;
use crate::util::pod::PlainOldDataType;

verus! {

/// The type tag of a content key: the type's code for strings and wide
/// strings, the code of `int8_t` for every other type.
pub open spec fn key_tag(pod: PlainOldDataType) -> u8 {
    if pod == PlainOldDataType::String || pod == PlainOldDataType::Wstring {
        written_pod_code(pod) as u8
    } else {
        written_pod_code(PlainOldDataType::Int8) as u8
    }
}

/// The content key of a sample: its digest, the size of its stored form and
/// the type tag.
pub open spec fn sample_key(data: Seq<u8>, digest: (u64, u64), pod: PlainOldDataType) -> ContentKey {
    ContentKey {
        digest_lo: digest.0,
        digest_hi: digest.1,
        num_bytes: encoded_sample(data, pod).len() as u64,
        pod_tag: key_tag(pod),
    }
}

/// The content keys of a list of samples with their digests.
pub open spec fn sample_keys(datas: Seq<Seq<u8>>, digests: Seq<(u64, u64)>, pod: PlainOldDataType) -> Seq<ContentKey> {
    Seq::new(datas.len(), |i: int| sample_key(datas[i], digests[i], pod))
}

/// Sample `i` is stored: it is the first, or its key differs from the key
/// of the sample before it.
pub open spec fn changed_at(ks: Seq<ContentKey>, i: int) -> bool {
    i == 0 || ks[i] != ks[i - 1]
}

/// The first stored index after 0 among the first `n` samples, or 0.
pub open spec fn first_change(ks: Seq<ContentKey>, n: int) -> int
    decreases n,
{
    if n <= 1 {
        0
    } else {
        let f = first_change(ks, n - 1);
        if f != 0 {
            f
        } else if changed_at(ks, n - 1) {
            n - 1
        } else {
            0
        }
    }
}

/// The last stored index after 0 among the first `n` samples, or 0.
pub open spec fn last_change(ks: Seq<ContentKey>, n: int) -> int
    decreases n,
{
    if n <= 1 {
        0
    } else if changed_at(ks, n - 1) {
        n - 1
    } else {
        last_change(ks, n - 1)
    }
}

/// The chunks of a list, one after the other.
pub open spec fn flat(cs: Seq<Seq<u64>>) -> Seq<u64>
    decreases cs.len(),
{
    if cs.len() == 0 {
        Seq::empty()
    } else {
        flat(cs.drop_last()) + cs.last()
    }
}

/// The children of a property group, given for each sample the entries that
/// refer to it: sample 0's, then those of each index of the change range.
pub open spec fn run_children(cs: Seq<Seq<u64>>, f: int, l: int) -> Seq<u64> {
    if cs.len() == 0 {
        Seq::empty()
    } else if f == 0 {
        cs[0]
    } else {
        cs[0] + flat(cs.subrange(f, l + 1))
    }
}

/// The sample count that a property contributes to its time sampling: 1
/// when nothing changed after the first sample, else the number of samples.
pub open spec fn max_samples_for(n: int, l: int) -> u32 {
    if l == 0 && n > 0 {
        1
    } else {
        n as u32
    }
}

/// Writing the first `n` scalar samples: the image after the writes and,
/// for each sample, the entry that refers to its stored data. A stored
/// sample is written as keyed data; an unchanged one repeats the entry
/// of the sample before it.
pub open spec fn scalar_run(
    img: ImageView,
    datas: Seq<Seq<u8>>,
    ks: Seq<ContentKey>,
    pod: PlainOldDataType,
    n: int,
) -> (ImageView, Seq<Seq<u64>>)
    decreases n,
{
    if n <= 0 {
        (img, Seq::empty())
    } else {
        let (im, cs) = scalar_run(img, datas, ks, pod, n - 1);
        if changed_at(ks, n - 1) {
            let w = keyed_write(im, ks[n - 1], encoded_sample(datas[n - 1], pod));
            (w.0, cs.push(seq![data_offset_of(w.1)]))
        } else {
            (im, cs.push(cs.last()))
        }
    }
}

/// Room for writing the first `n` samples: each takes at most its length
/// plus 32 bytes.
pub open spec fn scalar_room(datas: Seq<Seq<u8>>, n: int) -> int
    decreases n,
{
    if n <= 0 {
        0
    } else {
        scalar_room(datas, n - 1) + datas[n - 1].len() + 32
    }
}

/// The byte views of a list of samples.
pub open spec fn sample_views(samples: Seq<Vec<u8>>) -> Seq<Seq<u8>> {
    Seq::new(samples.len(), |i: int| samples[i]@)
}

proof fn lemma_scalar_room_mono(datas: Seq<Seq<u8>>, i: int, n: int)
    requires
        0 <= i <= n,
    ensures
        scalar_room(datas, i) <= scalar_room(datas, n),
    decreases n - i,
{
    if i < n {
        lemma_scalar_room_mono(datas, i, n - 1);
    }
}

proof fn lemma_flat_push(cs: Seq<Seq<u64>>, c: Seq<u64>)
    ensures
        flat(cs.push(c)) == flat(cs) + c,
{
    assert(cs.push(c).drop_last() =~= cs);
}

/// The tag of a content key for a type.
pub fn key_tag_of(pod: PlainOldDataType) -> (r: u8)
    ensures
        r == key_tag(pod),
{
    match pod {
        PlainOldDataType::String | PlainOldDataType::Wstring => pod_to_u8(pod),
        _ => pod_to_u8(PlainOldDataType::Int8),
    }
}

/// Write the samples of a scalar property into the image, given the digest
/// of each sample's stored form, and return what its header records: the
/// group children, the change range, the sample count and homogeneity. The
/// sample count is also recorded for the property's time sampling. Fails
/// when the archive is frozen and there is a sample to write.
#[verifier::spinoff_prover]
#[verifier::rlimit(40)]
pub fn collect_scalar_samples(
    img: &mut ArchiveImage,
    samples: &[Vec<u8>],
    digests: &[(u64, u64)],
    pod: PlainOldDataType,
    ts_index: u32,
) -> (r: Result<PropertySampleState, Error>)
    requires
        samples@.len() == digests@.len(),
        samples@.len() < 0x1_0000_0000,
        fits((old(img)@.bytes.len() + scalar_room(sample_views(samples@), samples@.len() as int)) as nat),
    ensures
        old(img)@.frozen && samples@.len() > 0 ==> (r matches Err(Error::Frozen) && final(img)@
            == old(img)@),
        !(old(img)@.frozen && samples@.len() > 0) ==> ({
            let n = samples@.len() as int;
            let datas = sample_views(samples@);
            let ks = sample_keys(datas, digests@, pod);
            let (after, cs) = scalar_run(old(img)@, datas, ks, pod, n);
            let f = first_change(ks, n);
            let l = last_change(ks, n);
            &&& r matches Ok(st)
            &&& st.children@ == run_children(cs, f, l)
            &&& st.first_changed_index == f
            &&& st.last_changed_index == l
            &&& st.num_samples == n
            &&& st.is_homogenous
            &&& st.sample_hash is None
            &&& final(img)@ == (ImageView {
                samplings: raised_max(after.samplings, ts_index as int, max_samples_for(n, l)),
                ..after
            })
        }),
{
    let n = samples.len();
    if n > 0 && img.is_frozen() {
        return Err(Error::Frozen);
    }
    let ghost datas = sample_views(samples@);
    let ghost ks = sample_keys(datas, digests@, pod);
    let ghost start = img@;
    let ghost base = img@.bytes.len() as int;
    let tag = key_tag_of(pod);
    let mut children: Vec<u64> = Vec::new();
    let mut first: u32 = 0;
    let mut last: u32 = 0;
    let mut prev_key = ContentKey { digest_lo: 0, digest_hi: 0, num_bytes: 0, pod_tag: 0 };
    let mut prev_pos: u64 = 0;
    let ghost mut cs: Seq<Seq<u64>> = Seq::empty();
    let mut i: usize = 0;
    while i < n
        invariant
            n == samples@.len(),
            n == digests@.len(),
            n < 0x1_0000_0000,
            i <= n,
            tag == key_tag(pod),
            datas == sample_views(samples@),
            ks == sample_keys(datas, digests@, pod),
            n > 0 ==> !start.frozen,
            fits((base + scalar_room(datas, n as int)) as nat),
            base == start.bytes.len(),
            img@.bytes.len() <= base + scalar_room(datas, i as int),
            img@.frozen == start.frozen,
            img@.samplings == start.samplings,
            (img@, cs) == scalar_run(start, datas, ks, pod, i as int),
            cs.len() == i,
            first == first_change(ks, i as int),
            last == last_change(ks, i as int),
            first == 0 ==> last == 0,
            first != 0 ==> 1 <= first <= last,
            i > 0 ==> last < i,
            i == 0 ==> children@.len() == 0,
            i > 0 ==> children@ == run_children(cs, first as int, last as int),
            i > 0 ==> prev_key == ks[i - 1] && cs[i - 1] == seq![data_offset_of(prev_pos)],
            i > 0 ==> forall|j: int| last <= j < i ==> #[trigger] cs[j] == cs[i - 1],
        decreases n - i,
    {
        let encoded = encode_sample_for_pod(samples[i].as_slice(), pod);
        let key = ContentKey {
            digest_lo: digests[i].0,
            digest_hi: digests[i].1,
            num_bytes: encoded.len() as u64,
            pod_tag: tag,
        };
        proof {
            assert(datas[i as int] == samples@[i as int]@);
            assert(key == ks[i as int]);
            assert(encoded@.len() <= datas[i as int].len() + 4);
            lemma_scalar_room_mono(datas, i + 1, n as int);
            lemma_keyed_write_growth(img@, key, encoded@);
        }
        let ghost old_cs = cs;
        if i == 0 || key != prev_key {
            assert(changed_at(ks, i as int));
            if i > 0 && first != 0 {
                let mut j: u32 = last + 1;
                while (j as usize) < i
                    invariant
                        1 <= first <= last,
                        last < i,
                        last + 1 <= j <= i,
                        i < 0x1_0000_0000,
                        cs == old_cs,
                        cs.len() == i,
                        cs[i - 1] == seq![data_offset_of(prev_pos)],
                        forall|k: int| last <= k < i ==> #[trigger] cs[k] == cs[i - 1],
                        children@ == cs[0] + flat(cs.subrange(first as int, j as int)),
                    decreases i - j,
                {
                    proof {
                        assert(cs.subrange(first as int, j + 1) =~= cs.subrange(first as int, j as int).push(cs[j as int]));
                        lemma_flat_push(cs.subrange(first as int, j as int), cs[j as int]);
                        assert(cs[j as int] == cs[i - 1]);
                    }
                    children.push(make_data_offset(prev_pos));
                    j = j + 1;
                }
            }
            let pos = match img.write_keyed_data_with_key(encoded.as_slice(), key) {
                Ok(p) => p,
                Err(e) => {
                    return Err(e);
                },
            };
            let ghost c = seq![data_offset_of(pos)];
            let ghost before = children@;
            proof {
                cs = old_cs.push(c);
                assert(cs.drop_last() =~= old_cs);
                assert(i == 0 || cs[0] == old_cs[0]);
            }
            children.push(make_data_offset(pos));
            if i != 0 {
                if first == 0 {
                    proof {
                        assert(before == old_cs[0]);
                        assert(cs.subrange(i as int, i + 1) =~= seq![c]);
                        assert(seq![c] =~= Seq::<Seq<u64>>::empty().push(c));
                        lemma_flat_push(Seq::<Seq<u64>>::empty(), c);
                        assert(flat(seq![c]) =~= c);
                        assert(children@ =~= cs[0] + flat(cs.subrange(i as int, i + 1)));
                    }
                    first = i as u32;
                } else {
                    proof {
                        assert(before == old_cs[0] + flat(old_cs.subrange(first as int, i as int)));
                        assert(cs.subrange(first as int, i + 1) =~= old_cs.subrange(first as int, i as int).push(c));
                        lemma_flat_push(old_cs.subrange(first as int, i as int), c);
                        assert(children@ =~= cs[0] + flat(cs.subrange(first as int, i + 1)));
                    }
                }
                last = i as u32;
            } else {
                assert(children@ =~= cs[0]);
            }
            prev_pos = pos;
            prev_key = key;
        } else {
            assert(!changed_at(ks, i as int));
            proof {
                cs = old_cs.push(old_cs.last());
                assert(cs.drop_last() =~= old_cs);
                assert(cs.subrange(first as int, last + 1) =~= old_cs.subrange(first as int, last + 1));
            }
        }
        i = i + 1;
    }
    let ms: u32 = if last == 0 && n > 0 { 1 } else { n as u32 };
    img.update_max_samples(ts_index, ms);
    Ok(PropertySampleState {
        children,
        sample_hash: None,
        first_changed_index: first,
        last_changed_index: last,
        is_homogenous: true,
        num_samples: n as u32,
    })
}

/// The dimensions of a sample as 64-bit values.
pub open spec fn dims_u64(d: Seq<usize>) -> Seq<u64> {
    Seq::new(d.len(), |k: int| d[k] as u64)
}

/// The product of a sample's dimensions: its number of elements.
pub open spec fn dims_product(d: Seq<usize>) -> int
    decreases d.len(),
{
    if d.len() == 0 {
        1
    } else {
        dims_product(d.drop_last()) * d.last()
    }
}

/// Every partial product of the dimensions, and the full product times the
/// extent, fit a `usize`.
pub open spec fn points_fit(d: Seq<usize>, extent: u8) -> bool {
    &&& forall|k: int| 0 <= k <= d.len() ==> #[trigger] dims_product(d.subrange(0, k)) <= usize::MAX
    &&& dims_product(d) * extent <= usize::MAX
}

/// Dimensions are stored only for a type that is a string, or for a sample
/// of rank 2 or more; otherwise the group holds the empty data marker.
pub open spec fn stores_dims(d: Seq<usize>, pod: PlainOldDataType) -> bool {
    d.len() > 1 || pod == PlainOldDataType::String || pod == PlainOldDataType::Wstring
}

/// Writing the first `n` array samples: the image after the writes and, for
/// each sample, the data entry and dimensions entry that refer to it.
pub open spec fn array_run(
    img: ImageView,
    datas: Seq<Seq<u8>>,
    dims: Seq<Seq<usize>>,
    ks: Seq<ContentKey>,
    pod: PlainOldDataType,
    n: int,
) -> (ImageView, Seq<Seq<u64>>)
    decreases n,
{
    if n <= 0 {
        (img, Seq::empty())
    } else {
        let (im, cs) = array_run(img, datas, dims, ks, pod, n - 1);
        if changed_at(ks, n - 1) {
            let w = keyed_write(im, ks[n - 1], encoded_sample(datas[n - 1], pod));
            if stores_dims(dims[n - 1], pod) {
                let d = data_write(w.0, words(dims_u64(dims[n - 1])));
                (d.0, cs.push(seq![data_offset_of(w.1), data_offset_of(d.1)]))
            } else {
                (w.0, cs.push(seq![data_offset_of(w.1), EMPTY_DATA]))
            }
        } else {
            (im, cs.push(cs.last()))
        }
    }
}

/// Room for writing the first `n` array samples.
pub open spec fn array_room(datas: Seq<Seq<u8>>, dims: Seq<Seq<usize>>, n: int) -> int
    decreases n,
{
    if n <= 0 {
        0
    } else {
        array_room(datas, dims, n - 1) + datas[n - 1].len() + 8 * dims[n - 1].len() + 48
    }
}

/// The stored sample whose dimensions enter the hash of sample `i`: the
/// last stored index up to `i`.
pub open spec fn stored_source(ks: Seq<ContentKey>, i: int) -> int
    decreases i,
{
    if i <= 0 || changed_at(ks, i) {
        i
    } else {
        stored_source(ks, i - 1)
    }
}

/// An array property is homogeneous when it has no sample, or when its
/// extent is 1 and every stored sample has as many elements as sample 0.
pub open spec fn homogeneous(dims: Seq<Seq<usize>>, ks: Seq<ContentKey>, extent: u8, n: int) -> bool {
    n == 0 || (extent == 1 && forall|i: int|
        0 <= i < n && changed_at(ks, i) ==> #[trigger] dims_product(dims[i]) == dims_product(dims[0]))
}

/// The data views of array samples.
pub open spec fn array_datas(samples: Seq<(Vec<u8>, Vec<usize>)>) -> Seq<Seq<u8>> {
    Seq::new(samples.len(), |i: int| samples[i].0@)
}

/// The dimension views of array samples.
pub open spec fn array_dims(samples: Seq<(Vec<u8>, Vec<usize>)>) -> Seq<Seq<usize>> {
    Seq::new(samples.len(), |i: int| samples[i].1@)
}

proof fn lemma_array_room_mono(datas: Seq<Seq<u8>>, dims: Seq<Seq<usize>>, i: int, n: int)
    requires
        0 <= i <= n,
    ensures
        array_room(datas, dims, i) <= array_room(datas, dims, n),
    decreases n - i,
{
    if i < n {
        lemma_array_room_mono(datas, dims, i, n - 1);
    }
}

fn dims_bytes(dims: &[usize]) -> (r: Vec<u8>)
    ensures
        r@ == words(dims_u64(dims@)),
{
    let mut out: Vec<u8> = Vec::new();
    let mut k: usize = 0;
    while k < dims.len()
        invariant
            k <= dims@.len(),
            out@ == words(dims_u64(dims@).subrange(0, k as int)),
        decreases dims@.len() - k,
    {
        write_u64_le(&mut out, dims[k] as u64);
        proof {
            let d = dims_u64(dims@);
            assert(d.subrange(0, k + 1) =~= d.subrange(0, k as int).push(d[k as int]));
            assert(d.subrange(0, k + 1).drop_last() =~= d.subrange(0, k as int));
        }
        k = k + 1;
    }
    assert(dims_u64(dims@).subrange(0, dims@.len() as int) =~= dims_u64(dims@));
    out
}

fn product_of(dims: &[usize]) -> (r: usize)
    requires
        forall|k: int| 0 <= k <= dims@.len() ==> #[trigger] dims_product(dims@.subrange(0, k)) <= usize::MAX,
    ensures
        r == dims_product(dims@),
{
    let mut p: usize = 1;
    let mut k: usize = 0;
    assert(dims@.subrange(0, 0) =~= Seq::<usize>::empty());
    while k < dims.len()
        invariant
            k <= dims@.len(),
            p == dims_product(dims@.subrange(0, k as int)),
            forall|m: int| 0 <= m <= dims@.len() ==> #[trigger] dims_product(dims@.subrange(0, m)) <= usize::MAX,
        decreases dims@.len() - k,
    {
        assert(dims@.subrange(0, k + 1).drop_last() =~= dims@.subrange(0, k as int));
        assert(dims_product(dims@.subrange(0, k + 1)) <= usize::MAX);
        p = p * dims[k];
        k = k + 1;
    }
    assert(dims@.subrange(0, dims@.len() as int) =~= dims@);
    p
}

/// Write the samples of an array property into the image, given the digest
/// of each sample's stored form, and return what its header records (group
/// children: data and dimensions of each entry; change range; count;
/// homogeneity), with, for each sample, the stored sample whose dimensions
/// enter its hash. The sample count is also recorded for the property's
/// time sampling. Fails when the archive is frozen and there is a sample.
#[verifier::spinoff_prover]
#[verifier::rlimit(100)]
pub fn collect_array_samples(
    img: &mut ArchiveImage,
    samples: &[(Vec<u8>, Vec<usize>)],
    digests: &[(u64, u64)],
    pod: PlainOldDataType,
    extent: u8,
    ts_index: u32,
) -> (r: Result<(PropertySampleState, Vec<usize>), Error>)
    requires
        samples@.len() == digests@.len(),
        samples@.len() < 0x1_0000_0000,
        forall|i: int| 0 <= i < samples@.len() ==> points_fit(#[trigger] samples@[i].1@, extent),
        fits((old(img)@.bytes.len() + array_room(
            array_datas(samples@),
            array_dims(samples@),
            samples@.len() as int,
        )) as nat),
    ensures
        old(img)@.frozen && samples@.len() > 0 ==> (r matches Err(Error::Frozen) && final(img)@
            == old(img)@),
        !(old(img)@.frozen && samples@.len() > 0) ==> ({
            let n = samples@.len() as int;
            let datas = array_datas(samples@);
            let dims = array_dims(samples@);
            let ks = sample_keys(datas, digests@, pod);
            let (after, cs) = array_run(old(img)@, datas, dims, ks, pod, n);
            let f = first_change(ks, n);
            let l = last_change(ks, n);
            &&& r matches Ok((st, sources))
            &&& st.children@ == run_children(cs, f, l)
            &&& st.first_changed_index == f
            &&& st.last_changed_index == l
            &&& st.num_samples == n
            &&& st.is_homogenous == homogeneous(dims, ks, extent, n)
            &&& st.sample_hash is None
            &&& sources@.len() == n
            &&& (forall|i: int| 0 <= i < n ==> #[trigger] sources@[i] == stored_source(ks, i))
            &&& final(img)@ == (ImageView {
                samplings: raised_max(after.samplings, ts_index as int, max_samples_for(n, l)),
                ..after
            })
        }),
{
    let n = samples.len();
    if n > 0 && img.is_frozen() {
        return Err(Error::Frozen);
    }
    let ghost datas = array_datas(samples@);
    let ghost dims = array_dims(samples@);
    let ghost ks = sample_keys(datas, digests@, pod);
    let ghost start = img@;
    let ghost base = img@.bytes.len() as int;
    let tag = key_tag_of(pod);
    let is_text = match pod {
        PlainOldDataType::String | PlainOldDataType::Wstring => true,
        _ => false,
    };
    let mut children: Vec<u64> = Vec::new();
    let mut sources: Vec<usize> = Vec::new();
    let mut first: u32 = 0;
    let mut last: u32 = 0;
    let mut homog = true;
    let mut prev_points: usize = 0;
    let mut prev_key = ContentKey { digest_lo: 0, digest_hi: 0, num_bytes: 0, pod_tag: 0 };
    let mut prev_data: u64 = 0;
    let mut prev_dims: u64 = 0;
    let ghost mut cs: Seq<Seq<u64>> = Seq::empty();
    let mut i: usize = 0;
    while i < n
        invariant
            n == samples@.len(),
            n == digests@.len(),
            n < 0x1_0000_0000,
            i <= n,
            tag == key_tag(pod),
            is_text == (pod == PlainOldDataType::String || pod == PlainOldDataType::Wstring),
            datas == array_datas(samples@),
            dims == array_dims(samples@),
            ks == sample_keys(datas, digests@, pod),
            forall|k: int| 0 <= k < samples@.len() ==> points_fit(#[trigger] samples@[k].1@, extent),
            n > 0 ==> !start.frozen,
            fits((base + array_room(datas, dims, n as int)) as nat),
            base == start.bytes.len(),
            img@.bytes.len() <= base + array_room(datas, dims, i as int),
            img@.frozen == start.frozen,
            img@.samplings == start.samplings,
            (img@, cs) == array_run(start, datas, dims, ks, pod, i as int),
            cs.len() == i,
            first == first_change(ks, i as int),
            last == last_change(ks, i as int),
            first == 0 ==> last == 0,
            first != 0 ==> 1 <= first <= last,
            i > 0 ==> last < i,
            i == 0 ==> children@.len() == 0,
            i > 0 ==> children@ == run_children(cs, first as int, last as int),
            i > 0 ==> prev_key == ks[i - 1] && cs[i - 1] == seq![data_offset_of(prev_data), prev_dims],
            i > 0 ==> forall|j: int| last <= j < i ==> #[trigger] cs[j] == cs[i - 1],
            i > 0 ==> prev_points == dims_product(dims[0]) * extent || !homog,
            homog == homogeneous(dims, ks, extent, i as int),
            i > 0 && homog ==> prev_points == dims_product(dims[0]),
            sources@.len() == i,
            forall|k: int| 0 <= k < i ==> #[trigger] sources@[k] == stored_source(ks, k),
        decreases n - i,
    {
        let encoded = encode_sample_for_pod(samples[i].0.as_slice(), pod);
        let key = ContentKey {
            digest_lo: digests[i].0,
            digest_hi: digests[i].1,
            num_bytes: encoded.len() as u64,
            pod_tag: tag,
        };
        proof {
            assert(datas[i as int] == samples@[i as int].0@);
            assert(dims[i as int] == samples@[i as int].1@);
            assert(key == ks[i as int]);
            assert(encoded@.len() <= datas[i as int].len() + 4);
            lemma_array_room_mono(datas, dims, i + 1, n as int);
            lemma_keyed_write_growth(img@, key, encoded@);
        }
        let ghost old_cs = cs;
        let ghost old_homog = homog;
        if i == 0 || key != prev_key {
            assert(changed_at(ks, i as int));
            if i > 0 && first != 0 {
                let mut j: u32 = last + 1;
                while (j as usize) < i
                    invariant
                        1 <= first <= last,
                        last < i,
                        last + 1 <= j <= i,
                        i < 0x1_0000_0000,
                        cs == old_cs,
                        cs.len() == i,
                        cs[i - 1] == seq![data_offset_of(prev_data), prev_dims],
                        forall|k: int| last <= k < i ==> #[trigger] cs[k] == cs[i - 1],
                        children@ == cs[0] + flat(cs.subrange(first as int, j as int)),
                    decreases i - j,
                {
                    proof {
                        assert(cs.subrange(first as int, j + 1) =~= cs.subrange(first as int, j as int).push(cs[j as int]));
                        lemma_flat_push(cs.subrange(first as int, j as int), cs[j as int]);
                        assert(cs[j as int] == cs[i - 1]);
                    }
                    children.push(make_data_offset(prev_data));
                    children.push(prev_dims);
                    proof {
                        assert(children@ =~= cs[0] + flat(cs.subrange(first as int, j + 1)));
                    }
                    j = j + 1;
                }
            }
            let data_pos = match img.write_keyed_data_with_key(encoded.as_slice(), key) {
                Ok(p) => p,
                Err(e) => {
                    return Err(e);
                },
            };
            let d = &samples[i].1;
            let dims_offset: u64 = if d.len() <= 1 && !is_text {
                EMPTY_DATA
            } else {
                let db = dims_bytes(d.as_slice());
                proof {
                    crate::ogawa::writer::time_table::lemma_words_len(dims_u64(d@));
                    lemma_data_write_growth(img@, db@);
                }
                let p = match img.write_data(db.as_slice()) {
                    Ok(p) => p,
                    Err(e) => {
                        return Err(e);
                    },
                };
                make_data_offset(p)
            };
            let ghost c = seq![data_offset_of(data_pos), dims_offset];
            let ghost before = children@;
            proof {
                cs = old_cs.push(c);
                assert(cs.drop_last() =~= old_cs);
                assert(i == 0 || cs[0] == old_cs[0]);
            }
            children.push(make_data_offset(data_pos));
            children.push(dims_offset);
            if i != 0 {
                if first == 0 {
                    proof {
                        assert(before == old_cs[0]);
                        assert(cs.subrange(i as int, i + 1) =~= seq![c]);
                        assert(seq![c] =~= Seq::<Seq<u64>>::empty().push(c));
                        lemma_flat_push(Seq::<Seq<u64>>::empty(), c);
                        assert(flat(seq![c]) =~= c);
                        assert(children@ =~= cs[0] + flat(cs.subrange(i as int, i + 1)));
                    }
                    first = i as u32;
                } else {
                    proof {
                        assert(before == old_cs[0] + flat(old_cs.subrange(first as int, i as int)));
                        assert(cs.subrange(first as int, i + 1) =~= old_cs.subrange(first as int, i as int).push(c));
                        lemma_flat_push(old_cs.subrange(first as int, i as int), c);
                        assert(children@ =~= cs[0] + flat(cs.subrange(first as int, i + 1)));
                    }
                }
                last = i as u32;
            } else {
                assert(children@ =~= cs[0]);
            }
            let points = product_of(d.as_slice());
            proof {
                assert(points_fit(samples@[i as int].1@, extent));
            }
            let num_points = points * (extent as usize);
            if extent != 1 {
                homog = false;
            } else if i > 0 && num_points != prev_points {
                homog = false;
            }
            proof {
                if extent == 1 {
                    assert(num_points == points) by (nonlinear_arith)
                        requires
                            extent == 1,
                            num_points == points * (extent as usize),
                    ;
                    assert(num_points == dims_product(dims[i as int]));
                }
                if homog {
                    assert forall|k: int| 0 <= k < i + 1 && changed_at(ks, k) implies #[trigger] dims_product(dims[k]) == dims_product(dims[0]) by {
                        if k < i {
                            assert(old_homog);
                        }
                    }
                } else if extent == 1 && i > 0 && old_homog {
                    assert(changed_at(ks, i as int));
                    assert(dims_product(dims[i as int]) != dims_product(dims[0]));
                }
            }
            prev_points = num_points;
            prev_data = data_pos;
            prev_dims = dims_offset;
            prev_key = key;
            sources.push(i);
        } else {
            assert(!changed_at(ks, i as int));
            proof {
                cs = old_cs.push(old_cs.last());
                assert(cs.drop_last() =~= old_cs);
                assert(cs.subrange(first as int, last + 1) =~= old_cs.subrange(first as int, last + 1));
                assert(homogeneous(dims, ks, extent, i + 1) == homogeneous(dims, ks, extent, i as int)) by {
                    if homogeneous(dims, ks, extent, i as int) {
                        assert forall|k: int| 0 <= k < i + 1 && changed_at(ks, k) implies #[trigger] dims_product(dims[k]) == dims_product(dims[0]) by {
                            if k < i {
                            }
                        }
                    }
                }
            }
            let s = sources[i - 1];
            sources.push(s);
        }
        i = i + 1;
    }
    let ms: u32 = if last == 0 && n > 0 { 1 } else { n as u32 };
    img.update_max_samples(ts_index, ms);
    let st = PropertySampleState {
        children,
        sample_hash: None,
        first_changed_index: first,
        last_changed_index: last,
        is_homogenous: homog,
        num_samples: n as u32,
    };
    Ok((st, sources))
}

/// For each array sample, the stored sample whose dimensions enter its
/// hash: the last sample up to it whose content key changed.
pub fn stored_sources(
    samples: &[(Vec<u8>, Vec<usize>)],
    digests: &[(u64, u64)],
    pod: PlainOldDataType,
) -> (r: Vec<usize>)
    requires
        samples@.len() == digests@.len(),
    ensures
        r@.len() == samples@.len(),
        forall|i: int| 0 <= i < samples@.len() ==> #[trigger] r@[i] == stored_source(
            sample_keys(array_datas(samples@), digests@, pod),
            i,
        ),
{
    let ghost ks = sample_keys(array_datas(samples@), digests@, pod);
    let tag = key_tag_of(pod);
    let mut out: Vec<usize> = Vec::new();
    let mut prev_key = ContentKey { digest_lo: 0, digest_hi: 0, num_bytes: 0, pod_tag: 0 };
    let mut i: usize = 0;
    while i < samples.len()
        invariant
            i <= samples@.len(),
            samples@.len() == digests@.len(),
            tag == key_tag(pod),
            ks == sample_keys(array_datas(samples@), digests@, pod),
            out@.len() == i,
            i > 0 ==> prev_key == ks[i - 1],
            forall|k: int| 0 <= k < i ==> #[trigger] out@[k] == stored_source(ks, k),
        decreases samples@.len() - i,
    {
        let encoded = encode_sample_for_pod(samples[i].0.as_slice(), pod);
        let key = ContentKey {
            digest_lo: digests[i].0,
            digest_hi: digests[i].1,
            num_bytes: encoded.len() as u64,
            pod_tag: tag,
        };
        assert(array_datas(samples@)[i as int] == samples@[i as int].0@);
        assert(key == ks[i as int]);
        if i == 0 || key != prev_key {
            out.push(i);
        } else {
            let s = out[i - 1];
            out.push(s);
        }
        prev_key = key;
        i = i + 1;
    }
    out
}

} // verus!
