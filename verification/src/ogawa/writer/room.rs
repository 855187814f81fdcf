//! How many bytes the parts of an archive take at most: sample runs, the
//! children of property groups, header blocks, the metadata table and the
//! time sampling table.

use vstd::prelude::*;
use crate::ogawa::le::lemma_le_bytes_len;
use crate::ogawa::writer::headers::{
    PropertyHeaderInput, header_bytes, header_info, headers_encoding, header_width, table_add, byte_len,
    object_header_bytes, object_headers_encoding, table_bytes, entry_bytes, table_wf,
};
use crate::ogawa::writer::image::{
    ImageView, ContentKey, keyed_write, data_write, words, lemma_keyed_write_growth, lemma_data_write_growth,
};
use crate::ogawa::writer::samples::{
    scalar_run, array_run, scalar_room, array_room, changed_at, first_change, last_change, flat,
    run_children, dims_u64, stores_dims,
};
use crate::ogawa::writer::time_table::{samplings_bytes, sampling_bytes, lemma_words_len};
use crate::ogawa::writer::write_util::encoded_sample;
use crate::util::pod::PlainOldDataType;

verus! {

/// Writing `n` scalar samples grows the image by at most their room, and
/// gives each sample one child entry.
pub proof fn lemma_scalar_run_room(
    img: ImageView,
    datas: Seq<Seq<u8>>,
    ks: Seq<ContentKey>,
    pod: PlainOldDataType,
    n: int,
)
    requires
        n >= 0,
    ensures
        scalar_run(img, datas, ks, pod, n).0.bytes.len() <= img.bytes.len() + scalar_room(datas, n),
        scalar_run(img, datas, ks, pod, n).1.len() == n,
        forall|i: int| 0 <= i < n ==> (#[trigger] scalar_run(img, datas, ks, pod, n).1[i]).len() == 1,
    decreases n,
{
    if n > 0 {
        lemma_scalar_run_room(img, datas, ks, pod, n - 1);
        let (im, cs) = scalar_run(img, datas, ks, pod, n - 1);
        if changed_at(ks, n - 1) {
            let data = encoded_sample(datas[n - 1], pod);
            assert(data.len() <= datas[n - 1].len() + 4);
            lemma_keyed_write_growth(im, ks[n - 1], data);
        } else {
            assert(n - 1 > 0);
            assert(cs.last() == cs[n - 2]);
        }
        let r = scalar_run(img, datas, ks, pod, n).1;
        assert forall|i: int| 0 <= i < n implies (#[trigger] r[i]).len() == 1 by {
            if i < n - 1 {
                assert(r[i] == cs[i]);
            }
        }
    }
}

/// Writing `n` array samples grows the image by at most their room, and
/// gives each sample two child entries.
pub proof fn lemma_array_run_room(
    img: ImageView,
    datas: Seq<Seq<u8>>,
    dims: Seq<Seq<usize>>,
    ks: Seq<ContentKey>,
    pod: PlainOldDataType,
    n: int,
)
    requires
        n >= 0,
    ensures
        array_run(img, datas, dims, ks, pod, n).0.bytes.len() <= img.bytes.len() + array_room(datas, dims, n),
        array_run(img, datas, dims, ks, pod, n).1.len() == n,
        forall|i: int| 0 <= i < n ==> (#[trigger] array_run(img, datas, dims, ks, pod, n).1[i]).len() == 2,
    decreases n,
{
    if n > 0 {
        lemma_array_run_room(img, datas, dims, ks, pod, n - 1);
        let (im, cs) = array_run(img, datas, dims, ks, pod, n - 1);
        if changed_at(ks, n - 1) {
            let data = encoded_sample(datas[n - 1], pod);
            assert(data.len() <= datas[n - 1].len() + 4);
            lemma_keyed_write_growth(im, ks[n - 1], data);
            let w = keyed_write(im, ks[n - 1], data);
            if stores_dims(dims[n - 1], pod) {
                lemma_data_write_growth(w.0, words(dims_u64(dims[n - 1])));
                lemma_words_len(dims_u64(dims[n - 1]));
            }
        } else {
            assert(n - 1 > 0);
            assert(cs.last() == cs[n - 2]);
        }
        let r = array_run(img, datas, dims, ks, pod, n).1;
        assert forall|i: int| 0 <= i < n implies (#[trigger] r[i]).len() == 2 by {
            if i < n - 1 {
                assert(r[i] == cs[i]);
            }
        }
    }
}

/// The room of scalar samples is never negative.
pub proof fn lemma_scalar_room_nonneg(datas: Seq<Seq<u8>>, n: int)
    ensures
        scalar_room(datas, n) >= 0,
    decreases n,
{
    if n > 0 {
        lemma_scalar_room_nonneg(datas, n - 1);
    }
}

/// The room of array samples is never negative.
pub proof fn lemma_array_room_nonneg(datas: Seq<Seq<u8>>, dims: Seq<Seq<usize>>, n: int)
    ensures
        array_room(datas, dims, n) >= 0,
    decreases n,
{
    if n > 0 {
        lemma_array_room_nonneg(datas, dims, n - 1);
    }
}

/// The last changed sample of `n` samples is one of them, and a first
/// changed sample after 0 comes no later than the last.
pub proof fn lemma_change_order(ks: Seq<ContentKey>, n: int)
    requires
        n >= 1,
    ensures
        0 <= last_change(ks, n) <= n - 1,
        0 <= first_change(ks, n),
        first_change(ks, n) != 0 ==> 1 <= first_change(ks, n) <= last_change(ks, n),
    decreases n,
{
    if n > 1 {
        lemma_change_order(ks, n - 1);
    }
}

/// Chunks of at most `w` entries flatten to at most `w` entries each.
proof fn lemma_flat_len(cs: Seq<Seq<u64>>, w: int)
    requires
        w >= 0,
        forall|i: int| 0 <= i < cs.len() ==> (#[trigger] cs[i]).len() <= w,
    ensures
        flat(cs).len() <= w * cs.len(),
    decreases cs.len(),
{
    if cs.len() > 0 {
        let init = cs.drop_last();
        assert forall|i: int| 0 <= i < init.len() implies (#[trigger] init[i]).len() <= w by {
            assert(init[i] == cs[i]);
        }
        lemma_flat_len(init, w);
        assert(w * cs.len() == w * init.len() + w) by (nonlinear_arith)
            requires
                cs.len() == init.len() + 1,
        ;
    }
}

/// The children of a property group made of `n` chunks of at most `w`
/// entries, with a change range inside the samples, are at most `w * n`.
pub proof fn lemma_run_children_len(cs: Seq<Seq<u64>>, f: int, l: int, w: int)
    requires
        w >= 0,
        forall|i: int| 0 <= i < cs.len() ==> (#[trigger] cs[i]).len() <= w,
        cs.len() > 0 ==> 0 <= l <= cs.len() - 1,
        f != 0 ==> 1 <= f <= l,
    ensures
        run_children(cs, f, l).len() <= w * cs.len(),
{
    if cs.len() > 0 {
        assert(cs[0].len() <= w);
        if f == 0 {
            assert(w <= w * cs.len()) by (nonlinear_arith)
                requires
                    w >= 0,
                    cs.len() >= 1,
            ;
        } else {
            let sub = cs.subrange(f, l + 1);
            assert forall|i: int| 0 <= i < sub.len() implies (#[trigger] sub[i]).len() <= w by {
                assert(sub[i] == cs[f + i]);
            }
            lemma_flat_len(sub, w);
            assert(w + w * sub.len() <= w * cs.len()) by (nonlinear_arith)
                requires
                    w >= 0,
                    sub.len() + 1 <= cs.len(),
            ;
        }
    }
}

/// The most bytes one property header takes: its info word, up to four
/// sampling fields and two size fields of four bytes each, its name and its
/// metadata text.
pub open spec fn header_room(h: PropertyHeaderInput) -> nat {
    28 + byte_len(h.name) + byte_len(h.metadata)
}

/// The most bytes the first `n` headers of `hs` take.
pub open spec fn headers_room(hs: Seq<PropertyHeaderInput>, n: int) -> nat
    decreases n,
{
    if n <= 0 {
        0
    } else {
        headers_room(hs, n - 1) + header_room(hs[n - 1])
    }
}

proof fn lemma_headers_room_prefix(a: Seq<PropertyHeaderInput>, b: Seq<PropertyHeaderInput>, n: int)
    requires
        forall|k: int| 0 <= k < n ==> a[k] == b[k],
    ensures
        headers_room(a, n) == headers_room(b, n),
    decreases n,
{
    if n > 0 {
        lemma_headers_room_prefix(a, b, n - 1);
    }
}

/// A property header takes at most its room.
proof fn lemma_header_bytes_len(h: PropertyHeaderInput, index: u32)
    ensures
        header_bytes(h, index).len() <= header_room(h),
{
    let w = header_width(h);
    assert(w <= 4);
    lemma_le_bytes_len(header_info(h, index) as nat, 4);
    lemma_le_bytes_len(h.num_samples as nat, w);
    lemma_le_bytes_len(h.first_changed_index as nat, w);
    lemma_le_bytes_len(h.last_changed_index as nat, w);
    lemma_le_bytes_len(h.time_sampling_index as nat, w);
    lemma_le_bytes_len(byte_len(h.name) as u32 as nat, w);
    lemma_le_bytes_len(byte_len(h.metadata) as u32 as nat, w);
}

/// A block of property headers takes at most the headers' rooms together.
pub proof fn lemma_headers_encoding_len(t: Seq<Seq<char>>, hs: Seq<PropertyHeaderInput>)
    ensures
        headers_encoding(t, hs).0.len() <= headers_room(hs, hs.len() as int),
    decreases hs.len(),
{
    if hs.len() > 0 {
        let init = hs.drop_last();
        lemma_headers_encoding_len(t, init);
        lemma_headers_room_prefix(init, hs, init.len() as int);
        let (prev, t1) = headers_encoding(t, init);
        let (idx, t2) = table_add(t1, hs.last().metadata);
        lemma_header_bytes_len(hs.last(), idx as u32);
    }
}

/// The most bytes the headers of the first `n` child objects take, each
/// given by its name and metadata text.
pub open spec fn objects_room(cs: Seq<(Seq<char>, Seq<char>)>, n: int) -> nat
    decreases n,
{
    if n <= 0 {
        0
    } else {
        objects_room(cs, n - 1) + 9 + byte_len(cs[n - 1].0) + byte_len(cs[n - 1].1)
    }
}

proof fn lemma_objects_room_prefix(a: Seq<(Seq<char>, Seq<char>)>, b: Seq<(Seq<char>, Seq<char>)>, n: int)
    requires
        forall|k: int| 0 <= k < n ==> a[k] == b[k],
    ensures
        objects_room(a, n) == objects_room(b, n),
    decreases n,
{
    if n > 0 {
        lemma_objects_room_prefix(a, b, n - 1);
    }
}

/// A block of object headers takes at most the objects' rooms together.
pub proof fn lemma_object_headers_len(t: Seq<Seq<char>>, cs: Seq<(Seq<char>, Seq<char>)>)
    ensures
        object_headers_encoding(t, cs).0.len() <= objects_room(cs, cs.len() as int),
    decreases cs.len(),
{
    if cs.len() > 0 {
        let init = cs.drop_last();
        lemma_object_headers_len(t, init);
        lemma_objects_room_prefix(init, cs, init.len() as int);
        let (prev, t1) = object_headers_encoding(t, init);
        let (idx, t2) = table_add(t1, cs.last().1);
        lemma_le_bytes_len(byte_len(cs.last().0) as u32 as nat, 4);
        lemma_le_bytes_len(idx as nat, 1);
        lemma_le_bytes_len(byte_len(cs.last().1) as u32 as nat, 4);
        assert(object_header_bytes(cs.last().0, cs.last().1, idx).len() <= 9 + byte_len(cs.last().0) + byte_len(
            cs.last().1,
        ));
    }
}

/// The most bytes the stored metadata table takes.
pub open spec fn table_room() -> nat {
    65024
}

proof fn lemma_table_bytes_len(es: Seq<Seq<char>>)
    requires
        forall|i: int| 0 <= i < es.len() ==> byte_len(#[trigger] es[i]) <= 255,
    ensures
        table_bytes(es).len() <= 256 * es.len(),
    decreases es.len(),
{
    if es.len() > 0 {
        let init = es.drop_last();
        assert forall|i: int| 0 <= i < init.len() implies byte_len(#[trigger] init[i]) <= 255 by {
            assert(init[i] == es[i]);
        }
        lemma_table_bytes_len(init);
        assert(entry_bytes(es.last()).len() == 1 + byte_len(es.last()));
    }
}

/// A well-formed metadata table is stored in at most `table_room()` bytes.
pub proof fn lemma_table_room(t: Seq<Seq<char>>)
    requires
        table_wf(t),
    ensures
        table_bytes(t.drop_first()).len() <= table_room(),
{
    let es = t.drop_first();
    assert forall|i: int| 0 <= i < es.len() implies byte_len(#[trigger] es[i]) <= 255 by {
        assert(es[i] == t[i + 1]);
    }
    lemma_table_bytes_len(es);
}

/// Time sampling tables whose samplings have the same times are stored in
/// the same number of bytes, whatever their sample counts.
pub proof fn lemma_samplings_len(a: Seq<(u32, u64, Seq<u64>)>, b: Seq<(u32, u64, Seq<u64>)>)
    requires
        a.len() == b.len(),
        forall|i: int| 0 <= i < a.len() ==> (#[trigger] a[i]).2 == b[i].2,
    ensures
        samplings_bytes(a).len() == samplings_bytes(b).len(),
    decreases a.len(),
{
    if a.len() > 0 {
        let a1 = a.drop_first();
        let b1 = b.drop_first();
        assert forall|i: int| 0 <= i < a1.len() implies (#[trigger] a1[i]).2 == b1[i].2 by {
            assert(a1[i] == a[i + 1]);
            assert(b1[i] == b[i + 1]);
        }
        lemma_samplings_len(a1, b1);
        lemma_le_bytes_len(a[0].0 as nat, 4);
        lemma_le_bytes_len(b[0].0 as nat, 4);
        lemma_le_bytes_len(a[0].1 as nat, 8);
        lemma_le_bytes_len(b[0].1 as nat, 8);
        lemma_le_bytes_len(a[0].2.len(), 4);
        lemma_le_bytes_len(b[0].2.len(), 4);
        assert(sampling_bytes(a[0]).len() == sampling_bytes(b[0]).len());
    }
}

} // verus!
