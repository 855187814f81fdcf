//! What the header encoders write, the header decoders read back.

use vstd::prelude::*;
use vstd::utf8::encode_utf8;
use crate::ogawa::le::{le_bytes, le_value, byte_range, lemma_le_roundtrip, lemma_le_bytes_len};
use crate::ogawa::read_util::{read_hinted, hint_width};
use crate::ogawa::writer::write_util::written_width;
use crate::ogawa::read_util::{
    PropertyHeaderView, PropertyType, parse_sampling_fields, parse_header_name,
    parse_header_metadata, parse_property_header, parse_property_headers_from, text_at, info_bits,
};
use crate::ogawa::writer::headers::{
    packed_info, PropertyHeaderInput, header_info, header_bytes, sampling_bytes, name_bytes_of,
    inline_md_bytes, header_width, hint_for, header_max_field, change_flag, byte_len,
    headers_encoding, table_add, table_wf, lemma_table_add_idempotent, lemma_table_add_extends,
    table_bytes, lemma_indexed_metadata_roundtrip, object_header_bytes, object_headers_encoding,
    hash_suffix,
};
use crate::ogawa::read_util::{ObjectHeaderView, child_path, parse_object_headers, parse_object_headers_from};
use crate::ogawa::read_util::parse_indexed_metadata;
use crate::ogawa::writer::write_util::written_pod_code;
use crate::util::data_type::DataType;
use crate::util::pod::{PlainOldDataType, pod_code, lemma_pod_code_injective};
use crate::ogawa::writer::object::OObject;
use crate::ogawa::writer::headers::object_inputs;
use crate::ogawa::writer::archive::{data_at, group_at, object_group_children, extends};
use crate::ogawa::writer::image::fits;
use crate::ogawa::reader::{group_read, child_offset_of, u64_at};
use crate::ogawa::archive_reader::{child_block, child_is_data};
use crate::ogawa::format::{offset_position, lemma_child_offset_roundtrip};

verus! {

/// Reading a hinted integer where one was appended, whatever surrounds it.
proof fn lemma_read_hinted_at(a: Seq<u8>, v: nat, hint: int, b: Seq<u8>)
    requires
        0 <= hint <= 2,
        v < byte_range(hint_width(hint) as nat),
    ensures
        read_hinted(a + le_bytes(v, written_width(hint) as nat) + b, a.len() as int, hint) == Some(
            (v, a.len() + hint_width(hint)),
        ),
{
    let w = written_width(hint) as nat;
    lemma_le_roundtrip(v, w);
    let all = a + le_bytes(v, w) + b;
    assert(all.subrange(a.len() as int, a.len() + w as int) =~= le_bytes(v, w));
}

/// The fields packed in the info word of a non-compound header come back
/// out of their bit ranges.
proof fn lemma_info_fields(kind: u32, hint: u32, pod: u32, ext: u32, hb: u32, tb: u32, fl: u32, index: u32)
    by (bit_vector)
    requires
        1 <= kind < 4,
        hint < 4,
        pod < 16,
        ext < 256,
        hb == 0 || hb == 0x400,
        tb == 0 || tb == 0x100,
        fl == 0 || fl == 0x200 || fl == 0x800,
        index < 256,
    ensures
        ((hint << 2) | kind | (pod << 4) | (ext << 12) | hb | tb | fl | (index << 20)) & 3 == kind,
        (((hint << 2) | kind | (pod << 4) | (ext << 12) | hb | tb | fl | (index << 20)) & 0xc) >> 2 == hint,
        (((hint << 2) | kind | (pod << 4) | (ext << 12) | hb | tb | fl | (index << 20)) & 0xf0) >> 4 == pod,
        (((hint << 2) | kind | (pod << 4) | (ext << 12) | hb | tb | fl | (index << 20)) & 0xff000) >> 12 == ext,
        (((hint << 2) | kind | (pod << 4) | (ext << 12) | hb | tb | fl | (index << 20)) & 0xff00000) >> 20 == index,
        (((hint << 2) | kind | (pod << 4) | (ext << 12) | hb | tb | fl | (index << 20)) & 0x400 != 0) == (hb != 0),
        (((hint << 2) | kind | (pod << 4) | (ext << 12) | hb | tb | fl | (index << 20)) & 0x100 != 0) == (tb != 0),
        (((hint << 2) | kind | (pod << 4) | (ext << 12) | hb | tb | fl | (index << 20)) & 0x200 != 0) == (fl == 0x200),
        (((hint << 2) | kind | (pod << 4) | (ext << 12) | hb | tb | fl | (index << 20)) & 0x800 != 0) == (fl == 0x800),
        (((hint << 2) | kind | (pod << 4) | (ext << 12) | hb | tb | fl | (index << 20)) & 1 != 0) == (kind == 1 || kind == 3),
{
}

/// The fields packed in the info word of a compound header come back out of
/// their bit ranges.
proof fn lemma_compound_info_fields(hint: u32, index: u32)
    by (bit_vector)
    requires
        hint < 4,
        index < 256,
    ensures
        ((hint << 2) | (index << 20)) & 3 == 0,
        (((hint << 2) | (index << 20)) & 0xc) >> 2 == hint,
        (((hint << 2) | (index << 20)) & 0xff00000) >> 20 == index,
        ((hint << 2) | (index << 20)) & 1 == 0,
{
}

/// A header input the header encoding can represent: a known kind, a
/// non-empty name, texts whose byte sizes fit 32 bits, a known type for the
/// non-compound kinds, and a change range within the width the size hint
/// chooses for the other fields.
pub open spec fn header_fits(h: PropertyHeaderInput) -> bool {
    &&& h.kind < 4
    &&& h.name.len() > 0
    &&& byte_len(h.name) < 0x1_0000_0000
    &&& byte_len(h.metadata) < 0x1_0000_0000
    &&& h.kind != 0 ==> h.pod != PlainOldDataType::Unknown
    &&& h.kind != 0 ==> h.first_changed_index <= header_max_field(h)
    &&& h.kind != 0 ==> h.last_changed_index <= header_max_field(h)
}

/// What a reader decodes from the header written for `h`. A compound header
/// carries only its name and metadata; a scalar header reads back as
/// scalar-like.
pub open spec fn header_view_of(h: PropertyHeaderInput) -> PropertyHeaderView {
    if h.kind == 0 {
        PropertyHeaderView {
            name: h.name,
            property_type: PropertyType::Compound,
            metadata: h.metadata,
            data_type: DataType { pod: PlainOldDataType::Unknown, extent: 0 },
            time_sampling_index: 0,
            is_scalar_like: false,
            is_homogenous: false,
            next_sample_index: 0,
            first_changed_index: 0,
            last_changed_index: 0,
        }
    } else {
        PropertyHeaderView {
            name: h.name,
            property_type: if h.kind == 1 { PropertyType::Scalar } else { PropertyType::Array },
            metadata: h.metadata,
            data_type: DataType { pod: h.pod, extent: h.extent },
            time_sampling_index: h.time_sampling_index,
            is_scalar_like: h.kind == 1 || h.kind == 3,
            is_homogenous: h.is_homogenous,
            next_sample_index: h.num_samples,
            first_changed_index: h.first_changed_index,
            last_changed_index: h.last_changed_index,
        }
    }
}

/// Every value up to the largest field fits the width its hint chooses.
proof fn lemma_hint_bound(max: u32, v: nat)
    requires
        v <= max,
    ensures
        0 <= hint_for(max) <= 2,
        hint_width(hint_for(max) as int) == written_width(hint_for(max) as int),
        v < byte_range(hint_width(hint_for(max) as int) as nat),
{
    reveal_with_fuel(byte_range, 5);
}

/// The sampling fields are decoded from the reads of their integers.
proof fn lemma_sampling_from_reads(
    buf: Seq<u8>,
    p0: int,
    info: u32,
    w: int,
    ns: u32,
    f: u32,
    l: u32,
    t: u32,
    pc: int,
    pend: int,
)
    requires
        read_hinted(buf, p0, info_bits(info, 0xc, 2) as int) == Some((ns as nat, p0 + w)),
        info & 0x200 != 0 ==> read_hinted(buf, p0 + w, info_bits(info, 0xc, 2) as int) == Some(
            (f as nat, p0 + 2 * w),
        ),
        info & 0x200 != 0 ==> read_hinted(buf, p0 + 2 * w, info_bits(info, 0xc, 2) as int) == Some(
            (l as nat, p0 + 3 * w),
        ),
        info & 0x200 == 0 && info & 0x800 != 0 ==> f == 0 && l == 0,
        info & 0x200 == 0 && info & 0x800 == 0 ==> f == 1 && l == (if ns == 0 { 0 } else { ns - 1 }),
        pc == (if info & 0x200 != 0 { p0 + 3 * w } else { p0 + w }),
        info & 0x100 != 0 ==> read_hinted(buf, pc, info_bits(info, 0xc, 2) as int) == Some(
            (t as nat, pc + w),
        ),
        info & 0x100 == 0 ==> t == 0,
        pend == (if info & 0x100 != 0 { pc + w } else { pc }),
    ensures
        parse_sampling_fields(buf, p0, info) == Some((ns, f, l, t, pend)),
{
}

#[verifier::spinoff_prover]
proof fn lemma_sampling_parse(a: Seq<u8>, h: PropertyHeaderInput, info: u32, b: Seq<u8>)
    requires
        1 <= h.kind < 4,
        info_bits(info, 0xc, 2) == hint_for(header_max_field(h)),
        (info & 0x200 != 0) == (change_flag(h.first_changed_index, h.last_changed_index, h.num_samples) == 0x200),
        (info & 0x800 != 0) == (change_flag(h.first_changed_index, h.last_changed_index, h.num_samples) == 0x800),
        (info & 0x100 != 0) == (h.time_sampling_index != 0),
        h.first_changed_index <= header_max_field(h),
        h.last_changed_index <= header_max_field(h),
    ensures
        sampling_decodes(
            a + sampling_bytes(h, info) + b,
            a.len() as int,
            info,
            (
                h.num_samples,
                h.first_changed_index,
                h.last_changed_index,
                h.time_sampling_index,
                (a.len() + sampling_bytes(h, info).len()) as int,
            ),
        ),
{
    let max = header_max_field(h);
    let hint = hint_for(max) as int;
    let w = written_width(hint) as nat;
    lemma_hint_bound(max, h.num_samples as nat);
    lemma_hint_bound(max, h.first_changed_index as nat);
    lemma_hint_bound(max, h.last_changed_index as nat);
    lemma_hint_bound(max, h.time_sampling_index as nat);
    let n = le_bytes(h.num_samples as nat, w);
    let f = le_bytes(h.first_changed_index as nat, w);
    let l = le_bytes(h.last_changed_index as nat, w);
    let t = le_bytes(h.time_sampling_index as nat, w);
    lemma_le_bytes_len(h.num_samples as nat, w);
    lemma_le_bytes_len(h.first_changed_index as nat, w);
    lemma_le_bytes_len(h.last_changed_index as nat, w);
    lemma_le_bytes_len(h.time_sampling_index as nat, w);
    let c = if info & 0x200 != 0 { f + l } else { Seq::<u8>::empty() };
    let tt = if info & 0x100 != 0 { t } else { Seq::<u8>::empty() };
    let sb = sampling_bytes(h, info);
    assert(sb == n + c + tt);
    let buf = a + sb + b;
    let p0 = a.len() as int;
    let pc = p0 + w + c.len();
    assert(read_hinted(buf, p0, hint) == Some((h.num_samples as nat, p0 + w))) by {
        assert(buf =~= a + n + (c + tt + b));
        lemma_read_hinted_at(a, h.num_samples as nat, hint, c + tt + b);
    }
    if info & 0x200 != 0 {
        assert(read_hinted(buf, p0 + w, hint) == Some((h.first_changed_index as nat, p0 + 2 * w))) by {
            assert(buf =~= (a + n) + f + (l + tt + b));
            lemma_read_hinted_at(a + n, h.first_changed_index as nat, hint, l + tt + b);
        }
        assert(read_hinted(buf, p0 + 2 * w, hint) == Some((h.last_changed_index as nat, p0 + 3 * w))) by {
            assert(buf =~= (a + n + f) + l + (tt + b));
            lemma_read_hinted_at(a + n + f, h.last_changed_index as nat, hint, tt + b);
        }
    }
    if info & 0x100 != 0 {
        assert(read_hinted(buf, pc, hint) == Some((h.time_sampling_index as nat, pc + w))) by {
            assert(buf =~= (a + n + c) + t + b);
            lemma_read_hinted_at(a + n + c, h.time_sampling_index as nat, hint, b);
        }
    }
    assert(c.len() == (if info & 0x200 != 0 { 2 * w } else { 0 }));
    assert(tt.len() == (if info & 0x100 != 0 { w } else { 0 }));
    assert(sb.len() == w + c.len() + tt.len());
    let fl = change_flag(h.first_changed_index, h.last_changed_index, h.num_samples);
    assert(info & 0x200 == 0 && info & 0x800 != 0 ==> h.first_changed_index == 0 && h.last_changed_index == 0);
    assert(info & 0x200 == 0 && info & 0x800 == 0 ==> h.first_changed_index == 1);
    assert(info & 0x100 == 0 ==> h.time_sampling_index == 0);
    lemma_sampling_from_reads(
        buf,
        p0,
        info,
        w as int,
        h.num_samples,
        h.first_changed_index,
        h.last_changed_index,
        h.time_sampling_index,
        pc,
        p0 + sb.len(),
    );
    reveal(sampling_decodes);
}

/// A non-empty text has a non-empty encoding.
proof fn lemma_encoding_nonempty(t: Seq<char>)
    ensures
        t.len() > 0 <==> encode_utf8(t).len() > 0,
{
    if t.len() > 0 {
        assert(encode_utf8(t) == vstd::utf8::encode_scalar(t[0] as u32) + encode_utf8(t.drop_first()));
    }
}

/// The text of `n` bytes stored at `a.len()` decodes to the encoded text.
proof fn lemma_text_at(a: Seq<u8>, t: Seq<char>, b: Seq<u8>)
    ensures
        text_at(a + encode_utf8(t) + b, a.len() as int, byte_len(t) as int) == Some(t),
{
    broadcast use vstd::utf8::group_utf8_lib;

    let buf = a + encode_utf8(t) + b;
    assert(buf.subrange(a.len() as int, (a.len() + byte_len(t)) as int) =~= encode_utf8(t));
}

proof fn lemma_name_parse(a: Seq<u8>, h: PropertyHeaderInput, b: Seq<u8>)
    requires
        header_fits(h),
    ensures
        name_decodes(
            a + name_bytes_of(h) + b,
            a.len() as int,
            hint_for(header_max_field(h)) as int,
            h.name,
            (a.len() + name_bytes_of(h).len()) as int,
        ),
{
    reveal(name_decodes);
    let max = header_max_field(h);
    let hint = hint_for(max) as int;
    let w = written_width(hint) as nat;
    let nl = byte_len(h.name);
    lemma_hint_bound(max, nl);
    lemma_le_roundtrip(nl, w);
    lemma_encoding_nonempty(h.name);
    let nb = le_bytes(nl, w);
    let enc = encode_utf8(h.name);
    assert(name_bytes_of(h) == nb + enc);
    let buf = a + name_bytes_of(h) + b;
    assert(buf =~= a + nb + (enc + b));
    lemma_read_hinted_at(a, nl, hint, enc + b);
    assert(buf =~= (a + nb) + enc + b);
    lemma_text_at(a + nb, h.name, b);
}

proof fn lemma_metadata_parse(a: Seq<u8>, h: PropertyHeaderInput, idx: int, b: Seq<u8>, table: Seq<Seq<char>>)
    requires
        header_fits(h),
        0 <= idx < 256,
        idx != 0xff ==> idx < table.len() && table[idx] == h.metadata,
    ensures
        metadata_decodes(
            a + inline_md_bytes(h, idx as u32) + b,
            a.len() as int,
            hint_for(header_max_field(h)) as int,
            idx,
            table,
            h.metadata,
            (a.len() + inline_md_bytes(h, idx as u32).len()) as int,
        ),
{
    reveal(metadata_decodes);
    if idx == 0xff {
        let max = header_max_field(h);
        let hint = hint_for(max) as int;
        let w = written_width(hint) as nat;
        let ml = byte_len(h.metadata);
        lemma_hint_bound(max, ml);
        lemma_le_roundtrip(ml, w);
        lemma_encoding_nonempty(h.metadata);
        let mb = le_bytes(ml, w);
        let enc = encode_utf8(h.metadata);
        assert(inline_md_bytes(h, idx as u32) == mb + enc);
        let buf = a + inline_md_bytes(h, idx as u32) + b;
        assert(buf =~= a + mb + (enc + b));
        lemma_read_hinted_at(a, ml, hint, enc + b);
        if ml == 0 {
            assert(h.metadata =~= Seq::<char>::empty());
        } else {
            assert(buf =~= (a + mb) + enc + b);
            lemma_text_at(a + mb, h.metadata, b);
        }
    } else {
        assert(inline_md_bytes(h, idx as u32) =~= Seq::<u8>::empty());
        assert(a + inline_md_bytes(h, idx as u32) + b =~= a + b);
    }
}

/// The sampling fields at `pos` decode to `f`.
#[verifier::opaque]
spec fn sampling_decodes(buf: Seq<u8>, pos: int, info: u32, f: (u32, u32, u32, u32, int)) -> bool {
    parse_sampling_fields(buf, pos, info) == Some(f)
}

/// The name at `pos` decodes to `name`, ending at `next`.
#[verifier::opaque]
spec fn name_decodes(buf: Seq<u8>, pos: int, hint: int, name: Seq<char>, next: int) -> bool {
    parse_header_name(buf, pos, hint) == Ok::<(Seq<char>, int), crate::ogawa::read_util::HeaderError>(
        (name, next),
    )
}

/// The metadata at `pos` decodes to `md`, ending at `next`.
#[verifier::opaque]
spec fn metadata_decodes(
    buf: Seq<u8>,
    pos: int,
    hint: int,
    index: int,
    table: Seq<Seq<char>>,
    md: Seq<char>,
    next: int,
) -> bool {
    parse_header_metadata(buf, pos, hint, index, table) == Ok::<
        (Seq<char>, int),
        crate::ogawa::read_util::HeaderError,
    >((md, next))
}

/// `buf` holds at `pos` a property header that decodes to `v`, ending at
/// `next`.
#[verifier::opaque]
spec fn header_decodes(buf: Seq<u8>, pos: int, table: Seq<Seq<char>>, v: PropertyHeaderView, next: int) -> bool {
    parse_property_header(buf, pos, table) == Ok::<
        (PropertyHeaderView, int),
        crate::ogawa::read_util::HeaderError,
    >((v, next))
}

/// `buf` holds from `pos` to its end property headers that decode to `vs`.
#[verifier::opaque]
spec fn block_decodes(buf: Seq<u8>, pos: int, table: Seq<Seq<char>>, vs: Seq<PropertyHeaderView>) -> bool {
    parse_property_headers_from(buf, pos, table) == Ok::<
        Seq<PropertyHeaderView>,
        crate::ogawa::read_util::HeaderError,
    >(vs)
}

/// The fields of a decoded header, given the decoded info word and the
/// decoded parts after it.
proof fn lemma_header_from_parts(
    buf: Seq<u8>,
    pos: int,
    table: Seq<Seq<char>>,
    h: PropertyHeaderInput,
    info: u32,
    p1: int,
    p2: int,
    p3: int,
)
    requires
        h.kind < 4,
        pos + 4 <= buf.len(),
        le_value(buf.subrange(pos, pos + 4)) as u32 == info,
        info & 3 == h.kind,
        (info & 1 != 0) == (h.kind == 1 || h.kind == 3),
        h.kind != 0 ==> info_bits(info, 0xf0, 4) == pod_code(h.pod),
        h.kind != 0 ==> h.pod != PlainOldDataType::Unknown,
        h.kind != 0 ==> info_bits(info, 0xff000, 12) as u8 == h.extent,
        h.kind != 0 ==> (info & 0x400 != 0) == h.is_homogenous,
        h.kind != 0 ==> sampling_decodes(
            buf,
            pos + 4,
            info,
            (h.num_samples, h.first_changed_index, h.last_changed_index, h.time_sampling_index, p1),
        ),
        h.kind == 0 ==> p1 == pos + 4,
        p1 < p3,
        name_decodes(buf, p1, info_bits(info, 0xc, 2) as int, h.name, p2),
        metadata_decodes(
            buf,
            p2,
            info_bits(info, 0xc, 2) as int,
            info_bits(info, 0xff00000, 20) as int,
            table,
            h.metadata,
            p3,
        ),
    ensures
        header_decodes(buf, pos, table, header_view_of(h), p3),
{
    reveal(header_decodes);
    reveal(sampling_decodes);
    reveal(name_decodes);
    reveal(metadata_decodes);
    if h.kind != 0 {
        let code = info_bits(info, 0xf0, 4);
        let q = choose|q: PlainOldDataType| pod_code(q) == code;
        assert(pod_code(h.pod) == code);
        lemma_pod_code_injective(q, h.pod);
        lemma_pod_code_injective(h.pod, h.pod);
        assert(q == h.pod);
    }
}

/// One property header, written between any bytes, decodes to the header
/// view of its input; the indexed metadata entry it refers to is looked up
/// in `table`.
#[verifier::spinoff_prover]
proof fn lemma_header_parse(a: Seq<u8>, h: PropertyHeaderInput, idx: int, b: Seq<u8>, table: Seq<Seq<char>>)
    requires
        header_fits(h),
        0 <= idx < 256,
        idx != 0xff ==> idx < table.len() && table[idx] == h.metadata,
    ensures
        header_decodes(
            a + header_bytes(h, idx as u32) + b,
            a.len() as int,
            table,
            header_view_of(h),
            (a.len() + header_bytes(h, idx as u32).len()) as int,
        ),
{
    let max = header_max_field(h);
    let hint = hint_for(max);
    let info = header_info(h, idx as u32);
    let ib = le_bytes(info as nat, 4);
    let sb = sampling_bytes(h, info);
    let nb = name_bytes_of(h);
    let mb = inline_md_bytes(h, idx as u32);
    let buf = a + header_bytes(h, idx as u32) + b;
    let pos = a.len() as int;
    assert(header_bytes(h, idx as u32) == ib + sb + nb + mb);
    lemma_le_bytes_len(info as nat, 4);
    lemma_hint_bound(max, 0);
    assert({
        &&& info & 3 == h.kind
        &&& (info & 1 != 0) == (h.kind == 1 || h.kind == 3)
        &&& info_bits(info, 0xc, 2) == hint
        &&& info_bits(info, 0xff00000, 20) == idx
        &&& h.kind != 0 ==> info_bits(info, 0xf0, 4) == pod_code(h.pod)
        &&& h.kind != 0 ==> info_bits(info, 0xff000, 12) as u8 == h.extent
        &&& h.kind != 0 ==> (info & 0x400 != 0) == h.is_homogenous
        &&& h.kind != 0 ==> (info & 0x200 != 0) == (change_flag(
            h.first_changed_index,
            h.last_changed_index,
            h.num_samples,
        ) == 0x200)
        &&& h.kind != 0 ==> (info & 0x800 != 0) == (change_flag(
            h.first_changed_index,
            h.last_changed_index,
            h.num_samples,
        ) == 0x800)
        &&& h.kind != 0 ==> (info & 0x100 != 0) == (h.time_sampling_index != 0)
    }) by {
        let pod = written_pod_code(h.pod) as u32;
        let ext = h.extent as u32;
        let hb: u32 = if h.is_homogenous { 0x400 } else { 0 };
        let tb: u32 = if h.time_sampling_index != 0 { 0x100 } else { 0 };
        let fl = change_flag(h.first_changed_index, h.last_changed_index, h.num_samples);
        assert(info == packed_info(h.kind, hint, pod, ext, hb, tb, fl, idx as u32));
        if h.kind == 0 {
            lemma_compound_info_fields(hint, idx as u32);
        } else {
            lemma_pod_code_injective(h.pod, h.pod);
            lemma_info_fields(h.kind, hint, pod, ext, hb, tb, fl, idx as u32);
        }
    }
    assert(le_value(buf.subrange(pos, pos + 4)) as u32 == info) by {
        reveal_with_fuel(byte_range, 5);
        lemma_le_roundtrip(info as nat, 4);
        assert(buf.subrange(pos, pos + 4) =~= ib);
    }
    let p1 = pos + 4 + sb.len();
    let p2 = p1 + nb.len();
    let p3 = p2 + mb.len();
    assert(h.kind != 0 ==> sampling_decodes(
        buf,
        pos + 4,
        info,
        (h.num_samples, h.first_changed_index, h.last_changed_index, h.time_sampling_index, p1),
    )) by {
        if h.kind != 0 {
            assert(buf =~= (a + ib) + sb + (nb + mb + b));
            lemma_sampling_parse(a + ib, h, info, nb + mb + b);
        }
    }
    assert(h.kind == 0 ==> p1 == pos + 4) by {
        if h.kind == 0 {
            assert(sb =~= Seq::<u8>::empty());
        }
    }
    assert(name_decodes(buf, p1, hint as int, h.name, p2) && nb.len() > 0) by {
        assert(buf =~= (a + ib + sb) + nb + (mb + b));
        lemma_name_parse(a + ib + sb, h, mb + b);
        lemma_encoding_nonempty(h.name);
        lemma_le_bytes_len(byte_len(h.name) as u32 as nat, header_width(h));
    }
    assert(metadata_decodes(buf, p2, hint as int, idx, table, h.metadata, p3)) by {
        assert(buf =~= (a + ib + sb + nb) + mb + b);
        lemma_metadata_parse(a + ib + sb + nb, h, idx, b, table);
    }
    lemma_header_from_parts(buf, pos, table, h, info, p1, p2, p3);
}

/// Encoding headers keeps the metadata table well formed.
proof fn lemma_encoding_table_wf(t: Seq<Seq<char>>, hs: Seq<PropertyHeaderInput>)
    requires
        table_wf(t),
    ensures
        table_wf(headers_encoding(t, hs).1),
    decreases hs.len(),
{
    if hs.len() > 0 {
        lemma_encoding_table_wf(t, hs.drop_last());
        lemma_table_add_idempotent(headers_encoding(t, hs.drop_last()).1, hs.last().metadata);
    }
}

/// Encoding a list of headers starts with the encoding of each of its
/// prefixes, and its final table extends the table each prefix left.
proof fn lemma_encoding_extends(t: Seq<Seq<char>>, hs: Seq<PropertyHeaderInput>, k: int)
    requires
        0 <= k <= hs.len(),
    ensures
        headers_encoding(t, hs.subrange(0, k)).0.len() <= headers_encoding(t, hs).0.len(),
        headers_encoding(t, hs).0.subrange(0, headers_encoding(t, hs.subrange(0, k)).0.len() as int)
            == headers_encoding(t, hs.subrange(0, k)).0,
        headers_encoding(t, hs.subrange(0, k)).1.len() <= headers_encoding(t, hs).1.len(),
        headers_encoding(t, hs).1.subrange(0, headers_encoding(t, hs.subrange(0, k)).1.len() as int)
            == headers_encoding(t, hs.subrange(0, k)).1,
    decreases hs.len(),
{
    let ek = headers_encoding(t, hs.subrange(0, k));
    let e = headers_encoding(t, hs);
    if k == hs.len() {
        assert(hs.subrange(0, k) =~= hs);
        assert(e.0.subrange(0, e.0.len() as int) =~= e.0);
        assert(e.1.subrange(0, e.1.len() as int) =~= e.1);
    } else {
        let init = hs.drop_last();
        assert(init.subrange(0, k) =~= hs.subrange(0, k));
        lemma_encoding_extends(t, init, k);
        let ei = headers_encoding(t, init);
        lemma_table_add_extends(ei.1, hs.last().metadata);
        assert(e.0.subrange(0, ek.0.len() as int) =~= ei.0.subrange(0, ek.0.len() as int));
        assert(e.1.subrange(0, ek.1.len() as int) =~= ei.1.subrange(0, ek.1.len() as int)) by {
            let t2 = e.1;
            assert(t2.subrange(0, ei.1.len() as int) == ei.1);
            assert forall|i: int| 0 <= i < ek.1.len() implies t2[i] == ei.1[i] by {
                assert(t2.subrange(0, ei.1.len() as int)[i] == t2[i]);
            }
        }
    }
}

/// The encoding of the first `k + 1` headers is the encoding of the first
/// `k` followed by header `k`.
proof fn lemma_encoding_step(t: Seq<Seq<char>>, hs: Seq<PropertyHeaderInput>, k: int)
    requires
        0 <= k < hs.len(),
    ensures
        headers_encoding(t, hs.subrange(0, k + 1)) == ({
            let (ek, tk) = headers_encoding(t, hs.subrange(0, k));
            let (idx, t2) = table_add(tk, hs[k].metadata);
            (ek + header_bytes(hs[k], idx as u32), t2)
        }),
{
    let sub = hs.subrange(0, k + 1);
    assert(sub.drop_last() =~= hs.subrange(0, k));
    assert(sub.last() == hs[k]);
}

/// The header a writer adds for `h` refers to a table entry that holds
/// its metadata, in every table that extends the one it was added to.
proof fn lemma_table_add_entry(tk: Seq<Seq<char>>, md: Seq<char>, big: Seq<Seq<char>>)
    requires
        table_wf(tk),
        table_add(tk, md).1.len() <= big.len(),
        big.subrange(0, table_add(tk, md).1.len() as int) == table_add(tk, md).1,
    ensures
        0 <= table_add(tk, md).0 < 256,
        table_add(tk, md).0 != 0xff ==> table_add(tk, md).0 < big.len() && big[table_add(tk, md).0] == md,
{
    let (idx, t2) = table_add(tk, md);
    assert(0 <= idx < t2.len() ==> big[idx] == t2[idx]) by {
        if 0 <= idx < t2.len() {
            assert(big.subrange(0, t2.len() as int)[idx] == big[idx]);
        }
    }
    if md.len() == 0 {
        assert(md =~= tk[0]);
    } else if exists|i: int| 1 <= i < tk.len() && tk[i] == md {
    } else if tk.len() >= 255 || byte_len(md) > 255 {
    } else {
        assert(t2[tk.len() as int] == md);
    }
}

/// Decoding a header block one header further on.
proof fn lemma_parse_from_step(
    buf: Seq<u8>,
    pos: int,
    table: Seq<Seq<char>>,
    v: PropertyHeaderView,
    next: int,
    rest: Seq<PropertyHeaderView>,
)
    requires
        0 <= pos < next,
        pos < buf.len(),
        header_decodes(buf, pos, table, v, next),
        block_decodes(buf, next, table, rest),
    ensures
        block_decodes(buf, pos, table, seq![v] + rest),
{
    reveal(header_decodes);
    reveal(block_decodes);
}

/// The headers from the `k`-th on decode to their views.
#[verifier::spinoff_prover]
proof fn lemma_parse_headers_from(t: Seq<Seq<char>>, hs: Seq<PropertyHeaderInput>, k: int)
    requires
        table_wf(t),
        forall|i: int| 0 <= i < hs.len() ==> header_fits(#[trigger] hs[i]),
        0 <= k <= hs.len(),
    ensures
        block_decodes(
            headers_encoding(t, hs).0,
            headers_encoding(t, hs.subrange(0, k)).0.len() as int,
            headers_encoding(t, hs).1,
            Seq::new((hs.len() - k) as nat, |i: int| header_view_of(hs[k + i])),
        ),
    decreases hs.len() - k,
{
    let (e, big) = headers_encoding(t, hs);
    let (ek, tk) = headers_encoding(t, hs.subrange(0, k));
    if k == hs.len() {
        assert(hs.subrange(0, k) =~= hs);
        assert(Seq::new((hs.len() - k) as nat, |i: int| header_view_of(hs[k + i])) =~= Seq::<
            PropertyHeaderView,
        >::empty());
        reveal(block_decodes);
    } else {
        lemma_parse_headers_from(t, hs, k + 1);
        lemma_encoding_step(t, hs, k);
        lemma_encoding_extends(t, hs, k + 1);
        lemma_encoding_table_wf(t, hs.subrange(0, k));
        let h = hs[k];
        let (idx, t2) = table_add(tk, h.metadata);
        let hb = header_bytes(h, idx as u32);
        let e1 = ek + hb;
        let rest = e.subrange(e1.len() as int, e.len() as int);
        assert(e =~= ek + hb + rest) by {
            assert(e.subrange(0, e1.len() as int) == e1);
        }
        lemma_table_add_entry(tk, h.metadata, big);
        lemma_le_bytes_len(header_info(h, idx as u32) as nat, 4);
        assert(hb.len() >= 4);
        let tail = Seq::new((hs.len() - k - 1) as nat, |i: int| header_view_of(hs[k + 1 + i]));
        lemma_header_parse(ek, h, idx, rest, big);
        assert(Seq::new((hs.len() - (k + 1)) as nat, |i: int| header_view_of(hs[(k + 1) + i])) =~= tail);
        lemma_parse_from_step(e, ek.len() as int, big, header_view_of(h), e1.len() as int, tail);
        assert(Seq::new((hs.len() - k) as nat, |i: int| header_view_of(hs[k + i])) =~= seq![
            header_view_of(h),
        ] + tail);
    }
}

/// What a writer emits for a list of property headers, with the metadata
/// table it leaves, reads back: the table comes back entry for entry from
/// its serialized form, and the header block decodes, against that table,
/// to the view of every header in order.
pub proof fn lemma_property_headers_roundtrip(t: Seq<Seq<char>>, hs: Seq<PropertyHeaderInput>)
    requires
        table_wf(t),
        forall|i: int| 0 <= i < hs.len() ==> header_fits(#[trigger] hs[i]),
    ensures
        parse_indexed_metadata(table_bytes(headers_encoding(t, hs).1.drop_first())) == Ok::<
            Seq<Seq<char>>,
            crate::ogawa::read_util::HeaderError,
        >(headers_encoding(t, hs).1),
        parse_property_headers_from(headers_encoding(t, hs).0, 0, headers_encoding(t, hs).1) == Ok::<
            Seq<PropertyHeaderView>,
            crate::ogawa::read_util::HeaderError,
        >(Seq::new(hs.len(), |i: int| header_view_of(hs[i]))),
{
    lemma_encoding_table_wf(t, hs);
    lemma_indexed_metadata_roundtrip(headers_encoding(t, hs).1);
    lemma_parse_headers_from(t, hs, 0);
    reveal(block_decodes);
    assert(hs.subrange(0, 0) =~= Seq::<PropertyHeaderInput>::empty());
    assert(Seq::new((hs.len() - 0) as nat, |i: int| header_view_of(hs[0 + i])) =~= Seq::new(
        hs.len(),
        |i: int| header_view_of(hs[i]),
    ));
}

/// A child object the object header encoding can represent: a non-empty
/// name, and texts whose byte sizes fit 32 bits.
pub open spec fn object_fits(c: (Seq<char>, Seq<char>)) -> bool {
    &&& c.0.len() > 0
    &&& byte_len(c.0) < 0x1_0000_0000
    &&& byte_len(c.1) < 0x1_0000_0000
}

/// What a reader decodes from the header written for child `c` of `parent`.
pub open spec fn object_view(parent: Seq<char>, c: (Seq<char>, Seq<char>)) -> ObjectHeaderView {
    ObjectHeaderView { name: c.0, full_name: child_path(parent, c.0), metadata: c.1 }
}

/// `buf` holds from `pos` to its end object headers that decode to `vs`.
#[verifier::opaque]
spec fn object_block_decodes(
    buf: Seq<u8>,
    pos: int,
    parent: Seq<char>,
    table: Seq<Seq<char>>,
    vs: Seq<ObjectHeaderView>,
) -> bool {
    parse_object_headers_from(buf, pos, parent, table) == Ok::<
        Seq<ObjectHeaderView>,
        crate::ogawa::read_util::HeaderError,
    >(vs)
}

/// A 4-byte size written where a reader expects it reads back.
proof fn lemma_read_u32_at(a: Seq<u8>, v: nat, b: Seq<u8>)
    requires
        v < 0x1_0000_0000,
    ensures
        le_value((a + le_bytes(v, 4) + b).subrange(a.len() as int, a.len() + 4int)) == v,
        le_bytes(v, 4).len() == 4,
{
    reveal_with_fuel(byte_range, 5);
    lemma_le_roundtrip(v, 4);
    assert((a + le_bytes(v, 4) + b).subrange(a.len() as int, a.len() + 4int) =~= le_bytes(v, 4));
}

/// One object header in front of headers that decode to `rest`.
#[verifier::spinoff_prover]
proof fn lemma_object_header_step(
    a: Seq<u8>,
    c: (Seq<char>, Seq<char>),
    idx: int,
    b: Seq<u8>,
    parent: Seq<char>,
    table: Seq<Seq<char>>,
    rest: Seq<ObjectHeaderView>,
)
    requires
        object_fits(c),
        0 <= idx < 256,
        idx != 0xff ==> idx < table.len() && table[idx] == c.1,
        object_block_decodes(
            a + object_header_bytes(c.0, c.1, idx) + b,
            (a.len() + object_header_bytes(c.0, c.1, idx).len()) as int,
            parent,
            table,
            rest,
        ),
    ensures
        object_block_decodes(
            a + object_header_bytes(c.0, c.1, idx) + b,
            a.len() as int,
            parent,
            table,
            seq![object_view(parent, c)] + rest,
        ),
{
    let nl = byte_len(c.0);
    let ml = byte_len(c.1);
    let ns = le_bytes(nl as u32 as nat, 4);
    let ne = encode_utf8(c.0);
    let ib = le_bytes(idx as nat, 1);
    let ms = le_bytes(ml as u32 as nat, 4);
    let me = encode_utf8(c.1);
    let mb = if idx == 0xff { ms + me } else { Seq::<u8>::empty() };
    let ohb = object_header_bytes(c.0, c.1, idx);
    assert(ohb == ns + ne + ib + mb);
    let buf = a + ohb + b;
    let pos = a.len() as int;
    let p = pos + 4;
    let p3 = p + nl + 1;
    lemma_encoding_nonempty(c.0);
    assert(le_value(buf.subrange(pos, pos + 4)) as int == nl && ns.len() == 4) by {
        assert(buf =~= a + ns + (ne + ib + mb + b));
        lemma_read_u32_at(a, nl, ne + ib + mb + b);
    }
    assert(text_at(buf, p, nl as int) == Some(c.0)) by {
        assert(buf =~= (a + ns) + ne + (ib + mb + b));
        lemma_text_at(a + ns, c.0, ib + mb + b);
    }
    assert(buf[p + nl] as int == idx && ib.len() == 1) by {
        reveal_with_fuel(le_bytes, 2);
        assert(ib =~= seq![idx as u8]);
        assert(buf[p + nl] == ib[0]);
    }
    if idx == 0xff {
        assert(le_value(buf.subrange(p3, p3 + 4)) as int == ml && ms.len() == 4) by {
            assert(buf =~= (a + ns + ne + ib) + ms + (me + b));
            lemma_read_u32_at(a + ns + ne + ib, ml, me + b);
        }
        assert(text_at(buf, p3 + 4, ml as int) == Some(c.1)) by {
            assert(buf =~= (a + ns + ne + ib + ms) + me + b);
            lemma_text_at(a + ns + ne + ib + ms, c.1, b);
        }
        assert(p3 + 4 + ml == a.len() + ohb.len());
    } else {
        assert(p3 == a.len() + ohb.len());
    }
    reveal(object_block_decodes);
}

/// Encoding object headers keeps the metadata table well formed.
proof fn lemma_object_encoding_table_wf(t: Seq<Seq<char>>, cs: Seq<(Seq<char>, Seq<char>)>)
    requires
        table_wf(t),
    ensures
        table_wf(object_headers_encoding(t, cs).1),
    decreases cs.len(),
{
    if cs.len() > 0 {
        lemma_object_encoding_table_wf(t, cs.drop_last());
        lemma_table_add_idempotent(object_headers_encoding(t, cs.drop_last()).1, cs.last().1);
    }
}

/// Encoding a list of object headers starts with the encoding of each of its
/// prefixes, and its final table extends the table each prefix left.
proof fn lemma_object_encoding_extends(t: Seq<Seq<char>>, cs: Seq<(Seq<char>, Seq<char>)>, k: int)
    requires
        0 <= k <= cs.len(),
    ensures
        object_headers_encoding(t, cs.subrange(0, k)).0.len() <= object_headers_encoding(t, cs).0.len(),
        object_headers_encoding(t, cs).0.subrange(
            0,
            object_headers_encoding(t, cs.subrange(0, k)).0.len() as int,
        ) == object_headers_encoding(t, cs.subrange(0, k)).0,
        object_headers_encoding(t, cs.subrange(0, k)).1.len() <= object_headers_encoding(t, cs).1.len(),
        object_headers_encoding(t, cs).1.subrange(
            0,
            object_headers_encoding(t, cs.subrange(0, k)).1.len() as int,
        ) == object_headers_encoding(t, cs.subrange(0, k)).1,
    decreases cs.len(),
{
    let ek = object_headers_encoding(t, cs.subrange(0, k));
    let e = object_headers_encoding(t, cs);
    if k == cs.len() {
        assert(cs.subrange(0, k) =~= cs);
        assert(e.0.subrange(0, e.0.len() as int) =~= e.0);
        assert(e.1.subrange(0, e.1.len() as int) =~= e.1);
    } else {
        let init = cs.drop_last();
        assert(init.subrange(0, k) =~= cs.subrange(0, k));
        lemma_object_encoding_extends(t, init, k);
        let ei = object_headers_encoding(t, init);
        lemma_table_add_extends(ei.1, cs.last().1);
        assert(e.0.subrange(0, ek.0.len() as int) =~= ei.0.subrange(0, ek.0.len() as int));
        assert(e.1.subrange(0, ek.1.len() as int) =~= ei.1.subrange(0, ek.1.len() as int)) by {
            let t2 = e.1;
            assert(t2.subrange(0, ei.1.len() as int) == ei.1);
            assert forall|i: int| 0 <= i < ek.1.len() implies t2[i] == ei.1[i] by {
                assert(t2.subrange(0, ei.1.len() as int)[i] == t2[i]);
            }
        }
    }
}

/// The object headers from the `k`-th on decode to their views.
#[verifier::spinoff_prover]
proof fn lemma_parse_objects_from(t: Seq<Seq<char>>, cs: Seq<(Seq<char>, Seq<char>)>, parent: Seq<char>, k: int)
    requires
        table_wf(t),
        forall|i: int| 0 <= i < cs.len() ==> object_fits(#[trigger] cs[i]),
        0 <= k <= cs.len(),
    ensures
        object_block_decodes(
            object_headers_encoding(t, cs).0,
            object_headers_encoding(t, cs.subrange(0, k)).0.len() as int,
            parent,
            object_headers_encoding(t, cs).1,
            Seq::new((cs.len() - k) as nat, |i: int| object_view(parent, cs[k + i])),
        ),
    decreases cs.len() - k,
{
    let (e, big) = object_headers_encoding(t, cs);
    let (ek, tk) = object_headers_encoding(t, cs.subrange(0, k));
    if k == cs.len() {
        assert(cs.subrange(0, k) =~= cs);
        assert(Seq::new((cs.len() - k) as nat, |i: int| object_view(parent, cs[k + i])) =~= Seq::<
            ObjectHeaderView,
        >::empty());
        reveal(object_block_decodes);
    } else {
        lemma_parse_objects_from(t, cs, parent, k + 1);
        let sub = cs.subrange(0, k + 1);
        assert(sub.drop_last() =~= cs.subrange(0, k));
        assert(sub.last() == cs[k]);
        lemma_object_encoding_extends(t, cs, k + 1);
        lemma_object_encoding_table_wf(t, cs.subrange(0, k));
        let c = cs[k];
        let (idx, t2) = table_add(tk, c.1);
        let hb = object_header_bytes(c.0, c.1, idx);
        let e1 = ek + hb;
        let rest = e.subrange(e1.len() as int, e.len() as int);
        assert(e =~= ek + hb + rest) by {
            assert(e.subrange(0, e1.len() as int) == e1);
        }
        lemma_table_add_entry(tk, c.1, big);
        let tail = Seq::new((cs.len() - k - 1) as nat, |i: int| object_view(parent, cs[k + 1 + i]));
        assert(Seq::new((cs.len() - (k + 1)) as nat, |i: int| object_view(parent, cs[(k + 1) + i])) =~= tail);
        lemma_object_header_step(ek, c, idx, rest, parent, big, tail);
        assert(Seq::new((cs.len() - k) as nat, |i: int| object_view(parent, cs[k + i])) =~= seq![
            object_view(parent, c),
        ] + tail);
    }
}

/// What a writer emits for the children of an object, with the metadata
/// table it leaves, reads back: a reader of the block (whose last 32 bytes
/// hold the digests) decodes, against that table, each child's name, full
/// path under `parent` and metadata, in order.
pub proof fn lemma_object_headers_roundtrip(
    t: Seq<Seq<char>>,
    cs: Seq<(Seq<char>, Seq<char>)>,
    parent: Seq<char>,
    data_hash1: u64,
    data_hash2: u64,
    child_hash1: u64,
    child_hash2: u64,
)
    requires
        table_wf(t),
        forall|i: int| 0 <= i < cs.len() ==> object_fits(#[trigger] cs[i]),
    ensures
        parse_object_headers(
            object_headers_encoding(t, cs).0 + hash_suffix(data_hash1, data_hash2, child_hash1, child_hash2),
            parent,
            object_headers_encoding(t, cs).1,
        ) == Ok::<Seq<ObjectHeaderView>, crate::ogawa::read_util::HeaderError>(
            Seq::new(cs.len(), |i: int| object_view(parent, cs[i])),
        ),
{
    let (e, big) = object_headers_encoding(t, cs);
    let hs = hash_suffix(data_hash1, data_hash2, child_hash1, child_hash2);
    lemma_le_bytes_len(data_hash1 as nat, 8);
    lemma_le_bytes_len(data_hash2 as nat, 8);
    lemma_le_bytes_len(child_hash1 as nat, 8);
    lemma_le_bytes_len(child_hash2 as nat, 8);
    assert(hs.len() == 32);
    let buf = e + hs;
    assert(buf.subrange(0, buf.len() - 32) =~= e);
    if cs.len() == 0 {
        assert(e.len() == 0);
        assert(Seq::new(cs.len(), |i: int| object_view(parent, cs[i])) =~= Seq::<ObjectHeaderView>::empty());
    } else {
        lemma_parse_objects_from(t, cs, parent, 0);
        reveal(object_block_decodes);
        assert(cs.subrange(0, 0) =~= Seq::<(Seq<char>, Seq<char>)>::empty());
        assert(Seq::new((cs.len() - 0) as nat, |i: int| object_view(parent, cs[0 + i])) =~= Seq::new(
            cs.len(),
            |i: int| object_view(parent, cs[i]),
        ));
        if e.len() == 0 {
            let sub = cs.subrange(0, 1);
            assert(sub.drop_last() =~= cs.subrange(0, 0));
            lemma_object_encoding_extends(t, cs, 1);
            lemma_encoding_nonempty(cs[0].0);
        }
    }
}

/// A group the writer placed at a position other than 0 reads back with
/// the same children: its count and each child offset, in order.
pub proof fn lemma_group_reads_back(bytes: Seq<u8>, pos: u64, cs: Seq<u64>)
    requires
        crate::ogawa::writer::archive::group_at(bytes, pos as int, cs),
        pos > 0,
        bytes.len() <= u64::MAX,
    ensures
        crate::ogawa::reader::group_readable(bytes, pos, false),
        crate::ogawa::reader::group_read(bytes, pos, false).num_children == cs.len(),
        cs.len() > 0 ==> crate::ogawa::reader::group_read(bytes, pos, false).child_offsets == cs,
{
    let n = cs.len();
    let blk = crate::ogawa::writer::image::group_block(cs);
    crate::ogawa::writer::time_table::lemma_words_len(cs);
    crate::ogawa::le::lemma_le_bytes_len(n, 8);
    reveal_with_fuel(crate::ogawa::le::byte_range, 9);
    assert(n < 0x1_0000_0000_0000_0000);
    crate::ogawa::le::lemma_le_roundtrip(n, 8);
    assert(bytes.subrange(pos as int, pos + 8) =~= blk.subrange(0, 8));
    assert(blk.subrange(0, 8) =~= crate::ogawa::le::le_bytes(n, 8));
    assert(crate::ogawa::reader::u64_at(bytes, pos as int) == n);
    if n > 0 {
        let offs = crate::ogawa::reader::group_offsets(bytes, pos as int, n as int);
        let sub = bytes.subrange(pos as int, pos + 8 + 8 * n);
        assert(sub == blk);
        assert forall|i: int| 0 <= i < n implies #[trigger] offs[i] == cs[i] by {
            crate::ogawa::writer::time_table::lemma_words_index(cs, i);
            assert(bytes.subrange(pos + 8 + 8 * i, pos + 8 + 8 * i + 8) =~= sub.subrange(8 + 8 * i, 16 + 8 * i));
            assert(sub.subrange(8 + 8 * i, 16 + 8 * i) =~= crate::ogawa::writer::image::words(cs).subrange(8 * i, 8 * i + 8));
            crate::ogawa::le::lemma_le_roundtrip(cs[i] as nat, 8);
        }
        assert(offs =~= cs);
    }
}

/// A data block the writer placed at a position other than 0 reads back
/// with the same size and bytes.
pub proof fn lemma_data_reads_back(bytes: Seq<u8>, pos: u64, data: Seq<u8>)
    requires
        crate::ogawa::writer::archive::data_at(bytes, pos as int, data),
        pos > 0,
        bytes.len() <= u64::MAX,
    ensures
        crate::ogawa::reader::data_read(bytes, pos).size == data.len(),
        pos + 8 + data.len() <= bytes.len(),
        bytes.subrange(pos + 8, pos + 8 + data.len()) == data,
{
    let n = data.len();
    crate::ogawa::le::lemma_le_bytes_len(n, 8);
    reveal_with_fuel(crate::ogawa::le::byte_range, 9);
    crate::ogawa::le::lemma_le_roundtrip(n, 8);
    let blk = crate::ogawa::writer::image::data_block(data);
    assert(bytes.subrange(pos as int, pos + 8) =~= blk.subrange(0, 8));
    assert(blk.subrange(0, 8) =~= crate::ogawa::le::le_bytes(n, 8));
    assert(bytes.subrange(pos + 8, pos + 8 + n) =~= blk.subrange(8, 8 + n as int));
    assert(blk.subrange(8, 8 + n as int) =~= data);
}


/// The entries of `t1` keep their indices in `t2`.
pub open spec fn table_prefix(t1: Seq<Seq<char>>, t2: Seq<Seq<char>>) -> bool {
    t1.len() <= t2.len() && t2.subrange(0, t1.len() as int) == t1
}

pub proof fn lemma_table_prefix_refl(t: Seq<Seq<char>>)
    ensures
        table_prefix(t, t),
{
    assert(t.subrange(0, t.len() as int) =~= t);
}

pub proof fn lemma_table_prefix_trans(a: Seq<Seq<char>>, b: Seq<Seq<char>>, c: Seq<Seq<char>>)
    requires
        table_prefix(a, b),
        table_prefix(b, c),
    ensures
        table_prefix(a, c),
{
    assert(c.subrange(0, a.len() as int) =~= c.subrange(0, b.len() as int).subrange(0, a.len() as int));
}

/// Encoding property headers only adds entries to the metadata table.
pub proof fn lemma_headers_encoding_prefix(t: Seq<Seq<char>>, hs: Seq<PropertyHeaderInput>)
    ensures
        table_prefix(t, headers_encoding(t, hs).1),
    decreases hs.len(),
{
    if hs.len() == 0 {
        lemma_table_prefix_refl(t);
    } else {
        lemma_headers_encoding_prefix(t, hs.drop_last());
        let t1 = headers_encoding(t, hs.drop_last()).1;
        lemma_table_add_extends(t1, hs.last().metadata);
        lemma_table_prefix_trans(t, t1, headers_encoding(t, hs).1);
    }
}

/// Encoding object headers only adds entries to the metadata table.
pub proof fn lemma_object_encoding_prefix(t: Seq<Seq<char>>, cs: Seq<(Seq<char>, Seq<char>)>)
    ensures
        table_prefix(t, object_headers_encoding(t, cs).1),
    decreases cs.len(),
{
    if cs.len() == 0 {
        lemma_table_prefix_refl(t);
    } else {
        lemma_object_encoding_prefix(t, cs.drop_last());
        let t1 = object_headers_encoding(t, cs.drop_last()).1;
        lemma_table_add_extends(t1, cs.last().1);
        lemma_table_prefix_trans(t, t1, object_headers_encoding(t, cs).1);
    }
}

/// The object header block at `hp` holds the headers of `children`, encoded
/// against a metadata table whose result `t` extends, and the 32 digest
/// bytes.
pub open spec fn header_block_at(bytes: Seq<u8>, hp: u64, children: Seq<OObject>, t: Seq<Seq<char>>) -> bool {
    exists|tk: Seq<Seq<char>>, h: (u64, u64, u64, u64)|
        #[trigger] data_at(
            bytes,
            hp as int,
            object_headers_encoding(tk, object_inputs(children)).0 + hash_suffix(h.0, h.1, h.2, h.3),
        ) && table_wf(tk) && table_prefix(object_headers_encoding(tk, object_inputs(children)).1, t)
}

/// A header block stays where it was as the image grows and the table
/// gains entries.
pub proof fn lemma_header_block_extends(
    a: Seq<u8>,
    b: Seq<u8>,
    hp: u64,
    children: Seq<OObject>,
    t1: Seq<Seq<char>>,
    t2: Seq<Seq<char>>,
)
    requires
        header_block_at(a, hp, children, t1),
        extends(a, b),
        table_prefix(t1, t2),
    ensures
        header_block_at(b, hp, children, t2),
{
    let (tk, h) = choose|tk: Seq<Seq<char>>, h: (u64, u64, u64, u64)|
        #[trigger] data_at(
            a,
            hp as int,
            object_headers_encoding(tk, object_inputs(children)).0 + hash_suffix(h.0, h.1, h.2, h.3),
        ) && table_wf(tk) && table_prefix(object_headers_encoding(tk, object_inputs(children)).1, t1);
    let data = object_headers_encoding(tk, object_inputs(children)).0 + hash_suffix(h.0, h.1, h.2, h.3);
    let end = hp + 8 + data.len();
    assert(b.subrange(hp as int, end) =~= a.subrange(hp as int, end)) by {
        assert(b.subrange(hp as int, end) =~= b.subrange(0, a.len() as int).subrange(hp as int, end));
    }
    assert(data_at(b, hp as int, data));
    lemma_table_prefix_trans(object_headers_encoding(tk, object_inputs(children)).1, t1, t2);
}

/// Decoding object headers that decode against a table gives the same
/// headers against any table that extends it.
pub proof fn lemma_parse_objects_prefix(
    buf: Seq<u8>,
    pos: int,
    parent: Seq<char>,
    t1: Seq<Seq<char>>,
    t2: Seq<Seq<char>>,
)
    requires
        parse_object_headers_from(buf, pos, parent, t1) is Ok,
        table_prefix(t1, t2),
    ensures
        parse_object_headers_from(buf, pos, parent, t2) == parse_object_headers_from(buf, pos, parent, t1),
    decreases buf.len() - pos,
{
    if pos >= buf.len() || pos < 0 || pos + 4 > buf.len() {
    } else {
        let ns = le_value(buf.subrange(pos, pos + 4)) as int;
        let p = pos + 4;
        if ns == 0 || p + ns + 1 > buf.len() {
        } else {
            match text_at(buf, p, ns) {
                None => {},
                Some(name) => {
                    let idx = buf[p + ns] as int;
                    let p3 = p + ns + 1;
                    if idx == 0xff {
                        if p3 + 4 <= buf.len() {
                            let ms = le_value(buf.subrange(p3, p3 + 4)) as int;
                            if p3 + 4 + ms <= buf.len() {
                                if text_at(buf, p3 + 4, ms) is Some {
                                    lemma_parse_objects_prefix(buf, p3 + 4 + ms, parent, t1, t2);
                                }
                            }
                        }
                    } else if idx < t1.len() {
                        assert(t2[idx] == t1[idx]) by {
                            assert(t2.subrange(0, t1.len() as int)[idx] == t2[idx]);
                        }
                        lemma_parse_objects_prefix(buf, p3, parent, t1, t2);
                    }
                },
            }
        }
    }
}

/// A header's metadata that decodes against a table decodes the same
/// against any table that extends it.
proof fn lemma_header_metadata_prefix(
    buf: Seq<u8>,
    pos: int,
    hint: int,
    index: int,
    t1: Seq<Seq<char>>,
    t2: Seq<Seq<char>>,
)
    requires
        parse_header_metadata(buf, pos, hint, index, t1) is Ok,
        table_prefix(t1, t2),
        index >= 0,
    ensures
        parse_header_metadata(buf, pos, hint, index, t2) == parse_header_metadata(buf, pos, hint, index, t1),
{
    if index != 0xff && index < t1.len() {
        assert(t2[index] == t1[index]) by {
            assert(t2.subrange(0, t1.len() as int)[index] == t2[index]);
        }
    }
}

/// A property header that decodes against a table decodes the same against
/// any table that extends it.
proof fn lemma_property_header_prefix(buf: Seq<u8>, pos: int, t1: Seq<Seq<char>>, t2: Seq<Seq<char>>)
    requires
        parse_property_header(buf, pos, t1) is Ok,
        table_prefix(t1, t2),
    ensures
        parse_property_header(buf, pos, t2) == parse_property_header(buf, pos, t1),
{
    if pos + 4 <= buf.len() {
        let info = le_value(buf.subrange(pos, pos + 4)) as u32;
        let hint = info_bits(info, 0xc, 2) as int;
        let index = info_bits(info, 0xff00000, 20) as int;
        assert forall|p2: int| #[trigger]
            parse_header_metadata(buf, p2, hint, index, t1) is Ok implies parse_header_metadata(
            buf,
            p2,
            hint,
            index,
            t2,
        ) == parse_header_metadata(buf, p2, hint, index, t1) by {
            lemma_header_metadata_prefix(buf, p2, hint, index, t1, t2);
        }
    }
}

/// Decoding property headers that decode against a table gives the same
/// headers against any table that extends it.
pub proof fn lemma_parse_properties_prefix(buf: Seq<u8>, pos: int, t1: Seq<Seq<char>>, t2: Seq<Seq<char>>)
    requires
        parse_property_headers_from(buf, pos, t1) is Ok,
        table_prefix(t1, t2),
    ensures
        parse_property_headers_from(buf, pos, t2) == parse_property_headers_from(buf, pos, t1),
    decreases buf.len() - pos,
{
    if pos < buf.len() && pos >= 0 {
        lemma_property_header_prefix(buf, pos, t1, t2);
        match parse_property_header(buf, pos, t1) {
            Ok((h, next)) => {
                if next > pos {
                    lemma_parse_properties_prefix(buf, next, t1, t2);
                }
            },
            Err(_) => {},
        }
    }
}

/// The children an object was written with read back from its group: the
/// group's last child is a data block whose object headers decode, against
/// any later metadata table of the archive, to the children in order (each
/// one's name, its full path under `parent` and its metadata text).
pub proof fn lemma_object_children_read_back(
    bytes: Seq<u8>,
    pos: u64,
    pp: u64,
    cps: Seq<u64>,
    hp: u64,
    children: Seq<OObject>,
    t: Seq<Seq<char>>,
    parent: Seq<char>,
)
    requires
        group_at(bytes, pos as int, object_group_children(pp, cps, hp)),
        pos >= 16,
        hp >= 16,
        header_block_at(bytes, hp, children, t),
        fits(bytes.len()),
        forall|i: int| 0 <= i < children.len() ==> object_fits(#[trigger] object_inputs(children)[i]),
    ensures
        ({
            let g = group_read(bytes, pos, false);
            &&& g.num_children == cps.len() + 2
            &&& child_is_data(bytes, g, g.num_children - 1)
            &&& crate::ogawa::archive_reader::block_readable(bytes, g, g.num_children - 1)
            &&& parse_object_headers(child_block(bytes, g, g.num_children - 1), parent, t) == Ok::<
                Seq<ObjectHeaderView>,
                crate::ogawa::read_util::HeaderError,
            >(Seq::new(children.len(), |i: int| object_view(parent, object_inputs(children)[i])))
        }),
{
    let kids = object_group_children(pp, cps, hp);
    assert(kids.len() == cps.len() + 2);
    lemma_group_reads_back(bytes, pos, kids);
    let g = group_read(bytes, pos, false);
    let last = g.num_children - 1;
    assert(child_offset_of(bytes, g, last) == kids[last]);
    assert(kids[last] == crate::ogawa::format::data_offset_of(hp));
    let (tk, h) = choose|tk: Seq<Seq<char>>, h: (u64, u64, u64, u64)|
        #[trigger] data_at(
            bytes,
            hp as int,
            object_headers_encoding(tk, object_inputs(children)).0 + hash_suffix(h.0, h.1, h.2, h.3),
        ) && table_wf(tk) && table_prefix(object_headers_encoding(tk, object_inputs(children)).1, t);
    let cs = object_inputs(children);
    let data = object_headers_encoding(tk, cs).0 + hash_suffix(h.0, h.1, h.2, h.3);
    assert(hp < 0x8000_0000_0000_0000);
    lemma_child_offset_roundtrip(hp);
    lemma_data_reads_back(bytes, hp, data);
    assert(u64_at(bytes, hp as int) == data.len());
    assert(child_block(bytes, g, last) == data);
    assert forall|i: int| 0 <= i < cs.len() implies object_fits(#[trigger] cs[i]) by {
        assert(object_inputs(children)[i] == cs[i]);
    }
    lemma_object_headers_roundtrip(tk, cs, parent, h.0, h.1, h.2, h.3);
    let t1 = object_headers_encoding(tk, cs).1;
    if data.len() > 32 {
        assert(data.subrange(0, data.len() - 32) =~= object_headers_encoding(tk, cs).0) by {
            lemma_le_bytes_len(h.0 as nat, 8);
            lemma_le_bytes_len(h.1 as nat, 8);
            lemma_le_bytes_len(h.2 as nat, 8);
            lemma_le_bytes_len(h.3 as nat, 8);
        }
        lemma_parse_objects_prefix(data.subrange(0, data.len() - 32), 0, parent, t1, t);
    }
}

} // verus!
