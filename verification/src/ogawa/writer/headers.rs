//! Encoders of the header blocks a writer emits: the indexed metadata
//! table, property headers and object headers.

use vstd::prelude::*;
use vstd::utf8::encode_utf8;
use crate::ogawa::read_util::{text_views, parse_indexed_metadata, parse_indexed_metadata_from, text_at};
use crate::util::metadata::{MetaData, metadata_pairs, metadata_text};
use crate::ogawa::writer::write_util::{extend_bytes, write_with_hint, write_u64_le, written_width, written_pod_code, pod_to_u8};
use crate::ogawa::writer::object::OObject;
use crate::ogawa::writer::property::{OProperty, OPropertyData, sample_count};
use crate::ogawa::le::le_bytes;
use crate::util::pod::PlainOldDataType;

verus! {

broadcast use vstd::utf8::group_utf8_lib;

/// The number of bytes of the UTF-8 encoding of a text.
pub open spec fn byte_len(t: Seq<char>) -> nat {
    encode_utf8(t).len()
}

/// The serialized text of metadata.
pub open spec fn md_text(md: MetaData) -> Seq<char> {
    metadata_text(metadata_pairs(md))
}

/// The table of metadata texts shared by the headers of an archive. Entry 0
/// is the empty text; the other entries are distinct, non-empty texts of at
/// most 255 bytes, and there are at most 255 entries.
pub struct MetadataIndex {
    entries: Vec<String>,
}

/// A metadata table is well formed.
pub open spec fn table_wf(t: Seq<Seq<char>>) -> bool {
    &&& 1 <= t.len() <= 255
    &&& t[0].len() == 0
    &&& forall|i: int| 1 <= i < t.len() ==> t[i].len() > 0 && byte_len(#[trigger] t[i]) <= 255
    &&& forall|i: int, j: int| 0 <= i < j < t.len() ==> t[i] != t[j]
}

/// The result of looking up or adding `text` in a table: the index written
/// in headers (0 for the empty text, 0xff when the text is stored inline)
/// and the table afterwards.
pub open spec fn table_add(t: Seq<Seq<char>>, text: Seq<char>) -> (int, Seq<Seq<char>>) {
    if text.len() == 0 {
        (0, t)
    } else if exists|i: int| 1 <= i < t.len() && t[i] == text {
        (choose|i: int| 1 <= i < t.len() && t[i] == text, t)
    } else if t.len() >= 255 || byte_len(text) > 255 {
        (0xff, t)
    } else {
        (t.len() as int, t.push(text))
    }
}

/// The table taken over from another archive's list of metadata: the empty
/// text, then the texts of every entry but the first.
pub open spec fn copied_table(metadata: Seq<MetaData>) -> Seq<Seq<char>> {
    seq![Seq::<char>::empty()] + if metadata.len() == 0 {
        Seq::<Seq<char>>::empty()
    } else {
        metadata.drop_first().map_values(|m: MetaData| md_text(m))
    }
}

impl View for MetadataIndex {
    type V = Seq<Seq<char>>;

    closed spec fn view(&self) -> Seq<Seq<char>> {
        text_views(self.entries@)
    }
}

impl MetadataIndex {
    /// The table is well formed.
    pub open spec fn wf(&self) -> bool {
        table_wf(self@)
    }

    /// A table holding only the empty entry 0.
    pub fn new() -> (r: Self)
        ensures
            r.wf(),
            r@ == seq![Seq::<char>::empty()],
    {
        let mut entries: Vec<String> = Vec::new();
        entries.push(String::new());
        let r = MetadataIndex { entries };
        assert(r@ =~= seq![Seq::<char>::empty()]);
        r
    }

    /// The entries of the table, as a reader receives them.
    pub fn entries(&self) -> (r: &[String])
        ensures
            text_views(r@) == self@,
    {
        self.entries.as_slice()
    }

    /// Look up the serialized text of `md`, adding it when it is new and
    /// fits; return the index to write in a header.
    pub fn add_indexed_metadata(&mut self, md: &MetaData) -> (r: u8)
        requires
            old(self).wf(),
        ensures
            final(self).wf(),
            (r as int, final(self)@) == table_add(old(self)@, md_text(*md)),
    {
        let text = md.serialize();
        let ghost t = self@;
        if text.as_str().is_empty() {
            return 0;
        }
        let mut i: usize = 1;
        while i < self.entries.len()
            invariant
                1 <= i <= self.entries@.len(),
                t == self@,
                t == old(self)@,
                table_wf(t),
                text@ == md_text(*md),
                forall|j: int| 1 <= j < i ==> t[j] != text@,
            decreases self.entries@.len() - i,
        {
            if self.entries[i] == text {
                let ghost k = choose|k: int| 1 <= k < t.len() && t[k] == text@;
                assert(k == i) by {
                    if k != i {
                        assert(t[k] == t[i as int]);
                    }
                }
                return i as u8;
            }
            i = i + 1;
        }
        if self.entries.len() >= 255 || text.as_str().as_bytes().len() > 255 {
            return 0xff;
        }
        let idx = self.entries.len();
        let ghost tv = text@;
        self.entries.push(text);
        assert(self@ =~= t.push(tv));
        idx as u8
    }

    /// Replace the table by that of another archive, to copy headers that
    /// refer to its indices: entry 0 is the empty text and entry `i > 0` is
    /// the text of `metadata[i]`.
    pub fn set_indexed_metadata(&mut self, metadata: &[MetaData])
        requires
            table_wf(copied_table(metadata@)),
        ensures
            final(self).wf(),
            final(self)@ == copied_table(metadata@),
    {
        let mut entries: Vec<String> = Vec::new();
        entries.push(String::new());
        let mut i: usize = 1;
        while i < metadata.len()
            invariant
                1 <= i,
                metadata@.len() > 0 ==> i <= metadata@.len(),
                text_views(entries@) == copied_table(metadata@.subrange(0, if metadata@.len() == 0 { 0 } else { i as int })),
            decreases metadata@.len() - i,
        {
            let t = metadata[i].serialize();
            proof {
                let before = metadata@.subrange(0, i as int);
                let after = metadata@.subrange(0, i + 1);
                assert(after.drop_first() =~= before.drop_first().push(metadata@[i as int]));
                assert(text_views(entries@.push(t)) =~= text_views(entries@).push(t@));
                assert(after.drop_first().map_values(|m: MetaData| md_text(m)) =~= before.drop_first().map_values(
                    |m: MetaData| md_text(m),
                ).push(md_text(metadata@[i as int])));
            }
            entries.push(t);
            i = i + 1;
        }
        proof {
            if metadata@.len() > 0 {
                assert(metadata@.subrange(0, metadata@.len() as int) =~= metadata@);
            } else {
                assert(text_views(entries@) =~= copied_table(metadata@));
            }
        }
        self.entries = entries;
    }

    /// Serialize the table entries after entry 0: each as a size byte and
    /// its UTF-8 bytes.
    pub fn serialize_indexed_metadata(&self) -> (r: Vec<u8>)
        requires
            self.wf(),
        ensures
            r@ == table_bytes(self@.drop_first()),
    {
        let ghost t = self@;
        let mut buf: Vec<u8> = Vec::new();
        let mut i: usize = 1;
        assert(t.drop_first().subrange(0, 0) =~= Seq::<Seq<char>>::empty());
        while i < self.entries.len()
            invariant
                1 <= i <= self.entries@.len(),
                t == self@,
                table_wf(t),
                buf@ == table_bytes(t.drop_first().subrange(0, i - 1)),
            decreases self.entries@.len() - i,
        {
            let bytes = self.entries[i].as_str().as_bytes();
            assert(t[i as int] == self.entries@[i as int]@);
            assert(byte_len(t[i as int]) <= 255);
            buf.push(bytes.len() as u8);
            extend_bytes(&mut buf, bytes);
            proof {
                let e = t.drop_first().subrange(0, i as int);
                assert(e.drop_last() =~= t.drop_first().subrange(0, i - 1));
                assert(e.last() == t[i as int]);
            }
            i = i + 1;
        }
        assert(t.drop_first().subrange(0, t.len() - 1) =~= t.drop_first());
        buf
    }
}

/// The stored form of one table entry: its byte length and its bytes.
pub open spec fn entry_bytes(e: Seq<char>) -> Seq<u8> {
    seq![byte_len(e) as u8] + encode_utf8(e)
}

/// The stored form of a list of table entries.
pub open spec fn table_bytes(es: Seq<Seq<char>>) -> Seq<u8>
    decreases es.len(),
{
    if es.len() == 0 {
        Seq::empty()
    } else {
        table_bytes(es.drop_last()) + entry_bytes(es.last())
    }
}

proof fn lemma_table_bytes_front(es: Seq<Seq<char>>)
    requires
        es.len() > 0,
    ensures
        table_bytes(es) == entry_bytes(es[0]) + table_bytes(es.drop_first()),
    decreases es.len(),
{
    if es.len() == 1 {
        assert(es.drop_last() =~= Seq::<Seq<char>>::empty());
        assert(es.drop_first() =~= Seq::<Seq<char>>::empty());
        assert(table_bytes(es.drop_last()) =~= Seq::<u8>::empty());
        assert(es.last() == es[0]);
        assert(table_bytes(es) =~= entry_bytes(es[0]));
    } else {
        lemma_table_bytes_front(es.drop_last());
        assert(es.drop_last().drop_first() =~= es.drop_first().drop_last());
        assert(es.drop_first().last() == es.last());
        assert(table_bytes(es) =~= entry_bytes(es[0]) + table_bytes(es.drop_first()));
    }
}

proof fn lemma_table_bytes_len(es: Seq<Seq<char>>)
    requires
        forall|i: int| 0 <= i < es.len() ==> byte_len(#[trigger] es[i]) <= 255,
    ensures
        table_bytes(es).len() <= 256 * es.len(),
    decreases es.len(),
{
    if es.len() > 0 {
        lemma_table_bytes_len(es.drop_last());
        assert(byte_len(es[es.len() - 1]) <= 255);
    }
}

proof fn lemma_parse_table_bytes(prefix: Seq<u8>, es: Seq<Seq<char>>)
    requires
        forall|i: int| 0 <= i < es.len() ==> byte_len(#[trigger] es[i]) <= 255,
    ensures
        parse_indexed_metadata_from(prefix + table_bytes(es), prefix.len() as int) == Ok::<
            Seq<Seq<char>>,
            crate::ogawa::read_util::HeaderError,
        >(es),
    decreases es.len(),
{
    let buf = prefix + table_bytes(es);
    if es.len() == 0 {
        assert(buf.len() == prefix.len());
        assert(es =~= Seq::<Seq<char>>::empty());
    } else {
        lemma_table_bytes_front(es);
        let e = es[0];
        assert(byte_len(es[0]) <= 255);
        let piece = entry_bytes(e);
        let rest = es.drop_first();
        assert(forall|i: int| 0 <= i < rest.len() ==> byte_len(#[trigger] rest[i]) <= 255) by {
            assert forall|i: int| 0 <= i < rest.len() implies byte_len(#[trigger] rest[i]) <= 255 by {
                assert(rest[i] == es[i + 1]);
            }
        }
        lemma_parse_table_bytes(prefix + piece, rest);
        assert(buf =~= (prefix + piece) + table_bytes(rest));
        let p: int = prefix.len() as int + 1;
        assert(buf[prefix.len() as int] == byte_len(e) as u8);
        assert(buf.subrange(p, p + byte_len(e) as int) =~= encode_utf8(e));
        if e.len() == 0 {
            assert(encode_utf8(e).len() == 0);
        } else {
            assert(text_at(buf, p, byte_len(e) as int) == Some(e));
        }
        assert(e.len() == 0 ==> e =~= Seq::<char>::empty());
        assert((prefix + piece).len() == p + byte_len(e));
        assert(buf[prefix.len() as int] as int == byte_len(e));
        assert(parse_indexed_metadata_from(buf, p + byte_len(e)) == Ok::<
            Seq<Seq<char>>,
            crate::ogawa::read_util::HeaderError,
        >(rest));
        assert(p + byte_len(e) <= buf.len());
        let ent: Option<Seq<char>> = if byte_len(e) == 0 {
            Some(Seq::empty())
        } else {
            text_at(buf, p, byte_len(e) as int)
        };
        assert(ent == Some(e));
        assert(parse_indexed_metadata_from(buf, prefix.len() as int) == Ok::<
            Seq<Seq<char>>,
            crate::ogawa::read_util::HeaderError,
        >(seq![e] + rest));
        assert(seq![e] + rest =~= es);
    }
}

/// The indexed metadata table a writer serializes is read back entry for
/// entry, the implicit empty entry 0 included.
pub proof fn lemma_indexed_metadata_roundtrip(t: Seq<Seq<char>>)
    requires
        table_wf(t),
    ensures
        parse_indexed_metadata(table_bytes(t.drop_first())) == Ok::<
            Seq<Seq<char>>,
            crate::ogawa::read_util::HeaderError,
        >(t),
{
    let es = t.drop_first();
    assert(forall|i: int| 0 <= i < es.len() ==> byte_len(#[trigger] es[i]) <= 255) by {
        assert forall|i: int| 0 <= i < es.len() implies byte_len(#[trigger] es[i]) <= 255 by {
            assert(es[i] == t[i + 1]);
        }
    }
    lemma_table_bytes_len(es);
    lemma_parse_table_bytes(Seq::empty(), es);
    assert(Seq::<u8>::empty() + table_bytes(es) =~= table_bytes(es));
    assert(t[0] =~= Seq::<char>::empty());
    assert(seq![Seq::<char>::empty()] + es =~= t);
}

/// Accumulated sampling state of a property, as collected while its samples
/// are written.
#[derive(Debug)]
pub struct PropertySampleState {
    pub children: Vec<u64>,
    pub sample_hash: Option<(u64, u64)>,
    pub first_changed_index: u32,
    pub last_changed_index: u32,
    pub is_homogenous: bool,
    pub num_samples: u32,
}

impl Default for PropertySampleState {
    fn default() -> (r: Self)
        ensures
            r.children@.len() == 0,
            r.sample_hash is None,
            r.first_changed_index == 0,
            r.last_changed_index == 0,
            r.is_homogenous,
            r.num_samples == 0,
    {
        PropertySampleState {
            children: Vec::new(),
            sample_hash: None,
            first_changed_index: 0,
            last_changed_index: 0,
            is_homogenous: true,
            num_samples: 0,
        }
    }
}

/// What a property header records about a property.
pub struct PropertyHeaderInput {
    pub name: Seq<char>,
    /// 0 compound, 1 scalar, 2 array, 3 scalar-like array.
    pub kind: u32,
    pub pod: PlainOldDataType,
    pub extent: u8,
    pub time_sampling_index: u32,
    pub metadata: Seq<char>,
    pub num_samples: u32,
    pub first_changed_index: u32,
    pub last_changed_index: u32,
    pub is_homogenous: bool,
}

/// The header fields of a property, with its sampling state when one was
/// collected (otherwise the property's own sample count and change range).
pub open spec fn header_input(prop: OProperty, state: Option<PropertySampleState>) -> PropertyHeaderInput {
    PropertyHeaderInput {
        name: prop.name@,
        kind: match prop.data {
            OPropertyData::Compound(_) => 0,
            OPropertyData::Scalar(_) => 1,
            OPropertyData::Array(_) => if prop.is_scalar_like { 3 } else { 2 },
        },
        pod: prop.data_type.pod,
        extent: prop.data_type.extent,
        time_sampling_index: prop.time_sampling_index,
        metadata: md_text(prop.meta_data),
        num_samples: match state {
            Some(s) => s.num_samples,
            None => sample_count(prop) as u32,
        },
        first_changed_index: match state {
            Some(s) => s.first_changed_index,
            None => prop.first_changed_index,
        },
        last_changed_index: match state {
            Some(s) => s.last_changed_index,
            None => prop.last_changed_index,
        },
        is_homogenous: match prop.data {
            OPropertyData::Array(_) => match state {
                Some(s) => s.is_homogenous,
                None => true,
            },
            _ => true,
        },
    }
}

/// The size hint chosen for the largest field value: one byte up to 255,
/// two bytes below 65536, four bytes otherwise.
pub open spec fn hint_for(max_size: u32) -> u32 {
    if max_size > 255 && max_size < 65536 {
        1
    } else if max_size >= 65536 {
        2
    } else {
        0
    }
}

/// The largest of the values a header stores with the size hint (but the
/// change range): metadata size, name size, sample count, time sampling.
pub open spec fn header_max_field(h: PropertyHeaderInput) -> u32 {
    let m = byte_len(h.metadata) as u32;
    let n = byte_len(h.name) as u32;
    let a = if m >= n { m } else { n };
    let b = if a >= h.num_samples { a } else { h.num_samples };
    if b >= h.time_sampling_index { b } else { h.time_sampling_index }
}

/// The change-range flag of a header: 0x800 when nothing changes, 0x200 when
/// the range is stored explicitly, 0 for the default range (1, samples - 1).
pub open spec fn change_flag(first: u32, last: u32, num_samples: u32) -> u32 {
    if first == 0 && last == 0 {
        0x800
    } else if first != 1 || last != (if num_samples == 0 { 0 } else { (num_samples - 1) as u32 }) {
        0x200
    } else {
        0
    }
}

/// The info word packing the fields of a header.
pub open spec fn packed_info(
    kind: u32,
    hint: u32,
    pod: u32,
    extent: u32,
    homogenous_bit: u32,
    tsi_bit: u32,
    flag: u32,
    index: u32,
) -> u32 {
    if kind == 0 {
        (hint << 2) | (index << 20)
    } else {
        (hint << 2) | kind | (pod << 4) | (extent << 12) | homogenous_bit | tsi_bit | flag | (index << 20)
    }
}

/// The info word of a header whose metadata got table index `index`.
pub open spec fn header_info(h: PropertyHeaderInput, index: u32) -> u32 {
    packed_info(
        h.kind,
        hint_for(header_max_field(h)),
        written_pod_code(h.pod) as u32,
        h.extent as u32,
        if h.is_homogenous { 0x400 } else { 0 },
        if h.time_sampling_index != 0 { 0x100 } else { 0 },
        change_flag(h.first_changed_index, h.last_changed_index, h.num_samples),
        index,
    )
}

/// The size-hinted width of the fields of a header.
pub open spec fn header_width(h: PropertyHeaderInput) -> nat {
    written_width(hint_for(header_max_field(h)) as int) as nat
}

/// The sampling fields of a non-compound header: sample count, the change
/// range when flagged explicit, the time sampling index when not 0.
pub open spec fn sampling_bytes(h: PropertyHeaderInput, info: u32) -> Seq<u8> {
    let w = header_width(h);
    if h.kind == 0 {
        Seq::<u8>::empty()
    } else {
        le_bytes(h.num_samples as nat, w) + (if info & 0x200 != 0 {
            le_bytes(h.first_changed_index as nat, w) + le_bytes(h.last_changed_index as nat, w)
        } else {
            Seq::<u8>::empty()
        }) + (if info & 0x100 != 0 {
            le_bytes(h.time_sampling_index as nat, w)
        } else {
            Seq::<u8>::empty()
        })
    }
}

/// The name field of a header: its byte size and its bytes.
pub open spec fn name_bytes_of(h: PropertyHeaderInput) -> Seq<u8> {
    le_bytes(byte_len(h.name) as u32 as nat, header_width(h)) + encode_utf8(h.name)
}

/// The inline metadata of a header (only when its table index is 0xff).
pub open spec fn inline_md_bytes(h: PropertyHeaderInput, index: u32) -> Seq<u8> {
    if index == 0xff {
        le_bytes(byte_len(h.metadata) as u32 as nat, header_width(h)) + encode_utf8(h.metadata)
    } else {
        Seq::<u8>::empty()
    }
}

/// The bytes of one property header.
pub open spec fn header_bytes(h: PropertyHeaderInput, index: u32) -> Seq<u8> {
    let info = header_info(h, index);
    le_bytes(info as nat, 4) + sampling_bytes(h, info) + name_bytes_of(h) + inline_md_bytes(h, index)
}

/// The bytes of a list of property headers and the metadata table after
/// them, starting from table `t`.
pub open spec fn headers_encoding(t: Seq<Seq<char>>, hs: Seq<PropertyHeaderInput>) -> (Seq<u8>, Seq<Seq<char>>)
    decreases hs.len(),
{
    if hs.len() == 0 {
        (Seq::empty(), t)
    } else {
        let (prev, t1) = headers_encoding(t, hs.drop_last());
        let (idx, t2) = table_add(t1, hs.last().metadata);
        (prev + header_bytes(hs.last(), idx as u32), t2)
    }
}

/// The header inputs of a property list with the sampling states collected
/// for them (a property without a state uses its own counts).
pub open spec fn header_inputs(props: Seq<OProperty>, states: Seq<PropertySampleState>) -> Seq<PropertyHeaderInput> {
    Seq::new(
        props.len(),
        |i: int| header_input(props[i], if i < states.len() { Some(states[i]) } else { None }),
    )
}

fn max_u32(a: u32, b: u32) -> (r: u32)
    ensures
        r == (if a >= b { a } else { b }),
{
    if a >= b { a } else { b }
}

/// Build the info word of a property header (the size hint, property type,
/// POD type, extent, homogeneity, time sampling and change-range flags, and
/// the metadata table index).
pub fn build_property_info(
    index: &mut MetadataIndex,
    prop: &OProperty,
    state: Option<&PropertySampleState>,
) -> (r: u32)
    requires
        old(index).wf(),
    ensures
        final(index).wf(),
        ({
            let h = header_input(*prop, match state { Some(s) => Some(*s), None => None });
            let (i, t) = table_add(old(index)@, h.metadata);
            r == header_info(h, i as u32) && final(index)@ == t
        }),
{
    let ghost h = header_input(*prop, match state { Some(s) => Some(*s), None => None });
    let name_size = prop.name.as_str().as_bytes().len() as u32;
    let meta_text = prop.meta_data.serialize();
    let meta_data_size = meta_text.as_str().as_bytes().len() as u32;
    let num_samples = match state {
        Some(s) => s.num_samples,
        None => prop.getNumSamples() as u32,
    };
    let time_sampling_index = prop.time_sampling_index;
    let max_size = max_u32(max_u32(max_u32(meta_data_size, name_size), num_samples), time_sampling_index);
    assert(max_size == header_max_field(h));
    let size_hint: u32 = if max_size > 255 && max_size < 65536 {
        1
    } else if max_size >= 65536 {
        2
    } else {
        0
    };
    let kind: u32 = match &prop.data {
        OPropertyData::Compound(_) => 0,
        OPropertyData::Scalar(_) => 1,
        OPropertyData::Array(_) => if prop.is_scalar_like { 3 } else { 2 },
    };
    let meta_idx = index.add_indexed_metadata(&prop.meta_data);
    let idx32 = meta_idx as u32;
    if kind == 0 {
        return (size_hint << 2) | (idx32 << 20);
    }
    let pod = pod_to_u8(prop.data_type.pod) as u32;
    let extent = prop.data_type.extent as u32;
    let homogenous = match &prop.data {
        OPropertyData::Array(_) => match state {
            Some(s) => s.is_homogenous,
            None => true,
        },
        _ => true,
    };
    let homogenous_bit: u32 = if homogenous { 0x400 } else { 0 };
    let tsi_bit: u32 = if time_sampling_index != 0 { 0x100 } else { 0 };
    let first = match state {
        Some(s) => s.first_changed_index,
        None => prop.first_changed_index,
    };
    let last = match state {
        Some(s) => s.last_changed_index,
        None => prop.last_changed_index,
    };
    let flag: u32 = if first == 0 && last == 0 {
        0x800
    } else if first != 1 || last != (if num_samples == 0 { 0 } else { num_samples - 1 }) {
        0x200
    } else {
        0
    };
    (size_hint << 2) | kind | (pod << 4) | (extent << 12) | homogenous_bit | tsi_bit | flag | (idx32 << 20)
}

/// Adding a text twice gives the same index and leaves the table as the
/// first addition left it.
pub proof fn lemma_table_add_idempotent(t: Seq<Seq<char>>, text: Seq<char>)
    requires
        table_wf(t),
    ensures
        table_wf(table_add(t, text).1),
        table_add(table_add(t, text).1, text) == table_add(t, text),
{
    let (i, t2) = table_add(t, text);
    if text.len() == 0 {
    } else if exists|j: int| 1 <= j < t.len() && t[j] == text {
    } else if t.len() >= 255 || byte_len(text) > 255 {
    } else {
        assert(t2[t.len() as int] == text);
        assert(table_wf(t2)) by {
            assert forall|a: int, b: int| 0 <= a < b < t2.len() implies t2[a] != t2[b] by {
                if b == t.len() {
                    if a >= 1 {
                        assert(t[a] != text);
                    }
                }
            }
        }
        let k = choose|k: int| 1 <= k < t2.len() && t2[k] == text;
        assert(k == t.len()) by {
            if k != t.len() {
                assert(t2[k] == t2[t.len() as int]);
            }
        }
    }
}

/// A table only grows: what it held, it still holds at the same places.
pub proof fn lemma_table_add_extends(t: Seq<Seq<char>>, text: Seq<char>)
    ensures
        table_add(t, text).1.len() >= t.len(),
        table_add(t, text).1.subrange(0, t.len() as int) == t,
{
    let t2 = table_add(t, text).1;
    assert(t2.subrange(0, t.len() as int) =~= t);
}

proof fn lemma_hint_bits(h: PropertyHeaderInput, index: u32)
    requires
        index < 256,
        h.kind < 4,
    ensures
        ((header_info(h, index) >> 2) & 3) == hint_for(header_max_field(h)),
{
    let hint = hint_for(header_max_field(h));
    let kind = h.kind;
    let pod = written_pod_code(h.pod) as u32;
    let ext = h.extent as u32;
    let hb: u32 = if h.is_homogenous { 0x400 } else { 0 };
    let tb: u32 = if h.time_sampling_index != 0 { 0x100 } else { 0 };
    let fl = change_flag(h.first_changed_index, h.last_changed_index, h.num_samples);
    assert(((packed_info(kind, hint, pod, ext, hb, tb, fl, index) >> 2) & 3) == hint) by (bit_vector)
        requires
            hint < 4,
            kind < 4,
            pod < 16,
            ext < 256,
            hb == 0 || hb == 0x400,
            tb == 0 || tb == 0x100,
            fl == 0 || fl == 0x200 || fl == 0x800,
            index < 256,
    ;
}

fn sampling_into(
    buf: &mut Vec<u8>,
    prop: &OProperty,
    state: Option<&PropertySampleState>,
    info: u32,
    size_hint: u8,
)
    requires
        size_hint == hint_for(header_max_field(header_input(*prop, match state { Some(s) => Some(*s), None => None }))),
    ensures
        final(buf)@ == old(buf)@ + sampling_bytes(
            header_input(*prop, match state { Some(s) => Some(*s), None => None }),
            info,
        ),
{
    let ghost h = header_input(*prop, match state { Some(s) => Some(*s), None => None });
    let ghost start = buf@;
    let is_compound = match &prop.data {
        OPropertyData::Compound(_) => true,
        _ => false,
    };
    if is_compound {
        assert(buf@ =~= start + sampling_bytes(h, info));
        return;
    }
    let num_samples = match state {
        Some(s) => s.num_samples,
        None => prop.getNumSamples() as u32,
    };
    write_with_hint(buf, num_samples, size_hint);
    let ghost a = buf@;
    if (info & 0x0200) != 0 {
        let first = match state {
            Some(s) => s.first_changed_index,
            None => prop.first_changed_index,
        };
        let last = match state {
            Some(s) => s.last_changed_index,
            None => prop.last_changed_index,
        };
        write_with_hint(buf, first, size_hint);
        write_with_hint(buf, last, size_hint);
    }
    let ghost b = buf@;
    if (info & 0x0100) != 0 {
        write_with_hint(buf, prop.time_sampling_index, size_hint);
    }
    assert(buf@ =~= start + sampling_bytes(h, info));
}

fn name_and_metadata_into(
    buf: &mut Vec<u8>,
    index: &mut MetadataIndex,
    prop: &OProperty,
    size_hint: u8,
    meta_idx_before: Ghost<int>,
    h: Ghost<PropertyHeaderInput>,
)
    requires
        old(index).wf(),
        h@.name == prop.name@,
        h@.metadata == md_text(prop.meta_data),
        size_hint == hint_for(header_max_field(h@)),
        table_add(old(index)@, h@.metadata) == (meta_idx_before@, old(index)@),
    ensures
        final(index)@ == old(index)@,
        final(index).wf(),
        final(buf)@ == old(buf)@ + name_bytes_of(h@) + inline_md_bytes(h@, meta_idx_before@ as u32),
{
    let ghost start = buf@;
    let name_bytes = prop.name.as_str().as_bytes();
    write_with_hint(buf, name_bytes.len() as u32, size_hint);
    extend_bytes(buf, name_bytes);
    let ghost mid = buf@;
    assert(mid =~= start + name_bytes_of(h@));
    let meta_idx = index.add_indexed_metadata(&prop.meta_data);
    if meta_idx == 0xff {
        let meta_str = prop.meta_data.serialize();
        let meta_bytes = meta_str.as_str().as_bytes();
        write_with_hint(buf, meta_bytes.len() as u32, size_hint);
        extend_bytes(buf, meta_bytes);
    }
    assert(buf@ =~= start + name_bytes_of(h@) + inline_md_bytes(h@, meta_idx_before@ as u32));
}

fn property_header_into(
    buf: &mut Vec<u8>,
    index: &mut MetadataIndex,
    prop: &OProperty,
    state: Option<&PropertySampleState>,
)
    requires
        old(index).wf(),
    ensures
        final(index).wf(),
        ({
            let h = header_input(*prop, match state { Some(s) => Some(*s), None => None });
            let (i, t) = table_add(old(index)@, h.metadata);
            final(buf)@ == old(buf)@ + header_bytes(h, i as u32) && final(index)@ == t
        }),
{
    let ghost h = header_input(*prop, match state { Some(s) => Some(*s), None => None });
    let ghost t0 = index@;
    let ghost start = buf@;
    let info = build_property_info(index, prop, state);
    let ghost idx = table_add(t0, h.metadata).0;
    proof {
        lemma_hint_bits(h, idx as u32);
        lemma_table_add_idempotent(t0, h.metadata);
    }
    write_with_hint(buf, info, 2);
    let size_hint = ((info >> 2) & 0x03) as u8;
    let ghost a = buf@;
    sampling_into(buf, prop, state, info, size_hint);
    let ghost b = buf@;
    name_and_metadata_into(buf, index, prop, size_hint, Ghost(idx), Ghost(h));
    proof {
        assert(buf@ =~= start + header_bytes(h, idx as u32));
    }
}

/// Serialize the headers of a list of properties (with the sampling state
/// collected for each, where there is one), adding their metadata to the
/// table.
pub fn serialize_property_headers(
    index: &mut MetadataIndex,
    props: &[OProperty],
    states: &[PropertySampleState],
) -> (r: Vec<u8>)
    requires
        old(index).wf(),
    ensures
        final(index).wf(),
        (r@, final(index)@) == headers_encoding(old(index)@, header_inputs(props@, states@)),
{
    let ghost hs = header_inputs(props@, states@);
    let ghost t0 = index@;
    let mut buf: Vec<u8> = Vec::new();
    let mut i: usize = 0;
    assert(hs.subrange(0, 0) =~= Seq::<PropertyHeaderInput>::empty());
    assert(buf@ =~= Seq::<u8>::empty());
    while i < props.len()
        invariant
            i <= props@.len(),
            hs == header_inputs(props@, states@),
            index.wf(),
            (buf@, index@) == headers_encoding(t0, hs.subrange(0, i as int)),
        decreases props@.len() - i,
    {
        let state = if i < states.len() {
            Some(&states[i])
        } else {
            None
        };
        property_header_into(&mut buf, index, &props[i], state);
        proof {
            let sub = hs.subrange(0, i + 1);
            assert(sub.drop_last() =~= hs.subrange(0, i as int));
            assert(sub.last() == hs[i as int]);
        }
        i = i + 1;
    }
    assert(hs.subrange(0, props@.len() as int) =~= hs);
    buf
}

/// The bytes of one object header: the 4-byte name size, the name, the
/// metadata index byte and, for index 0xff, the 4-byte metadata size and the
/// metadata text.
pub open spec fn object_header_bytes(name: Seq<char>, metadata: Seq<char>, index: int) -> Seq<u8> {
    le_bytes(byte_len(name) as u32 as nat, 4) + encode_utf8(name) + le_bytes(index as nat, 1) + (if index
        == 0xff {
        le_bytes(byte_len(metadata) as u32 as nat, 4) + encode_utf8(metadata)
    } else {
        Seq::<u8>::empty()
    })
}

/// The bytes of the headers of a list of child objects (each given by its
/// name and metadata text) and the metadata table after them, starting from
/// table `t`.
pub open spec fn object_headers_encoding(t: Seq<Seq<char>>, cs: Seq<(Seq<char>, Seq<char>)>) -> (
    Seq<u8>,
    Seq<Seq<char>>,
)
    decreases cs.len(),
{
    if cs.len() == 0 {
        (Seq::empty(), t)
    } else {
        let (prev, t1) = object_headers_encoding(t, cs.drop_last());
        let (idx, t2) = table_add(t1, cs.last().1);
        (prev + object_header_bytes(cs.last().0, cs.last().1, idx), t2)
    }
}

/// The name and metadata text of each child object.
pub open spec fn object_inputs(children: Seq<OObject>) -> Seq<(Seq<char>, Seq<char>)> {
    Seq::new(children.len(), |i: int| (children[i].name@, md_text(children[i].meta_data)))
}

/// The 32-byte digest suffix of an object header block.
pub open spec fn hash_suffix(data_hash1: u64, data_hash2: u64, child_hash1: u64, child_hash2: u64) -> Seq<u8> {
    le_bytes(data_hash1 as nat, 8) + le_bytes(data_hash2 as nat, 8) + le_bytes(child_hash1 as nat, 8)
        + le_bytes(child_hash2 as nat, 8)
}

fn object_header_into(buf: &mut Vec<u8>, index: &mut MetadataIndex, child: &OObject)
    requires
        old(index).wf(),
    ensures
        final(index).wf(),
        ({
            let (i, t) = table_add(old(index)@, md_text(child.meta_data));
            final(buf)@ == old(buf)@ + object_header_bytes(child.name@, md_text(child.meta_data), i)
                && final(index)@ == t
        }),
{
    let ghost start = buf@;
    let name_bytes = child.name.as_str().as_bytes();
    write_with_hint(buf, name_bytes.len() as u32, 2);
    extend_bytes(buf, name_bytes);
    let meta_idx = index.add_indexed_metadata(&child.meta_data);
    write_with_hint(buf, meta_idx as u32, 0);
    if meta_idx == 0xff {
        let meta_str = child.meta_data.serialize();
        let meta_bytes = meta_str.as_str().as_bytes();
        write_with_hint(buf, meta_bytes.len() as u32, 2);
        extend_bytes(buf, meta_bytes);
    }
    assert(buf@ =~= start + object_header_bytes(
        child.name@,
        md_text(child.meta_data),
        meta_idx as int,
    ));
}

/// Serialize the headers of child objects, adding their metadata to the
/// table, followed by the 32 bytes of the data and child digests.
pub fn serialize_object_headers_with_hash(
    index: &mut MetadataIndex,
    children: &[OObject],
    data_hash1: u64,
    data_hash2: u64,
    child_hash1: u64,
    child_hash2: u64,
) -> (r: Vec<u8>)
    requires
        old(index).wf(),
    ensures
        final(index).wf(),
        ({
            let (e, t) = object_headers_encoding(old(index)@, object_inputs(children@));
            r@ == e + hash_suffix(data_hash1, data_hash2, child_hash1, child_hash2) && final(index)@ == t
        }),
{
    let ghost cs = object_inputs(children@);
    let ghost t0 = index@;
    let mut buf: Vec<u8> = Vec::new();
    let mut i: usize = 0;
    assert(cs.subrange(0, 0) =~= Seq::<(Seq<char>, Seq<char>)>::empty());
    assert(buf@ =~= Seq::<u8>::empty());
    while i < children.len()
        invariant
            i <= children@.len(),
            cs == object_inputs(children@),
            index.wf(),
            (buf@, index@) == object_headers_encoding(t0, cs.subrange(0, i as int)),
        decreases children@.len() - i,
    {
        object_header_into(&mut buf, index, &children[i]);
        proof {
            let sub = cs.subrange(0, i + 1);
            assert(sub.drop_last() =~= cs.subrange(0, i as int));
            assert(sub.last() == cs[i as int]);
        }
        i = i + 1;
    }
    assert(cs.subrange(0, children@.len() as int) =~= cs);
    let ghost enc = buf@;
    write_u64_le(&mut buf, data_hash1);
    write_u64_le(&mut buf, data_hash2);
    write_u64_le(&mut buf, child_hash1);
    write_u64_le(&mut buf, child_hash2);
    assert(buf@ =~= enc + hash_suffix(data_hash1, data_hash2, child_hash1, child_hash2));
    buf
}

} // verus!
