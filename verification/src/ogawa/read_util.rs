//! Decoding of the Alembic structures stored in Ogawa data blocks: property
//! headers, object headers and the indexed metadata table.
//!
//! Each decoder works on the bytes of one data block; reading the block from
//! the file is the caller's business.

use vstd::prelude::*;
use crate::ogawa::le::le_value;
use crate::util::data_type::DataType;
use crate::util::error::Error;
use crate::util::pod::{PlainOldDataType, pod_code};
use vstd::utf8::{valid_utf8, decode_utf8};
use vstd::string::StringExecFns;

verus! {

/// Property type of a property header.
#[derive(Debug, Clone, Copy, PartialEq, Eq, Structural)]
pub enum PropertyType {
    Compound,
    Scalar,
    Array,
}

/// Why a header block could not be decoded: its structure is malformed, or a
/// name or metadata text is not valid UTF-8.
pub enum HeaderError {
    Malformed,
    BadText,
}

/// Parsed property header with all fields. The metadata is kept in its
/// serialized `key=value;...` text form.
#[derive(Debug)]
pub struct ParsedPropertyHeader {
    pub name: String,
    pub property_type: PropertyType,
    pub metadata: String,
    pub data_type: DataType,
    pub time_sampling_index: u32,
    pub is_scalar_like: bool,
    pub is_homogenous: bool,
    pub next_sample_index: u32,
    pub first_changed_index: u32,
    pub last_changed_index: u32,
}

/// The content of a property header, with its texts as character sequences.
pub struct PropertyHeaderView {
    pub name: Seq<char>,
    pub property_type: PropertyType,
    pub metadata: Seq<char>,
    pub data_type: DataType,
    pub time_sampling_index: u32,
    pub is_scalar_like: bool,
    pub is_homogenous: bool,
    pub next_sample_index: u32,
    pub first_changed_index: u32,
    pub last_changed_index: u32,
}

impl View for ParsedPropertyHeader {
    type V = PropertyHeaderView;

    open spec fn view(&self) -> PropertyHeaderView {
        PropertyHeaderView {
            name: self.name@,
            property_type: self.property_type,
            metadata: self.metadata@,
            data_type: self.data_type,
            time_sampling_index: self.time_sampling_index,
            is_scalar_like: self.is_scalar_like,
            is_homogenous: self.is_homogenous,
            next_sample_index: self.next_sample_index,
            first_changed_index: self.first_changed_index,
            last_changed_index: self.last_changed_index,
        }
    }
}

/// The text stored in `n` bytes at `pos`, when they are valid UTF-8.
pub open spec fn text_at(buf: Seq<u8>, pos: int, n: int) -> Option<Seq<char>> {
    if valid_utf8(buf.subrange(pos, pos + n)) {
        Some(decode_utf8(buf.subrange(pos, pos + n)))
    } else {
        None
    }
}

/// Bits `shift..` of `info` selected by `mask`.
pub open spec fn info_bits(info: u32, mask: u32, shift: u32) -> u32 {
    (info & mask) >> shift
}

/// The property type coded in the two low bits of the info word.
pub open spec fn info_property_type(info: u32) -> PropertyType {
    if info & 3 == 0 {
        PropertyType::Compound
    } else if info & 3 == 1 {
        PropertyType::Scalar
    } else {
        PropertyType::Array
    }
}

/// The sampling fields of a non-compound property header read from `pos`:
/// next sample index, first and last changed index, time sampling index and
/// the position after them.
pub open spec fn parse_sampling_fields(buf: Seq<u8>, pos: int, info: u32) -> Option<(u32, u32, u32, u32, int)> {
    let hint = info_bits(info, 0xc, 2) as int;
    match read_hinted(buf, pos, hint) {
        None => None,
        Some((next, p1)) => {
            let next = next as u32;
            let changes: Option<(u32, u32, int)> = if info & 0x200 != 0 {
                match read_hinted(buf, p1, hint) {
                    None => None,
                    Some((f, p2)) => match read_hinted(buf, p2, hint) {
                        None => None,
                        Some((l, p3)) => Some((f as u32, l as u32, p3)),
                    },
                }
            } else if info & 0x800 != 0 {
                Some((0u32, 0u32, p1))
            } else {
                Some((1u32, if next == 0 { 0u32 } else { (next - 1) as u32 }, p1))
            };
            match changes {
                None => None,
                Some((f, l, p3)) => if info & 0x100 != 0 {
                    match read_hinted(buf, p3, hint) {
                        None => None,
                        Some((t, p4)) => Some((next, f, l, t as u32, p4)),
                    }
                } else {
                    Some((next, f, l, 0u32, p3))
                },
            }
        },
    }
}

/// The name of a property header at `pos`: its size (hinted) and its text.
pub open spec fn parse_header_name(buf: Seq<u8>, pos: int, hint: int) -> Result<(Seq<char>, int), HeaderError> {
    match read_hinted(buf, pos, hint) {
        None => Err(HeaderError::Malformed),
        Some((n, p)) => if n == 0 || p + n > buf.len() {
            Err(HeaderError::Malformed)
        } else {
            match text_at(buf, p, n as int) {
                None => Err(HeaderError::BadText),
                Some(t) => Ok((t, p + n)),
            }
        },
    }
}

/// The metadata text of a property header at `pos`: inline (hinted size and
/// text) when the index is 0xff, otherwise the indexed entry.
pub open spec fn parse_header_metadata(
    buf: Seq<u8>,
    pos: int,
    hint: int,
    index: int,
    indexed: Seq<Seq<char>>,
) -> Result<(Seq<char>, int), HeaderError> {
    if index == 0xff {
        match read_hinted(buf, pos, hint) {
            None => Err(HeaderError::Malformed),
            Some((n, p)) => if p + n > buf.len() {
                Err(HeaderError::Malformed)
            } else if n == 0 {
                Ok((Seq::empty(), p))
            } else {
                match text_at(buf, p, n as int) {
                    None => Err(HeaderError::BadText),
                    Some(t) => Ok((t, p + n)),
                }
            },
        }
    } else if index < indexed.len() {
        Ok((indexed[index], pos))
    } else {
        Err(HeaderError::Malformed)
    }
}

/// Decoding one property header at `pos`: the header and the position after
/// it.
pub open spec fn parse_property_header(buf: Seq<u8>, pos: int, indexed: Seq<Seq<char>>) -> Result<
    (PropertyHeaderView, int),
    HeaderError,
> {
    if pos + 4 > buf.len() {
        Err(HeaderError::Malformed)
    } else {
        let info = le_value(buf.subrange(pos, pos + 4)) as u32;
        let p0 = pos + 4;
        let ptype = info_property_type(info);
        let hint = info_bits(info, 0xc, 2) as int;
        let pod_code_bits = info_bits(info, 0xf0, 4);
        let fields: Option<(DataType, u32, bool, u32, u32, u32, int)> = if ptype
            != PropertyType::Compound {
            if pod_code_bits >= 14 {
                None
            } else {
                let pod = choose|p: PlainOldDataType| pod_code(p) == pod_code_bits;
                let extent = info_bits(info, 0xff000, 12) as u8;
                match parse_sampling_fields(buf, p0, info) {
                    None => None,
                    Some((next, f, l, t, p1)) => Some(
                        (
                            DataType { pod, extent },
                            t,
                            info & 0x400 != 0,
                            next,
                            f,
                            l,
                            p1,
                        ),
                    ),
                }
            }
        } else {
            Some((DataType { pod: PlainOldDataType::Unknown, extent: 0 }, 0u32, false, 0u32, 0u32, 0u32, p0))
        };
        match fields {
            None => Err(HeaderError::Malformed),
            Some((dt, tsi, homogenous, next, first, last, p1)) => match parse_header_name(buf, p1, hint) {
                Err(e) => Err(e),
                Ok((name, p2)) => match parse_header_metadata(
                    buf,
                    p2,
                    hint,
                    info_bits(info, 0xff00000, 20) as int,
                    indexed,
                ) {
                    Err(e) => Err(e),
                    Ok((md, p3)) => Ok(
                        (
                            PropertyHeaderView {
                                name,
                                property_type: ptype,
                                metadata: md,
                                data_type: dt,
                                time_sampling_index: tsi,
                                is_scalar_like: info & 1 != 0,
                                is_homogenous: homogenous,
                                next_sample_index: next,
                                first_changed_index: first,
                                last_changed_index: last,
                            },
                            p3,
                        ),
                    ),
                },
            },
        }
    }
}

/// Decoding the property headers from `pos` to the end of `buf`.
pub open spec fn parse_property_headers_from(buf: Seq<u8>, pos: int, indexed: Seq<Seq<char>>) -> Result<
    Seq<PropertyHeaderView>,
    HeaderError,
>
    decreases buf.len() - pos,
{
    if pos >= buf.len() || pos < 0 {
        Ok(Seq::empty())
    } else {
        match parse_property_header(buf, pos, indexed) {
            Err(e) => Err(e),
            Ok((h, next)) => if next <= pos {
                Err(HeaderError::Malformed)
            } else {
                match parse_property_headers_from(buf, next, indexed) {
                    Err(e) => Err(e),
                    Ok(rest) => Ok(seq![h] + rest),
                }
            },
        }
    }
}

/// Number of bytes of an integer stored with a size hint (0, 1 or 2).
pub open spec fn hint_width(hint: int) -> int {
    if hint == 0 {
        1
    } else if hint == 1 {
        2
    } else {
        4
    }
}

/// Reading an integer stored with a size hint at `pos` of `buf`: the value
/// and the position after it, or `None` when the hint is not 0, 1 or 2 or the
/// integer runs past the end of `buf`.
pub open spec fn read_hinted(buf: Seq<u8>, pos: int, hint: int) -> Option<(nat, int)> {
    if 0 <= hint <= 2 && 0 <= pos && pos + hint_width(hint) <= buf.len() {
        Some((le_value(buf.subrange(pos, pos + hint_width(hint))), pos + hint_width(hint)))
    } else {
        None
    }
}

/// Convert an on-disk type code to a POD type; codes above 13 are invalid.
pub fn pod_from_u8(value: u8) -> (r: Option<PlainOldDataType>)
    ensures
        r is Some <==> value < 14,
        r matches Some(p) ==> pod_code(p) == value,
{
    match value {
        0 => Some(PlainOldDataType::Boolean),
        1 => Some(PlainOldDataType::Uint8),
        2 => Some(PlainOldDataType::Int8),
        3 => Some(PlainOldDataType::Uint16),
        4 => Some(PlainOldDataType::Int16),
        5 => Some(PlainOldDataType::Uint32),
        6 => Some(PlainOldDataType::Int32),
        7 => Some(PlainOldDataType::Uint64),
        8 => Some(PlainOldDataType::Int64),
        9 => Some(PlainOldDataType::Float16),
        10 => Some(PlainOldDataType::Float32),
        11 => Some(PlainOldDataType::Float64),
        12 => Some(PlainOldDataType::String),
        13 => Some(PlainOldDataType::Wstring),
        _ => None,
    }
}

/// Read a little-endian `u16` from the first two bytes.
pub fn read_u16_le(bytes: &[u8]) -> (r: u16)
    requires
        bytes@.len() >= 2,
    ensures
        r == le_value(bytes@.subrange(0, 2)),
{
    let ghost s = bytes@.subrange(0, 2);
    proof {
        reveal_with_fuel(le_value, 3);
        assert(s.drop_first().drop_first() =~= Seq::<u8>::empty());
    }
    (bytes[0] as u16) + (bytes[1] as u16) * 256
}

/// Read a little-endian `u32` from the first four bytes.
pub fn read_u32_le(bytes: &[u8]) -> (r: u32)
    requires
        bytes@.len() >= 4,
    ensures
        r == le_value(bytes@.subrange(0, 4)),
{
    let ghost s = bytes@.subrange(0, 4);
    proof {
        reveal_with_fuel(le_value, 5);
        assert(s.drop_first().drop_first().drop_first().drop_first() =~= Seq::<u8>::empty());
    }
    (bytes[0] as u32) + (bytes[1] as u32) * 256 + (bytes[2] as u32) * 65536 + (bytes[3] as u32)
        * 16777216
}

/// Read a `u32` stored with a variable size hint (0: one byte, 1: two bytes,
/// 2: four bytes) at `*pos` within the first `buf_size` bytes of `buf`, and
/// advance `*pos` past it.
pub fn get_u32_with_hint(buf: &[u8], buf_size: usize, size_hint: u32, pos: &mut usize) -> (r:
    Result<u32, Error>)
    requires
        buf_size <= buf@.len(),
        *old(pos) <= buf_size,
    ensures
        match read_hinted(buf@.subrange(0, buf_size as int), *old(pos) as int, size_hint as int) {
            Some((v, next)) => r matches Ok(x) && x == v && *final(pos) == next,
            None => r matches Err(Error::InvalidStructure(_)) && *final(pos) == *old(pos),
        },
{
    let ghost b = buf@.subrange(0, buf_size as int);
    let p = *pos;
    if size_hint == 0 {
        if buf_size - p < 1 {
            return Err(Error::invalid("Truncated u8 in property header"));
        }
        let val = buf[p] as u32;
        proof {
            reveal_with_fuel(le_value, 2);
            assert(b.subrange(p as int, p + 1).drop_first() =~= Seq::<u8>::empty());
        }
        *pos = p + 1;
        Ok(val)
    } else if size_hint == 1 {
        if buf_size - p < 2 {
            return Err(Error::invalid("Truncated u16 in property header"));
        }
        let val = read_u16_le(slice_from(buf, p)) as u32;
        assert(slice_from_view(buf@, p as int).subrange(0, 2) =~= b.subrange(p as int, p + 2));
        *pos = p + 2;
        Ok(val)
    } else if size_hint == 2 {
        if buf_size - p < 4 {
            return Err(Error::invalid("Truncated u32 in property header"));
        }
        let val = read_u32_le(slice_from(buf, p));
        assert(slice_from_view(buf@, p as int).subrange(0, 4) =~= b.subrange(p as int, p + 4));
        *pos = p + 4;
        Ok(val)
    } else {
        Err(Error::invalid("Invalid size hint"))
    }
}

/// The bytes of `s` from `start` on.
pub open spec fn slice_from_view(s: Seq<u8>, start: int) -> Seq<u8> {
    s.subrange(start, s.len() as int)
}

/// The sub-slice of `buf` from `start` to its end.
pub fn slice_from(buf: &[u8], start: usize) -> (r: &[u8])
    requires
        start <= buf@.len(),
    ensures
        r@ == slice_from_view(buf@, start as int),
{
    slice_subrange(buf, start, buf.len())
}

/// The sub-slice of `buf` between `start` and `end`.
pub fn slice_subrange(buf: &[u8], start: usize, end: usize) -> (r: &[u8])
    requires
        start <= end <= buf@.len(),
    ensures
        r@ == buf@.subrange(start as int, end as int),
{
    vstd::slice::slice_subrange(buf, start, end)
}

/// The views of a list of texts.
pub open spec fn text_views(texts: Seq<String>) -> Seq<Seq<char>> {
    texts.map_values(|t: String| t@)
}

/// The views of decoded property headers.
pub open spec fn property_header_views(hs: Seq<ParsedPropertyHeader>) -> Seq<PropertyHeaderView> {
    hs.map_values(|h: ParsedPropertyHeader| h@)
}

/// The error a decoding failure is reported as.
pub open spec fn reports(r: Error, e: HeaderError) -> bool {
    match e {
        HeaderError::Malformed => r is InvalidStructure,
        HeaderError::BadText => r is Other,
    }
}

proof fn lemma_pod_from_code(p: PlainOldDataType, code: u32)
    requires
        pod_code(p) == code,
    ensures
        p == choose|q: PlainOldDataType| pod_code(q) == code,
{
    let q = choose|q: PlainOldDataType| pod_code(q) == code;
    crate::util::pod::lemma_pod_code_injective(p, q);
}

fn read_sampling_fields(buf: &[u8], pos: usize, info: u32) -> (r: Result<
    (u32, u32, u32, u32, usize),
    Error,
>)
    requires
        pos <= buf@.len(),
    ensures
        match parse_sampling_fields(buf@, pos as int, info) {
            Some((next, f, l, t, p)) => r matches Ok((a, b, c, d, e)) && a == next && b == f && c == l
                && d == t && e == p,
            None => r is Err && reports(r->Err_0, HeaderError::Malformed),
        },
{
    let buf_size = buf.len();
    let size_hint = (info & 0x000c) >> 2;
    assert(buf@.subrange(0, buf_size as int) =~= buf@);
    let mut p = pos;
    let next = match get_u32_with_hint(buf, buf_size, size_hint, &mut p) {
        Ok(v) => v,
        Err(e) => {
            return Err(e);
        },
    };
    let (first, last) = if (info & 0x0200) != 0 {
        let f = match get_u32_with_hint(buf, buf_size, size_hint, &mut p) {
            Ok(v) => v,
            Err(e) => {
                return Err(e);
            },
        };
        let l = match get_u32_with_hint(buf, buf_size, size_hint, &mut p) {
            Ok(v) => v,
            Err(e) => {
                return Err(e);
            },
        };
        (f, l)
    } else if (info & 0x800) != 0 {
        (0u32, 0u32)
    } else {
        (1u32, if next == 0 { 0u32 } else { next - 1 })
    };
    let tsi = if (info & 0x0100) != 0 {
        match get_u32_with_hint(buf, buf_size, size_hint, &mut p) {
            Ok(v) => v,
            Err(e) => {
                return Err(e);
            },
        }
    } else {
        0u32
    };
    Ok((next, first, last, tsi, p))
}

fn read_header_text(buf: &[u8], pos: usize, n: usize, what: &str) -> (r: Result<String, Error>)
    requires
        pos + n <= buf.len(),
    ensures
        match text_at(buf@, pos as int, n as int) {
            Some(t) => r matches Ok(x) && x@ == t,
            None => r is Err && reports(r->Err_0, HeaderError::BadText),
        },
{
    match crate::util::text::utf8_text(slice_subrange(buf, pos, pos + n)) {
        Ok(t) => Ok(t),
        Err(m) => Err(Error::Other(crate::util::text::utf8_message(what, m.as_str()))),
    }
}

fn read_header_name(buf: &[u8], pos: usize, hint: u32) -> (r: Result<(String, usize), Error>)
    requires
        pos <= buf@.len(),
    ensures
        match parse_header_name(buf@, pos as int, hint as int) {
            Ok((t, p)) => r matches Ok((x, q)) && x@ == t && q == p,
            Err(e) => r is Err && reports(r->Err_0, e),
        },
{
    let buf_size = buf.len();
    assert(buf@.subrange(0, buf_size as int) =~= buf@);
    let mut p = pos;
    let name_size = match get_u32_with_hint(buf, buf_size, hint, &mut p) {
        Ok(v) => v as usize,
        Err(e) => {
            return Err(e);
        },
    };
    if name_size == 0 || buf_size - p < name_size {
        return Err(Error::invalid("Property header name invalid"));
    }
    match read_header_text(buf, p, name_size, "Invalid UTF-8 in property name") {
        Ok(t) => Ok((t, p + name_size)),
        Err(e) => Err(e),
    }
}

fn read_header_metadata(buf: &[u8], pos: usize, hint: u32, index: usize, indexed: &[String]) -> (r:
    Result<(String, usize), Error>)
    requires
        pos <= buf@.len(),
    ensures
        match parse_header_metadata(buf@, pos as int, hint as int, index as int, text_views(indexed@)) {
            Ok((t, p)) => r matches Ok((x, q)) && x@ == t && q == p,
            Err(e) => r is Err && reports(r->Err_0, e),
        },
{
    if index == 0xff {
        let buf_size = buf.len();
        assert(buf@.subrange(0, buf_size as int) =~= buf@);
        let mut p = pos;
        let size = match get_u32_with_hint(buf, buf_size, hint, &mut p) {
            Ok(v) => v as usize,
            Err(e) => {
                return Err(e);
            },
        };
        if buf_size - p < size {
            return Err(Error::invalid("Property header metadata truncated"));
        }
        if size == 0 {
            Ok((String::new(), p))
        } else {
            match read_header_text(buf, p, size, "Invalid UTF-8 in metadata") {
                Ok(t) => Ok((t, p + size)),
                Err(e) => Err(e),
            }
        }
    } else if index < indexed.len() {
        Ok((indexed[index].clone(), pos))
    } else {
        Err(Error::invalid("Invalid metadata index"))
    }
}

/// Decode the property header at `pos` and return it with the position
/// after it.
pub fn read_property_header(buf: &[u8], pos: usize, indexed_metadata: &[String]) -> (r: Result<
    (ParsedPropertyHeader, usize),
    Error,
>)
    requires
        pos <= buf@.len(),
    ensures
        match parse_property_header(buf@, pos as int, text_views(indexed_metadata@)) {
            Ok((h, next)) => r matches Ok((x, n)) && x@ == h && n == next,
            Err(e) => r is Err && reports(r->Err_0, e),
        },
{
    let buf_size = buf.len();
    if buf_size - pos < 4 {
        return Err(Error::invalid("Property header info truncated"));
    }
    let info = read_u32_le(slice_from(buf, pos));
    assert(slice_from_view(buf@, pos as int).subrange(0, 4) =~= buf@.subrange(pos as int, pos + 4));
    let p0 = pos + 4;
    let ptype = info & 0x0003;
    let is_scalar_like = (ptype & 1) != 0;
    assert(((info & 3) & 1 != 0) == (info & 1 != 0)) by (bit_vector);
    let property_type = if ptype == 0 {
        PropertyType::Compound
    } else if ptype == 1 {
        PropertyType::Scalar
    } else {
        PropertyType::Array
    };
    let size_hint = (info & 0x000c) >> 2;
    let is_compound = ptype == 0;
    let (data_type, time_sampling_index, is_homogenous, next_sample_index, first_changed_index,
        last_changed_index, p1) = if !is_compound {
        let code = (info & 0x00f0) >> 4;
        assert(info & 0xf0 <= 0xf0) by (bit_vector);
        assert((info & 0xf0) >> 4 <= 15) by (bit_vector);
        assert((info & 0xff000) >> 12 <= 255) by (bit_vector);
        let pod_type = match pod_from_u8(code as u8) {
            Some(pt) => pt,
            None => {
                return Err(Error::invalid("Invalid POD type"));
            },
        };
        proof {
            lemma_pod_from_code(pod_type, code);
        }
        let extent = ((info & 0xff000) >> 12) as u8;
        let data_type = DataType::new(pod_type, extent);
        let homogenous = (info & 0x400) != 0;
        match read_sampling_fields(buf, p0, info) {
            Ok((next, f, l, t, p)) => (data_type, t, homogenous, next, f, l, p),
            Err(e) => {
                return Err(e);
            },
        }
    } else {
        (DataType::UNKNOWN(), 0u32, false, 0u32, 0u32, 0u32, p0)
    };
    let (name, p2) = match read_header_name(buf, p1, size_hint) {
        Ok(x) => x,
        Err(e) => {
            return Err(e);
        },
    };
    let metadata_index = ((info & 0xff00000) >> 20) as usize;
    let (metadata, p3) = match read_header_metadata(buf, p2, size_hint, metadata_index, indexed_metadata) {
        Ok(x) => x,
        Err(e) => {
            return Err(e);
        },
    };
    let header = ParsedPropertyHeader {
        name,
        property_type,
        metadata,
        data_type,
        time_sampling_index,
        is_scalar_like,
        is_homogenous,
        next_sample_index,
        first_changed_index,
        last_changed_index,
    };
    Ok((header, p3))
}

/// A decoded property header always occupies at least its four info bytes.
pub proof fn lemma_property_header_advances(buf: Seq<u8>, pos: int, indexed: Seq<Seq<char>>)
    ensures
        parse_property_header(buf, pos, indexed) matches Ok((_, next)) ==> next >= pos + 4,
{
    if pos + 4 <= buf.len() {
        let info = le_value(buf.subrange(pos, pos + 4)) as u32;
        let hint = info_bits(info, 0xc, 2) as int;
        let p0 = pos + 4;
        if let Some((next, f, l, t, p1)) = parse_sampling_fields(buf, p0, info) {
            assert(p1 >= p0);
        }
    }
}

/// Decode all property headers of a data block.
pub fn read_property_headers(buf: &[u8], indexed_metadata: &[String]) -> (r: Result<
    Vec<ParsedPropertyHeader>,
    Error,
>)
    ensures
        match parse_property_headers_from(buf@, 0, text_views(indexed_metadata@)) {
            Ok(hs) => r matches Ok(v) && property_header_views(v@) == hs,
            Err(e) => r is Err && reports(r->Err_0, e),
        },
{
    let ghost indexed = text_views(indexed_metadata@);
    let mut headers: Vec<ParsedPropertyHeader> = Vec::new();
    let mut pos: usize = 0;
    while pos < buf.len()
        invariant
            pos <= buf@.len(),
            indexed == text_views(indexed_metadata@),
            match parse_property_headers_from(buf@, pos as int, indexed) {
                Ok(rest) => parse_property_headers_from(buf@, 0, indexed) == Ok::<
                    Seq<PropertyHeaderView>,
                    HeaderError,
                >(property_header_views(headers@) + rest),
                Err(e) => parse_property_headers_from(buf@, 0, indexed) == Err::<
                    Seq<PropertyHeaderView>,
                    HeaderError,
                >(e),
            },
        decreases buf@.len() - pos,
    {
        proof {
            lemma_property_header_advances(buf@, pos as int, indexed);
        }
        match read_property_header(buf, pos, indexed_metadata) {
            Ok((h, next)) => {
                let ghost hv = h@;
                let ghost before = property_header_views(headers@);
                headers.push(h);
                proof {
                    assert(property_header_views(headers@) =~= before.push(hv));
                    if let Ok(rest) = parse_property_headers_from(buf@, next as int, indexed) {
                        assert(before + (seq![hv] + rest) =~= before.push(hv) + rest);
                    }
                }
                pos = next;
            },
            Err(e) => {
                return Err(e);
            },
        }
    }
    proof {
        assert(property_header_views(headers@) + Seq::<PropertyHeaderView>::empty() =~= property_header_views(headers@));
    }
    Ok(headers)
}

/// Decoding the indexed metadata table from `pos` on: each entry is a size
/// byte followed by that many bytes of text (an empty text for size 0).
pub open spec fn parse_indexed_metadata_from(buf: Seq<u8>, pos: int) -> Result<Seq<Seq<char>>, HeaderError>
    decreases buf.len() - pos,
{
    if pos >= buf.len() || pos < 0 {
        Ok(Seq::empty())
    } else {
        let size = buf[pos] as int;
        let p = pos + 1;
        if p + size > buf.len() {
            Err(HeaderError::Malformed)
        } else {
            let entry: Option<Seq<char>> = if size == 0 {
                Some(Seq::empty())
            } else {
                text_at(buf, p, size)
            };
            match entry {
                None => Err(HeaderError::BadText),
                Some(t) => match parse_indexed_metadata_from(buf, p + size) {
                    Err(e) => Err(e),
                    Ok(rest) => Ok(seq![t] + rest),
                },
            }
        }
    }
}

/// Decoding a whole indexed metadata block: the implicit empty entry 0
/// followed by the stored entries; blocks over 65536 bytes are refused.
pub open spec fn parse_indexed_metadata(buf: Seq<u8>) -> Result<Seq<Seq<char>>, HeaderError> {
    if buf.len() > 65536 {
        Err(HeaderError::Malformed)
    } else {
        match parse_indexed_metadata_from(buf, 0) {
            Err(e) => Err(e),
            Ok(entries) => Ok(seq![Seq::<char>::empty()] + entries),
        }
    }
}

/// Decode the indexed metadata table of an archive (entry 0 is always the
/// empty text).
pub fn read_indexed_metadata(buf: &[u8]) -> (r: Result<Vec<String>, Error>)
    ensures
        match parse_indexed_metadata(buf@) {
            Ok(ts) => r matches Ok(v) && text_views(v@) == ts,
            Err(e) => r is Err && reports(r->Err_0, e),
        },
{
    let mut out: Vec<String> = Vec::new();
    out.push(String::new());
    if buf.len() > 65536 {
        return Err(Error::invalid("Indexed MetaData buffer too large"));
    }
    let buf_size = buf.len();
    let mut pos: usize = 0;
    assert(text_views(out@) =~= seq![Seq::<char>::empty()]);
    while pos < buf_size
        invariant
            buf_size == buf@.len(),
            pos <= buf_size,
            out@.len() >= 1,
            text_views(out@)[0] == Seq::<char>::empty(),
            match parse_indexed_metadata_from(buf@, pos as int) {
                Ok(rest) => parse_indexed_metadata(buf@) == Ok::<Seq<Seq<char>>, HeaderError>(
                    text_views(out@) + rest,
                ),
                Err(e) => parse_indexed_metadata(buf@) == Err::<Seq<Seq<char>>, HeaderError>(e),
            },
        decreases buf_size - pos,
    {
        let size = buf[pos] as usize;
        let p = pos + 1;
        if buf_size - p < size {
            return Err(Error::invalid("Indexed MetaData string truncated"));
        }
        let ghost before = text_views(out@);
        let entry = if size == 0 {
            String::new()
        } else {
            match crate::util::text::utf8_text(slice_subrange(buf, p, p + size)) {
                Ok(t) => t,
                Err(m) => {
                    return Err(Error::Other(crate::util::text::utf8_message("Invalid UTF-8 in metadata", m.as_str())));
                },
            }
        };
        let ghost ev = entry@;
        out.push(entry);
        proof {
            assert(text_views(out@) =~= before.push(ev));
            if let Ok(rest) = parse_indexed_metadata_from(buf@, p + size) {
                assert(before + (seq![ev] + rest) =~= before.push(ev) + rest);
            }
        }
        pos = p + size;
    }
    proof {
        assert(text_views(out@) + Seq::<Seq<char>>::empty() =~= text_views(out@));
    }
    Ok(out)
}

/// Parsed object header with all fields. The metadata is kept in its
/// serialized text form.
#[derive(Debug)]
pub struct ParsedObjectHeader {
    pub name: String,
    pub full_name: String,
    pub metadata: String,
}

/// The content of an object header, with its texts as character sequences.
pub struct ObjectHeaderView {
    pub name: Seq<char>,
    pub full_name: Seq<char>,
    pub metadata: Seq<char>,
}

impl View for ParsedObjectHeader {
    type V = ObjectHeaderView;

    open spec fn view(&self) -> ObjectHeaderView {
        ObjectHeaderView { name: self.name@, full_name: self.full_name@, metadata: self.metadata@ }
    }
}

/// The full path of a child called `name` under `parent`.
pub open spec fn child_path(parent: Seq<char>, name: Seq<char>) -> Seq<char> {
    if parent.len() == 0 || parent == seq!['/'] {
        seq!['/'] + name
    } else {
        parent + seq!['/'] + name
    }
}

/// Decoding the object headers from `pos` to the end of `buf`: each header
/// is a 4-byte name size, the name, a metadata index byte and, for index
/// 0xff, a 4-byte metadata size and the metadata text.
pub open spec fn parse_object_headers_from(
    buf: Seq<u8>,
    pos: int,
    parent: Seq<char>,
    indexed: Seq<Seq<char>>,
) -> Result<Seq<ObjectHeaderView>, HeaderError>
    decreases buf.len() - pos,
{
    if pos >= buf.len() || pos < 0 {
        Ok(Seq::empty())
    } else if pos + 4 > buf.len() {
        Err(HeaderError::Malformed)
    } else {
        let ns = le_value(buf.subrange(pos, pos + 4)) as int;
        let p = pos + 4;
        if ns == 0 || p + ns + 1 > buf.len() {
            Err(HeaderError::Malformed)
        } else {
            match text_at(buf, p, ns) {
                None => Err(HeaderError::BadText),
                Some(name) => {
                    let idx = buf[p + ns] as int;
                    let p3 = p + ns + 1;
                    let md: Result<(Seq<char>, int), HeaderError> = if idx == 0xff {
                        if p3 + 4 > buf.len() {
                            Err(HeaderError::Malformed)
                        } else {
                            let ms = le_value(buf.subrange(p3, p3 + 4)) as int;
                            if p3 + 4 + ms > buf.len() {
                                Err(HeaderError::Malformed)
                            } else {
                                match text_at(buf, p3 + 4, ms) {
                                    None => Err(HeaderError::BadText),
                                    Some(t) => Ok((t, p3 + 4 + ms)),
                                }
                            }
                        }
                    } else if idx < indexed.len() {
                        Ok((indexed[idx], p3))
                    } else {
                        Err(HeaderError::Malformed)
                    };
                    match md {
                        Err(e) => Err(e),
                        Ok((t, next)) => match parse_object_headers_from(buf, next, parent, indexed) {
                            Err(e) => Err(e),
                            Ok(rest) => Ok(
                                seq![
                                    ObjectHeaderView {
                                        name,
                                        full_name: child_path(parent, name),
                                        metadata: t,
                                    },
                                ] + rest,
                            ),
                        },
                    }
                },
            }
        }
    }
}

/// Decoding a whole object header block: the headers in all but its last 32
/// bytes (which hold the hashes); a block of 32 bytes or less has none.
pub open spec fn parse_object_headers(buf: Seq<u8>, parent: Seq<char>, indexed: Seq<Seq<char>>) -> Result<
    Seq<ObjectHeaderView>,
    HeaderError,
> {
    if buf.len() <= 32 {
        Ok(Seq::empty())
    } else {
        parse_object_headers_from(buf.subrange(0, buf.len() - 32), 0, parent, indexed)
    }
}

/// The views of decoded object headers.
pub open spec fn object_header_views(hs: Seq<ParsedObjectHeader>) -> Seq<ObjectHeaderView> {
    hs.map_values(|h: ParsedObjectHeader| h@)
}

fn make_child_path(parent: &str, name: &str) -> (r: String)
    ensures
        r@ == child_path(parent@, name@),
{
    proof {
        reveal_strlit("/");
        assert("/"@ =~= seq!['/']);
    }
    if parent.is_empty() || crate::util::text::str_equals(parent, "/") {
        let mut s = "/".to_owned();
        s.append(name);
        s
    } else {
        let mut s = parent.to_owned();
        s.append("/");
        s.append(name);
        s
    }
}

/// Decode the object headers of a data block for children of `parent_name`.
pub fn read_object_headers(buf: &[u8], parent_name: &str, indexed_metadata: &[String]) -> (r: Result<
    Vec<ParsedObjectHeader>,
    Error,
>)
    ensures
        match parse_object_headers(buf@, parent_name@, text_views(indexed_metadata@)) {
            Ok(hs) => r matches Ok(v) && object_header_views(v@) == hs,
            Err(e) => r is Err && reports(r->Err_0, e),
        },
{
    let mut headers: Vec<ParsedObjectHeader> = Vec::new();
    if buf.len() <= 32 {
        assert(object_header_views(headers@) =~= Seq::<ObjectHeaderView>::empty());
        return Ok(headers);
    }
    let ghost indexed = text_views(indexed_metadata@);
    let buf_size = buf.len() - 32;
    let b = slice_subrange(buf, 0, buf_size);
    let mut pos: usize = 0;
    while pos < buf_size
        invariant
            buf_size == b@.len(),
            b@ == buf@.subrange(0, buf@.len() - 32),
            buf@.len() > 32,
            pos <= buf_size,
            indexed == text_views(indexed_metadata@),
            match parse_object_headers_from(b@, pos as int, parent_name@, indexed) {
                Ok(rest) => parse_object_headers(buf@, parent_name@, indexed) == Ok::<
                    Seq<ObjectHeaderView>,
                    HeaderError,
                >(object_header_views(headers@) + rest),
                Err(e) => parse_object_headers(buf@, parent_name@, indexed) == Err::<
                    Seq<ObjectHeaderView>,
                    HeaderError,
                >(e),
            },
        decreases buf_size - pos,
    {
        if buf_size - pos < 4 {
            return Err(Error::invalid("Object header name size truncated"));
        }
        let name_size = read_u32_le(slice_from(b, pos)) as usize;
        assert(slice_from_view(b@, pos as int).subrange(0, 4) =~= b@.subrange(pos as int, pos + 4));
        let p = pos + 4;
        if name_size == 0 || buf_size - p < name_size || buf_size - p - name_size < 1 {
            return Err(Error::invalid("Object header name invalid"));
        }
        let name = match crate::util::text::utf8_text(slice_subrange(b, p, p + name_size)) {
            Ok(t) => t,
            Err(m) => {
                return Err(Error::Other(crate::util::text::utf8_message("Invalid UTF-8 in object name", m.as_str())));
            },
        };
        let p2 = p + name_size;
        let metadata_index = b[p2] as usize;
        let p3 = p2 + 1;
        let full_name = make_child_path(parent_name, name.as_str());
        let (metadata, next) = if metadata_index == 0xff {
            if buf_size - p3 < 4 {
                return Err(Error::invalid("Object header metadata size truncated"));
            }
            let ms = read_u32_le(slice_from(b, p3)) as usize;
            assert(slice_from_view(b@, p3 as int).subrange(0, 4) =~= b@.subrange(p3 as int, p3 + 4));
            let p4 = p3 + 4;
            if buf_size - p4 < ms {
                return Err(Error::invalid("Object header metadata string truncated"));
            }
            match crate::util::text::utf8_text(slice_subrange(b, p4, p4 + ms)) {
                Ok(t) => (t, p4 + ms),
                Err(m) => {
                    return Err(Error::Other(crate::util::text::utf8_message("Invalid UTF-8 in metadata", m.as_str())));
                },
            }
        } else if metadata_index < indexed_metadata.len() {
            (indexed_metadata[metadata_index].clone(), p3)
        } else {
            return Err(Error::invalid("Invalid metadata index"));
        };
        let h = ParsedObjectHeader { name, full_name, metadata };
        let ghost hv = h@;
        let ghost before = object_header_views(headers@);
        headers.push(h);
        proof {
            assert(object_header_views(headers@) =~= before.push(hv));
            if let Ok(rest) = parse_object_headers_from(b@, next as int, parent_name@, indexed) {
                assert(before + (seq![hv] + rest) =~= before.push(hv) + rest);
            }
        }
        pos = next;
    }
    proof {
        assert(object_header_views(headers@) + Seq::<ObjectHeaderView>::empty() =~= object_header_views(headers@));
    }
    Ok(headers)
}

/// Read a little-endian `u64` from the first eight bytes.
pub fn read_u64_le(bytes: &[u8]) -> (r: u64)
    requires
        bytes@.len() >= 8,
    ensures
        r == le_value(bytes@.subrange(0, 8)),
{
    let lo = read_u32_le(bytes) as u64;
    let hi = read_u32_le(slice_from(bytes, 4)) as u64;
    proof {
        let s = bytes@.subrange(0, 8);
        assert(slice_from_view(bytes@, 4).subrange(0, 4) =~= s.subrange(4, 8));
        assert(bytes@.subrange(0, 4) =~= s.subrange(0, 4));
        crate::ogawa::le::lemma_le_value_split(s, 4);
        crate::ogawa::le::lemma_le_value_bound(s.subrange(0, 4));
        crate::ogawa::le::lemma_le_value_bound(s.subrange(4, 8));
        reveal_with_fuel(crate::ogawa::le::byte_range, 5);
        assert(hi * 4294967296 + lo <= 0xFFFF_FFFF_FFFF_FFFF) by (nonlinear_arith)
            requires
                hi < 4294967296,
                lo < 4294967296,
        ;
        assert(crate::ogawa::le::byte_range(4) == 4294967296);
        assert(lo == le_value(s.subrange(0, 4)));
        assert(hi == le_value(s.subrange(4, 8)));
        assert(le_value(s) == lo + 4294967296 * hi);
    }
    hi * 4294967296 + lo
}

/// One time sampling record of an archive: the largest sample count of the
/// properties that use it, the time per cycle and the stored sample times
/// (each time the bit pattern of a double).
#[derive(Debug)]
pub struct TimeSamplingRecord {
    pub max_sample: u32,
    pub time_per_cycle: u64,
    pub times: Vec<u64>,
}

/// The contents of a time sampling record.
pub open spec fn record_view(r: TimeSamplingRecord) -> (u32, u64, Seq<u64>) {
    (r.max_sample, r.time_per_cycle, r.times@)
}

/// The `k`-th stored time of a record whose times start at `p`.
pub open spec fn stored_time(buf: Seq<u8>, p: int, k: int) -> u64 {
    le_value(buf.subrange(p + 8 * k, p + 8 * k + 8)) as u64
}

/// Decoding the time sampling records from `pos` to the end of `buf`: each
/// is a 4-byte maximum sample count, an 8-byte time per cycle, a 4-byte
/// number of times (at least one) and the 8-byte times; `None` for a
/// truncated or empty record.
pub open spec fn parse_time_samplings_from(buf: Seq<u8>, pos: int) -> Option<Seq<(u32, u64, Seq<u64>)>>
    decreases buf.len() - pos,
{
    if pos >= buf.len() || pos < 0 {
        Some(Seq::empty())
    } else if pos + 16 > buf.len() {
        None
    } else {
        let max = le_value(buf.subrange(pos, pos + 4)) as u32;
        let tpc = le_value(buf.subrange(pos + 4, pos + 12)) as u64;
        let n = le_value(buf.subrange(pos + 12, pos + 16)) as int;
        let p = pos + 16;
        if n == 0 || p + 8 * n > buf.len() {
            None
        } else {
            match parse_time_samplings_from(buf, p + 8 * n) {
                None => None,
                Some(rest) => Some(seq![(max, tpc, Seq::new(n as nat, |k: int| stored_time(buf, p, k)))] + rest),
            }
        }
    }
}

/// The contents of a list of records.
pub open spec fn record_views(rs: Seq<TimeSamplingRecord>) -> Seq<(u32, u64, Seq<u64>)> {
    rs.map_values(|r: TimeSamplingRecord| record_view(r))
}

/// Decode the time sampling records of an archive.
pub fn read_time_samplings_and_max(buf: &[u8]) -> (r: Result<Vec<TimeSamplingRecord>, Error>)
    ensures
        match parse_time_samplings_from(buf@, 0) {
            Some(rs) => r matches Ok(v) && record_views(v@) == rs,
            None => r matches Err(Error::InvalidStructure(_)),
        },
{
    let mut out: Vec<TimeSamplingRecord> = Vec::new();
    let buf_size = buf.len();
    let mut pos: usize = 0;
    while pos < buf_size
        invariant
            buf_size == buf@.len(),
            pos <= buf_size,
            match parse_time_samplings_from(buf@, pos as int) {
                Some(rest) => parse_time_samplings_from(buf@, 0) == Some(record_views(out@) + rest),
                None => parse_time_samplings_from(buf@, 0) is None,
            },
        decreases buf_size - pos,
    {
        if buf_size - pos < 16 {
            return Err(Error::invalid("TimeSamples info truncated"));
        }
        let max_sample = read_u32_le(slice_from(buf, pos));
        assert(slice_from_view(buf@, pos as int).subrange(0, 4) =~= buf@.subrange(pos as int, pos + 4));
        let tpc = read_u64_le(slice_from(buf, pos + 4));
        assert(slice_from_view(buf@, pos + 4).subrange(0, 8) =~= buf@.subrange(pos + 4, pos + 12));
        let num_samples = read_u32_le(slice_from(buf, pos + 12)) as usize;
        assert(slice_from_view(buf@, pos + 12).subrange(0, 4) =~= buf@.subrange(pos + 12, pos + 16));
        let p = pos + 16;
        if num_samples == 0 || num_samples > (buf_size - p) / 8 {
            return Err(Error::invalid("TimeSamples sample times invalid"));
        }
        let mut times: Vec<u64> = Vec::new();
        let mut k: usize = 0;
        while k < num_samples
            invariant
                buf_size == buf@.len(),
                p + 8 * num_samples <= buf_size,
                k <= num_samples,
                times@ =~= Seq::new(k as nat, |m: int| stored_time(buf@, p as int, m)),
            decreases num_samples - k,
        {
            let t = read_u64_le(slice_from(buf, p + 8 * k));
            assert(slice_from_view(buf@, p + 8 * k).subrange(0, 8) =~= buf@.subrange(p + 8 * k, p + 8 * k + 8));
            times.push(t);
            k = k + 1;
        }
        let rec = TimeSamplingRecord { max_sample, time_per_cycle: tpc, times };
        let ghost rv = record_view(rec);
        let ghost before = record_views(out@);
        out.push(rec);
        proof {
            assert(record_views(out@) =~= before.push(rv));
            let next = p + 8 * num_samples;
            match parse_time_samplings_from(buf@, next as int) {
                Some(rest) => {
                    assert(before + (seq![rv] + rest) =~= before.push(rv) + rest);
                },
                None => {},
            }
        }
        pos = p + 8 * num_samples;
    }
    proof {
        assert(record_views(out@) + Seq::<(u32, u64, Seq<u64>)>::empty() =~= record_views(out@));
    }
    Ok(out)
}

} // verus!
