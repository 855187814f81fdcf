//! Reading the Alembic layout of an opened Ogawa file: the archive's root
//! group (versions, archive metadata, time samplings, indexed metadata and
//! the root object), objects (their child headers and property headers) and
//! looking objects up by path.

use vstd::prelude::*;
use vstd::utf8::{decode_utf8, encode_utf8};
use crate::ogawa::format::{offset_names_group, offset_position};
use crate::ogawa::le::le_value;
use crate::ogawa::read_util::{
    ParsedObjectHeader, ParsedPropertyHeader, TimeSamplingRecord, read_object_headers,
    read_property_headers, read_indexed_metadata, read_time_samplings_and_max, read_u32_le,
    text_views, object_header_views, property_header_views, record_views, parse_object_headers,
    parse_property_headers_from, parse_indexed_metadata, parse_time_samplings_from,
};
use crate::ogawa::reader::{IGroup, IData, GroupView, group_wf, group_read, child_offset_of, data_read, u64_at, child_offset_readable, group_readable};
use crate::ogawa::read_util::PropertyType;
use crate::util::error::Error;
use crate::util::data_type::DataType;
use crate::util::pod::pod_width;
use crate::util::text::{push_signed_decimal, utf8_text, utf8_message, signed_decimal};

verus! {

/// The newest Ogawa file version this reader accepts.
pub const ALEMBIC_OGAWA_FILE_VERSION: i32 = 1;

/// The oldest library version this reader accepts.
pub const MIN_ALEMBIC_VERSION: i32 = 9999;

/// The bytes of the data block that child `i` of a group refers to (none for
/// the empty block; a block running past the end of the file is cut there).
pub open spec fn child_block(data: Seq<u8>, g: GroupView, i: int) -> Seq<u8> {
    let p = offset_position(child_offset_of(data, g, i));
    let end = p + 8 + u64_at(data, p as int);
    if p == 0 || p + 8 > data.len() {
        Seq::empty()
    } else if end <= data.len() {
        data.subrange(p + 8, end)
    } else {
        data.subrange(p + 8, data.len() as int)
    }
}

/// Child `i` of a group is a data block.
pub open spec fn child_is_data(data: Seq<u8>, g: GroupView, i: int) -> bool {
    !offset_names_group(child_offset_of(data, g, i))
}

/// The root group lists data, data, a group, then three data blocks.
pub open spec fn root_kinds_ok(data: Seq<u8>, g: GroupView) -> bool {
    &&& child_is_data(data, g, 0)
    &&& child_is_data(data, g, 1)
    &&& !child_is_data(data, g, 2)
    &&& child_is_data(data, g, 3)
    &&& child_is_data(data, g, 4)
    &&& child_is_data(data, g, 5)
}

/// The 32-bit signed integer stored little-endian in four bytes.
pub open spec fn i32_of(b: Seq<u8>) -> i32 {
    le_value(b) as u32 as i32
}

/// The group an object is stored in, and what is read from it: the headers
/// of its child objects and its top compound property.
pub struct ObjectData {
    pub group: IGroup,
    pub children: Vec<ParsedObjectHeader>,
    pub properties: CompoundData,
}

/// A compound property read from its group: the headers of its properties.
pub struct CompoundData {
    pub sub_properties: Vec<ParsedPropertyHeader>,
    pub group: Option<IGroup>,
}

/// What an archive's root group holds.
pub struct OgawaArchiveReader {
    pub name: String,
    pub archive_version: i32,
    pub time_samplings: Vec<TimeSamplingRecord>,
    pub indexed_metadata: Vec<String>,
    pub archive_metadata: String,
    pub root: ObjectData,
}

/// The header of the data block child `i` of a group refers to lies in the
/// file (the empty block at position 0 always does).
pub open spec fn block_header_readable(data: Seq<u8>, g: GroupView, i: int) -> bool {
    let p = offset_position(child_offset_of(data, g, i));
    p == 0 || p + 8 <= data.len()
}

/// The whole data block child `i` of a group refers to lies in the file.
pub open spec fn block_readable(data: Seq<u8>, g: GroupView, i: int) -> bool {
    let p = offset_position(child_offset_of(data, g, i));
    p == 0 || (p + 8 <= data.len() && p + 8 + u64_at(data, p as int) <= data.len())
}

/// The size recorded for the data block child `i` of a group refers to.
pub open spec fn block_size(data: Seq<u8>, g: GroupView, i: int) -> u64 {
    data_read(data, offset_position(child_offset_of(data, g, i))).size
}

/// A compound property's group reads: the offset of its last child can be
/// had, and when that child is data its block lies in the file and holds
/// property headers that decode against the metadata table `indexed`.
pub open spec fn compound_readable(data: Seq<u8>, g: GroupView, indexed: Seq<Seq<char>>) -> bool {
    g.num_children > 0 ==> ({
        let last = g.num_children - 1;
        &&& child_offset_readable(data, g, last)
        &&& (child_is_data(data, g, last) ==> block_readable(data, g, last) && parse_property_headers_from(
            child_block(data, g, last),
            0,
            indexed,
        ) is Ok)
    })
}

/// An object's group reads: the offsets of its last and first children can
/// be had; a last child that is data has its header in the file and, when
/// it records more than 32 bytes, lies in the file and holds object headers
/// that decode under `parent`; a first child that is a group can be read
/// and holds a compound that reads.
pub open spec fn object_readable(data: Seq<u8>, g: GroupView, parent: Seq<char>, indexed: Seq<Seq<char>>) -> bool {
    g.num_children > 0 ==> ({
        let last = g.num_children - 1;
        let p0 = offset_position(child_offset_of(data, g, 0));
        &&& child_offset_readable(data, g, last)
        &&& (child_is_data(data, g, last) ==> block_header_readable(data, g, last) && (block_size(data, g, last)
            > 32 ==> block_readable(data, g, last) && parse_object_headers(child_block(data, g, last), parent, indexed)
            is Ok))
        &&& child_offset_readable(data, g, 0)
        &&& (!child_is_data(data, g, 0) ==> group_readable(data, p0, false) && compound_readable(
            data,
            group_read(data, p0, false),
            indexed,
        ))
    })
}

/// The child object headers read from an object's group.
pub open spec fn object_kids(data: Seq<u8>, g: GroupView, parent: Seq<char>, indexed: Seq<Seq<char>>) -> Seq<
    crate::ogawa::read_util::ObjectHeaderView,
> {
    if g.num_children > 0 && child_is_data(data, g, g.num_children - 1) {
        match parse_object_headers(child_block(data, g, g.num_children - 1), parent, indexed) {
            Ok(v) => v,
            Err(_) => Seq::empty(),
        }
    } else {
        Seq::empty()
    }
}

/// Child object `index` of an object read from group `g`, with header `h`,
/// reads: its group is the group's child `index + 1`, which is a group
/// that can be read and holds an object that reads under `h`'s full name.
pub open spec fn child_object_readable(
    data: Seq<u8>,
    g: GroupView,
    h: crate::ogawa::read_util::ObjectHeaderView,
    index: int,
    indexed: Seq<Seq<char>>,
) -> bool {
    let gi = index + 1;
    let p = offset_position(child_offset_of(data, g, gi));
    &&& gi < g.num_children
    &&& child_offset_readable(data, g, gi)
    &&& offset_names_group(child_offset_of(data, g, gi))
    &&& group_readable(data, p, false)
    &&& object_readable(data, group_read(data, p, false), h.full_name, indexed)
}

/// `i` is the first position of a child header called `name`.
pub open spec fn first_named(kids: Seq<crate::ogawa::read_util::ObjectHeaderView>, name: Seq<char>, i: int) -> bool {
    0 <= i < kids.len() && kids[i].name == name && forall|j: int| 0 <= j < i ==> kids[j].name != name
}

proof fn lemma_first_named_unique(kids: Seq<crate::ogawa::read_util::ObjectHeaderView>, name: Seq<char>, i: int, j: int)
    requires
        first_named(kids, name, i),
        first_named(kids, name, j),
    ensures
        i == j,
{
    if i < j {
        assert(kids[i].name != name);
    } else if j < i {
        assert(kids[j].name != name);
    }
}

/// The group of child object `index` of an object read from group `g`.
pub open spec fn child_object_group(data: Seq<u8>, g: GroupView, index: int) -> GroupView {
    group_read(data, offset_position(child_offset_of(data, g, index + 1)), false)
}

fn read_block(data: &[u8], g: &IGroup, index: u64) -> (r: Result<IData, Error>)
    requires
        group_wf(g@),
        index < g@.num_children,
        !g@.light,
        g@.child_offsets.len() > 0,
        child_is_data(data@, g@, index as int),
    ensures
        block_header_readable(data@, g@, index as int) ==> r == Ok::<IData, Error>(
            data_read(data@, offset_position(child_offset_of(data@, g@, index as int))),
        ),
        !block_header_readable(data@, g@, index as int) ==> r matches Err(Error::UnexpectedEof(_)),
{
    g.data(data, index)
}

fn read_i32_block(data: &[u8], g: &IGroup, index: u64, size_error: &str) -> (r: Result<i32, Error>)
    requires
        group_wf(g@),
        index < g@.num_children,
        !g@.light,
        g@.child_offsets.len() > 0,
        child_is_data(data@, g@, index as int),
    ensures
        !block_header_readable(data@, g@, index as int) ==> r matches Err(Error::UnexpectedEof(_)),
        block_header_readable(data@, g@, index as int) && block_size(data@, g@, index as int) != 4 ==> (r matches Err(
            Error::InvalidStructure(m),
        ) && m@ == size_error@),
        block_header_readable(data@, g@, index as int) && block_size(data@, g@, index as int) == 4 && !block_readable(
            data@,
            g@,
            index as int,
        ) ==> r matches Err(Error::UnexpectedEof(_)),
        block_readable(data@, g@, index as int) && block_size(data@, g@, index as int) == 4 ==> (r matches Ok(v)
            && child_block(data@, g@, index as int).len() == 4 && v == i32_of(child_block(data@, g@, index as int))),
{
    let d = match read_block(data, g, index) {
        Ok(d) => d,
        Err(e) => {
            return Err(e);
        },
    };
    if d.size != 4 {
        return Err(Error::invalid(size_error));
    }
    let bytes = match d.read_all(data) {
        Ok(b) => b,
        Err(e) => {
            return Err(e);
        },
    };
    let v = read_u32_le(bytes.as_slice());
    assert(bytes@.subrange(0, 4) =~= bytes@);
    Ok(v as i32)
}

fn message_with_number(prefix: &str, n: i32) -> (r: String)
    ensures
        r@ == prefix@ + signed_decimal(n as int),
{
    let mut m = prefix.to_owned();
    push_signed_decimal(&mut m, n as i64);
    m
}

impl CompoundData {
    /// A compound with no properties and no group.
    pub fn empty() -> (r: Self)
        ensures
            r.sub_properties@.len() == 0,
            r.group is None,
    {
        CompoundData { sub_properties: Vec::new(), group: None }
    }

    /// Read a compound property from its group: the property headers are
    /// the group's last child when that child is data.
    pub fn from_group(data: &[u8], group: IGroup, indexed: &[String]) -> (r: Result<Self, Error>)
        requires
            group_wf(group@),
            !group@.light,
        ensures
            r is Ok <==> compound_readable(data@, group@, text_views(indexed@)),
            r matches Ok(c) ==> c.group matches Some(g) && g@ == group@,
            r matches Ok(c) ==> (if group@.num_children > 0 && child_is_data(data@, group@, group@.num_children - 1) {
                parse_property_headers_from(child_block(data@, group@, group@.num_children - 1), 0, text_views(indexed@))
                    == Ok::<Seq<crate::ogawa::read_util::PropertyHeaderView>, crate::ogawa::read_util::HeaderError>(property_header_views(c.sub_properties@))
            } else {
                c.sub_properties@.len() == 0
            }),
    {
        let n = group.num_children();
        let mut subs: Vec<ParsedPropertyHeader> = Vec::new();
        if n > 0 {
            let last_is_data = match group.is_child_data(data, n - 1) {
                Ok(b) => b,
                Err(e) => {
                    return Err(e);
                },
            };
            if last_is_data {
                let d = match group.data(data, n - 1) {
                    Ok(d) => d,
                    Err(e) => {
                        return Err(e);
                    },
                };
                let bytes = match d.read_all(data) {
                    Ok(b) => b,
                    Err(e) => {
                        return Err(e);
                    },
                };
                assert(bytes@ =~= child_block(data@, group@, n - 1));
                subs = match read_property_headers(bytes.as_slice(), indexed) {
                    Ok(v) => v,
                    Err(e) => {
                        return Err(e);
                    },
                };
            }
        }
        Ok(CompoundData { sub_properties: subs, group: Some(group) })
    }
}

impl ObjectData {
    /// Read an object from its group: the headers of its child objects are
    /// the group's last child when that child is data (a block of 32 bytes
    /// or fewer holds none), its properties the group's first child when
    /// that child is a group.
    pub fn new(data: &[u8], group: IGroup, parent_name: &str, indexed: &[String]) -> (r: Result<Self, Error>)
        requires
            group_wf(group@),
            !group@.light,
        ensures
            r is Ok <==> object_readable(data@, group@, parent_name@, text_views(indexed@)),
            r matches Ok(o) ==> object_header_views(o.children@) == object_kids(data@, group@, parent_name@, text_views(indexed@)),
            r matches Ok(o) ==> o.group@ == group@,
            r matches Ok(o) ==> (if group@.num_children > 0 && child_is_data(data@, group@, group@.num_children - 1) {
                parse_object_headers(child_block(data@, group@, group@.num_children - 1), parent_name@, text_views(indexed@))
                    == Ok::<Seq<crate::ogawa::read_util::ObjectHeaderView>, crate::ogawa::read_util::HeaderError>(object_header_views(o.children@))
            } else {
                o.children@.len() == 0
            }),
            r matches Ok(o) ==> (group@.num_children > 0 && !child_is_data(data@, group@, 0) ==> (o.properties.group
                matches Some(pg) && pg@ == group_read(data@, offset_position(child_offset_of(data@, group@, 0)), false))),
            r matches Ok(o) ==> (!(group@.num_children > 0 && !child_is_data(data@, group@, 0)) ==> o.properties.group
                is None && o.properties.sub_properties@.len() == 0),
    {
        let n = group.num_children();
        let mut children: Vec<ParsedObjectHeader> = Vec::new();
        if n > 0 {
            let last_is_data = match group.is_child_data(data, n - 1) {
                Ok(b) => b,
                Err(e) => {
                    return Err(e);
                },
            };
            if last_is_data {
                let d = match group.data(data, n - 1) {
                    Ok(d) => d,
                    Err(e) => {
                        return Err(e);
                    },
                };
                if d.size > 32 {
                    let bytes = match d.read_all(data) {
                        Ok(b) => b,
                        Err(e) => {
                            return Err(e);
                        },
                    };
                    assert(bytes@ =~= child_block(data@, group@, n - 1));
                    children = match read_object_headers(bytes.as_slice(), parent_name, indexed) {
                        Ok(v) => v,
                        Err(e) => {
                            return Err(e);
                        },
                    };
                } else {
                    proof {
                        let blk = child_block(data@, group@, n - 1);
                        assert(blk.len() <= 32);
                        assert(object_header_views(children@) =~= Seq::<crate::ogawa::read_util::ObjectHeaderView>::empty());
                    }
                }
            }
        }
        let mut properties = CompoundData::empty();
        if n > 0 {
            let first_is_group = match group.is_child_group(data, 0) {
                Ok(b) => b,
                Err(e) => {
                    return Err(e);
                },
            };
            if first_is_group {
                let pg = match group.group(data, 0) {
                    Ok(g) => g,
                    Err(e) => {
                        return Err(e);
                    },
                };
                properties = match CompoundData::from_group(data, pg, indexed) {
                    Ok(c) => c,
                    Err(e) => {
                        return Err(e);
                    },
                };
            }
        }
        Ok(ObjectData { group, children, properties })
    }

    /// Number of child objects.
    #[allow(non_snake_case)]
    pub fn getNumChildren(&self) -> (r: usize)
        ensures
            r == self.children@.len(),
    {
        self.children.len()
    }
}

/// The root layout a reader accepts: more than five children, of the kinds
/// data, data, group, data, data, data; a 4-byte file version from 0 to 1
/// and a 4-byte library version of at least 9999; a time sampling table and
/// an indexed metadata table (of at most 65536 bytes) that decode; a root
/// object group that reads against that table; and archive metadata text
/// that is UTF-8.
pub open spec fn archive_root_readable(data: Seq<u8>, root: GroupView) -> bool {
    let top = offset_position(child_offset_of(data, root, 2));
    &&& root.num_children > 5
    &&& root_kinds_ok(data, root)
    &&& block_readable(data, root, 0) && block_size(data, root, 0) == 4
    &&& 0 <= i32_of(child_block(data, root, 0)) <= ALEMBIC_OGAWA_FILE_VERSION
    &&& block_readable(data, root, 1) && block_size(data, root, 1) == 4
    &&& i32_of(child_block(data, root, 1)) >= MIN_ALEMBIC_VERSION
    &&& block_readable(data, root, 4) && parse_time_samplings_from(child_block(data, root, 4), 0) is Some
    &&& block_readable(data, root, 5) && block_size(data, root, 5) <= 65536
    &&& parse_indexed_metadata(child_block(data, root, 5)) is Ok
    &&& group_readable(data, top, false)
    &&& object_readable(
        data,
        group_read(data, top, false),
        Seq::empty(),
        parse_indexed_metadata(child_block(data, root, 5))->Ok_0,
    )
    &&& block_readable(data, root, 3)
    &&& vstd::utf8::valid_utf8(child_block(data, root, 3))
}

/// What a reader of the archive named `name` with root group `root` holds:
/// the library version, the time samplings, the indexed metadata, the root
/// object group and the archive metadata text, each decoded from its block.
pub open spec fn archive_read(data: Seq<u8>, root: GroupView, name: Seq<char>, c: OgawaArchiveReader) -> bool {
    &&& root.num_children > 5
    &&& root_kinds_ok(data, root)
    &&& c.name@ == name
    &&& child_block(data, root, 0).len() == 4
    &&& 0 <= i32_of(child_block(data, root, 0)) <= ALEMBIC_OGAWA_FILE_VERSION
    &&& child_block(data, root, 1).len() == 4
    &&& c.archive_version == i32_of(child_block(data, root, 1))
    &&& c.archive_version >= MIN_ALEMBIC_VERSION
    &&& parse_time_samplings_from(child_block(data, root, 4), 0) == Some(record_views(c.time_samplings@))
    &&& parse_indexed_metadata(child_block(data, root, 5)) == Ok::<Seq<Seq<char>>, crate::ogawa::read_util::HeaderError>(text_views(c.indexed_metadata@))
    &&& c.root.group@ == group_read(data, offset_position(child_offset_of(data, root, 2)), false)
    &&& group_wf(c.root.group@)
    &&& !c.root.group@.light
    &&& c.archive_metadata@ == decode_utf8(child_block(data, root, 3))
}

impl OgawaArchiveReader {
    /// Read the archive's root group: check its layout (at least six
    /// children: data, data, group, data, data, data), the file version (a
    /// 4-byte value from 0 to 1) and library version (a 4-byte value of at
    /// least 9999), then read the time samplings, the indexed metadata, the
    /// root object and the archive metadata text.
    #[verifier::spinoff_prover]
    #[verifier::rlimit(80)]
    pub fn init(name: &str, data: &[u8], root: &IGroup) -> (r: Result<Self, Error>)
        requires
            group_wf(root@),
            !root@.light,
            root@.child_offsets.len() == root@.num_children,
        ensures
            root@.num_children <= 5 ==> (r matches Err(Error::InvalidStructure(m)) && m@
                == "Invalid Alembic file: not enough children"@),
            root@.num_children > 5 && !root_kinds_ok(data@, root@) ==> (r matches Err(
                Error::InvalidStructure(m),
            ) && m@ == "Invalid Alembic file structure"@),
            r is Ok <==> archive_root_readable(data@, root@),
            r matches Ok(c) ==> archive_read(data@, root@, name@, c),
    {
        let n = root.num_children();
        if n <= 5 {
            proof {
                reveal_strlit("Invalid Alembic file: not enough children");
            }
            return Err(Error::invalid("Invalid Alembic file: not enough children"));
        }
        let k0 = match root.is_child_data(data, 0) { Ok(b) => b, Err(e) => { return Err(e); } };
        let k1 = match root.is_child_data(data, 1) { Ok(b) => b, Err(e) => { return Err(e); } };
        let k2 = match root.is_child_group(data, 2) { Ok(b) => b, Err(e) => { return Err(e); } };
        let k3 = match root.is_child_data(data, 3) { Ok(b) => b, Err(e) => { return Err(e); } };
        let k4 = match root.is_child_data(data, 4) { Ok(b) => b, Err(e) => { return Err(e); } };
        let k5 = match root.is_child_data(data, 5) { Ok(b) => b, Err(e) => { return Err(e); } };
        if !k0 || !k1 || !k2 || !k3 || !k4 || !k5 {
            proof {
                reveal_strlit("Invalid Alembic file structure");
            }
            return Err(Error::invalid("Invalid Alembic file structure"));
        }
        let version = match read_i32_block(data, root, 0, "Invalid version data size") {
            Ok(v) => v,
            Err(e) => {
                return Err(e);
            },
        };
        if version < 0 || version > ALEMBIC_OGAWA_FILE_VERSION {
            return Err(Error::InvalidStructure(message_with_number("Unsupported file version: ", version)));
        }
        let archive_version = match read_i32_block(data, root, 1, "Invalid file version data size") {
            Ok(v) => v,
            Err(e) => {
                return Err(e);
            },
        };
        if archive_version < MIN_ALEMBIC_VERSION {
            return Err(Error::InvalidStructure(message_with_number("Unsupported Alembic version: ", archive_version)));
        }
        let time_data = match read_block(data, root, 4) { Ok(d) => d, Err(e) => { return Err(e); } };
        let time_bytes = match time_data.read_all(data) { Ok(b) => b, Err(e) => { return Err(e); } };
        assert(time_bytes@ =~= child_block(data@, root@, 4));
        let time_samplings = match read_time_samplings_and_max(time_bytes.as_slice()) {
            Ok(t) => t,
            Err(e) => {
                return Err(e);
            },
        };
        let md_data = match read_block(data, root, 5) { Ok(d) => d, Err(e) => { return Err(e); } };
        if md_data.size > 65536 {
            return Err(Error::invalid("Indexed MetaData buffer too large"));
        }
        let md_bytes = match md_data.read_all(data) { Ok(b) => b, Err(e) => { return Err(e); } };
        assert(md_bytes@ =~= child_block(data@, root@, 5));
        let indexed = match read_indexed_metadata(md_bytes.as_slice()) {
            Ok(v) => v,
            Err(e) => {
                return Err(e);
            },
        };
        let root_group = match root.group(data, 2) { Ok(g) => g, Err(e) => { return Err(e); } };
        proof {
            reveal_strlit("");
            assert(""@ =~= Seq::<char>::empty());
            assert(parse_indexed_metadata(child_block(data@, root@, 5))->Ok_0 == text_views(indexed@));
        }
        let root_object = match ObjectData::new(data, root_group, "", indexed.as_slice()) {
            Ok(o) => o,
            Err(e) => {
                return Err(e);
            },
        };
        let meta = match read_block(data, root, 3) { Ok(d) => d, Err(e) => { return Err(e); } };
        let mut archive_metadata = String::new();
        if meta.size > 0 {
            let meta_bytes = match meta.read_all(data) { Ok(b) => b, Err(e) => { return Err(e); } };
            assert(meta_bytes@ =~= child_block(data@, root@, 3));
            archive_metadata = match utf8_text(meta_bytes.as_slice()) {
                Ok(t) => t,
                Err(m) => {
                    return Err(Error::Other(utf8_message("Invalid UTF-8 in archive metadata", m.as_str())));
                },
            };
        } else {
            proof {
                assert(child_block(data@, root@, 3) =~= Seq::<u8>::empty());
                assert(vstd::utf8::valid_utf8(Seq::<u8>::empty()));
                assert(decode_utf8(Seq::<u8>::empty()) =~= Seq::<char>::empty());
            }
        }
        Ok(OgawaArchiveReader {
            name: name.to_owned(),
            archive_version,
            time_samplings,
            indexed_metadata: indexed,
            archive_metadata,
            root: root_object,
        })
    }

    /// The library version the archive was written with.
    #[allow(non_snake_case)]
    pub fn getArchiveVersion(&self) -> (r: i32)
        ensures
            r == self.archive_version,
    {
        self.archive_version
    }

    /// The largest sample count recorded for time sampling `index`.
    pub fn max_samples_for_time_sampling(&self, index: usize) -> (r: Option<u32>)
        ensures
            index < self.time_samplings@.len() ==> r == Some(self.time_samplings@[index as int].max_sample),
            index >= self.time_samplings@.len() ==> r is None,
    {
        if index < self.time_samplings.len() {
            Some(self.time_samplings[index].max_sample)
        } else {
            None
        }
    }

    /// Number of time samplings.
    #[allow(non_snake_case)]
    pub fn getNumTimeSamplings(&self) -> (r: usize)
        ensures
            r == self.time_samplings@.len(),
    {
        self.time_samplings.len()
    }

    /// The archive's name.
    #[allow(non_snake_case)]
    pub fn getName(&self) -> (r: &str)
        ensures
            r@ == self.name@,
    {
        self.name.as_str()
    }

    /// Time sampling `index`, if there is one.
    #[allow(non_snake_case)]
    pub fn getTimeSampling(&self, index: usize) -> (r: Option<&TimeSamplingRecord>)
        ensures
            index < self.time_samplings@.len() ==> r == Some(&self.time_samplings@[index as int]),
            index >= self.time_samplings@.len() ==> r is None,
    {
        if index < self.time_samplings.len() {
            Some(&self.time_samplings[index])
        } else {
            None
        }
    }

    /// The largest sample count recorded for time sampling `index`, as a
    /// count.
    #[allow(non_snake_case)]
    pub fn getMaxNumSamplesForTimeSamplingIndex(&self, index: usize) -> (r: Option<usize>)
        ensures
            index < self.time_samplings@.len() ==> r == Some(self.time_samplings@[index as int].max_sample as usize),
            index >= self.time_samplings@.len() ==> r is None,
    {
        if index < self.time_samplings.len() {
            Some(self.time_samplings[index].max_sample as usize)
        } else {
            None
        }
    }

    /// The archive's metadata text.
    #[allow(non_snake_case)]
    pub fn getArchiveMetaData(&self) -> (r: &str)
        ensures
            r@ == self.archive_metadata@,
    {
        self.archive_metadata.as_str()
    }

    /// The indexed metadata table.
    pub fn indexed_metadata(&self) -> (r: &[String])
        ensures
            r@ == self.indexed_metadata@,
    {
        self.indexed_metadata.as_slice()
    }

    /// The root object's group, child headers and properties.
    #[allow(non_snake_case)]
    pub fn getTop(&self) -> (r: &ObjectData)
        ensures
            *r == self.root,
    {
        &self.root
    }
}

/// A file a reader opens: a header with the magic, a root group that lies
/// in the file, and a root layout the reader accepts.
pub open spec fn archive_file_readable(data: Seq<u8>) -> bool {
    &&& data.len() >= 16
    &&& data.subrange(0, 5) == crate::ogawa::reader::magic_bytes()
    &&& group_readable(data, u64_at(data, 8), false)
    &&& archive_root_readable(data, group_read(data, u64_at(data, 8), false))
}

/// Open an archive from the bytes of its file: the Ogawa header and root
/// group, then the Alembic root layout.
pub fn open_archive(name: &str, data: &[u8]) -> (r: Result<OgawaArchiveReader, Error>)
    ensures
        data@.len() < 16 ==> (r matches Err(Error::UnexpectedEof(n)) && n == data@.len()),
        data@.len() >= 16 && data@.subrange(0, 5) != crate::ogawa::reader::magic_bytes() ==> r matches Err(
            Error::InvalidMagic,
        ),
        r is Ok <==> archive_file_readable(data@),
        r matches Ok(c) ==> archive_read(data@, group_read(data@, u64_at(data@, 8), false), name@, c),
        r matches Ok(c) ==> group_wf(c.root.group@) && !c.root.group@.light,
{
    let archive = match crate::ogawa::reader::IArchive::open(data) {
        Ok(a) => a,
        Err(e) => {
            return Err(e);
        },
    };
    proof {
        let g = archive.root()@;
        assert(g.child_offsets.len() == g.num_children);
    }
    OgawaArchiveReader::init(name, data, archive.root())
}

/// An object read from an archive: its header and what its group holds.
pub struct OgawaObjectReader {
    pub header: ParsedObjectHeader,
    pub data: ObjectData,
}

fn copy_header(h: &ParsedObjectHeader) -> (r: ParsedObjectHeader)
    ensures
        r@ == h@,
{
    ParsedObjectHeader { name: h.name.clone(), full_name: h.full_name.clone(), metadata: h.metadata.clone() }
}

impl ObjectData {
    /// The child object at `index` (`None` past the last child): its header
    /// and the object read from the group after the property group.
    pub fn child(&self, data: &[u8], index: usize, indexed: &[String]) -> (r: Option<Result<OgawaObjectReader, Error>>)
        requires
            group_wf(self.group@),
            !self.group@.light,
        ensures
            index >= self.children@.len() ==> r is None,
            index < self.children@.len() ==> r is Some,
            r matches Some(Ok(c)) ==> c.header@ == self.children@[index as int]@ && c.data.group@ == group_read(
                data@,
                offset_position(child_offset_of(data@, self.group@, index + 1)),
                false,
            ),
            r matches Some(Ok(c)) ==> group_wf(c.data.group@) && !c.data.group@.light,
            index < self.children@.len() ==> (r matches Some(Ok(_)) <==> child_object_readable(
                data@,
                self.group@,
                self.children@[index as int]@,
                index as int,
                text_views(indexed@),
            )),
            r matches Some(Ok(c)) ==> object_header_views(c.data.children@) == object_kids(
                data@,
                c.data.group@,
                self.children@[index as int]@.full_name,
                text_views(indexed@),
            ),
    {
        if index >= self.children.len() {
            return None;
        }
        let h = &self.children[index];
        if index as u64 >= u64::MAX - 1 {
            return Some(Err(Error::ChildOutOfBounds { index: index + 1, count: self.group.num_children() as usize }));
        }
        let g = match self.group.group(data, index as u64 + 1) {
            Ok(g) => g,
            Err(e) => {
                return Some(Err(e));
            },
        };
        let od = match ObjectData::new(data, g, h.full_name.as_str(), indexed) {
            Ok(o) => o,
            Err(e) => {
                return Some(Err(e));
            },
        };
        Some(Ok(OgawaObjectReader { header: copy_header(h), data: od }))
    }

    /// The first child object called `name`, if there is one.
    pub fn child_by_name(&self, data: &[u8], name: &str, indexed: &[String]) -> (r: Option<Result<OgawaObjectReader, Error>>)
        requires
            group_wf(self.group@),
            !self.group@.light,
        ensures
            r is Some <==> exists|i: int| 0 <= i < self.children@.len() && self.children@[i].name@ == name@,
            r matches Some(Ok(c)) ==> c.header.name@ == name@,
            r matches Some(Ok(_)) <==> exists|i: int|
                first_named(object_header_views(self.children@), name@, i) && child_object_readable(
                    data@,
                    self.group@,
                    self.children@[i]@,
                    i,
                    text_views(indexed@),
                ),
    {
        let mut i: usize = 0;
        while i < self.children.len()
            invariant
                i <= self.children@.len(),
                group_wf(self.group@),
                !self.group@.light,
                forall|k: int| 0 <= k < i ==> self.children@[k].name@ != name@,
            decreases self.children@.len() - i,
        {
            if crate::util::text::str_equals(self.children[i].name.as_str(), name) {
                let r = self.child(data, i, indexed);
                proof {
                    let kids = object_header_views(self.children@);
                    assert(first_named(kids, name@, i as int));
                    assert forall|k: int| first_named(kids, name@, k) implies k == i by {
                        lemma_first_named_unique(kids, name@, k, i as int);
                    }
                }
                return r;
            }
            i = i + 1;
        }
        None
    }
}

impl OgawaObjectReader {
    /// The object's header.
    #[allow(non_snake_case)]
    pub fn getHeader(&self) -> (r: &ParsedObjectHeader)
        ensures
            *r == self.header,
    {
        &self.header
    }

    /// Number of child objects.
    #[allow(non_snake_case)]
    pub fn getNumChildren(&self) -> (r: usize)
        ensures
            r == self.data.children@.len(),
    {
        self.data.getNumChildren()
    }

    /// The child object at `index`; `None` past the last child or where the
    /// child cannot be read.
    #[allow(non_snake_case)]
    pub fn getChildByIndex(&self, data: &[u8], index: usize, indexed: &[String]) -> (r: Option<OgawaObjectReader>)
        requires
            group_wf(self.data.group@),
            !self.data.group@.light,
        ensures
            index >= self.data.children@.len() ==> r is None,
            index < self.data.children@.len() ==> (r is Some <==> child_object_readable(
                data@,
                self.data.group@,
                self.data.children@[index as int]@,
                index as int,
                text_views(indexed@),
            )),
            r matches Some(c) ==> c.header@ == self.data.children@[index as int]@ && c.data.group@ == group_read(
                data@,
                offset_position(child_offset_of(data@, self.data.group@, index + 1)),
                false,
            ) && group_wf(c.data.group@) && !c.data.group@.light,
    {
        match self.data.child(data, index, indexed) {
            Some(Ok(c)) => Some(c),
            _ => None,
        }
    }

    /// The first child object called `name`; `None` where there is none or
    /// it cannot be read.
    #[allow(non_snake_case)]
    pub fn getChild(&self, data: &[u8], name: &str, indexed: &[String]) -> (r: Option<OgawaObjectReader>)
        requires
            group_wf(self.data.group@),
            !self.data.group@.light,
        ensures
            r is Some <==> exists|i: int|
                first_named(object_header_views(self.data.children@), name@, i) && child_object_readable(
                    data@,
                    self.data.group@,
                    self.data.children@[i]@,
                    i,
                    text_views(indexed@),
                ),
            (forall|i: int| 0 <= i < self.data.children@.len() ==> self.data.children@[i].name@ != name@) ==> r is None,
            r matches Some(c) ==> c.header.name@ == name@,
    {
        match self.data.child_by_name(data, name, indexed) {
            Some(Ok(c)) => Some(c),
            _ => None,
        }
    }

    /// The object's top compound property.
    #[allow(non_snake_case)]
    pub fn getProperties(&self) -> (r: &CompoundData)
        ensures
            *r == self.data.properties,
    {
        &self.data.properties
    }
}

impl OgawaArchiveReader {
    /// Number of child objects of the root object.
    #[allow(non_snake_case)]
    pub fn getNumChildren(&self) -> (r: usize)
        ensures
            r == self.root.children@.len(),
    {
        self.root.getNumChildren()
    }

    /// The root object's child at `index`; `None` past the last child or
    /// where the child cannot be read.
    #[allow(non_snake_case)]
    pub fn getChildByIndex(&self, data: &[u8], index: usize) -> (r: Option<OgawaObjectReader>)
        requires
            group_wf(self.root.group@),
            !self.root.group@.light,
        ensures
            index >= self.root.children@.len() ==> r is None,
            index < self.root.children@.len() ==> (r is Some <==> child_object_readable(
                data@,
                self.root.group@,
                self.root.children@[index as int]@,
                index as int,
                text_views(self.indexed_metadata@),
            )),
            r matches Some(c) ==> c.header@ == self.root.children@[index as int]@ && c.data.group@ == group_read(
                data@,
                offset_position(child_offset_of(data@, self.root.group@, index + 1)),
                false,
            ) && group_wf(c.data.group@) && !c.data.group@.light,
    {
        match self.root.child(data, index, self.indexed_metadata.as_slice()) {
            Some(Ok(c)) => Some(c),
            _ => None,
        }
    }

    /// The root object's first child called `name`; `None` where there is
    /// none or it cannot be read.
    #[allow(non_snake_case)]
    pub fn getChild(&self, data: &[u8], name: &str) -> (r: Option<OgawaObjectReader>)
        requires
            group_wf(self.root.group@),
            !self.root.group@.light,
        ensures
            r is Some <==> exists|i: int|
                first_named(object_header_views(self.root.children@), name@, i) && child_object_readable(
                    data@,
                    self.root.group@,
                    self.root.children@[i]@,
                    i,
                    text_views(self.indexed_metadata@),
                ),
            (forall|i: int| 0 <= i < self.root.children@.len() ==> self.root.children@[i].name@ != name@) ==> r is None,
            r matches Some(c) ==> c.header.name@ == name@,
    {
        match self.root.child_by_name(data, name, self.indexed_metadata.as_slice()) {
            Some(Ok(c)) => Some(c),
            _ => None,
        }
    }

    /// The root object's top compound property.
    #[allow(non_snake_case)]
    pub fn getProperties(&self) -> (r: &CompoundData)
        ensures
            *r == self.root.properties,
    {
        &self.root.properties
    }
}

/// The index of the first `/` at or after `i`, or the length.
pub open spec fn next_slash(b: Seq<u8>, i: int) -> int
    decreases b.len() - i,
{
    if i >= b.len() || i < 0 {
        b.len() as int
    } else if b[i] == 0x2F {
        i
    } else {
        next_slash(b, i + 1)
    }
}

/// The non-empty `/`-separated parts of a path from byte `start` on.
pub open spec fn parts_from(b: Seq<u8>, start: int) -> Seq<Seq<u8>>
    decreases b.len() - start,
{
    if start < 0 || start > b.len() {
        Seq::empty()
    } else {
        proof {
            lemma_next_slash_bounds(b, start);
        }
        let j = next_slash(b, start);
        let seg = b.subrange(start, j);
        let rest = if j < b.len() {
            parts_from(b, j + 1)
        } else {
            Seq::empty()
        };
        if seg.len() == 0 {
            rest
        } else {
            seq![seg] + rest
        }
    }
}

/// The next `/` lies between `i` and the end.
pub proof fn lemma_next_slash_bounds(b: Seq<u8>, i: int)
    requires
        0 <= i <= b.len(),
    ensures
        i <= next_slash(b, i) <= b.len(),
    decreases b.len() - i,
{
    if i < b.len() && b[i] != 0x2F {
        lemma_next_slash_bounds(b, i + 1);
    }
}

proof fn lemma_next_slash(b: Seq<u8>, s: int, i: int)
    requires
        0 <= s <= i <= b.len(),
        forall|k: int| s <= k < i ==> b[k] != 0x2F,
        i == b.len() || b[i] == 0x2F,
    ensures
        next_slash(b, s) == i,
    decreases i - s,
{
    if s < i {
        lemma_next_slash(b, s + 1, i);
    }
}

/// Split a path into its non-empty `/`-separated parts, as byte ranges.
pub fn path_parts(path: &str) -> (r: Vec<(usize, usize)>)
    ensures
        r@.len() == parts_from(encode_utf8(path@), 0).len(),
        forall|k: int| 0 <= k < r@.len() ==> #[trigger] r@[k].0 <= r@[k].1 <= encode_utf8(path@).len()
            && encode_utf8(path@).subrange(r@[k].0 as int, r@[k].1 as int) == parts_from(encode_utf8(path@), 0)[k],
{
    let b = path.as_bytes();
    let ghost bs = b@;
    assert(bs == encode_utf8(path@));
    let mut out: Vec<(usize, usize)> = Vec::new();
    let ghost mut acc: Seq<Seq<u8>> = Seq::empty();
    let mut s: usize = 0;
    let mut i: usize = 0;
    while i < b.len()
        invariant
            bs == b@,
            s <= i <= b@.len(),
            forall|k: int| s <= k < i ==> b@[k] != 0x2F,
            parts_from(bs, 0) == acc + parts_from(bs, s as int),
            out@.len() == acc.len(),
            forall|k: int| 0 <= k < out@.len() ==> #[trigger] out@[k].0 <= out@[k].1 <= bs.len() && bs.subrange(
                out@[k].0 as int,
                out@[k].1 as int,
            ) == acc[k],
        decreases b@.len() - i,
    {
        if b[i] == 0x2F {
            proof {
                lemma_next_slash(bs, s as int, i as int);
                let seg = bs.subrange(s as int, i as int);
                if seg.len() == 0 {
                    assert(acc + parts_from(bs, i + 1) == parts_from(bs, 0));
                } else {
                    assert(acc.push(seg) + parts_from(bs, i + 1) =~= acc + (seq![seg] + parts_from(bs, i + 1)));
                }
            }
            if i > s {
                out.push((s, i));
                proof {
                    acc = acc.push(bs.subrange(s as int, i as int));
                }
            }
            s = i + 1;
        }
        i = i + 1;
    }
    proof {
        lemma_next_slash(bs, s as int, i as int);
        let seg = bs.subrange(s as int, i as int);
        if seg.len() > 0 {
            assert(parts_from(bs, s as int) == seq![seg]);
        } else {
            assert(parts_from(bs, s as int) =~= Seq::<Seq<u8>>::empty());
        }
    }
    let ghost before = out@;
    let ghost acc0 = acc;
    if i > s {
        out.push((s, i));
        proof {
            acc = acc.push(bs.subrange(s as int, i as int));
        }
    }
    proof {
        assert forall|k: int| 0 <= k < out@.len() implies #[trigger] out@[k].0 <= out@[k].1 <= bs.len() && bs.subrange(
            out@[k].0 as int,
            out@[k].1 as int,
        ) == acc[k] by {
            if k < before.len() {
                assert(out@[k] == before[k]);
                assert(acc[k] == acc0[k]);
            }
        }
        assert(acc =~= parts_from(bs, 0)) by {
            if s < i {
            } else {
                assert(acc + Seq::<Seq<u8>>::empty() =~= acc);
            }
        }
    }
    out
}

/// The position of the first child header at or after `j` whose name's
/// UTF-8 bytes are `part`, or the number of headers when there is none.
pub open spec fn first_part_index(kids: Seq<crate::ogawa::read_util::ObjectHeaderView>, part: Seq<u8>, j: int) -> int
    decreases kids.len() - j,
{
    if j < 0 || j >= kids.len() {
        kids.len() as int
    } else if encode_utf8(kids[j].name) == part {
        j
    } else {
        first_part_index(kids, part, j + 1)
    }
}

/// Following `parts` from part `k` on, starting at the object read from
/// group `g` whose child headers are `kids`: each part names, by the first
/// child header with that name, a child object that reads, and the rest of
/// the parts resolve from it.
pub open spec fn path_resolves(
    data: Seq<u8>,
    g: GroupView,
    kids: Seq<crate::ogawa::read_util::ObjectHeaderView>,
    parts: Seq<Seq<u8>>,
    k: int,
    indexed: Seq<Seq<char>>,
) -> bool
    decreases parts.len() - k,
{
    if k < 0 || k >= parts.len() {
        true
    } else {
        let i = first_part_index(kids, parts[k], 0);
        let cg = child_object_group(data, g, i);
        &&& i < kids.len()
        &&& child_object_readable(data, g, kids[i], i, indexed)
        &&& path_resolves(data, cg, object_kids(data, cg, kids[i].full_name, indexed), parts, k + 1, indexed)
    }
}

proof fn lemma_first_part_index(kids: Seq<crate::ogawa::read_util::ObjectHeaderView>, part: Seq<u8>, j: int, idx: int)
    requires
        0 <= j <= idx <= kids.len(),
        forall|m: int| j <= m < idx ==> encode_utf8(#[trigger] kids[m].name) != part,
        idx == kids.len() || encode_utf8(kids[idx].name) == part,
    ensures
        first_part_index(kids, part, j) == idx,
    decreases idx - j,
{
    if j < idx {
        lemma_first_part_index(kids, part, j + 1, idx);
    }
}

impl OgawaArchiveReader {
    /// Look up an object by path (`/a/b`): each non-empty part names a child
    /// of the object before it, starting from the root object. The root
    /// itself (no parts) and paths that name no object give `None`.
    #[allow(non_snake_case)]
    pub fn findObject(&self, data: &[u8], path: &str) -> (r: Option<OgawaObjectReader>)
        requires
            group_wf(self.root.group@),
            !self.root.group@.light,
        ensures
            parts_from(encode_utf8(path@), 0).len() == 0 ==> r is None,
            parts_from(encode_utf8(path@), 0).len() > 0 ==> (r is Some <==> path_resolves(
                data@,
                self.root.group@,
                object_header_views(self.root.children@),
                parts_from(encode_utf8(path@), 0),
                0,
                text_views(self.indexed_metadata@),
            )),
            r matches Some(o) ==> parts_from(encode_utf8(path@), 0).len() > 0 && encode_utf8(o.header.name@)
                == parts_from(encode_utf8(path@), 0).last(),
            r matches Some(o) ==> group_wf(o.data.group@) && !o.data.group@.light,
    {
        let parts = path_parts(path);
        let pb = path.as_bytes();
        let ghost ps = parts_from(encode_utf8(path@), 0);
        let ghost tv = text_views(self.indexed_metadata@);
        let ghost whole = path_resolves(data@, self.root.group@, object_header_views(self.root.children@), ps, 0, tv);
        if parts.len() == 0 {
            return None;
        }
        let mut cur: Option<ObjectData> = None;
        let mut k: usize = 0;
        while k < parts.len()
            invariant
                k <= parts@.len(),
                ps == parts_from(encode_utf8(path@), 0),
                tv == text_views(self.indexed_metadata@),
                whole == path_resolves(data@, self.root.group@, object_header_views(self.root.children@), ps, 0, tv),
                parts@.len() == ps.len(),
                pb@ == encode_utf8(path@),
                forall|q: int| 0 <= q < parts@.len() ==> #[trigger] parts@[q].0 <= parts@[q].1 <= pb@.len()
                    && pb@.subrange(parts@[q].0 as int, parts@[q].1 as int) == ps[q],
                group_wf(self.root.group@),
                !self.root.group@.light,
                cur matches Some(o) ==> group_wf(o.group@) && !o.group@.light,
                whole == match cur {
                    Some(o) => path_resolves(data@, o.group@, object_header_views(o.children@), ps, k as int, tv),
                    None => path_resolves(data@, self.root.group@, object_header_views(self.root.children@), ps, k as int, tv),
                },
                cur is None ==> k == 0,
                k < parts@.len(),
            decreases parts@.len() - k,
        {
            let (ps_start, ps_end) = parts[k];
            let part = crate::ogawa::read_util::slice_subrange(pb, ps_start, ps_end);
            let found: Option<OgawaObjectReader> = {
                let node: &ObjectData = match &cur {
                    Some(o) => o,
                    None => &self.root,
                };
                let ghost kids = object_header_views(node.children@);
                let mut idx: usize = 0;
                while idx < node.children.len() && !crate::ogawa::writer::property::bytes_equal(
                    node.children[idx].name.as_str().as_bytes(),
                    part,
                )
                    invariant
                        idx <= node.children@.len(),
                        kids == object_header_views(node.children@),
                        forall|m: int| 0 <= m < idx ==> encode_utf8(#[trigger] kids[m].name) != part@,
                    decreases node.children@.len() - idx,
                {
                    idx = idx + 1;
                }
                proof {
                    lemma_first_part_index(kids, part@, 0, idx as int);
                }
                if idx >= node.children.len() {
                    return None;
                }
                assert(encode_utf8(node.children@[idx as int].name@) == part@);
                match node.child(data, idx, self.indexed_metadata.as_slice()) {
                    Some(Ok(c)) => Some(c),
                    _ => None,
                }
            };
            let c = match found {
                Some(c) => c,
                None => {
                    return None;
                },
            };
            if k + 1 == parts.len() {
                assert(encode_utf8(c.header.name@) == ps[k as int]);
                assert(path_resolves(data@, c.data.group@, object_header_views(c.data.children@), ps, (k + 1) as int, tv));
                return Some(c);
            }
            cur = Some(c.data);
            k = k + 1;
        }
        None
    }
}

/// The sample a request for sample `index` reads: sample 0 for a constant
/// property, otherwise `index` clamped to the last sample.
pub open spec fn resolved_index(first: u32, last: u32, num: u32, index: int) -> int {
    if first == 0 && last == 0 && index > 0 {
        0
    } else if num == 0 {
        0
    } else if index < num - 1 {
        index
    } else {
        num - 1
    }
}

/// Child `c` of a property's group can be read as a data block: it is a
/// child, its offset can be had and names data, and the block's header lies
/// in the file.
pub open spec fn data_child_ok(data: Seq<u8>, g: GroupView, c: int) -> bool {
    &&& 0 <= c < g.num_children
    &&& child_offset_readable(data, g, c)
    &&& !offset_names_group(child_offset_of(data, g, c))
    &&& block_header_readable(data, g, c)
}

/// The dimensions of an array sample whose dimensions block is empty,
/// inferred from its data block `c` (a 16-byte digest, then the elements):
/// one dimension, the number of whole elements of type `dt` it holds.
pub open spec fn inferred_dims(data: Seq<u8>, g: GroupView, c: int, dt: DataType) -> Seq<usize> {
    let size = block_size(data, g, c);
    let e = pod_width(dt.pod) * dt.extent;
    if size <= 16 || e == 0 {
        seq![0usize]
    } else {
        seq![((size - 16) / e) as usize]
    }
}

/// The dimensions array sample `i` of a property's group reads as, if it
/// can be read: those stored in the block of child `2i + 1`, or, when that
/// block is empty, those inferred from the data block of child `2i`.
pub open spec fn array_dims_at(data: Seq<u8>, g: GroupView, dt: DataType, i: int) -> Option<Seq<usize>> {
    let c = 2 * i + 1;
    if !data_child_ok(data, g, c) {
        None
    } else if block_size(data, g, c) == 0 {
        if data_child_ok(data, g, 2 * i) {
            Some(inferred_dims(data, g, 2 * i, dt))
        } else {
            None
        }
    } else if block_readable(data, g, c) && block_size(data, g, c) % 8 == 0 {
        Some(dims_of_block(child_block(data, g, c)))
    } else {
        None
    }
}

/// An array sample written with the empty dimensions marker reads back with
/// its length inferred from its data block: a block of 16 key bytes and `k`
/// elements of the property's type gives the dimensions `[k]`, whose count
/// is `k`.
pub proof fn lemma_inferred_sample_len(data: Seq<u8>, g: GroupView, dt: DataType, i: int, k: nat)
    requires
        data_child_ok(data, g, 2 * i + 1),
        block_size(data, g, 2 * i + 1) == 0,
        data_child_ok(data, g, 2 * i),
        pod_width(dt.pod) * dt.extent > 0,
        k > 0,
        k <= usize::MAX,
        block_size(data, g, 2 * i) == 16 + k * (pod_width(dt.pod) * dt.extent),
    ensures
        array_dims_at(data, g, dt, i) == Some(seq![k as usize]),
        dims_count(seq![k as usize]) == k,
        products_fit_usize(seq![k as usize]),
{
    let e = pod_width(dt.pod) * dt.extent;
    assert(k * e >= 1) by (nonlinear_arith)
        requires
            k > 0,
            e > 0,
    ;
    assert((k * e) / e == k) by (nonlinear_arith)
        requires
            e > 0,
    ;
    assert(((16 + k * e) - 16) == k * e);
    assert(inferred_dims(data, g, 2 * i, dt) == seq![k as usize]);
    let d = seq![k as usize];
    assert(d.drop_last() =~= Seq::<usize>::empty());
    assert(dims_count(d.drop_last()) == 1);
    assert(d.last() == k as usize);
    assert(dims_count(d) == dims_count(d.drop_last()) * d.last());
    assert(dims_count(d) == k);
    assert forall|j: int| 0 <= j <= d.len() implies #[trigger] dims_count(d.subrange(0, j)) <= usize::MAX by {
        if j == 0 {
            assert(d.subrange(0, 0) =~= Seq::<usize>::empty());
        } else {
            assert(d.subrange(0, 1) =~= d);
        }
    }
}

/// Every partial product of the dimensions, from the first on, fits in a
/// `usize`.
pub open spec fn products_fit_usize(d: Seq<usize>) -> bool {
    forall|k: int| 0 <= k <= d.len() ==> #[trigger] dims_count(d.subrange(0, k)) <= usize::MAX
}

/// The dimensions stored in a block: one per 8-byte little-endian value;
/// an empty block stands for the single dimension 0.
pub open spec fn dims_of_block(b: Seq<u8>) -> Seq<usize> {
    if b.len() == 0 {
        seq![0usize]
    } else {
        Seq::new(b.len() / 8, |k: int| le_value(b.subrange(8 * k, 8 * k + 8)) as usize)
    }
}

/// The product of dimensions.
pub open spec fn dims_count(d: Seq<usize>) -> int
    decreases d.len(),
{
    if d.len() == 0 {
        1
    } else {
        dims_count(d.drop_last()) * d.last()
    }
}

/// Read the dimensions stored in a data block (`[0]` for the empty block);
/// a size that is not a multiple of 8 is an error.
pub fn read_dimensions(data: &[u8], d: &IData) -> (r: Result<Vec<usize>, Error>)
    ensures
        d.size == 0 ==> (r matches Ok(v) && v@ == seq![0usize]),
        d.size > 0 && d.pos + 8 + d.size <= data@.len() && d.size % 8 != 0 ==> r matches Err(Error::InvalidStructure(_)),
        d.size > 0 && d.pos + 8 + d.size <= data@.len() && d.size % 8 == 0 ==> (r matches Ok(v) && v@ == dims_of_block(
            data@.subrange(d.pos + 8, d.pos + 8 + d.size),
        )),
        d.size > 0 && d.pos + 8 + d.size > data@.len() ==> r matches Err(Error::UnexpectedEof(_)),
{
    if d.is_empty() {
        let mut v: Vec<usize> = Vec::new();
        v.push(0);
        assert(v@ =~= seq![0usize]);
        return Ok(v);
    }
    let bytes = match d.read_all(data) {
        Ok(b) => b,
        Err(e) => {
            return Err(e);
        },
    };
    if bytes.len() % 8 != 0 {
        return Err(Error::invalid("Invalid dimensions data size"));
    }
    let n = bytes.len() / 8;
    assert(bytes@.len() <= usize::MAX);
    let mut dims: Vec<usize> = Vec::new();
    let mut k: usize = 0;
    while k < n
        invariant
            k <= n,
            n * 8 == bytes@.len(),
            bytes@.len() <= usize::MAX,
            dims@ == Seq::new(k as nat, |q: int| le_value(bytes@.subrange(8 * q, 8 * q + 8)) as usize),
        decreases n - k,
    {
        let v = crate::ogawa::read_util::read_u64_le(crate::ogawa::read_util::slice_from(bytes.as_slice(), 8 * k));
        assert(crate::ogawa::read_util::slice_from_view(bytes@, 8 * k as int).subrange(0, 8) =~= bytes@.subrange(8 * k as int, 8 * k + 8));
        dims.push(v as usize);
        assert(dims@ =~= Seq::new((k + 1) as nat, |q: int| le_value(bytes@.subrange(8 * q, 8 * q + 8)) as usize));
        k = k + 1;
    }
    Ok(dims)
}

/// A property read from an archive: its header and, where there is one,
/// the group holding its samples or sub-properties.
pub struct OgawaPropertyReader {
    pub parsed: ParsedPropertyHeader,
    pub group: Option<IGroup>,
}

/// The byte width of a sample's digest prefix.
pub const DATA_KEY_SIZE: u64 = 16;

impl OgawaPropertyReader {
    /// A reader for a property header and its group.
    pub fn new(parsed: ParsedPropertyHeader, group: Option<IGroup>) -> (r: Self)
        ensures
            r.parsed == parsed,
            r.group == group,
    {
        OgawaPropertyReader { parsed, group }
    }

    /// The property's header.
    #[allow(non_snake_case)]
    pub fn getHeader(&self) -> (r: &ParsedPropertyHeader)
        ensures
            *r == self.parsed,
    {
        &self.parsed
    }

    /// This reader, if the property is a scalar.
    #[allow(non_snake_case)]
    pub fn asScalar(&self) -> (r: Option<&OgawaPropertyReader>)
        ensures
            self.parsed.property_type == PropertyType::Scalar ==> r == Some(self),
            self.parsed.property_type != PropertyType::Scalar ==> r is None,
    {
        match self.parsed.property_type {
            PropertyType::Scalar => Some(self),
            _ => None,
        }
    }

    /// This reader, if the property is an array.
    #[allow(non_snake_case)]
    pub fn asArray(&self) -> (r: Option<&OgawaPropertyReader>)
        ensures
            self.parsed.property_type == PropertyType::Array ==> r == Some(self),
            self.parsed.property_type != PropertyType::Array ==> r is None,
    {
        match self.parsed.property_type {
            PropertyType::Array => Some(self),
            _ => None,
        }
    }

    /// The compound read from the property's group, if the property is a
    /// compound with a group that reads (its offsets held, not read on
    /// demand); `None` otherwise.
    #[allow(non_snake_case)]
    pub fn asCompound(&self, data: &[u8], indexed: &[String]) -> (r: Option<CompoundData>)
        requires
            self.group matches Some(g) ==> group_wf(g@),
        ensures
            self.parsed.property_type != PropertyType::Compound ==> r is None,
            self.group is None ==> r is None,
            r matches Some(c) ==> (self.group matches Some(g) && c.group matches Some(h) && h@ == g@ && !g@.light),
            self.parsed.property_type == PropertyType::Compound ==> (r is Some <==> (self.group matches Some(g) && !g@.light
                && compound_readable(data@, g@, text_views(indexed@)))),
            r matches Some(c) ==> (self.group matches Some(g) && (if g@.num_children > 0 && child_is_data(
                data@,
                g@,
                g@.num_children - 1,
            ) {
                parse_property_headers_from(child_block(data@, g@, g@.num_children - 1), 0, text_views(indexed@))
                    == Ok::<Seq<crate::ogawa::read_util::PropertyHeaderView>, crate::ogawa::read_util::HeaderError>(
                    property_header_views(c.sub_properties@),
                )
            } else {
                c.sub_properties@.len() == 0
            })),
    {
        match self.parsed.property_type {
            PropertyType::Compound => {},
            _ => {
                return None;
            },
        }
        match &self.group {
            Some(g) => {
                if g.is_light() {
                    return None;
                }
                match CompoundData::from_group(data, g.copied(), indexed) {
                    Ok(c) => Some(c),
                    Err(_) => None,
                }
            },
            None => None,
        }
    }

    /// Number of samples.
    #[allow(non_snake_case)]
    pub fn getNumSamples(&self) -> (r: usize)
        ensures
            r == self.parsed.next_sample_index,
    {
        self.parsed.next_sample_index as usize
    }

    /// Whether every sample equals the first.
    #[allow(non_snake_case)]
    pub fn isConstant(&self) -> (r: bool)
        ensures
            r == (self.parsed.first_changed_index == 0 && self.parsed.last_changed_index == 0),
    {
        self.parsed.first_changed_index == 0 && self.parsed.last_changed_index == 0
    }

    /// The sample a request for sample `index` reads.
    pub fn sample_index(&self, index: usize) -> (r: usize)
        ensures
            r == resolved_index(
                self.parsed.first_changed_index,
                self.parsed.last_changed_index,
                self.parsed.next_sample_index,
                index as int,
            ),
    {
        let num = self.parsed.next_sample_index as usize;
        if self.isConstant() && index > 0 {
            0
        } else {
            let last = if num == 0 { 0 } else { num - 1 };
            if index < last {
                index
            } else {
                last
            }
        }
    }

    /// Copy scalar sample `index` (after its 16-byte digest) into the front of
    /// `out`, as many bytes as both hold. A block shorter than the digest is
    /// an error unless `out` is empty.
    #[allow(non_snake_case)]
    pub fn getSample(&self, data: &[u8], index: usize, out: &mut Vec<u8>) -> (r: Result<(), Error>)
        requires
            self.group matches Some(g) ==> group_wf(g@),
        ensures
            self.group is None ==> r matches Err(Error::InvalidStructure(_)),
            final(out)@.len() == old(out)@.len(),
            self.group matches Some(g) ==> ({
                let i = resolved_index(
                    self.parsed.first_changed_index,
                    self.parsed.last_changed_index,
                    self.parsed.next_sample_index,
                    index as int,
                );
                r is Ok <==> data_child_ok(data@, g@, i) && (block_size(data@, g@, i) < 16 ==> old(out)@.len() == 0)
                    && (block_size(data@, g@, i) >= 16 ==> block_readable(data@, g@, i))
            }),
            r is Ok ==> (self.group matches Some(g) && ({
                let b = child_block(
                    data@,
                    g@,
                    resolved_index(
                        self.parsed.first_changed_index,
                        self.parsed.last_changed_index,
                        self.parsed.next_sample_index,
                        index as int,
                    ),
                );
                let m = if old(out)@.len() < b.len() - 16 { old(out)@.len() as int } else { b.len() - 16 };
                &&& b.len() < 16 ==> old(out)@.len() == 0 && final(out)@ == old(out)@
                &&& b.len() >= 16 ==> final(out)@ == b.subrange(16, 16 + m) + old(out)@.subrange(m, old(out)@.len() as int)
            })),
    {
        let g = match &self.group {
            Some(g) => g,
            None => {
                return Err(Error::invalid("No property group"));
            },
        };
        let i = self.sample_index(index);
        let d = match g.data(data, i as u64) {
            Ok(d) => d,
            Err(e) => {
                return Err(e);
            },
        };
        if d.size < DATA_KEY_SIZE {
            if out.len() == 0 {
                proof {
                    if d.size > 0 && d.pos + 8 + d.size <= data@.len() {
                        assert(child_block(data@, g@, i as int).len() == d.size);
                    }
                }
                return Ok(());
            }
            return Err(Error::invalid("Scalar sample data too small"));
        }
        let bytes = match d.read_all(data) {
            Ok(b) => b,
            Err(e) => {
                return Err(e);
            },
        };
        let bl = bytes.len();
        assert(bl as int == bytes@.len());
        let avail = bl - 16;
        let m = if out.len() < avail { out.len() } else { avail };
        proof {
            assert(bytes@ =~= child_block(data@, g@, i as int));
        }
        let mut k: usize = 0;
        while k < m
            invariant
                k <= m,
                m <= out@.len(),
                m + 16 <= bytes@.len(),
                bytes@.len() <= usize::MAX,
                out@.len() == old(out)@.len(),
                forall|q: int| 0 <= q < k ==> out@[q] == bytes@[16 + q],
                forall|q: int| k <= q < out@.len() ==> out@[q] == old(out)@[q],
            decreases m - k,
        {
            out.set(k, bytes[16 + k]);
            k = k + 1;
        }
        assert(out@ =~= bytes@.subrange(16, 16 + m as int) + old(out)@.subrange(m as int, old(out)@.len() as int));
        Ok(())
    }

    fn array_block(&self, data: &[u8], child: u64) -> (r: Result<IData, Error>)
        requires
            self.group matches Some(g) ==> group_wf(g@),
        ensures
            self.group is None ==> r matches Err(Error::InvalidStructure(_)),
            r matches Ok(d) ==> (self.group matches Some(g) && child < g@.num_children && d == data_read(
                data@,
                offset_position(child_offset_of(data@, g@, child as int)),
            )),
            self.group matches Some(g) ==> (r is Ok <==> data_child_ok(data@, g@, child as int)),
    {
        let g = match &self.group {
            Some(g) => g,
            None => {
                return Err(Error::invalid("No property group"));
            },
        };
        if child >= g.num_children() {
            return Err(Error::invalid("Array sample index out of range"));
        }
        g.data(data, child)
    }

    /// The dimensions of array sample `index` (its data block is child
    /// `2 * index`, its dimensions child `2 * index + 1`). An empty
    /// dimensions block stands for one dimension inferred from the data
    /// block: the number of whole elements after its 16-byte digest.
    #[allow(non_snake_case)]
    pub fn getDimensions(&self, data: &[u8], index: usize) -> (r: Result<Vec<usize>, Error>)
        requires
            self.group matches Some(g) ==> group_wf(g@),
        ensures
            self.group is None ==> r matches Err(Error::InvalidStructure(_)),
            self.group matches Some(g) ==> match array_dims_at(
                data@,
                g@,
                self.parsed.data_type,
                resolved_index(
                    self.parsed.first_changed_index,
                    self.parsed.last_changed_index,
                    self.parsed.next_sample_index,
                    index as int,
                ),
            ) {
                Some(d) => r matches Ok(v) && v@ == d,
                None => r is Err,
            },
    {
        let i = self.sample_index(index);
        if i as u64 >= (u64::MAX - 1) / 2 {
            return Err(Error::invalid("Array sample index out of range"));
        }
        let d = match self.array_block(data, 2 * i as u64 + 1) {
            Ok(d) => d,
            Err(e) => {
                return Err(e);
            },
        };
        let ghost g = self.group->0;
        if d.size == 0 {
            let dd = match self.array_block(data, 2 * i as u64) {
                Ok(dd) => dd,
                Err(e) => {
                    return Err(e);
                },
            };
            let e = self.parsed.data_type.num_bytes();
            let mut v: Vec<usize> = Vec::new();
            if dd.size <= DATA_KEY_SIZE || e == 0 {
                v.push(0);
            } else {
                v.push(((dd.size - DATA_KEY_SIZE) / (e as u64)) as usize);
            }
            assert(v@ =~= inferred_dims(data@, g@, 2 * i as int, self.parsed.data_type));
            return Ok(v);
        }
        proof {
            if d.pos + 8 + d.size <= data@.len() {
                assert(child_block(data@, g@, 2 * i + 1) =~= data@.subrange(d.pos + 8, d.pos + 8 + d.size));
            }
        }
        read_dimensions(data, &d)
    }

    /// The number of elements of array sample `index`: the product of the
    /// dimensions `getDimensions` gives; a product past the largest `usize`
    /// is an error.
    #[allow(non_snake_case)]
    pub fn getSampleLen(&self, data: &[u8], index: usize) -> (r: Result<usize, Error>)
        requires
            self.group matches Some(g) ==> group_wf(g@),
        ensures
            self.group is None ==> r matches Err(Error::InvalidStructure(_)),
            self.group matches Some(g) ==> match array_dims_at(
                data@,
                g@,
                self.parsed.data_type,
                resolved_index(
                    self.parsed.first_changed_index,
                    self.parsed.last_changed_index,
                    self.parsed.next_sample_index,
                    index as int,
                ),
            ) {
                Some(d) => (products_fit_usize(d) ==> r == Ok::<usize, Error>(#[verifier::truncate] (dims_count(d) as usize))) && (
                !products_fit_usize(d) ==> r is Err),
                None => r is Err,
            },
    {
        let dims = match self.getDimensions(data, index) {
            Ok(d) => d,
            Err(e) => {
                return Err(e);
            },
        };
        let ghost expected = match &self.group {
            Some(g) => array_dims_at(
                data@,
                g@,
                self.parsed.data_type,
                resolved_index(
                    self.parsed.first_changed_index,
                    self.parsed.last_changed_index,
                    self.parsed.next_sample_index,
                    index as int,
                ),
            ),
            None => None,
        };
        let mut p: usize = 1;
        let mut k: usize = 0;
        assert(dims@.subrange(0, 0) =~= Seq::<usize>::empty());
        while k < dims.len()
            invariant
                expected == Some(dims@),
                expected == match &self.group {
                    Some(g) => array_dims_at(
                        data@,
                        g@,
                        self.parsed.data_type,
                        resolved_index(
                            self.parsed.first_changed_index,
                            self.parsed.last_changed_index,
                            self.parsed.next_sample_index,
                            index as int,
                        ),
                    ),
                    None => None,
                },
                k <= dims@.len(),
                p == dims_count(dims@.subrange(0, k as int)),
                forall|q: int| 0 <= q <= k ==> #[trigger] dims_count(dims@.subrange(0, q)) <= usize::MAX,
            decreases dims@.len() - k,
        {
            assert(dims@.subrange(0, k + 1).drop_last() =~= dims@.subrange(0, k as int));
            match p.checked_mul(dims[k]) {
                Some(q) => {
                    p = q;
                },
                None => {
                    assert(!products_fit_usize(dims@)) by {
                        assert(dims_count(dims@.subrange(0, k + 1)) > usize::MAX);
                    }
                    return Err(Error::invalid("Array sample size overflows"));
                },
            }
            k = k + 1;
        }
        assert(dims@.subrange(0, dims@.len() as int) =~= dims@);
        Ok(p)
    }

    /// The bytes of array sample `index` after its 16-byte digest (none for
    /// a block of 16 bytes or fewer).
    #[allow(non_snake_case)]
    pub fn getSampleVec(&self, data: &[u8], index: usize) -> (r: Result<Vec<u8>, Error>)
        requires
            self.group matches Some(g) ==> group_wf(g@),
        ensures
            self.group is None ==> r matches Err(Error::InvalidStructure(_)),
            self.group matches Some(g) ==> ({
                let c = 2 * resolved_index(
                    self.parsed.first_changed_index,
                    self.parsed.last_changed_index,
                    self.parsed.next_sample_index,
                    index as int,
                );
                r is Ok <==> data_child_ok(data@, g@, c) && (block_size(data@, g@, c) > 16 ==> block_readable(
                    data@,
                    g@,
                    c,
                ))
            }),
            r matches Ok(v) ==> (self.group matches Some(g) && ({
                let b = child_block(
                    data@,
                    g@,
                    2 * resolved_index(
                        self.parsed.first_changed_index,
                        self.parsed.last_changed_index,
                        self.parsed.next_sample_index,
                        index as int,
                    ),
                );
                &&& b.len() <= 16 ==> v@.len() == 0
                &&& b.len() > 16 ==> v@ == b.subrange(16, b.len() as int)
            })),
    {
        let i = self.sample_index(index);
        if i as u64 >= u64::MAX / 2 {
            return Err(Error::invalid("Array sample index out of range"));
        }
        let d = match self.array_block(data, 2 * i as u64) {
            Ok(d) => d,
            Err(e) => {
                return Err(e);
            },
        };
        let ghost g = self.group->0;
        if d.size <= DATA_KEY_SIZE {
            assert(child_block(data@, g@, 2 * i as int).len() <= 16);
            return Ok(Vec::new());
        }
        let bytes = match d.read_all(data) {
            Ok(b) => b,
            Err(e) => {
                return Err(e);
            },
        };
        assert(bytes@ =~= child_block(data@, g@, 2 * i as int));
        Ok(crate::ogawa::writer::write_util::bytes_to_vec(crate::ogawa::read_util::slice_from(bytes.as_slice(), 16)))
    }

    /// The 16-byte digest of array sample `index` (zeros for a block shorter
    /// than a digest).
    #[allow(non_snake_case)]
    pub fn getKey(&self, data: &[u8], index: usize) -> (r: Result<Vec<u8>, Error>)
        requires
            self.group matches Some(g) ==> group_wf(g@),
        ensures
            self.group is None ==> r matches Err(Error::InvalidStructure(_)),
            r matches Ok(k) ==> k@.len() == 16,
            self.group matches Some(g) ==> ({
                let c = 2 * resolved_index(
                    self.parsed.first_changed_index,
                    self.parsed.last_changed_index,
                    self.parsed.next_sample_index,
                    index as int,
                );
                &&& (r is Ok <==> data_child_ok(data@, g@, c) && (block_size(data@, g@, c) >= 16 ==> block_readable(
                    data@,
                    g@,
                    c,
                )))
                &&& (r matches Ok(k) ==> (block_size(data@, g@, c) < 16 ==> k@ == Seq::new(16, |q: int| 0u8)) && (
                block_size(data@, g@, c) >= 16 ==> k@ == child_block(data@, g@, c).subrange(0, 16)))
            }),
    {
        let i = self.sample_index(index);
        if i as u64 >= u64::MAX / 2 {
            return Err(Error::invalid("Array sample index out of range"));
        }
        let d = match self.array_block(data, 2 * i as u64) {
            Ok(d) => d,
            Err(e) => {
                return Err(e);
            },
        };
        if d.size < DATA_KEY_SIZE {
            let mut z: Vec<u8> = Vec::new();
            let mut k: usize = 0;
            while k < 16
                invariant
                    k <= 16,
                    z@.len() == k,
                    forall|q: int| 0 <= q < k ==> z@[q] == 0u8,
                decreases 16 - k,
            {
                z.push(0);
                k = k + 1;
            }
            assert(z@ =~= Seq::new(16, |q: int| 0u8));
            return Ok(z);
        }
        let bytes = match d.read_all(data) {
            Ok(b) => b,
            Err(e) => {
                return Err(e);
            },
        };
        let ghost g = self.group->0;
        assert(bytes@ =~= child_block(data@, g@, 2 * i as int));
        Ok(crate::ogawa::writer::write_util::bytes_to_vec(crate::ogawa::read_util::slice_subrange(bytes.as_slice(), 0, 16)))
    }
}

impl CompoundData {
    /// Number of properties.
    #[allow(non_snake_case)]
    pub fn getNumProperties(&self) -> (r: usize)
        ensures
            r == self.sub_properties@.len(),
    {
        self.sub_properties.len()
    }

    /// A compound property is a compound.
    #[allow(non_snake_case)]
    pub fn isCompound(&self) -> (r: bool)
        ensures
            r,
    {
        true
    }

    /// The reader of property `index` (`None` past the last), with the
    /// property's group when it can be read.
    #[allow(non_snake_case)]
    pub fn getProperty(&self, data: &[u8], index: usize) -> (r: Option<OgawaPropertyReader>)
        requires
            self.group matches Some(g) ==> group_wf(g@),
        ensures
            index >= self.sub_properties@.len() ==> r is None,
            index < self.sub_properties@.len() ==> r is Some,
            r matches Some(p) ==> p.parsed@ == self.sub_properties@[index as int]@,
    {
        if index >= self.sub_properties.len() {
            return None;
        }
        let h = &self.sub_properties[index];
        let parsed = ParsedPropertyHeader {
            name: h.name.clone(),
            property_type: h.property_type,
            metadata: h.metadata.clone(),
            data_type: h.data_type,
            time_sampling_index: h.time_sampling_index,
            is_scalar_like: h.is_scalar_like,
            is_homogenous: h.is_homogenous,
            next_sample_index: h.next_sample_index,
            first_changed_index: h.first_changed_index,
            last_changed_index: h.last_changed_index,
        };
        let group = match &self.group {
            Some(g) => match g.group(data, index as u64) {
                Ok(pg) => Some(pg),
                Err(_) => None,
            },
            None => None,
        };
        Some(OgawaPropertyReader::new(parsed, group))
    }

    /// The first property called `name`, if there is one.
    #[allow(non_snake_case)]
    pub fn getPropertyByName(&self, data: &[u8], name: &str) -> (r: Option<OgawaPropertyReader>)
        requires
            self.group matches Some(g) ==> group_wf(g@),
        ensures
            r is Some <==> exists|i: int| 0 <= i < self.sub_properties@.len() && self.sub_properties@[i].name@ == name@,
            r matches Some(p) ==> p.parsed.name@ == name@ && (exists|i: int|
                0 <= i < self.sub_properties@.len() && p.parsed@ == self.sub_properties@[i]@ && (forall|k: int|
                    0 <= k < i ==> self.sub_properties@[k].name@ != name@)),
    {
        let mut i: usize = 0;
        while i < self.sub_properties.len()
            invariant
                i <= self.sub_properties@.len(),
                self.group matches Some(g) ==> group_wf(g@),
                forall|k: int| 0 <= k < i ==> self.sub_properties@[k].name@ != name@,
            decreases self.sub_properties@.len() - i,
        {
            if crate::util::text::str_equals(self.sub_properties[i].name.as_str(), name) {
                let r = self.getProperty(data, i);
                proof {
                    let p = r->0;
                    assert(p.parsed@ == self.sub_properties@[i as int]@);
                    assert(p.parsed.name@ == self.sub_properties@[i as int].name@);
                }
                return r;
            }
            i = i + 1;
        }
        None
    }
}

} // verus!
