//! Reading an Ogawa file held in memory: the header, groups (lists of child
//! offsets) and data blocks. Opening and mapping the file is left to the
//! caller, which hands over its bytes.

use vstd::prelude::*;
use crate::ogawa::format::{HEADER_SIZE, OGAWA_MAGIC, FROZEN_OFFSET, VERSION_OFFSET, FROZEN_FLAG};
use crate::ogawa::le::le_value;
use crate::ogawa::format::{
    offset_names_group, offset_position, is_group_offset, is_data_offset, extract_offset,
    is_empty_offset, HEADER_SIZE as HEADER_LEN, ROOT_POS_OFFSET,
};
use crate::ogawa::read_util::{read_u64_le, slice_from, slice_from_view, slice_subrange};
use crate::util::error::Error;
use vstd::utf8::{valid_utf8, decode_utf8};
use crate::util::text::{decimal_digits, push_decimal};

verus! {

/// The magic bytes `Ogawa`.
pub open spec fn magic_bytes() -> Seq<u8> {
    seq![0x4Fu8, 0x67, 0x61, 0x77, 0x61]
}

/// Parse and validate the 16-byte Ogawa header: the format version (read
/// little-endian at offset 6) and whether the frozen flag (offset 5) is set.
pub fn parse_header(data: &[u8]) -> (r: Result<(u16, bool), Error>)
    ensures
        data@.len() < 16 ==> (r matches Err(Error::UnexpectedEof(n)) && n == data@.len()),
        data@.len() >= 16 && data@.subrange(0, 5) != magic_bytes() ==> r matches Err(
            Error::InvalidMagic,
        ),
        data@.len() >= 16 && data@.subrange(0, 5) == magic_bytes() ==> (r matches Ok((v, f)) && v
            == le_value(data@.subrange(6, 8)) && f == (data@[5] == 0xFF)),
{
    if data.len() < HEADER_SIZE {
        return Err(Error::UnexpectedEof(data.len() as u64));
    }
    let magic = OGAWA_MAGIC;
    let same = data[0] == magic[0] && data[1] == magic[1] && data[2] == magic[2] && data[3]
        == magic[3] && data[4] == magic[4];
    if !same {
        assert(data@.subrange(0, 5) != magic_bytes()) by {
            if data@.subrange(0, 5) == magic_bytes() {
                assert(data@.subrange(0, 5)[0] == data@[0]);
            }
        }
        return Err(Error::InvalidMagic);
    }
    assert(data@.subrange(0, 5) =~= magic_bytes());
    let frozen = data[FROZEN_OFFSET] == FROZEN_FLAG;
    let vbytes = crate::ogawa::read_util::slice_subrange(data, VERSION_OFFSET, VERSION_OFFSET + 2);
    assert(vbytes@.subrange(0, 2) =~= data@.subrange(6, 8));
    let version = crate::ogawa::read_util::read_u16_le(vbytes);
    Ok((version, frozen))
}

/// The 8-byte little-endian value at `pos`.
pub open spec fn u64_at(data: Seq<u8>, pos: int) -> u64 {
    le_value(data.subrange(pos, pos + 8)) as u64
}

/// Read the 8-byte little-endian value at `pos` of the file; a read past
/// the end is `UnexpectedEof` with the end position it needed.
pub fn read_u64(data: &[u8], pos: u64) -> (r: Result<u64, Error>)
    ensures
        pos + 8 <= data@.len() ==> r == Ok::<u64, Error>(u64_at(data@, pos as int)),
        pos + 8 > data@.len() ==> (r matches Err(Error::UnexpectedEof(n)) && (pos + 8 <= u64::MAX ==> n
            == pos + 8)),
{
    let len = data.len();
    assert(len as int == data@.len() && len <= usize::MAX);
    if pos > u64::MAX - 8 {
        return Err(Error::UnexpectedEof(u64::MAX));
    }
    if pos + 8 > len as u64 {
        return Err(Error::UnexpectedEof(pos + 8));
    }
    let p = pos as usize;
    let v = read_u64_le(slice_from(data, p));
    assert(slice_from_view(data@, p as int).subrange(0, 8) =~= data@.subrange(pos as int, pos + 8));
    Ok(v)
}

/// Read the 4-byte little-endian value at `pos` of the file; a read past
/// the end is `UnexpectedEof` with the end position it needed.
pub fn read_u32(data: &[u8], pos: u64) -> (r: Result<u32, Error>)
    ensures
        pos + 4 <= data@.len() ==> r == Ok::<u32, Error>(le_value(data@.subrange(pos as int, pos + 4)) as u32),
        pos + 4 > data@.len() ==> (r matches Err(Error::UnexpectedEof(n)) && (pos + 4 <= u64::MAX ==> n
            == pos + 4)),
{
    let len = data.len();
    assert(len as int == data@.len() && len <= usize::MAX);
    if pos > u64::MAX - 4 {
        return Err(Error::UnexpectedEof(u64::MAX));
    }
    if pos + 4 > len as u64 {
        return Err(Error::UnexpectedEof(pos + 4));
    }
    let p = pos as usize;
    let v = crate::ogawa::read_util::read_u32_le(slice_from(data, p));
    assert(slice_from_view(data@, p as int).subrange(0, 4) =~= data@.subrange(pos as int, pos + 4));
    Ok(v)
}

/// Read the 2-byte little-endian value at `pos` of the file; a read past
/// the end is `UnexpectedEof` with the end position it needed.
pub fn read_u16(data: &[u8], pos: u64) -> (r: Result<u16, Error>)
    ensures
        pos + 2 <= data@.len() ==> r == Ok::<u16, Error>(le_value(data@.subrange(pos as int, pos + 2)) as u16),
        pos + 2 > data@.len() ==> (r matches Err(Error::UnexpectedEof(n)) && (pos + 2 <= u64::MAX ==> n
            == pos + 2)),
{
    let len = data.len();
    assert(len as int == data@.len() && len <= usize::MAX);
    if pos > u64::MAX - 2 {
        return Err(Error::UnexpectedEof(u64::MAX));
    }
    if pos + 2 > len as u64 {
        return Err(Error::UnexpectedEof(pos + 2));
    }
    let p = pos as usize;
    let v = crate::ogawa::read_util::read_u16_le(slice_from(data, p));
    assert(slice_from_view(data@, p as int).subrange(0, 2) =~= data@.subrange(pos as int, pos + 2));
    Ok(v)
}

/// The root group's position, stored in the header at offset 8.
pub fn root_pos(data: &[u8]) -> (r: Result<u64, Error>)
    ensures
        data@.len() >= 16 ==> r == Ok::<u64, Error>(u64_at(data@, 8)),
        data@.len() < 16 ==> (r matches Err(Error::UnexpectedEof(n)) && n == 16),
{
    read_u64(data, ROOT_POS_OFFSET as u64)
}

/// The `len` bytes of the file from `pos`, borrowed; a read past the end is
/// `UnexpectedEof` with the end position it needed.
pub fn slice(data: &[u8], pos: u64, len: usize) -> (r: Result<&[u8], Error>)
    ensures
        pos + len <= data@.len() ==> (r matches Ok(s) && s@ == data@.subrange(pos as int, pos + len)),
        pos + len > data@.len() ==> (r matches Err(Error::UnexpectedEof(n)) && (pos + len <= u64::MAX ==> n
            == pos + len)),
{
    let n = data.len();
    assert(n as int == data@.len() && n <= usize::MAX);
    let l = len as u64;
    if pos > u64::MAX - l {
        return Err(Error::UnexpectedEof(u64::MAX));
    }
    let end = pos + l;
    if end > n as u64 {
        return Err(Error::UnexpectedEof(end));
    }
    Ok(slice_subrange(data, pos as usize, end as usize))
}

/// The `len` bytes of the file from `pos`, copied; a read past the end is
/// `UnexpectedEof` with the end position it needed.
pub fn read_bytes(data: &[u8], pos: u64, len: usize) -> (r: Result<Vec<u8>, Error>)
    ensures
        pos + len <= data@.len() ==> (r matches Ok(v) && v@ == data@.subrange(pos as int, pos + len)),
        pos + len > data@.len() ==> (r matches Err(Error::UnexpectedEof(n)) && (pos + len <= u64::MAX ==> n
            == pos + len)),
{
    match slice(data, pos, len) {
        Ok(s) => Ok(crate::ogawa::writer::write_util::bytes_to_vec(s)),
        Err(e) => Err(e),
    }
}

/// Fill `buf` with the bytes of the file from `pos`; a read past the end is
/// `UnexpectedEof` with the end position it needed, and leaves `buf` as it
/// was.
pub fn read_into(data: &[u8], pos: u64, buf: &mut [u8]) -> (r: Result<(), Error>)
    ensures
        final(buf)@.len() == old(buf)@.len(),
        pos + old(buf)@.len() <= data@.len() ==> (r is Ok && final(buf)@ == data@.subrange(
            pos as int,
            pos + old(buf)@.len(),
        )),
        pos + old(buf)@.len() > data@.len() ==> (r matches Err(Error::UnexpectedEof(n)) && final(buf)@
            == old(buf)@ && (pos + old(buf)@.len() <= u64::MAX ==> n == pos + old(buf)@.len())),
{
    let src = match slice(data, pos, buf.len()) {
        Ok(s) => s,
        Err(e) => {
            return Err(e);
        },
    };
    let n = buf.len();
    let mut i: usize = 0;
    while i < n
        invariant
            n == buf@.len(),
            src@.len() == n,
            i <= n,
            forall|k: int| 0 <= k < i ==> buf@[k] == src@[k],
        decreases n - i,
    {
        buf[i] = src[i];
        i = i + 1;
    }
    assert(buf@ =~= src@);
    Ok(())
}

/// The first `n` child offsets of the group at `pos`.
pub open spec fn group_offsets(data: Seq<u8>, pos: int, n: int) -> Seq<u64> {
    Seq::new(n as nat, |i: int| u64_at(data, pos + 8 + 8 * i))
}

/// A group of an Ogawa file: its position, number of children and (unless
/// read in light mode) its child offsets.
pub struct IGroup {
    pos: u64,
    num_children: u64,
    child_offsets: Vec<u64>,
    light: bool,
}

/// A group as mathematical values.
pub struct GroupView {
    pub pos: u64,
    pub num_children: u64,
    pub child_offsets: Seq<u64>,
    pub light: bool,
}

impl View for IGroup {
    type V = GroupView;

    closed spec fn view(&self) -> GroupView {
        GroupView {
            pos: self.pos,
            num_children: self.num_children,
            child_offsets: self.child_offsets@,
            light: self.light,
        }
    }
}

/// The group at `pos` as read from `data`: position 0 is the empty group;
/// otherwise the child count is the value at `pos` and the offsets follow
/// it (none kept in light mode).
pub open spec fn group_read(data: Seq<u8>, pos: u64, light: bool) -> GroupView {
    if pos == 0 {
        GroupView { pos, num_children: 0, child_offsets: Seq::empty(), light }
    } else {
        let n = u64_at(data, pos as int);
        GroupView {
            pos,
            num_children: n,
            child_offsets: if light || n == 0 {
                Seq::empty()
            } else {
                group_offsets(data, pos as int, n as int)
            },
            light,
        }
    }
}

/// The group at `pos` can be read: its count, and its offsets unless in
/// light mode, lie within the file.
pub open spec fn group_readable(data: Seq<u8>, pos: u64, light: bool) -> bool {
    pos == 0 || (pos + 8 <= data.len() && (light || pos + 8 + 8 * u64_at(data, pos as int) <= data.len()))
}

/// A group's offset of child `index` read from the file, whether cached or
/// not: the value right after the count, `index` words in.
pub open spec fn child_offset_of(data: Seq<u8>, g: GroupView, index: int) -> u64 {
    if !g.light && g.child_offsets.len() > 0 {
        g.child_offsets[index]
    } else {
        u64_at(data, g.pos + 8 + 8 * index)
    }
}

/// A data block of an Ogawa file: its position and size.
pub struct IData {
    pub pos: u64,
    pub size: u64,
}

/// The data block at `pos`: position 0 is empty, else its size is the
/// value at `pos`.
pub open spec fn data_read(data: Seq<u8>, pos: u64) -> IData {
    IData { pos, size: if pos == 0 { 0 } else { u64_at(data, pos as int) } }
}

/// A group read from a file keeps either no offsets or one per child.
pub open spec fn group_wf(g: GroupView) -> bool {
    !g.light && g.child_offsets.len() > 0 ==> g.child_offsets.len() == g.num_children
}

/// The bytes of a text block up to its first zero byte.
pub open spec fn before_nul(b: Seq<u8>) -> Seq<u8>
    decreases b.len(),
{
    if b.len() == 0 {
        b
    } else if b[0] == 0 {
        Seq::empty()
    } else {
        seq![b[0]] + before_nul(b.drop_first())
    }
}

impl IGroup {
    /// Read the group at `pos`: its child count and, unless `light`, its
    /// child offsets. Fails with `UnexpectedEof` when they run past the end.
    pub fn new(data: &[u8], pos: u64, light: bool) -> (r: Result<IGroup, Error>)
        ensures
            group_readable(data@, pos, light) ==> (r matches Ok(g) && g@ == group_read(data@, pos, light)),
            r matches Ok(g) ==> group_wf(g@),
            !group_readable(data@, pos, light) ==> r matches Err(Error::UnexpectedEof(_)),
    {
        let num_children = if pos == 0 {
            0
        } else {
            match read_u64(data, pos) {
                Ok(n) => n,
                Err(e) => {
                    return Err(e);
                },
            }
        };
        let mut child_offsets: Vec<u64> = Vec::new();
        let len = data.len();
        assert(len as int == data@.len() && len <= usize::MAX);
        if !light && num_children > 0 {
            let mut i: u64 = 0;
            while i < num_children
                invariant
                    pos != 0,
                    !light,
                    len == data@.len(),
                    len <= usize::MAX,
                    pos + 8 <= data@.len(),
                    num_children == u64_at(data@, pos as int),
                    i <= num_children,
                    pos + 8 + 8 * i <= data@.len(),
                    child_offsets@ == group_offsets(data@, pos as int, i as int),
                decreases num_children - i,
            {
                let at = pos + 8 + 8 * i;
                let v = match read_u64(data, at) {
                    Ok(v) => v,
                    Err(e) => {
                        assert(!group_readable(data@, pos, light));
                        return Err(e);
                    },
                };
                child_offsets.push(v);
                assert(child_offsets@ =~= group_offsets(data@, pos as int, i + 1));
                i = i + 1;
            }
        }
        let g = IGroup { pos, num_children, child_offsets, light };
        assert(g@ =~= group_read(data@, pos, light));
        Ok(g)
    }

    /// A copy of this group.
    pub fn copied(&self) -> (r: IGroup)
        ensures
            r@ == self@,
    {
        let offsets = self.child_offsets.clone();
        assert(offsets@ =~= self.child_offsets@);
        IGroup { pos: self.pos, num_children: self.num_children, child_offsets: offsets, light: self.light }
    }

    /// The group's position.
    pub fn pos(&self) -> (r: u64)
        ensures
            r == self@.pos,
    {
        self.pos
    }

    /// The number of children.
    pub fn num_children(&self) -> (r: u64)
        ensures
            r == self@.num_children,
    {
        self.num_children
    }

    /// Whether the group has no children.
    pub fn is_empty(&self) -> (r: bool)
        ensures
            r == (self@.num_children == 0),
    {
        self.num_children == 0
    }

    /// Whether the offsets are read on demand.
    pub fn is_light(&self) -> (r: bool)
        ensures
            r == self@.light,
    {
        self.light
    }

    /// The raw offset of child `index` (kind bit and position).
    pub fn child_offset(&self, data: &[u8], index: u64) -> (r: Result<u64, Error>)
        requires
            group_wf(self@),
        ensures
            index >= self@.num_children ==> (r matches Err(Error::ChildOutOfBounds { index: i, count: c })
                && i == index as usize && c == self@.num_children as usize),
            index < self@.num_children && (!self@.light && self@.child_offsets.len() > 0 || self@.pos + 16 + 8
                * index <= data@.len()) ==> r == Ok::<u64, Error>(child_offset_of(data@, self@, index as int)),
            index < self@.num_children && !(!self@.light && self@.child_offsets.len() > 0) && self@.pos + 16
                + 8 * index > data@.len() ==> r matches Err(Error::UnexpectedEof(_)),
    {
        if index >= self.num_children {
            return Err(Error::ChildOutOfBounds { index: index as usize, count: self.num_children as usize });
        }
        let len = data.len();
        assert(len as int == data@.len() && len <= usize::MAX);
        if !self.light && self.child_offsets.len() > 0 {
            Ok(self.child_offsets[index as usize])
        } else {
            if self.pos > u64::MAX - 8 || index > (u64::MAX - 8 - self.pos) / 8 {
                return Err(Error::UnexpectedEof(u64::MAX));
            }
            read_u64(data, self.pos + 8 + index * 8)
        }
    }
}

impl IGroup {
    /// Whether child `index` is a group.
    pub fn is_child_group(&self, data: &[u8], index: u64) -> (r: Result<bool, Error>)
        requires
            group_wf(self@),
        ensures
            r matches Ok(b) ==> index < self@.num_children && b == offset_names_group(
                child_offset_of(data@, self@, index as int),
            ),
            index < self@.num_children && child_offset_readable(data@, self@, index as int) ==> r is Ok,
            index >= self@.num_children ==> r matches Err(Error::ChildOutOfBounds { .. }),
            r is Ok ==> child_offset_readable(data@, self@, index as int),
            r is Err ==> r matches Err(Error::ChildOutOfBounds { .. }) || r matches Err(Error::UnexpectedEof(_)),
    {
        match self.child_offset(data, index) {
            Ok(o) => Ok(is_group_offset(o)),
            Err(e) => Err(e),
        }
    }

    /// Whether child `index` is data.
    pub fn is_child_data(&self, data: &[u8], index: u64) -> (r: Result<bool, Error>)
        requires
            group_wf(self@),
        ensures
            r matches Ok(b) ==> index < self@.num_children && b == !offset_names_group(
                child_offset_of(data@, self@, index as int),
            ),
            index < self@.num_children && child_offset_readable(data@, self@, index as int) ==> r is Ok,
            index >= self@.num_children ==> r matches Err(Error::ChildOutOfBounds { .. }),
            r is Ok ==> child_offset_readable(data@, self@, index as int),
            r is Err ==> r matches Err(Error::ChildOutOfBounds { .. }) || r matches Err(Error::UnexpectedEof(_)),
    {
        match self.child_offset(data, index) {
            Ok(o) => Ok(is_data_offset(o)),
            Err(e) => Err(e),
        }
    }

    /// Whether child `index` is the empty group.
    pub fn is_empty_child_group(&self, data: &[u8], index: u64) -> (r: Result<bool, Error>)
        requires
            group_wf(self@),
        ensures
            r matches Ok(b) ==> index < self@.num_children && b == (offset_names_group(
                child_offset_of(data@, self@, index as int),
            ) && offset_position(child_offset_of(data@, self@, index as int)) == 0),
            index >= self@.num_children ==> r matches Err(Error::ChildOutOfBounds { .. }),
    {
        match self.child_offset(data, index) {
            Ok(o) => Ok(is_group_offset(o) && is_empty_offset(o)),
            Err(e) => Err(e),
        }
    }

    /// Whether child `index` is the empty data block.
    pub fn is_empty_child_data(&self, data: &[u8], index: u64) -> (r: Result<bool, Error>)
        requires
            group_wf(self@),
        ensures
            r matches Ok(b) ==> index < self@.num_children && b == (!offset_names_group(
                child_offset_of(data@, self@, index as int),
            ) && offset_position(child_offset_of(data@, self@, index as int)) == 0),
            index >= self@.num_children ==> r matches Err(Error::ChildOutOfBounds { .. }),
    {
        match self.child_offset(data, index) {
            Ok(o) => Ok(is_data_offset(o) && is_empty_offset(o)),
            Err(e) => Err(e),
        }
    }

    /// The child group at `index`, read in the same mode as this group; a
    /// data child is a `TypeMismatch`.
    pub fn group(&self, data: &[u8], index: u64) -> (r: Result<IGroup, Error>)
        requires
            group_wf(self@),
        ensures
            r matches Ok(g) ==> index < self@.num_children && offset_names_group(
                child_offset_of(data@, self@, index as int),
            ) && g@ == group_read(data@, offset_position(child_offset_of(data@, self@, index as int)), self@.light)
                && group_wf(g@),
            index >= self@.num_children ==> r matches Err(Error::ChildOutOfBounds { .. }),
            index < self@.num_children && (self@.child_offsets.len() > 0 && !self@.light) && !offset_names_group(
                child_offset_of(data@, self@, index as int),
            ) ==> r matches Err(Error::TypeMismatch { .. }),
            index < self@.num_children && child_offset_readable(data@, self@, index as int) && offset_names_group(
                child_offset_of(data@, self@, index as int),
            ) && group_readable(data@, offset_position(child_offset_of(data@, self@, index as int)), self@.light)
                ==> r is Ok,
            r is Ok ==> child_offset_readable(data@, self@, index as int) && group_readable(
                data@,
                offset_position(child_offset_of(data@, self@, index as int)),
                self@.light,
            ),
    {
        let offset = match self.child_offset(data, index) {
            Ok(o) => o,
            Err(e) => {
                return Err(e);
            },
        };
        if !is_group_offset(offset) {
            return Err(Error::TypeMismatch { expected: "group".to_owned(), actual: "data".to_owned() });
        }
        IGroup::new(data, extract_offset(offset), self.light)
    }

    /// The child data block at `index`; a group child is a `TypeMismatch`.
    pub fn data(&self, data: &[u8], index: u64) -> (r: Result<IData, Error>)
        requires
            group_wf(self@),
        ensures
            r matches Ok(d) ==> index < self@.num_children && !offset_names_group(
                child_offset_of(data@, self@, index as int),
            ) && d == data_read(data@, offset_position(child_offset_of(data@, self@, index as int))),
            index >= self@.num_children ==> r matches Err(Error::ChildOutOfBounds { .. }),
            index < self@.num_children && (self@.child_offsets.len() > 0 && !self@.light) && offset_names_group(
                child_offset_of(data@, self@, index as int),
            ) ==> r matches Err(Error::TypeMismatch { .. }),
            index < self@.num_children && child_offset_readable(data@, self@, index as int) && !offset_names_group(
                child_offset_of(data@, self@, index as int),
            ) && ({
                let p = offset_position(child_offset_of(data@, self@, index as int));
                p == 0 || p + 8 <= data@.len()
            }) ==> r is Ok,
            index < self@.num_children && child_offset_readable(data@, self@, index as int) && !offset_names_group(
                child_offset_of(data@, self@, index as int),
            ) && !({
                let p = offset_position(child_offset_of(data@, self@, index as int));
                p == 0 || p + 8 <= data@.len()
            }) ==> r matches Err(Error::UnexpectedEof(_)),
            r is Ok ==> child_offset_readable(data@, self@, index as int),
    {
        let offset = match self.child_offset(data, index) {
            Ok(o) => o,
            Err(e) => {
                return Err(e);
            },
        };
        if !is_data_offset(offset) {
            return Err(Error::TypeMismatch { expected: "data".to_owned(), actual: "group".to_owned() });
        }
        IData::new(data, extract_offset(offset))
    }
}

/// A child of a group: a group or a data block.
pub enum IChild {
    Group(IGroup),
    Data(IData),
}

impl IChild {
    /// Whether this is a group.
    pub fn is_group(&self) -> (r: bool)
        ensures
            r == (*self is Group),
    {
        match self {
            IChild::Group(_) => true,
            IChild::Data(_) => false,
        }
    }

    /// Whether this is a data block.
    pub fn is_data(&self) -> (r: bool)
        ensures
            r == (*self is Data),
    {
        match self {
            IChild::Group(_) => false,
            IChild::Data(_) => true,
        }
    }

    /// The group, if this is one.
    pub fn as_group(&self) -> (r: Option<&IGroup>)
        ensures
            match *self {
                IChild::Group(g) => r == Some(&g),
                IChild::Data(_) => r is None,
            },
    {
        match self {
            IChild::Group(g) => Some(g),
            IChild::Data(_) => None,
        }
    }

    /// The data block, if this is one.
    pub fn as_data(&self) -> (r: Option<&IData>)
        ensures
            match *self {
                IChild::Data(d) => r == Some(&d),
                IChild::Group(_) => r is None,
            },
    {
        match self {
            IChild::Data(d) => Some(d),
            IChild::Group(_) => None,
        }
    }
}

/// The offset of child `i` can be had: it is cached, or lies within the
/// file.
pub open spec fn child_offset_readable(data: Seq<u8>, g: GroupView, i: int) -> bool {
    (!g.light && g.child_offsets.len() > 0) || g.pos + 16 + 8 * i <= data.len()
}

/// What reading child `i` of group `g` gives: the group or data block its
/// offset names, read from the file; an error exactly where the offset or
/// the child's header cannot be read.
pub open spec fn child_entry(data: Seq<u8>, g: GroupView, i: int, e: Result<IChild, Error>) -> bool {
    let off = child_offset_of(data, g, i);
    let p = offset_position(off);
    match e {
        Ok(IChild::Group(h)) => child_offset_readable(data, g, i) && offset_names_group(off) && h@
            == group_read(data, p, g.light) && group_wf(h@),
        Ok(IChild::Data(d)) => child_offset_readable(data, g, i) && !offset_names_group(off) && d
            == data_read(data, p),
        Err(_) => !child_offset_readable(data, g, i) || (offset_names_group(off) && !group_readable(
            data,
            p,
            g.light,
        )) || (!offset_names_group(off) && !(p == 0 || p + 8 <= data.len())),
    }
}

impl IGroup {
    /// Every child in order, each read as the group or data block its
    /// offset names.
    pub fn children(&self, data: &[u8]) -> (r: Vec<Result<IChild, Error>>)
        requires
            group_wf(self@),
        ensures
            r@.len() == self@.num_children,
            forall|i: int| 0 <= i < r@.len() ==> child_entry(data@, self@, i, #[trigger] r@[i]),
    {
        let mut out: Vec<Result<IChild, Error>> = Vec::new();
        let mut i: u64 = 0;
        while i < self.num_children
            invariant
                group_wf(self@),
                i <= self@.num_children,
                out@.len() == i,
                forall|k: int| 0 <= k < i ==> child_entry(data@, self@, k, #[trigger] out@[k]),
            decreases self@.num_children - i,
        {
            let e: Result<IChild, Error> = match self.child_offset(data, i) {
                Ok(off) => {
                    if is_group_offset(off) {
                        match IGroup::new(data, extract_offset(off), self.light) {
                            Ok(h) => Ok(IChild::Group(h)),
                            Err(e) => Err(e),
                        }
                    } else {
                        match IData::new(data, extract_offset(off)) {
                            Ok(d) => Ok(IChild::Data(d)),
                            Err(e) => Err(e),
                        }
                    }
                },
                Err(e) => Err(e),
            };
            proof {
                assert(child_entry(data@, self@, i as int, e));
            }
            out.push(e);
            i = i + 1;
        }
        out
    }
}

impl IData {
    /// Read the data block header at `pos` (position 0 is the empty block).
    pub fn new(data: &[u8], pos: u64) -> (r: Result<IData, Error>)
        ensures
            (pos == 0 || pos + 8 <= data@.len()) ==> r == Ok::<IData, Error>(data_read(data@, pos)),
            !(pos == 0 || pos + 8 <= data@.len()) ==> r matches Err(Error::UnexpectedEof(_)),
    {
        let size = if pos == 0 {
            0
        } else {
            match read_u64(data, pos) {
                Ok(n) => n,
                Err(e) => {
                    return Err(e);
                },
            }
        };
        Ok(IData { pos, size })
    }

    /// The block's position in the file.
    pub fn pos(&self) -> (r: u64)
        ensures
            r == self.pos,
    {
        self.pos
    }

    /// The number of bytes the block holds.
    pub fn size(&self) -> (r: u64)
        ensures
            r == self.size,
    {
        self.size
    }

    /// Whether the block holds no bytes.
    pub fn is_empty(&self) -> (r: bool)
        ensures
            r == (self.size == 0),
    {
        self.size == 0
    }

    /// The position of the block's bytes (after the size).
    pub fn data_pos(&self) -> (r: u64)
        requires
            self.pos <= u64::MAX - 8,
        ensures
            r == if self.pos == 0 { 0 } else { self.pos + 8 },
    {
        if self.pos == 0 {
            0
        } else {
            self.pos + 8
        }
    }

    /// The block's bytes; reading past the end of the file is
    /// `UnexpectedEof`.
    pub fn read_all(&self, data: &[u8]) -> (r: Result<Vec<u8>, Error>)
        ensures
            self.size == 0 ==> (r matches Ok(v) && v@.len() == 0),
            self.size > 0 && self.pos + 8 + self.size <= data@.len() ==> (r matches Ok(v) && v@ == data@.subrange(
                self.pos + 8,
                self.pos + 8 + self.size,
            )),
            self.size > 0 && self.pos + 8 + self.size > data@.len() ==> r matches Err(Error::UnexpectedEof(_)),
    {
        if self.size == 0 {
            return Ok(Vec::new());
        }
        let end: u128 = self.pos as u128 + 8 + self.size as u128;
        if end > data.len() as u128 {
            let reported: u64 = if end > 0xFFFF_FFFF_FFFF_FFFFu128 {
                u64::MAX
            } else {
                end as u64
            };
            return Err(Error::UnexpectedEof(reported));
        }
        let start = (self.pos + 8) as usize;
        let end = (self.pos + 8 + self.size) as usize;
        let s = slice_subrange(data, start, end);
        Ok(crate::ogawa::writer::write_util::bytes_to_vec(s))
    }
}

/// The message of a buffer whose length differs from a block's size.
pub open spec fn size_mismatch_message(buf_len: nat, size: nat) -> Seq<char> {
    "Buffer size "@ + decimal_digits(buf_len) + " doesn't match data size "@ + decimal_digits(size)
}

impl IData {
    /// The block's bytes, borrowed from the file; reading past the end of
    /// the file is `UnexpectedEof`.
    pub fn slice<'a>(&self, data: &'a [u8]) -> (r: Result<&'a [u8], Error>)
        ensures
            self.size == 0 ==> (r matches Ok(v) && v@.len() == 0),
            self.size > 0 && self.pos + 8 + self.size <= data@.len() ==> (r matches Ok(v) && v@ == data@.subrange(
                self.pos + 8,
                self.pos + 8 + self.size,
            )),
            self.size > 0 && self.pos + 8 + self.size > data@.len() ==> r matches Err(Error::UnexpectedEof(_)),
    {
        if self.size == 0 {
            return Ok(slice_subrange(data, 0, 0));
        }
        let end: u128 = self.pos as u128 + 8 + self.size as u128;
        if end > data.len() as u128 {
            let reported: u64 = if end > 0xFFFF_FFFF_FFFF_FFFFu128 {
                u64::MAX
            } else {
                end as u64
            };
            return Err(Error::UnexpectedEof(reported));
        }
        let start = (self.pos + 8) as usize;
        let end = (self.pos + 8 + self.size) as usize;
        Ok(slice_subrange(data, start, end))
    }

    /// Fill `buf`, whose length must be the block's size, with the block's
    /// bytes. A buffer of another length is an `Other` error naming both
    /// lengths; reading past the end of the file is `UnexpectedEof`. On an
    /// error `buf` is left as it was.
    pub fn read_into(&self, data: &[u8], buf: &mut [u8]) -> (r: Result<(), Error>)
        ensures
            final(buf)@.len() == old(buf)@.len(),
            r is Err ==> final(buf)@ == old(buf)@,
            old(buf)@.len() != self.size ==> (r matches Err(Error::Other(m)) && m@ == size_mismatch_message(
                old(buf)@.len(),
                self.size as nat,
            )),
            old(buf)@.len() == self.size && self.size > 0 && self.pos + 8 + self.size <= data@.len() ==> (r is Ok
                && final(buf)@ == data@.subrange(self.pos + 8, self.pos + 8 + self.size)),
            old(buf)@.len() == self.size && self.size == 0 ==> r is Ok,
            old(buf)@.len() == self.size && self.size > 0 && self.pos + 8 + self.size > data@.len() ==> r matches Err(
                Error::UnexpectedEof(_),
            ),
    {
        let n = buf.len();
        if n as u64 != self.size {
            let mut m = "Buffer size ".to_owned();
            push_decimal(&mut m, n as u64);
            proof {
                reveal_strlit("Buffer size ");
                reveal_strlit(" doesn't match data size ");
            }
            m.append(" doesn't match data size ");
            push_decimal(&mut m, self.size);
            assert(m@ =~= size_mismatch_message(n as nat, self.size as nat));
            return Err(Error::Other(m));
        }
        if self.size == 0 {
            return Ok(());
        }
        let src = match self.slice(data) {
            Ok(s) => s,
            Err(e) => {
                return Err(e);
            },
        };
        let mut i: usize = 0;
        while i < n
            invariant
                n == buf@.len(),
                src@.len() == n,
                i <= n,
                forall|k: int| 0 <= k < i ==> buf@[k] == src@[k],
            decreases n - i,
        {
            buf[i] = src[i];
            i = i + 1;
        }
        assert(buf@ =~= src@);
        Ok(())
    }
}

impl IData {
    /// The block's bytes up to its first zero byte, as UTF-8 text; invalid
    /// UTF-8 is a `Utf8` error.
    pub fn read_string(&self, data: &[u8]) -> (r: Result<String, Error>)
        ensures
            self.size > 0 && self.pos + 8 + self.size > data@.len() ==> r matches Err(Error::UnexpectedEof(_)),
            (self.size == 0 || self.pos + 8 + self.size <= data@.len()) ==> ({
                let bytes = if self.size == 0 {
                    Seq::<u8>::empty()
                } else {
                    data@.subrange(self.pos + 8, self.pos + 8 + self.size)
                };
                &&& valid_utf8(before_nul(bytes)) ==> (r matches Ok(s) && s@ == decode_utf8(before_nul(bytes)))
                &&& !valid_utf8(before_nul(bytes)) ==> r matches Err(Error::Utf8(_))
            }),
    {
        let bytes = match self.read_all(data) {
            Ok(b) => b,
            Err(e) => {
                return Err(e);
            },
        };
        let ghost bv = bytes@;
        let mut n: usize = 0;
        while n < bytes.len() && bytes[n] != 0
            invariant
                n <= bytes@.len(),
                bv == bytes@,
                forall|k: int| 0 <= k < n ==> bytes@[k] != 0,
            decreases bytes@.len() - n,
        {
            n = n + 1;
        }
        proof {
            lemma_before_nul(bv, n as int);
        }
        let head = crate::ogawa::writer::write_util::bytes_to_vec(slice_subrange(bytes.as_slice(), 0, n));
        match crate::util::text::string_from_utf8(head) {
            Ok(s) => Ok(s),
            Err(e) => Err(Error::Utf8(e)),
        }
    }
}

proof fn lemma_before_nul(b: Seq<u8>, n: int)
    requires
        0 <= n <= b.len(),
        forall|k: int| 0 <= k < n ==> b[k] != 0,
        n == b.len() || b[n] == 0,
    ensures
        before_nul(b) == b.subrange(0, n),
    decreases b.len(),
{
    if b.len() == 0 {
        assert(b.subrange(0, n) =~= b);
    } else if n == 0 {
        assert(b.subrange(0, 0) =~= Seq::<u8>::empty());
    } else {
        lemma_before_nul(b.drop_first(), n - 1);
        assert(seq![b[0]] + b.drop_first().subrange(0, n - 1) =~= b.subrange(0, n));
    }
}

/// An Ogawa file opened for reading: its header fields and its root group.
pub struct IArchive {
    version: u16,
    frozen: bool,
    size: u64,
    root: IGroup,
}

impl IArchive {
    /// Open the file whose bytes are `data`: a file shorter than the header
    /// is `UnexpectedEof` with its size, a wrong magic `InvalidMagic`; then
    /// the root group is read at the position stored at offset 8.
    pub fn open(data: &[u8]) -> (r: Result<IArchive, Error>)
        ensures
            data@.len() < 16 ==> (r matches Err(Error::UnexpectedEof(n)) && n == data@.len()),
            data@.len() >= 16 && data@.subrange(0, 5) != magic_bytes() ==> r matches Err(Error::InvalidMagic),
            data@.len() >= 16 && data@.subrange(0, 5) == magic_bytes() ==> ({
                let root = u64_at(data@, 8);
                &&& group_readable(data@, root, false) ==> (r matches Ok(a) && a.version() == le_value(
                    data@.subrange(6, 8),
                ) && a.is_frozen() == (data@[5] == 0xFF) && a.size() == data@.len() && a.root()@ == group_read(
                    data@,
                    root,
                    false,
                ))
                &&& !group_readable(data@, root, false) ==> r matches Err(Error::UnexpectedEof(_))
            }),
            r matches Ok(a) ==> group_wf(a.root()@),
    {
        let (version, frozen) = match parse_header(data) {
            Ok(h) => h,
            Err(e) => {
                return Err(e);
            },
        };
        let root_pos = match read_u64(data, ROOT_POS_OFFSET as u64) {
            Ok(p) => p,
            Err(e) => {
                return Err(e);
            },
        };
        let root = match IGroup::new(data, root_pos, false) {
            Ok(g) => g,
            Err(e) => {
                return Err(e);
            },
        };
        Ok(IArchive { version, frozen, size: data.len() as u64, root })
    }

    /// The archive's format version field.
    pub closed spec fn version_spec(&self) -> u16 {
        self.version
    }

    /// The archive's format version field.
    #[verifier::when_used_as_spec(version_spec)]
    pub fn version(&self) -> (r: u16)
        ensures
            r == self.version_spec(),
    {
        self.version
    }

    /// Whether the frozen flag is set.
    pub closed spec fn frozen_spec(&self) -> bool {
        self.frozen
    }

    /// Whether the frozen flag is set.
    #[verifier::when_used_as_spec(frozen_spec)]
    pub fn is_frozen(&self) -> (r: bool)
        ensures
            r == self.frozen_spec(),
    {
        self.frozen
    }

    /// The file size.
    pub closed spec fn size_spec(&self) -> u64 {
        self.size
    }

    /// The file size.
    #[verifier::when_used_as_spec(size_spec)]
    pub fn size(&self) -> (r: u64)
        ensures
            r == self.size_spec(),
    {
        self.size
    }

    /// Whether the file holds at least a header.
    pub fn is_valid(&self) -> (r: bool)
        ensures
            r == (self.size() >= 16),
    {
        self.size >= HEADER_LEN as u64
    }

    /// The root group.
    pub closed spec fn root_spec(&self) -> &IGroup {
        &self.root
    }

    /// The root group.
    #[verifier::when_used_as_spec(root_spec)]
    pub fn root(&self) -> (r: &IGroup)
        ensures
            r == self.root_spec(),
    {
        &self.root
    }
}

} // verus!
