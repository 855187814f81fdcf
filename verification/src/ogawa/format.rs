//! Ogawa format constants and the encoding of child offsets.
//!
//! A group stores, for each child, one `u64`. Its most significant bit tells a
//! data child (bit set) from a group child (bit clear); the remaining 63 bits
//! hold the file position of the child.

use vstd::prelude::*;

verus! {

/// Size of the file header in bytes.
pub const HEADER_SIZE: usize = 16;

/// Offset of the frozen flag in the header.
pub const FROZEN_OFFSET: usize = 5;

/// Offset of the version in the header.
pub const VERSION_OFFSET: usize = 6;

/// Offset of the root group position in the header.
pub const ROOT_POS_OFFSET: usize = 8;

/// Current Ogawa format version.
pub const CURRENT_VERSION: u16 = 1;

/// Frozen flag value when the archive is finalized.
pub const FROZEN_FLAG: u8 = 0xFF;

/// Frozen flag value while the archive is still being written.
pub const NOT_FROZEN_FLAG: u8 = 0x00;

/// Bit that marks a child offset as data (set) or group (clear).
pub const TYPE_FLAG_MASK: u64 = 0x8000_0000_0000_0000;

/// Mask that keeps the position part of a child offset.
pub const OFFSET_MASK: u64 = 0x7FFF_FFFF_FFFF_FFFF;

/// Size of an empty group.
pub const EMPTY_GROUP_SIZE: u64 = 0;

/// Size of an empty data block.
pub const EMPTY_DATA_SIZE: u64 = 0;

/// Child offset of an empty data block: position 0 with the data bit set.
pub const EMPTY_DATA: u64 = 0x8000_0000_0000_0000;

/// Minimum valid position of a data block (just after the header).
pub const MIN_DATA_OFFSET: u64 = 16;

/// The magic bytes `b"Ogawa"` at the start of every archive.
pub const OGAWA_MAGIC: [u8; 5] = [0x4F, 0x67, 0x61, 0x77, 0x61];

/// Number of distinct positions a child offset can carry (2^63).
pub open spec fn position_range() -> int {
    0x8000_0000_0000_0000
}

/// A child offset names a group exactly when its top bit is clear.
pub open spec fn offset_names_group(offset: u64) -> bool {
    offset < position_range()
}

/// The file position carried by a child offset (its low 63 bits).
pub open spec fn offset_position(offset: u64) -> u64 {
    (offset as int % position_range()) as u64
}

/// The child offset that refers to the group at `pos`.
pub open spec fn group_offset_of(pos: u64) -> u64 {
    offset_position(pos)
}

/// The child offset that refers to the data block at `pos`.
pub open spec fn data_offset_of(pos: u64) -> u64 {
    (offset_position(pos) + position_range()) as u64
}

/// Check if a child offset represents a group (most significant bit clear).
pub fn is_group_offset(offset: u64) -> (r: bool)
    ensures
        r == offset_names_group(offset),
{
    assert((offset & 0x8000_0000_0000_0000u64 == 0) == (offset < 0x8000_0000_0000_0000u64))
        by (bit_vector);
    (offset & TYPE_FLAG_MASK) == 0
}

/// Check if a child offset represents data (most significant bit set).
pub fn is_data_offset(offset: u64) -> (r: bool)
    ensures
        r == !offset_names_group(offset),
{
    assert((offset & 0x8000_0000_0000_0000u64 != 0) == (offset >= 0x8000_0000_0000_0000u64))
        by (bit_vector);
    (offset & TYPE_FLAG_MASK) != 0
}

/// Extract the position from a child offset.
pub fn extract_offset(offset: u64) -> (r: u64)
    ensures
        r == offset_position(offset),
{
    assert(offset & 0x7FFF_FFFF_FFFF_FFFFu64 == offset % 0x8000_0000_0000_0000u64)
        by (bit_vector);
    offset & OFFSET_MASK
}

/// Create a group child offset (most significant bit clear).
pub fn make_group_offset(pos: u64) -> (r: u64)
    ensures
        r == group_offset_of(pos),
{
    assert(pos & 0x7FFF_FFFF_FFFF_FFFFu64 == pos % 0x8000_0000_0000_0000u64) by (bit_vector);
    pos & OFFSET_MASK
}

/// Create a data child offset (most significant bit set).
pub fn make_data_offset(pos: u64) -> (r: u64)
    ensures
        r == data_offset_of(pos),
{
    assert(pos | 0x8000_0000_0000_0000u64 == pos % 0x8000_0000_0000_0000u64
        + 0x8000_0000_0000_0000u64) by (bit_vector);
    pos | TYPE_FLAG_MASK
}

/// Check if an offset is the "empty" marker (position 0) for groups or data.
pub fn is_empty_offset(offset: u64) -> (r: bool)
    ensures
        r == (offset_position(offset) == 0),
{
    extract_offset(offset) == 0
}

/// Encoding a position as a group or a data child offset and decoding it
/// gives back the position and the kind, for every position below 2^63.
pub proof fn lemma_child_offset_roundtrip(pos: u64)
    requires
        pos < position_range(),
    ensures
        offset_names_group(group_offset_of(pos)),
        offset_position(group_offset_of(pos)) == pos,
        !offset_names_group(data_offset_of(pos)),
        offset_position(data_offset_of(pos)) == pos,
        group_offset_of(pos) != data_offset_of(pos),
{
}

/// Every child offset is either the group offset or the data offset of its
/// own position: the kind bit and the position describe it completely.
pub proof fn lemma_child_offset_decomposition(offset: u64)
    ensures
        offset_names_group(offset) ==> offset == group_offset_of(offset_position(offset)),
        !offset_names_group(offset) ==> offset == data_offset_of(offset_position(offset)),
        offset_position(offset) < position_range(),
{
}

/// The empty data marker is a data offset at position 0.
pub proof fn lemma_empty_data_marker()
    ensures
        EMPTY_DATA == data_offset_of(0),
        !offset_names_group(EMPTY_DATA),
        offset_position(EMPTY_DATA) == 0,
{
}

} // verus!
