use alembic_core::ogawa::format::{
    OGAWA_MAGIC, TYPE_FLAG_MASK, FROZEN_OFFSET, FROZEN_FLAG, VERSION_OFFSET, is_group_offset,
    is_data_offset, extract_offset, make_group_offset, make_data_offset, is_empty_offset,
};
use alembic_core::ogawa::read_util::read_u32_le;
use alembic_core::ogawa::reader::parse_header;
use alembic_core::util::error::Error;

#[test]
fn test_magic() {
    assert_eq!(&OGAWA_MAGIC, b"Ogawa");
    assert_eq!(OGAWA_MAGIC.len(), 5);
}

#[test]
fn test_offsets() {
    let group_offset = make_group_offset(0x1234);
    assert!(is_group_offset(group_offset));
    assert!(!is_data_offset(group_offset));
    assert_eq!(extract_offset(group_offset), 0x1234);
    assert_eq!(group_offset, 0x1234);

    let data_offset = make_data_offset(0x5678);
    assert!(is_data_offset(data_offset));
    assert!(!is_group_offset(data_offset));
    assert_eq!(extract_offset(data_offset), 0x5678);
    assert_eq!(data_offset, 0x8000000000005678);
}

#[test]
fn test_empty_offset() {
    assert!(is_empty_offset(0));
    assert!(is_empty_offset(TYPE_FLAG_MASK));
    assert!(!is_empty_offset(0x100));
}

#[test]
fn test_read_u32_le() {
    let bytes = [0x01, 0x02, 0x03, 0x04];
    assert_eq!(read_u32_le(&bytes), 0x04030201);
}

#[test]
fn test_header_parsing() {
    let mut header = [0u8; 16];
    header[0..5].copy_from_slice(&OGAWA_MAGIC);
    header[FROZEN_OFFSET] = FROZEN_FLAG;
    header[VERSION_OFFSET] = 1;
    header[VERSION_OFFSET + 1] = 0;

    let (version, frozen) = parse_header(&header).unwrap();
    assert_eq!(version, 1);
    assert!(frozen);
}

#[test]
fn test_invalid_magic() {
    let header = [0u8; 16];
    let result = parse_header(&header);
    assert!(matches!(result, Err(Error::InvalidMagic)));
}

#[test]
fn header_too_short_is_unexpected_eof() {
    let header = [0x4Fu8, 0x67, 0x61];
    assert!(matches!(parse_header(&header), Err(Error::UnexpectedEof(3))));
}

#[test]
fn header_not_frozen_and_version_little_endian() {
    let mut header = [0u8; 16];
    header[0..5].copy_from_slice(&OGAWA_MAGIC);
    header[VERSION_OFFSET] = 0x34;
    header[VERSION_OFFSET + 1] = 0x12;
    let (version, frozen) = parse_header(&header).unwrap();
    assert_eq!(version, 0x1234);
    assert!(!frozen);
}

#[test]
fn offset_roundtrip_keeps_position_and_kind() {
    for pos in [0u64, 1, 16, 0x7FFF_FFFF_FFFF_FFFF] {
        let g = make_group_offset(pos);
        let d = make_data_offset(pos);
        assert_eq!(extract_offset(g), pos);
        assert_eq!(extract_offset(d), pos);
        assert!(is_group_offset(g) && !is_data_offset(g));
        assert!(is_data_offset(d) && !is_group_offset(d));
    }
}
