use alembic_core::ogawa::read_util::{
    PropertyType, read_property_headers, read_indexed_metadata, read_object_headers,
    get_u32_with_hint, read_property_header,
};
use alembic_core::ogawa::writer::headers::{
    MetadataIndex, serialize_property_headers, serialize_object_headers_with_hash, build_property_info,
    PropertySampleState,
};
use alembic_core::ogawa::writer::object::OObject;
use alembic_core::ogawa::writer::property::OProperty;
use alembic_core::ogawa::writer::write_util::{write_with_hint, write_u64_le, format_alembic_version};
use alembic_core::util::data_type::DataType;
use alembic_core::util::error::Error;
use alembic_core::util::metadata::MetaData;
use alembic_core::util::pod::PlainOldDataType;

fn meta(pairs: &[(&str, &str)]) -> MetaData {
    let mut md = MetaData::new();
    for (k, v) in pairs {
        md.set(k, v);
    }
    md
}

#[test]
fn hinted_values_read_back() {
    for (hint, value) in [(0u8, 200u32), (1, 0xBEEF), (2, 0xDEAD_BEEF)] {
        let mut buf = vec![9u8];
        write_with_hint(&mut buf, value, hint);
        let mut pos = 1usize;
        let v = get_u32_with_hint(&buf, buf.len(), hint as u32, &mut pos).unwrap();
        assert_eq!(v, value);
        assert_eq!(pos, buf.len());
    }
}

#[test]
fn hinted_value_truncates_to_width() {
    let mut buf = Vec::new();
    write_with_hint(&mut buf, 0x1234, 0);
    assert_eq!(buf, vec![0x34]);
}

#[test]
fn hinted_read_past_end_is_invalid_structure() {
    let buf = [1u8];
    let mut pos = 0usize;
    assert!(matches!(get_u32_with_hint(&buf, 1, 2, &mut pos), Err(Error::InvalidStructure(_))));
    assert_eq!(pos, 0);
    assert!(matches!(get_u32_with_hint(&buf, 1, 3, &mut pos), Err(Error::InvalidStructure(_))));
}

#[test]
fn u64_written_little_endian() {
    let mut buf = Vec::new();
    write_u64_le(&mut buf, 0x0102_0304_0506_0708);
    assert_eq!(buf, vec![8, 7, 6, 5, 4, 3, 2, 1]);
}

#[test]
fn indexed_metadata_reads_back() {
    let mut index = MetadataIndex::new();
    assert_eq!(index.add_indexed_metadata(&MetaData::new()), 0);
    let a = meta(&[("interpretation", "box")]);
    let b = meta(&[("schema", "AbcGeom_Xform_v3")]);
    assert_eq!(index.add_indexed_metadata(&a), 1);
    assert_eq!(index.add_indexed_metadata(&b), 2);
    assert_eq!(index.add_indexed_metadata(&a), 1);
    let bytes = index.serialize_indexed_metadata();
    let table = read_indexed_metadata(&bytes).unwrap();
    assert_eq!(table, vec!["".to_string(), "interpretation=box".to_string(), "schema=AbcGeom_Xform_v3".to_string()]);
    assert_eq!(table.as_slice(), index.entries());
}

#[test]
fn long_metadata_is_stored_inline() {
    let mut index = MetadataIndex::new();
    let long = "x".repeat(300);
    let md = meta(&[("k", long.as_str())]);
    assert_eq!(index.add_indexed_metadata(&md), 0xff);
    assert_eq!(index.entries().len(), 1);
}

#[test]
fn truncated_metadata_table_is_an_error() {
    assert!(read_indexed_metadata(&[5, b'a', b'b']).is_err());
}

#[test]
fn property_headers_read_back() {
    let mut index = MetadataIndex::new();
    let mut scalar = OProperty::scalar("width", DataType::FLOAT32());
    scalar.add_scalar_sample(&[0, 0, 128, 63]);
    scalar.add_scalar_sample(&[0, 0, 0, 64]);
    let mut array = OProperty::array("P", DataType::VEC3F()).with_time_sampling(1);
    array.meta_data = meta(&[("geoScope", "vtx")]);
    array.add_array_sample(&[0u8; 24], &[2]);
    let compound = OProperty::compound(".geom").with_meta_data(meta(&[("schema", "AbcGeom_PolyMesh_v1")]));
    let props = vec![compound, scalar, array];
    let bytes = serialize_property_headers(&mut index, &props, &[]);
    let headers = read_property_headers(&bytes, index.entries()).unwrap();
    assert_eq!(headers.len(), 3);

    assert_eq!(headers[0].name, ".geom");
    assert_eq!(headers[0].property_type, PropertyType::Compound);
    assert_eq!(headers[0].metadata, "schema=AbcGeom_PolyMesh_v1");

    assert_eq!(headers[1].name, "width");
    assert_eq!(headers[1].property_type, PropertyType::Scalar);
    assert_eq!(headers[1].data_type, DataType::FLOAT32());
    assert_eq!(headers[1].next_sample_index, 2);
    assert_eq!(headers[1].first_changed_index, 1);
    assert_eq!(headers[1].last_changed_index, 1);
    assert_eq!(headers[1].time_sampling_index, 0);

    assert_eq!(headers[2].name, "P");
    assert_eq!(headers[2].property_type, PropertyType::Array);
    assert!(!headers[2].is_scalar_like);
    assert_eq!(headers[2].data_type, DataType::VEC3F());
    assert_eq!(headers[2].time_sampling_index, 1);
    assert_eq!(headers[2].metadata, "geoScope=vtx");
    assert_eq!(headers[2].next_sample_index, 1);
    assert_eq!(headers[2].first_changed_index, 0);
    assert_eq!(headers[2].last_changed_index, 0);
}

#[test]
fn property_header_with_sample_state() {
    let mut index = MetadataIndex::new();
    let prop = OProperty::array("N", DataType::NORMAL3F());
    let mut state = PropertySampleState::default();
    state.num_samples = 300;
    state.first_changed_index = 2;
    state.last_changed_index = 250;
    state.is_homogenous = false;
    let info = build_property_info(&mut MetadataIndex::new(), &prop, Some(&state));
    assert_eq!((info >> 2) & 3, 1);
    let bytes = serialize_property_headers(&mut index, &[prop], &[state]);
    let (h, next) = read_property_header(&bytes, 0, index.entries()).unwrap();
    assert_eq!(next, bytes.len());
    assert_eq!(h.next_sample_index, 300);
    assert_eq!(h.first_changed_index, 2);
    assert_eq!(h.last_changed_index, 250);
    assert!(!h.is_homogenous);
}

#[test]
fn empty_property_name_is_rejected() {
    let bytes = [1u8, 0, 0, 0, 0, 0];
    assert!(matches!(read_property_headers(&bytes, &["".to_string()]), Err(Error::InvalidStructure(_))));
}

#[test]
fn invalid_utf8_name_is_other_error() {
    let bytes = [1u8 << 4 | 1, 0, 0, 0, 0, 1, 0xFF];
    assert!(matches!(read_property_headers(&bytes, &["".to_string()]), Err(Error::Other(_))));
}

#[test]
fn object_headers_read_back() {
    let mut index = MetadataIndex::new();
    let a = OObject::new("child");
    let b = OObject::new("mesh").with_meta_data(meta(&[("schema", "AbcGeom_PolyMesh_v1")]));
    let bytes = serialize_object_headers_with_hash(&mut index, &[a, b], 1, 2, 3, 4);
    assert_eq!(&bytes[bytes.len() - 32..bytes.len() - 24], &[1, 0, 0, 0, 0, 0, 0, 0]);
    let headers = read_object_headers(&bytes, "/parent", index.entries()).unwrap();
    assert_eq!(headers.len(), 2);
    assert_eq!(headers[0].name, "child");
    assert_eq!(headers[0].full_name, "/parent/child");
    assert_eq!(headers[0].metadata, "");
    assert_eq!(headers[1].name, "mesh");
    assert_eq!(headers[1].full_name, "/parent/mesh");
    assert_eq!(headers[1].metadata, "schema=AbcGeom_PolyMesh_v1");
}

#[test]
fn object_headers_under_root() {
    let mut index = MetadataIndex::new();
    let bytes = serialize_object_headers_with_hash(&mut index, &[OObject::new("a")], 0, 0, 0, 0);
    let headers = read_object_headers(&bytes, "/", index.entries()).unwrap();
    assert_eq!(headers[0].full_name, "/a");
    let none = serialize_object_headers_with_hash(&mut index, &[], 0, 0, 0, 0);
    assert_eq!(none.len(), 32);
    assert!(read_object_headers(&none, "/", index.entries()).unwrap().is_empty());
}

#[test]
fn bad_object_metadata_index_is_rejected() {
    let mut bytes = vec![1u8, 0, 0, 0, b'a', 7];
    bytes.extend_from_slice(&[0u8; 32]);
    assert!(matches!(read_object_headers(&bytes, "/", &["".to_string()]), Err(Error::InvalidStructure(_))));
}

#[test]
fn version_text() {
    assert_eq!(format_alembic_version(10810, "Jan  1 2024", "12:00:00"), "Alembic 1.8.10 (built Jan  1 2024 12:00:00)");
}
