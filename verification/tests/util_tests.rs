use alembic_core::util::dimensions::Dimensions;
use alembic_core::util::data_type::DataType;
use alembic_core::util::error::Error;
use alembic_core::util::pod::{Bool, PlainOldDataType};
use alembic_core::util::metadata::MetaData;

#[test]
fn test_data_type_sizes() {
    assert_eq!(DataType::BOOL().num_bytes(), 1);
    assert_eq!(DataType::INT32().num_bytes(), 4);
    assert_eq!(DataType::FLOAT32().num_bytes(), 4);
    assert_eq!(DataType::VEC3F().num_bytes(), 12);
    assert_eq!(DataType::MAT44F().num_bytes(), 64);
    assert_eq!(DataType::BOX3D().num_bytes(), 48);
}

#[test]
fn test_data_type_display() {
    assert_eq!(DataType::FLOAT32().to_string(), "float32_t");
    assert_eq!(DataType::VEC3F().to_string(), "float32_t[3]");
    assert_eq!(DataType::MAT44F().to_string(), "float32_t[16]");
}

#[test]
fn test_data_type_validity() {
    assert!(DataType::FLOAT32().is_valid());
    assert!(DataType::VEC3F().is_valid());
    assert!(!DataType::UNKNOWN().is_valid());
    assert!(!DataType::new(PlainOldDataType::Float32, 0).is_valid());
}

#[test]
fn test_error_from_io() {
    let io_err = std::io::Error::new(std::io::ErrorKind::NotFound, "test");
    let err: Error = io_err.into();
    assert!(matches!(err, Error::Io(_)));
}

#[test]
fn test_pod_sizes() {
    assert_eq!(PlainOldDataType::Boolean.num_bytes(), 1);
    assert_eq!(PlainOldDataType::Uint8.num_bytes(), 1);
    assert_eq!(PlainOldDataType::Int32.num_bytes(), 4);
    assert_eq!(PlainOldDataType::Float32.num_bytes(), 4);
    assert_eq!(PlainOldDataType::Float64.num_bytes(), 8);
    assert_eq!(PlainOldDataType::Float16.num_bytes(), 2);
}

#[test]
fn test_pod_names() {
    assert_eq!(PlainOldDataType::Boolean.name(), "bool_t");
    assert_eq!(PlainOldDataType::Float32.name(), "float32_t");
    assert_eq!(PlainOldDataType::from_name("int32_t"), PlainOldDataType::Int32);
}

#[test]
fn test_bool_type() {
    let t = Bool::new(true);
    let f = Bool::new(false);
    assert!(t.get());
    assert!(!f.get());
    assert_eq!(std::mem::size_of::<Bool>(), 1);
}

#[test]
fn test_pod_roundtrip() {
    for i in 0..14u8 {
        let pod = PlainOldDataType::from_u8(i);
        assert_ne!(pod, PlainOldDataType::Unknown);
        assert_eq!(PlainOldDataType::from_name(pod.name()), pod);
    }
}

#[test]
fn pod_codes_above_thirteen_are_unknown() {
    assert_eq!(PlainOldDataType::from_u8(14), PlainOldDataType::Unknown);
    assert_eq!(PlainOldDataType::from_u8(255), PlainOldDataType::Unknown);
    assert_eq!(PlainOldDataType::from_name("no_such_t"), PlainOldDataType::Unknown);
}

#[test]
fn pod_classification() {
    assert!(PlainOldDataType::Int16.is_integer());
    assert!(PlainOldDataType::Int16.is_numeric());
    assert!(!PlainOldDataType::Boolean.is_numeric());
    assert!(PlainOldDataType::Float16.is_float());
    assert!(PlainOldDataType::Wstring.is_string());
    assert!(!PlainOldDataType::String.is_numeric());
}

#[test]
fn bool_converts_both_ways() {
    let b: Bool = true.into();
    let v: bool = b.into();
    assert!(v);
    assert_eq!(Bool::new(false).get(), false);
}

#[test]
fn data_type_unknown_is_invalid_and_extent_zero_invalid() {
    assert_eq!(DataType::new(PlainOldDataType::Int8, 4).num_bytes(), 4);
    assert_eq!(DataType::scalar(PlainOldDataType::Float64).num_bytes(), 8);
    assert!(!DataType::new(PlainOldDataType::Unknown, 1).is_valid());
}

#[test]
fn metadata_keeps_insertion_order_and_replaces_values() {
    let mut md = MetaData::new();
    assert!(md.is_empty());
    md.set("schema", "AbcGeom_Xform_v3");
    md.set("interpretation", "box");
    md.set("schema", "AbcGeom_PolyMesh_v1");
    assert_eq!(md.get("schema").as_deref(), Some("AbcGeom_PolyMesh_v1"));
    assert_eq!(md.get("missing"), None);
    assert_eq!(md.serialize(), "schema=AbcGeom_PolyMesh_v1;interpretation=box");
}

#[test]
fn error_helpers_build_their_variants() {
    assert!(matches!(Error::invalid("bad"), Error::InvalidStructure(s) if s == "bad"));
    assert!(matches!(Error::other("odd"), Error::Other(s) if s == "odd"));
}

#[test]
fn test_scalar() {
    let d = Dimensions::scalar();
    assert_eq!(d.rank(), 0);
    assert!(d.is_scalar());
    assert_eq!(d.num_points(), 1);
}

#[test]
fn test_1d() {
    let d = Dimensions::d1(10);
    assert_eq!(d.rank(), 1);
    assert_eq!(d.size(0), Some(10));
    assert_eq!(d.num_points(), 10);
}

#[test]
fn test_2d() {
    let d = Dimensions::d2(640, 480);
    assert_eq!(d.rank(), 2);
    assert_eq!(d.size(0), Some(640));
    assert_eq!(d.size(1), Some(480));
    assert_eq!(d.num_points(), 640 * 480);
    assert_eq!(d.to_string(), "[640 x 480]");
}

#[test]
fn test_3d() {
    let d = Dimensions::d3(64, 64, 64);
    assert_eq!(d.rank(), 3);
    assert_eq!(d.num_points(), 64 * 64 * 64);
}

#[test]
fn test_from_conversions() {
    let d1: Dimensions = 100.into();
    assert_eq!(d1.rank(), 1);

    let d2: Dimensions = (800, 600).into();
    assert_eq!(d2.rank(), 2);

    let d3: Dimensions = (10, 20, 30).into();
    assert_eq!(d3.rank(), 3);
}

#[test]
fn test_mutate() {
    let mut d = Dimensions::scalar();
    d.push(10);
    d.push(20);
    assert_eq!(d.rank(), 2);
    assert_eq!(d.sizes(), &[10, 20]);

    d.set_size(0, 5);
    assert_eq!(d.size(0), Some(5));

    d.set_rank(4);
    assert_eq!(d.rank(), 4);
    assert_eq!(d.sizes(), &[5, 20, 1, 1]);
}

#[test]
fn dimensions_text_and_growth() {
    assert_eq!(Dimensions::scalar().to_string(), "[]");
    assert_eq!(Dimensions::from_slice(&[7]).to_string(), "[7]");
    let mut d = Dimensions::d1(3);
    d.set_size(3, 9);
    assert_eq!(d.sizes(), &[3, 1, 1, 9]);
    d.set_rank(2);
    assert_eq!(d.sizes(), &[3, 1]);
    let v: Dimensions = vec![2usize, 3, 4].into();
    assert_eq!(v.num_points(), 24);
    assert_eq!(v.size(3), None);
}

#[test]
fn metadata_get_after_set() {
    let mut md = alembic_core::util::metadata::MetaData::new();
    md.set("a", "1");
    md.set("b", "2");
    md.set("a", "3");
    assert_eq!(md.get("a"), Some("3".to_string()));
    assert_eq!(md.get("b"), Some("2".to_string()));
    assert_eq!(md.get("c"), None);
    assert_eq!(md.serialize(), "a=3;b=2");
}

#[test]
fn test_error_display() {
    let e = Error::InvalidMagic;
    assert!(e.to_string().contains("magic"));

    let e = Error::SampleOutOfBounds { index: 5, count: 3 };
    assert!(e.to_string().contains("5"));
    assert!(e.to_string().contains("3"));
}

#[test]
fn error_messages_in_full() {
    assert_eq!(Error::UnexpectedEof(42).to_string(), "Unexpected end of file at position 42");
    assert_eq!(
        Error::ChildOutOfBounds { index: 7, count: 2 }.to_string(),
        "Child index 7 out of bounds (count: 2)"
    );
    assert_eq!(
        Error::TypeMismatch { expected: "group".into(), actual: "data".into() }.to_string(),
        "Type mismatch: expected group, got data"
    );
    assert_eq!(Error::Frozen.to_string(), "Archive is frozen and cannot be modified");
    assert_eq!(Error::Other("plain".into()).to_string(), "plain");
    let io = Error::Io(std::io::Error::new(std::io::ErrorKind::Other, "disk"));
    assert_eq!(io.to_string(), "I/O error: disk");
}
