use alembic_core::ogawa::archive_reader::{open_archive, CompoundData, OgawaArchiveReader};
use alembic_core::ogawa::read_util::PropertyType;
use alembic_core::ogawa::reader::{
    read_bytes, read_into, read_u16, read_u32, read_u64, root_pos, slice, IArchive, IChild, IData, IGroup,
};
use alembic_core::ogawa::writer::archive::{OArchive, ObjectDigests, SampleDigests};
use alembic_core::ogawa::writer::object::OObject;
use alembic_core::ogawa::writer::property::{OProperty, OPropertyData};
use alembic_core::ogawa::writer::write_util::encode_sample_for_pod;
use alembic_core::util::data_type::DataType;
use alembic_core::util::error::Error;
use alembic_core::util::pod::PlainOldDataType;

fn fnv(bytes: &[u8]) -> (u64, u64) {
    let mut a: u64 = 0xcbf2_9ce4_8422_2325;
    for &x in bytes {
        a = (a ^ x as u64).wrapping_mul(0x100_0000_01b3);
    }
    (a, bytes.len() as u64)
}

fn fnv_key(bytes: &[u8]) -> Vec<u8> {
    let (a, b) = fnv(bytes);
    let mut k = a.to_le_bytes().to_vec();
    k.extend_from_slice(&b.to_le_bytes());
    k
}

fn prop_digests(p: &OProperty) -> SampleDigests {
    match &p.data {
        OPropertyData::Scalar(s) => SampleDigests::Samples(
            s.iter().map(|d| fnv(&encode_sample_for_pod(d, p.data_type.pod))).collect(),
        ),
        OPropertyData::Array(s) => SampleDigests::Samples(
            s.iter().map(|(d, _)| fnv(&encode_sample_for_pod(d, p.data_type.pod))).collect(),
        ),
        OPropertyData::Compound(c) => SampleDigests::Children(c.iter().map(prop_digests).collect()),
    }
}

fn object_digests(o: &OObject) -> ObjectDigests {
    ObjectDigests {
        properties: o.properties.iter().map(prop_digests).collect(),
        data_hash: (11, 12),
        child_hash: (13, 14),
        children: o.children.iter().map(object_digests).collect(),
    }
}

fn sample_archive() -> Vec<u8> {
    let mut archive = OArchive::create("sample.abc");
    let mut root = OObject::new("");
    let mut parent = OObject::new("parent");
    let mut leaf = OObject::new("leaf");
    {
        let s = leaf.add_scalar("count", DataType::new(PlainOldDataType::Int32, 1));
        s.add_scalar_sample(&7i32.to_le_bytes());
        s.add_scalar_sample(&8i32.to_le_bytes());
        s.add_scalar_sample(&9i32.to_le_bytes());
    }
    {
        let a = leaf.add_array("values", DataType::new(PlainOldDataType::Uint8, 1));
        a.add_array_sample(&[1, 2, 3], &[3]);
        a.add_array_sample(&[1, 2, 3, 4], &[2, 2]);
    }
    parent.add_child(leaf);
    root.add_child(parent);
    root.add_child(OObject::new("other"));
    archive.write_archive(&root, &object_digests(&root)).unwrap();
    archive.image().bytes().to_vec()
}

#[test]
fn test_compound_data_empty() {
    let data = CompoundData::empty();
    assert_eq!(data.getNumProperties(), 0);
    assert!(data.isCompound());
}

#[test]
fn written_archive_opens_with_its_layout() {
    let bytes = sample_archive();
    let archive = IArchive::open(&bytes).unwrap();
    assert!(archive.is_valid());
    assert!(archive.is_frozen());
    assert_eq!(archive.version(), 256);
    assert_eq!(archive.root().num_children(), 6);
    let contents = open_archive("sample.abc", &bytes).unwrap();
    assert_eq!(contents.getArchiveVersion(), 10810);
    assert_eq!(contents.getNumTimeSamplings(), 1);
    assert_eq!(contents.max_samples_for_time_sampling(0), Some(3));
    assert_eq!(contents.max_samples_for_time_sampling(1), None);
    assert!(contents.archive_metadata.contains("_ai_AlembicVersion=Alembic 1.8.10"));
    assert_eq!(contents.root.getNumChildren(), 2);
    assert_eq!(contents.root.children[0].name, "parent");
    assert_eq!(contents.root.children[0].full_name, "/parent");
    assert_eq!(contents.root.children[1].name, "other");
}

fn find(contents: &OgawaArchiveReader, bytes: &[u8], path: &str) -> Option<String> {
    contents.findObject(bytes, path).map(|o| o.header.full_name)
}

#[test]
fn objects_are_found_by_path() {
    let bytes = sample_archive();
    let contents = open_archive("sample.abc", &bytes).unwrap();
    assert_eq!(find(&contents, &bytes, "/parent/leaf"), Some("/parent/leaf".to_string()));
    assert_eq!(find(&contents, &bytes, "parent//leaf/"), Some("/parent/leaf".to_string()));
    assert_eq!(find(&contents, &bytes, "/other"), Some("/other".to_string()));
    assert_eq!(find(&contents, &bytes, "/"), None);
    assert_eq!(find(&contents, &bytes, ""), None);
    assert_eq!(find(&contents, &bytes, "/parent/missing"), None);
    let parent = contents.root.child_by_name(&bytes, "parent", &contents.indexed_metadata).unwrap().unwrap();
    assert_eq!(parent.data.getNumChildren(), 1);
    assert!(contents.root.child(&bytes, 2, &contents.indexed_metadata).is_none());
}

#[test]
fn written_samples_read_back() {
    let bytes = sample_archive();
    let contents = open_archive("sample.abc", &bytes).unwrap();
    let leaf = contents.findObject(&bytes, "/parent/leaf").unwrap();
    let props = &leaf.data.properties;
    assert_eq!(props.getNumProperties(), 2);
    let count = props.getProperty(&bytes, 0).unwrap();
    assert_eq!(count.parsed.name, "count");
    assert_eq!(count.parsed.property_type, PropertyType::Scalar);
    assert_eq!(count.getNumSamples(), 3);
    assert!(!count.isConstant());
    let mut out = vec![0u8; 4];
    count.getSample(&bytes, 0, &mut out).unwrap();
    assert_eq!(out, 7i32.to_le_bytes().to_vec());
    count.getSample(&bytes, 1, &mut out).unwrap();
    assert_eq!(out, 8i32.to_le_bytes().to_vec());
    count.getSample(&bytes, 2, &mut out).unwrap();
    assert_eq!(out, 9i32.to_le_bytes().to_vec());
    count.getSample(&bytes, 99, &mut out).unwrap();
    assert_eq!(out, 9i32.to_le_bytes().to_vec());
    let values = props.getProperty(&bytes, 1).unwrap();
    assert_eq!(values.parsed.property_type, PropertyType::Array);
    assert_eq!(values.getSampleVec(&bytes, 0).unwrap(), vec![1, 2, 3]);
    assert_eq!(values.getDimensions(&bytes, 0).unwrap(), vec![3]);
    assert_eq!(values.getSampleLen(&bytes, 0).unwrap(), 3);
    assert_eq!(values.getSampleVec(&bytes, 1).unwrap(), vec![1, 2, 3, 4]);
    assert_eq!(values.getDimensions(&bytes, 1).unwrap(), vec![2, 2]);
    assert_eq!(values.getSampleLen(&bytes, 1).unwrap(), 4);
    assert_eq!(values.getKey(&bytes, 1).unwrap().len(), 16);
    assert_eq!(values.getKey(&bytes, 0).unwrap(), fnv_key(&[1, 2, 3]));
    assert!(props.getProperty(&bytes, 2).is_none());
}

#[test]
fn reads_past_the_end_are_eof() {
    let bytes = vec![1u8, 0, 0, 0, 0, 0, 0, 0, 9];
    assert_eq!(read_u64(&bytes, 0).unwrap(), 1);
    assert!(matches!(read_u64(&bytes, 2), Err(Error::UnexpectedEof(10))));
    assert!(matches!(read_u64(&bytes, u64::MAX), Err(Error::UnexpectedEof(_))));
    assert!(matches!(IGroup::new(&bytes, 0, false).map(|g| g.num_children()), Ok(0)));
    assert!(matches!(IGroup::new(&bytes, 0x10, false), Err(Error::UnexpectedEof(_))));
    let d = IData::new(&bytes, 0).unwrap();
    assert!(d.is_empty());
    let big = IData { pos: 0x1, size: 100 };
    assert!(matches!(big.read_all(&bytes), Err(Error::UnexpectedEof(109))));
}

#[test]
fn group_children_are_typed() {
    let mut bytes = vec![0u8; 16];
    bytes.extend_from_slice(&2u64.to_le_bytes());
    bytes.extend_from_slice(&0x8000_0000_0000_0000u64.to_le_bytes());
    bytes.extend_from_slice(&0u64.to_le_bytes());
    let g = IGroup::new(&bytes, 16, false).unwrap();
    assert_eq!(g.num_children(), 2);
    assert!(g.is_child_data(&bytes, 0).unwrap());
    assert!(g.is_empty_child_data(&bytes, 0).unwrap());
    assert!(g.is_child_group(&bytes, 1).unwrap());
    assert!(g.is_empty_child_group(&bytes, 1).unwrap());
    assert!(matches!(g.group(&bytes, 0), Err(Error::TypeMismatch { .. })));
    assert!(matches!(g.data(&bytes, 1), Err(Error::TypeMismatch { .. })));
    assert!(matches!(g.child_offset(&bytes, 2), Err(Error::ChildOutOfBounds { index: 2, count: 2 })));
    let light = IGroup::new(&bytes, 16, true).unwrap();
    assert!(light.is_light());
    assert_eq!(light.child_offset(&bytes, 0).unwrap(), 0x8000_0000_0000_0000);
}

#[test]
fn short_or_foreign_files_are_refused() {
    assert!(matches!(open_archive("x", &[0u8; 4]), Err(Error::UnexpectedEof(4))));
    assert!(matches!(open_archive("x", &[0u8; 32]), Err(Error::InvalidMagic)));
    let mut bytes = b"Ogawa".to_vec();
    bytes.extend_from_slice(&[0xFF, 0, 1]);
    bytes.extend_from_slice(&16u64.to_le_bytes());
    bytes.extend_from_slice(&1u64.to_le_bytes());
    bytes.extend_from_slice(&0u64.to_le_bytes());
    match open_archive("x", &bytes) {
        Err(Error::InvalidStructure(m)) => assert_eq!(m, "Invalid Alembic file: not enough children"),
        _ => panic!("expected a structure error"),
    }
}

#[test]
fn text_blocks_stop_at_nul() {
    let mut bytes = vec![0u8; 16];
    bytes.extend_from_slice(&5u64.to_le_bytes());
    bytes.extend_from_slice(b"ab\0cd");
    let d = IData::new(&bytes, 16).unwrap();
    assert_eq!(d.read_string(&bytes).unwrap(), "ab");
    let mut bad = vec![0u8; 16];
    bad.extend_from_slice(&2u64.to_le_bytes());
    bad.extend_from_slice(&[0xFF, 0xFE]);
    let d = IData::new(&bad, 16).unwrap();
    assert!(matches!(d.read_string(&bad), Err(Error::Utf8(_))));
}

#[test]
fn byte_reads_within_and_past_the_end() {
    let bytes: Vec<u8> = (0u8..20).collect();
    assert_eq!(read_bytes(&bytes, 2, 3).unwrap(), vec![2, 3, 4]);
    assert_eq!(slice(&bytes, 18, 2).unwrap(), &[18, 19]);
    assert!(matches!(read_bytes(&bytes, 18, 3), Err(Error::UnexpectedEof(21))));
    assert!(matches!(slice(&bytes, u64::MAX, 2), Err(Error::UnexpectedEof(_))));
    let mut buf = [9u8; 4];
    read_into(&bytes, 4, &mut buf).unwrap();
    assert_eq!(buf, [4, 5, 6, 7]);
    let mut keep = [9u8; 4];
    assert!(matches!(read_into(&bytes, 17, &mut keep), Err(Error::UnexpectedEof(21))));
    assert_eq!(keep, [9, 9, 9, 9]);
    assert_eq!(read_u32(&bytes, 0).unwrap(), 0x0302_0100);
    assert_eq!(read_u16(&bytes, 18).unwrap(), 0x1312);
    assert!(matches!(read_u16(&bytes, 19), Err(Error::UnexpectedEof(21))));
    assert_eq!(root_pos(&bytes).unwrap(), 0x0F0E_0D0C_0B0A_0908);
    assert!(matches!(root_pos(&bytes[..10]), Err(Error::UnexpectedEof(16))));
}

#[test]
fn group_children_are_read_in_order() {
    let mut bytes = vec![0u8; 16];
    // group at 16 with a data child at 40 and the empty group
    bytes.extend_from_slice(&2u64.to_le_bytes());
    bytes.extend_from_slice(&0x8000_0000_0000_0028u64.to_le_bytes());
    bytes.extend_from_slice(&0u64.to_le_bytes());
    bytes.extend_from_slice(&3u64.to_le_bytes());
    bytes.extend_from_slice(b"xyz");
    let g = IGroup::new(&bytes, 16, false).unwrap();
    let kids = g.children(&bytes);
    assert_eq!(kids.len(), 2);
    let first = kids[0].as_ref().unwrap();
    assert!(first.is_data() && !first.is_group());
    let d = first.as_data().unwrap();
    assert_eq!((d.pos(), d.size()), (40, 3));
    assert_eq!(d.slice(&bytes).unwrap(), b"xyz");
    let mut out = [0u8; 3];
    d.read_into(&bytes, &mut out).unwrap();
    assert_eq!(&out, b"xyz");
    let mut wrong = [0u8; 2];
    match d.read_into(&bytes, &mut wrong) {
        Err(Error::Other(m)) => assert_eq!(m, "Buffer size 2 doesn't match data size 3"),
        _ => panic!("expected a size mismatch"),
    }
    let second = kids[1].as_ref().unwrap();
    assert!(second.is_group());
    assert!(second.as_data().is_none());
    assert_eq!(second.as_group().unwrap().num_children(), 0);
    assert!(matches!(second, IChild::Group(_)));
}

#[test]
fn objects_and_properties_by_index_and_name() {
    let bytes = sample_archive();
    let contents = open_archive("sample.abc", &bytes).unwrap();
    assert_eq!(contents.getName(), "sample.abc");
    assert_eq!(contents.getNumChildren(), 2);
    assert!(contents.getArchiveMetaData().contains("_ai_AlembicVersion"));
    assert_eq!(contents.getNumTimeSamplings(), 1);
    assert!(contents.getTimeSampling(0).is_some());
    assert!(contents.getTimeSampling(1).is_none());
    assert_eq!(contents.getMaxNumSamplesForTimeSamplingIndex(0), Some(3));
    assert_eq!(contents.getMaxNumSamplesForTimeSamplingIndex(5), None);
    assert_eq!(contents.getTop().getNumChildren(), 2);
    assert_eq!(contents.getProperties().getNumProperties(), 0);
    let other = contents.getChildByIndex(&bytes, 1).unwrap();
    assert_eq!(other.getHeader().full_name, "/other");
    assert!(contents.getChildByIndex(&bytes, 2).is_none());
    assert!(contents.getChild(&bytes, "missing").is_none());
    let parent = contents.getChild(&bytes, "parent").unwrap();
    assert_eq!(parent.getNumChildren(), 1);
    let indexed = contents.indexed_metadata().to_vec();
    let leaf = parent.getChild(&bytes, "leaf", &indexed).unwrap();
    assert_eq!(leaf.getHeader().full_name, "/parent/leaf");
    assert!(parent.getChildByIndex(&bytes, 0, &indexed).is_some());
    assert!(parent.getChildByIndex(&bytes, 1, &indexed).is_none());
    let props = leaf.getProperties();
    let values = props.getPropertyByName(&bytes, "values").unwrap();
    assert_eq!(values.parsed.name, "values");
    assert_eq!(values.getNumSamples(), 2);
    assert!(props.getPropertyByName(&bytes, "nothing").is_none());
}

#[test]
fn property_kinds_select_their_reader() {
    let mut archive = OArchive::create("kinds.abc");
    let mut root = OObject::new("");
    let mut obj = OObject::new("obj");
    let mut geom = OProperty::compound(".geom");
    {
        let mut inner = OProperty::compound("inner");
        inner.add_child(OProperty::compound("deep"));
        geom.add_child(inner);
    }
    obj.add_property(geom);
    obj.add_scalar("s", DataType::new(PlainOldDataType::Uint8, 1)).add_scalar_sample(&[1]);
    root.add_child(obj);
    archive.write_archive(&root, &object_digests(&root)).unwrap();
    let bytes = archive.image().bytes().to_vec();
    let contents = open_archive("kinds.abc", &bytes).unwrap();
    let o = contents.getChild(&bytes, "obj").unwrap();
    let props = o.getProperties();
    assert_eq!(props.getNumProperties(), 2);
    let geom = props.getPropertyByName(&bytes, ".geom").unwrap();
    assert_eq!(geom.getHeader().property_type, PropertyType::Compound);
    assert!(geom.asScalar().is_none());
    assert!(geom.asArray().is_none());
    let inner = geom.asCompound(&bytes, contents.indexed_metadata()).unwrap();
    assert_eq!(inner.getNumProperties(), 1);
    assert_eq!(inner.sub_properties[0].name, "inner");
    let s = props.getPropertyByName(&bytes, "s").unwrap();
    assert!(s.asScalar().is_some());
    assert!(s.asArray().is_none());
    assert!(s.asCompound(&bytes, contents.indexed_metadata()).is_none());
}
