use alembic_core::ogawa::format::{make_data_offset, EMPTY_DATA, OGAWA_MAGIC};
use alembic_core::ogawa::read_util::read_time_samplings_and_max;
use alembic_core::ogawa::reader::{parse_header, IArchive};
use alembic_core::ogawa::writer::archive::{OArchive, ObjectDigests, SampleDigests};
use alembic_core::ogawa::writer::image::ArchiveImage;
use alembic_core::ogawa::writer::object::OObject;
use alembic_core::ogawa::writer::property::{OProperty, OPropertyData};
use alembic_core::ogawa::writer::samples::{collect_array_samples, collect_scalar_samples, stored_sources};
use alembic_core::ogawa::writer::schema::order::stable_order_u32;
use alembic_core::ogawa::writer::schema::polymesh::{OPolyMesh, OPolyMeshSample};
use alembic_core::ogawa::writer::schema::util::{i32_array, PodArray};
use alembic_core::ogawa::writer::schema::xform::{OXform, OXformSample};
use alembic_core::ogawa::writer::write_util::encode_sample_for_pod;
use alembic_core::util::data_type::DataType;
use alembic_core::util::error::Error;
use alembic_core::util::pod::PlainOldDataType;
use alembic_core::util::metadata::MetaData;

fn fnv(bytes: &[u8]) -> (u64, u64) {
    let mut a: u64 = 0xcbf2_9ce4_8422_2325;
    let mut b: u64 = 0x8422_2325_cbf2_9ce4;
    for &x in bytes {
        a = (a ^ x as u64).wrapping_mul(0x100_0000_01b3);
        b = (b ^ (x as u64).rotate_left(7)).wrapping_mul(0x100_0000_01b3);
    }
    (a, b ^ bytes.len() as u64)
}

fn prop_digests(p: &OProperty) -> SampleDigests {
    match &p.data {
        OPropertyData::Scalar(s) => SampleDigests::Samples(
            s.iter().map(|d| fnv(&encode_sample_for_pod(d, p.data_type.pod))).collect(),
        ),
        OPropertyData::Array(s) => SampleDigests::Samples(
            s.iter().map(|(d, _)| fnv(&encode_sample_for_pod(d, p.data_type.pod))).collect(),
        ),
        OPropertyData::Compound(c) => SampleDigests::Children(c.iter().map(prop_digests).collect()),
    }
}

fn object_digests(o: &OObject) -> ObjectDigests {
    ObjectDigests {
        properties: o.properties.iter().map(prop_digests).collect(),
        data_hash: (1, 2),
        child_hash: (3, 4),
        children: o.children.iter().map(object_digests).collect(),
    }
}

fn empty_digests() -> ObjectDigests {
    ObjectDigests { properties: vec![], data_hash: (0, 0), child_hash: (0, 0), children: vec![] }
}

fn u64_at(bytes: &[u8], pos: usize) -> u64 {
    let mut b = [0u8; 8];
    b.copy_from_slice(&bytes[pos..pos + 8]);
    u64::from_le_bytes(b)
}

fn f32_bytes(vals: &[f32]) -> Vec<u8> {
    vals.iter().flat_map(|v| v.to_le_bytes()).collect()
}

fn i32_bytes(vals: &[i32]) -> Vec<u8> {
    vals.iter().flat_map(|v| v.to_le_bytes()).collect()
}

fn root_children(bytes: &[u8]) -> Vec<u64> {
    let root = u64_at(bytes, 8) as usize;
    let n = u64_at(bytes, root) as usize;
    (0..n).map(|k| u64_at(bytes, root + 8 + 8 * k)).collect()
}

fn data_block(bytes: &[u8], offset: u64) -> Vec<u8> {
    let pos = (offset & 0x7FFF_FFFF_FFFF_FFFF) as usize;
    let n = u64_at(bytes, pos) as usize;
    bytes[pos + 8..pos + 8 + n].to_vec()
}

fn write_empty_archive() {
    let archive = OArchive::create("empty.abc");
    let image = archive.close(&empty_digests()).unwrap();
    let header = &image.bytes()[0..16];
    assert_eq!(&header[0..5], &OGAWA_MAGIC);
    assert_eq!(header[5], 0xFF);
    assert_eq!(header[6], 0);
    assert_eq!(header[7], 1);
}

#[test]
fn tests_test_write_empty_archive() {
    write_empty_archive();
}

#[test]
fn writer_test_write_empty_archive() {
    write_empty_archive();
}

fn write_and_read_archive() {
    let mut archive = OArchive::create("child.abc");
    let mut root = OObject::new("");
    root.add_child(OObject::new("test_child"));
    archive.write_archive(&root, &object_digests(&root)).unwrap();
    let bytes = archive.image().bytes();
    let reader = IArchive::open(bytes).unwrap();
    assert!(reader.is_valid());
    assert!(reader.is_frozen());
    let (_, frozen) = parse_header(bytes).unwrap();
    assert!(frozen);
}

#[test]
fn tests_test_write_and_read_archive() {
    write_and_read_archive();
}

#[test]
fn writer_test_write_and_read_archive() {
    write_and_read_archive();
}

fn write_polymesh() {
    let mut archive = OArchive::create("mesh.abc");
    let mut mesh = OPolyMesh::new("triangle");
    mesh.add_sample(&OPolyMeshSample::new(
        PodArray { bytes: f32_bytes(&[0.0, 0.0, 0.0, 1.0, 0.0, 0.0, 0.5, 1.0, 0.0]), len: 3 },
        PodArray { bytes: i32_bytes(&[3]), len: 1 },
        PodArray { bytes: i32_bytes(&[0, 1, 2]), len: 3 },
        [0.0f64, 0.0, 0.0, 1.0, 1.0, 0.0].iter().flat_map(|v| v.to_le_bytes()).collect(),
    ));
    let mut root = OObject::new("");
    root.add_child(mesh.build());
    archive.write_archive(&root, &object_digests(&root)).unwrap();
    let reader = IArchive::open(archive.image().bytes()).unwrap();
    assert!(reader.is_valid());
}

#[test]
fn tests_test_write_polymesh() {
    write_polymesh();
}

#[test]
fn writer_test_write_polymesh() {
    write_polymesh();
}

fn translation(x: f64, y: f64, z: f64) -> [u64; 16] {
    let m = [1.0, 0.0, 0.0, 0.0, 0.0, 1.0, 0.0, 0.0, 0.0, 0.0, 1.0, 0.0, x, y, z, 1.0f64];
    let mut out = [0u64; 16];
    for k in 0..16 {
        out[k] = m[k].to_bits();
    }
    out
}

fn write_xform() {
    let mut archive = OArchive::create("xform.abc");
    let mut xform = OXform::new("transform");
    xform.add_sample(OXformSample::identity());
    xform.add_sample(OXformSample::from_matrix(translation(1.0, 2.0, 3.0), true));
    let mut root = OObject::new("");
    root.add_child(xform.build());
    archive.write_archive(&root, &object_digests(&root)).unwrap();
    let reader = IArchive::open(archive.image().bytes()).unwrap();
    assert!(reader.is_valid());
}

#[test]
fn tests_test_write_xform() {
    write_xform();
}

#[test]
fn writer_test_write_xform() {
    write_xform();
}

#[test]
fn image_starts_with_open_header() {
    let image = ArchiveImage::create();
    assert_eq!(image.bytes(), &[0x4F, 0x67, 0x61, 0x77, 0x61, 0, 0, 1, 0, 0, 0, 0, 0, 0, 0, 0]);
    assert!(!image.is_frozen());
    let (version, frozen) = parse_header(image.bytes()).unwrap();
    assert_eq!(version, 256);
    assert!(!frozen);
}

#[test]
fn data_and_group_blocks_are_length_prefixed() {
    let mut image = ArchiveImage::create();
    assert_eq!(image.write_data(&[]).unwrap(), 0);
    assert_eq!(image.write_data(b"abc").unwrap(), 16);
    assert_eq!(&image.bytes()[16..27], &[3, 0, 0, 0, 0, 0, 0, 0, b'a', b'b', b'c']);
    assert_eq!(image.write_group(&[]).unwrap(), 0);
    assert_eq!(image.write_group(&[7, 0x8000_0000_0000_0010]).unwrap(), 27);
    assert_eq!(u64_at(image.bytes(), 27), 2);
    assert_eq!(u64_at(image.bytes(), 35), 7);
    assert_eq!(u64_at(image.bytes(), 43), 0x8000_0000_0000_0010);
}

#[test]
fn identical_keys_share_one_block() {
    let mut image = ArchiveImage::create();
    let key = alembic_core::ogawa::writer::image::ContentKey {
        digest_lo: 0x0102_0304_0506_0708,
        digest_hi: 9,
        num_bytes: 2,
        pod_tag: 2,
    };
    let first = image.write_keyed_data_with_key(&[5, 6], key).unwrap();
    let len = image.bytes().len();
    let second = image.write_keyed_data_with_key(&[5, 6], key).unwrap();
    assert_eq!(first, 16);
    assert_eq!(second, first);
    assert_eq!(image.bytes().len(), len);
    assert_eq!(image.dedup_count(), 1);
    assert_eq!(u64_at(image.bytes(), 16), 18);
    assert_eq!(u64_at(image.bytes(), 24), 0x0102_0304_0506_0708);
    assert_eq!(&image.bytes()[40..42], &[5, 6]);
    image.setDedupEnabled(false);
    let third = image.write_keyed_data_with_key(&[5, 6], key).unwrap();
    assert_eq!(third, len as u64);
    assert_eq!(image.dedup_count(), 1);
}

#[test]
fn time_sampling_table_reads_back() {
    let mut archive = OArchive::create("ts.abc");
    let tpc = (1.0f64 / 24.0).to_bits();
    assert_eq!(archive.addTimeSampling(tpc, vec![0]), 1);
    assert_eq!(archive.addTimeSampling(tpc, vec![0]), 1);
    assert_eq!(archive.addTimeSampling(tpc, vec![0, 5]), 2);
    archive.update_max_samples(1, 5);
    archive.update_max_samples(1, 3);
    archive.update_max_samples(9, 3);
    assert_eq!(archive.getNumTimeSamplings(), 3);
    let table = archive.image().serialize_time_samplings();
    let records = read_time_samplings_and_max(&table).unwrap();
    assert_eq!(records.len(), 3);
    assert_eq!(records[0].time_per_cycle, 1.0f64.to_bits());
    assert_eq!(records[0].times, vec![0]);
    assert_eq!(records[1].max_sample, 5);
    assert_eq!(records[1].time_per_cycle, tpc);
    assert_eq!(records[2].times, vec![0, 5]);
    assert_eq!(archive.getTimeSampling(1).unwrap().max_sample, 5);
    assert!(archive.getTimeSampling(3).is_none());
}

#[test]
fn scalar_samples_record_the_change_range() {
    let mut image = ArchiveImage::create();
    let samples: Vec<Vec<u8>> = vec![vec![1], vec![1], vec![2], vec![2], vec![3], vec![3]];
    let digests: Vec<(u64, u64)> = samples.iter().map(|s| fnv(s)).collect();
    let st = collect_scalar_samples(&mut image, &samples, &digests, PlainOldDataType::Uint8, 0).unwrap();
    assert_eq!(st.num_samples, 6);
    assert_eq!(st.first_changed_index, 2);
    assert_eq!(st.last_changed_index, 4);
    assert!(st.is_homogenous);
    assert_eq!(st.children.len(), 4);
    assert_eq!(st.children[0], make_data_offset(16));
    assert_eq!(st.children[1], make_data_offset(16 + 25));
    assert_eq!(st.children[2], st.children[1]);
    assert_eq!(st.children[3], make_data_offset(16 + 50));
    let records = read_time_samplings_and_max(&image.serialize_time_samplings()).unwrap();
    assert_eq!(records[0].max_sample, 6);
}

#[test]
fn unchanging_scalar_samples_store_one_block() {
    let mut image = ArchiveImage::create();
    let samples: Vec<Vec<u8>> = vec![vec![7, 7], vec![7, 7], vec![7, 7]];
    let digests: Vec<(u64, u64)> = samples.iter().map(|s| fnv(s)).collect();
    let st = collect_scalar_samples(&mut image, &samples, &digests, PlainOldDataType::Uint8, 0).unwrap();
    assert_eq!(st.first_changed_index, 0);
    assert_eq!(st.last_changed_index, 0);
    assert_eq!(st.children, vec![make_data_offset(16)]);
    let records = read_time_samplings_and_max(&image.serialize_time_samplings()).unwrap();
    assert_eq!(records[0].max_sample, 1);
}

#[test]
fn string_samples_are_stored_terminated() {
    let mut image = ArchiveImage::create();
    let samples: Vec<Vec<u8>> = vec![b"ab".to_vec()];
    let digests = vec![(1u64, 2u64)];
    let st = collect_scalar_samples(&mut image, &samples, &digests, PlainOldDataType::String, 0).unwrap();
    assert_eq!(st.children, vec![make_data_offset(16)]);
    assert_eq!(u64_at(image.bytes(), 16), 19);
    assert_eq!(&image.bytes()[40..43], b"ab\0");
}

#[test]
fn frozen_image_refuses_samples() {
    let mut archive = OArchive::create("f.abc");
    archive.write_archive(&OObject::new(""), &empty_digests()).unwrap();
    assert!(archive.is_frozen());
    assert!(matches!(archive.write_data(b"x"), Err(Error::Frozen)));
    assert!(matches!(archive.write_group(&[1]), Err(Error::Frozen)));
    assert!(matches!(archive.write_archive(&OObject::new(""), &empty_digests()), Err(Error::Frozen)));
}

#[test]
fn array_samples_store_dimensions_and_homogeneity() {
    let mut image = ArchiveImage::create();
    let samples: Vec<(Vec<u8>, Vec<usize>)> = vec![
        (vec![1, 2, 3, 4], vec![4]),
        (vec![1, 2, 3, 4], vec![4]),
        (vec![5, 6, 7, 8], vec![2, 2]),
    ];
    let digests: Vec<(u64, u64)> = samples.iter().map(|s| fnv(&s.0)).collect();
    let (st, sources) =
        collect_array_samples(&mut image, &samples, &digests, PlainOldDataType::Uint8, 1, 0).unwrap();
    assert_eq!(st.first_changed_index, 2);
    assert_eq!(st.last_changed_index, 2);
    assert!(st.is_homogenous);
    assert_eq!(st.children.len(), 4);
    assert_eq!(st.children[0], make_data_offset(16));
    assert_eq!(st.children[1], EMPTY_DATA);
    assert_eq!(st.children[2], make_data_offset(16 + 28));
    assert_eq!(st.children[3], make_data_offset(16 + 56));
    assert_eq!(u64_at(image.bytes(), 16 + 56), 16);
    assert_eq!(u64_at(image.bytes(), 16 + 64), 2);
    assert_eq!(sources, vec![0, 0, 2]);
    assert_eq!(stored_sources(&samples, &digests, PlainOldDataType::Uint8), vec![0, 0, 2]);
}

#[test]
fn arrays_of_different_sizes_are_not_homogeneous() {
    let mut image = ArchiveImage::create();
    let samples: Vec<(Vec<u8>, Vec<usize>)> = vec![(vec![1, 2], vec![2]), (vec![1, 2, 3], vec![3])];
    let digests: Vec<(u64, u64)> = samples.iter().map(|s| fnv(&s.0)).collect();
    let (st, _) = collect_array_samples(&mut image, &samples, &digests, PlainOldDataType::Uint8, 1, 0).unwrap();
    assert!(!st.is_homogenous);
    let mut image = ArchiveImage::create();
    let (st, _) = collect_array_samples(&mut image, &samples[..1], &digests[..1], PlainOldDataType::Uint8, 3, 0).unwrap();
    assert!(!st.is_homogenous);
}

#[test]
fn write_order_is_stable() {
    assert_eq!(stable_order_u32(&[3, 0, 3, 1]), vec![1, 3, 0, 2]);
    assert_eq!(stable_order_u32(&[]), Vec::<usize>::new());
}

#[test]
fn frozen_archive_has_root_group_and_metadata() {
    let mut archive = OArchive::create("meta.abc");
    archive.set_application_writer("tool");
    archive.setUserDescription("demo");
    let mut root = OObject::new("");
    let mut child = OObject::new("c");
    child.add_property(OProperty::scalar("s", DataType::new(PlainOldDataType::Int32, 1)));
    root.add_child(child);
    archive.write_archive(&root, &object_digests(&root)).unwrap();
    let bytes = archive.image().bytes();
    let (version, frozen) = parse_header(bytes).unwrap();
    assert_eq!(version, 256);
    assert!(frozen);
    let kids = root_children(bytes);
    assert_eq!(kids.len(), 6);
    assert_eq!(data_block(bytes, kids[0]), vec![0, 0, 0, 0]);
    assert_eq!(data_block(bytes, kids[1]), 10810i32.to_le_bytes().to_vec());
    let meta = String::from_utf8(data_block(bytes, kids[3])).unwrap();
    assert_eq!(
        meta,
        "_ai_Description=demo;_ai_Application=tool;_ai_AlembicVersion=Alembic 1.8.10 (built unknown unknown)"
    );
    let ts = read_time_samplings_and_max(&data_block(bytes, kids[4])).unwrap();
    assert_eq!(ts.len(), 1);
}

#[test]
fn copied_metadata_keeps_its_version() {
    let mut archive = OArchive::create("copy.abc");
    let mut md = alembic_core::util::metadata::MetaData::new();
    md.set("_ai_AlembicVersion", "old");
    archive.set_archive_metadata(md);
    archive.set_application_writer("tool2");
    archive.set_build_stamp("d", "t");
    archive.write_archive(&OObject::new(""), &empty_digests()).unwrap();
    let bytes = archive.image().bytes();
    let kids = root_children(bytes);
    let meta = String::from_utf8(data_block(bytes, kids[3])).unwrap();
    assert_eq!(meta, "_ai_AlembicVersion=old;_ai_Application=tool2");
}

#[test]
fn compression_hint_is_clamped() {
    let mut archive = OArchive::create("c.abc");
    assert_eq!(archive.getCompressionHint(), -1);
    archive.setCompressionHint(42);
    assert_eq!(archive.getCompressionHint(), 9);
    archive.setCompressionHint(-5);
    assert_eq!(archive.getCompressionHint(), -1);
    assert_eq!(archive.getName(), "c.abc");
    assert_eq!(archive.library_version(), 10810);
}

#[test]
fn copied_metadata_table_keeps_indices() {
    let mut archive = OArchive::create("copy.abc");
    let mut a = MetaData::new();
    a.set("schema", "AbcGeom_PolyMesh_v1");
    let mut b = MetaData::new();
    b.set("interpretation", "point");
    let mut first = MetaData::new();
    first.set("ignored", "entry");
    archive.set_indexed_metadata(&[first, a.duplicate(), b.duplicate()]);
    assert_eq!(archive.add_indexed_metadata(&b), 2);
    assert_eq!(archive.add_indexed_metadata(&a), 1);
    assert_eq!(archive.add_indexed_metadata(&MetaData::new()), 0);
    let mut c = MetaData::new();
    c.set("geoScope", "vtx");
    assert_eq!(archive.add_indexed_metadata(&c), 3);
    archive.set_indexed_metadata(&[]);
    assert_eq!(archive.add_indexed_metadata(&c), 1);
}

#[test]
fn collected_int32_samples_share_repeats() {
    let mut image = ArchiveImage::create();
    let samples: Vec<Vec<u8>> = [1i32, 1, 2, 2, 3].iter().map(|v| v.to_le_bytes().to_vec()).collect();
    let digests: Vec<(u64, u64)> = samples.iter().map(|s| fnv(s)).collect();
    let st = collect_scalar_samples(&mut image, &samples, &digests, PlainOldDataType::Int32, 0).unwrap();
    assert_eq!(
        st.children,
        vec![make_data_offset(16), make_data_offset(44), make_data_offset(44), make_data_offset(72)]
    );
    assert_eq!(st.first_changed_index, 2);
    assert_eq!(st.last_changed_index, 4);
    assert_eq!(st.num_samples, 5);
    assert_eq!(image.pos(), 100);
    let records = read_time_samplings_and_max(&image.serialize_time_samplings()).unwrap();
    assert_eq!(records[0].max_sample, 5);
}

#[test]
fn int_arrays_are_stored_little_endian() {
    let a = i32_array(&[1, -2]);
    assert_eq!(a.len, 2);
    assert_eq!(a.bytes, vec![1, 0, 0, 0, 0xFE, 0xFF, 0xFF, 0xFF]);
}
