use alembic_core::ogawa::writer::object::OObject;
use alembic_core::ogawa::writer::property::{OProperty, OPropertyData};
use alembic_core::ogawa::writer::schema::util::PodArray;
use alembic_core::ogawa::writer::schema::polymesh::{OPolyMesh, OPolyMeshSample};
use alembic_core::ogawa::writer::schema::points::{OPoints, OPointsSample};
use alembic_core::ogawa::writer::schema::faceset::{OFaceSet, OFaceSetSample};
use alembic_core::ogawa::writer::schema::curves::{OCurves, OCurvesSample, CurveType, BasisType, CurvePeriodicity};
use alembic_core::ogawa::writer::schema::subd::{OSubD, OSubDSample};
use alembic_core::ogawa::writer::schema::nupatch::{ONuPatch, ONuPatchSample};
use alembic_core::ogawa::writer::schema::camera::{OCamera, CameraCore};
use alembic_core::ogawa::writer::schema::light::OLight;
use alembic_core::ogawa::writer::schema::collections::{OCollections, OCollectionsSample};
use alembic_core::ogawa::writer::schema::material::{OMaterial, OMaterialSample, ShaderParam, ShaderParamValue};
use alembic_core::ogawa::writer::schema::xform::{OXform, OXformSample, XformOp, XformOpType, encode_xform_op};
use alembic_core::ogawa::writer::schema::order::stable_order;
use alembic_core::util::data_type::DataType;
use alembic_core::util::pod::PlainOldDataType;

fn pod(bytes: Vec<u8>, len: usize) -> PodArray {
    PodArray { bytes, len }
}

fn children(p: &OProperty) -> &Vec<OProperty> {
    match &p.data {
        OPropertyData::Compound(c) => c,
        _ => panic!("not a compound"),
    }
}

fn names(p: &OProperty) -> Vec<String> {
    children(p).iter().map(|c| c.name.clone()).collect()
}

fn array_samples(p: &OProperty) -> usize {
    match &p.data {
        OPropertyData::Array(s) => s.len(),
        OPropertyData::Scalar(s) => s.len(),
        _ => 0,
    }
}

fn triangle() -> OPolyMeshSample {
    OPolyMeshSample::new(
        pod(vec![0u8; 36], 3),
        pod(vec![3, 0, 0, 0], 1),
        pod(vec![0, 0, 0, 0, 1, 0, 0, 0, 2, 0, 0, 0], 3),
        vec![0u8; 48],
    )
}

#[test]
fn polymesh_creates_properties_in_order() {
    let mut mesh = OPolyMesh::new("triangle");
    mesh.add_sample(&triangle());
    mesh.add_sample(&triangle());
    let obj = mesh.build();
    assert_eq!(obj.name, "triangle");
    assert_eq!(obj.meta_data.get("schema").as_deref(), Some("AbcGeom_PolyMesh_v1"));
    assert_eq!(obj.properties.len(), 1);
    let geom = &obj.properties[0];
    assert_eq!(geom.name, ".geom");
    assert_eq!(names(geom), vec![".selfBnds", "P", ".faceIndices", ".faceCounts"]);
    let kids = children(geom);
    assert_eq!(kids[0].data_write_order, 4);
    assert_eq!(kids[1].data_write_order, 0);
    assert_eq!(kids[1].meta_data.serialize(), "geoScope=vtx;interpretation=point");
    assert_eq!(array_samples(&kids[1]), 2);
    assert_eq!(kids[1].data_type, DataType::new(PlainOldDataType::Float32, 3));
    assert_eq!(kids[3].first_changed_index, 0);
    assert_eq!(kids[3].last_changed_index, 0);
}

#[test]
fn polymesh_normals_and_uvs() {
    let mut mesh = OPolyMesh::new("m").with_time_sampling(2);
    let mut s = triangle();
    s.normals = Some(pod(vec![0u8; 36], 3));
    s.uvs = Some(pod(vec![0u8; 24], 3));
    s.velocities = Some(pod(vec![0u8; 36], 3));
    mesh.add_sample(&s);
    let obj = mesh.build();
    assert_eq!(obj.properties.len(), 2);
    let geom = &obj.properties[0];
    assert_eq!(names(geom), vec![".selfBnds", "P", ".faceIndices", ".faceCounts", ".velocities", "N"]);
    let n = &children(geom)[5];
    assert!(matches!(n.data, OPropertyData::Compound(_)));
    assert_eq!(n.meta_data.serialize(), "isGeomParam=true;podName=float32_t;podExtent=3;geoScope=fvr");
    assert_eq!(children(n)[0].name, ".vals");
    assert_eq!(children(n)[0].time_sampling_index, 2);
    let arb = &obj.properties[1];
    assert_eq!(arb.name, ".arbGeomParams");
    assert_eq!(names(arb), vec!["uv"]);
}

#[test]
fn polymesh_simple_normals() {
    let mut mesh = OPolyMesh::new("m");
    let mut s = triangle();
    s.normals = Some(pod(vec![0u8; 36], 3));
    s.normals_is_simple_array = true;
    mesh.add_sample(&s);
    let obj = mesh.build();
    let geom = &obj.properties[0];
    assert_eq!(names(geom), vec![".selfBnds", "P", ".faceIndices", ".faceCounts", "N"]);
    let n = &children(geom)[4];
    assert_eq!(n.data_write_order, 5);
    assert!(matches!(n.data, OPropertyData::Array(_)));
}

#[test]
fn points_and_faceset() {
    let mut pts = OPoints::new("pts");
    pts.set_time_sampling(1);
    let mut s = OPointsSample::new(pod(vec![0u8; 12], 1), pod(vec![7, 0, 0, 0, 0, 0, 0, 0], 1));
    s.widths = Some(pod(vec![0u8; 4], 1));
    pts.add_sample(&s);
    pts.add_child(OObject::new("kid"));
    let obj = pts.build();
    assert_eq!(obj.children.len(), 1);
    let geom = &obj.properties[0];
    assert_eq!(names(geom), vec!["P", "id", ".widths"]);
    assert_eq!(children(geom)[0].time_sampling_index, 1);
    assert_eq!(children(geom)[1].time_sampling_index, 0);

    let mut fs = OFaceSet::new("fs");
    fs.add_sample(&OFaceSetSample::new(pod(vec![0u8; 8], 2)));
    let obj = fs.build();
    assert_eq!(obj.properties[0].name, ".faceset");
    assert_eq!(names(&obj.properties[0]), vec![".faces"]);
}

#[test]
fn curves_basis_and_type_bytes() {
    let mut c = OCurves::new("c");
    let s = OCurvesSample::new(pod(vec![0u8; 24], 2), pod(vec![2, 0, 0, 0], 1), vec![0u8; 48])
        .with_curve_type(CurveType::Cubic)
        .with_wrap(CurvePeriodicity::Periodic)
        .with_basis(BasisType::Bspline);
    c.add_sample(&s);
    let obj = c.build();
    let geom = &obj.properties[0];
    assert_eq!(names(geom), vec![".selfBnds", "P", "nVertices", "curveBasisAndType"]);
    match &children(geom)[3].data {
        OPropertyData::Scalar(samples) => assert_eq!(samples[0], vec![0, 1, 2, 2]),
        _ => panic!("scalar expected"),
    }
    assert_eq!(children(geom)[0].meta_data.serialize(), "interpretation=box");
}

#[test]
fn subd_scheme_and_params() {
    let mut sd = OSubD::new("s");
    let mut sample = OSubDSample::new(pod(vec![0u8; 36], 3), pod(vec![3, 0, 0, 0], 1), pod(vec![0u8; 12], 3), vec![0u8; 48]);
    sample.uvs = Some(pod(vec![0u8; 24], 3));
    sample.uv_indices = Some(pod(vec![0u8; 12], 3));
    sample.holes = Some(pod(vec![0u8; 4], 1));
    sd.add_sample(&sample.with_scheme("loop"));
    let obj = sd.build();
    let geom = &obj.properties[0];
    assert_eq!(names(geom), vec![".selfBnds", "P", ".faceIndices", ".faceCounts", ".scheme", ".holes", "uv"]);
    match &children(geom)[4].data {
        OPropertyData::Scalar(samples) => assert_eq!(samples[0], b"loop\0".to_vec()),
        _ => panic!("scalar expected"),
    }
    let uv = &children(geom)[6];
    assert_eq!(names(uv), vec![".vals", ".indices"]);
    assert_eq!(children(uv)[1].data_write_order, 6);
}

#[test]
fn nupatch_scalars_little_endian() {
    let mut np = ONuPatch::new("n");
    let s = ONuPatchSample::new(pod(vec![0u8; 12], 1), 4, 5, 2, 3, pod(vec![0u8; 4], 1), pod(vec![0u8; 4], 1), vec![0u8; 48]);
    np.add_sample(&s);
    let obj = np.build();
    let geom = &obj.properties[0];
    assert_eq!(names(geom), vec![".selfBnds", "P", "nu", "nv", "uOrder", "vOrder", "uKnot", "vKnot"]);
    match &children(geom)[3].data {
        OPropertyData::Scalar(samples) => assert_eq!(samples[0], vec![5, 0, 0, 0]),
        _ => panic!("scalar expected"),
    }
}

#[test]
fn camera_and_light_store_core() {
    let mut cam = OCamera::new("cam");
    let obj = OCamera::new("empty").build();
    assert!(obj.properties.is_empty());
    let mut values = [0u64; 16];
    values[0] = 1.0f64.to_bits();
    cam.add_sample(CameraCore { values });
    cam.set_time_sampling(3);
    let obj = cam.build();
    let geom = &obj.properties[0];
    let core = &children(geom)[0];
    assert_eq!(core.name, ".core");
    assert_eq!(core.time_sampling_index, 3);
    match &core.data {
        OPropertyData::Scalar(samples) => {
            assert_eq!(samples[0].len(), 128);
            assert_eq!(&samples[0][0..8], &1.0f64.to_le_bytes());
        },
        _ => panic!("scalar expected"),
    }
    let mut light = OLight::new("l");
    light.add_camera_sample(CameraCore { values });
    let obj = light.build();
    let geom = &obj.properties[0];
    assert_eq!(names(geom), vec![".camera"]);
    assert_eq!(names(&children(geom)[0]), vec![".core"]);
}

#[test]
fn collections_keep_order_and_replace() {
    let mut c = OCollections::new("c");
    c.add_collection("b", vec!["/x".to_string()]);
    c.add_collection("a", vec!["/y".to_string(), "/z".to_string()]);
    c.add_collection("b", vec!["/w".to_string()]);
    let obj = c.build();
    let coll = &obj.properties[0];
    assert_eq!(names(coll), vec!["b", "a"]);
    match &children(coll)[0].data {
        OPropertyData::Array(samples) => {
            assert_eq!(samples[0].0, b"/w\0".to_vec());
            assert_eq!(samples[0].1, vec![1]);
        },
        _ => panic!("array expected"),
    }
    let mut s = OCollectionsSample::new();
    s.add_collection("k", vec![]);
    assert_eq!(s.collections.len(), 1);
}

#[test]
fn material_sorted_by_key_and_name() {
    let mut m = OMaterial::new("mat");
    m.add_shader("prman", "surface", "plastic");
    m.add_shader("arnold", "surface", "standard");
    let mut sample = OMaterialSample::new();
    sample.add_shader("prman", "surface", "plastic");
    sample.add_shader("arnold", "surface", "standard");
    sample.add_param("arnold", "surface", ShaderParam { name: "Kd".to_string(), value: ShaderParamValue::Float(0.5f32.to_bits()) });
    sample.add_param("arnold", "surface", ShaderParam { name: "Cs".to_string(), value: ShaderParamValue::IntArray(vec![1, 2]) });
    m.set_sample(sample);
    let obj = m.build();
    let mat = &obj.properties[0];
    assert_eq!(names(mat), vec![".shaderNames", "arnold.surface.params"]);
    match &children(mat)[0].data {
        OPropertyData::Array(samples) => {
            assert_eq!(samples[0].0, b"arnold.surface\0standard\0prman.surface\0plastic\0".to_vec());
            assert_eq!(samples[0].1, vec![4]);
        },
        _ => panic!("array expected"),
    }
    let params = &children(mat)[1];
    assert_eq!(names(params), vec!["Cs", "Kd"]);
    match &children(params)[1].data {
        OPropertyData::Scalar(samples) => assert_eq!(samples[0], 0.5f32.to_le_bytes().to_vec()),
        _ => panic!("scalar expected"),
    }
}

#[test]
fn stable_order_keeps_equal_keys_in_place() {
    let keys = vec![
        (b"b".to_vec(), vec![]),
        (b"a".to_vec(), vec![]),
        (b"b".to_vec(), vec![]),
        (b"ab".to_vec(), vec![]),
    ];
    assert_eq!(stable_order(&keys), vec![1, 3, 0, 2]);
}

#[test]
fn xform_build() {
    assert_eq!(encode_xform_op(XformOpType::Matrix), 0x30);
    let mut x = OXform::new("transform");
    x.add_sample(OXformSample::identity());
    let obj = x.build();
    assert_eq!(names(&obj.properties[0]), Vec::<String>::new());

    let mut x = OXform::new("transform");
    x.add_sample(OXformSample::from_ops(vec![XformOp { op_type: XformOpType::Translate, values: vec![0, 0, 0] }], true));
    x.add_child_bounds([0u64; 6]);
    let obj = x.build();
    let g = &obj.properties[0];
    assert_eq!(names(g), vec![".inherits", ".ops", ".vals", "isNotConstantIdentity", ".childBnds"]);
    assert_eq!(children(g)[2].data_type, DataType::new(PlainOldDataType::Float64, 3));
    assert_eq!(children(g)[1].data_type, DataType::new(PlainOldDataType::Uint8, 1));
}
