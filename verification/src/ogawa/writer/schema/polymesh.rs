//! PolyMesh schema writer.

use vstd::prelude::*;
use crate::util::data_type::DataType;
use crate::util::metadata::{MetaData, metadata_pairs};
use crate::util::pod::PlainOldDataType;
use crate::ogawa::writer::object::OObject;
use crate::ogawa::writer::property::{OProperty, OPropertyData, PropView, PropDataView, prop_view};
use crate::ogawa::writer::schema::util::{
    ChildKind, PodArray, meta_of, literal_pairs, p_meta, touch_child, put_array, put_scalar,
    put_geom_param, touch_v, put_array_v, put_scalar_v, geom_param_v, children_view, with_children,
    compound_if_present, lemma_update_other, lemma_lookup_name, lookup_or_create, with_order,
    dims_of, all_compound, lemma_geom_param_all_compound,
    lemma_children_view, empty_compound_view, schema_meta3, schema_meta2, props_view,
    lemma_touch_other, lemma_put_array_other, lemma_put_scalar_other,
};

verus! {

/// PolyMesh sample data: the stored bytes of each array and its element
/// count, and the six doubles of the self bounds.
pub struct OPolyMeshSample {
    pub positions: PodArray,
    pub face_counts: PodArray,
    pub face_indices: PodArray,
    pub velocities: Option<PodArray>,
    pub normals: Option<PodArray>,
    /// Write normals as simple array (true) or GeomParam compound (false).
    pub normals_is_simple_array: bool,
    pub uvs: Option<PodArray>,
    /// The self bounds (min x, y, z, max x, y, z) as stored doubles.
    pub self_bounds: Vec<u8>,
}

impl OPolyMeshSample {
    /// Create a sample with the required data and no optional data.
    pub fn new(positions: PodArray, face_counts: PodArray, face_indices: PodArray, self_bounds: Vec<u8>) -> (r: Self)
        ensures
            r == (OPolyMeshSample {
                positions,
                face_counts,
                face_indices,
                velocities: None,
                normals: None,
                normals_is_simple_array: false,
                uvs: None,
                self_bounds,
            }),
    {
        Self {
            positions,
            face_counts,
            face_indices,
            velocities: None,
            normals: None,
            normals_is_simple_array: false,
            uvs: None,
            self_bounds,
        }
    }
}

/// PolyMesh schema writer.
pub struct OPolyMesh {
    object: OObject,
    geom_compound: OProperty,
    arb_geom_compound: Option<OProperty>,
    time_sampling_index: u32,
}

/// The state of a PolyMesh writer.
pub struct PolyMeshView {
    pub object: OObject,
    pub geom: PropView,
    pub arb: Option<PropView>,
    pub time_sampling_index: u32,
}

impl View for OPolyMesh {
    type V = PolyMeshView;

    closed spec fn view(&self) -> PolyMeshView {
        PolyMeshView {
            object: self.object,
            geom: prop_view(self.geom_compound),
            arb: match self.arb_geom_compound {
                Some(a) => Some(prop_view(a)),
                None => None,
            },
            time_sampling_index: self.time_sampling_index,
        }
    }
}

/// The metadata of simple-array normals.
pub open spec fn normal_meta_pairs() -> Seq<(Seq<char>, Seq<char>)> {
    seq![
        ("arrayExtent"@, "1"@),
        ("geoScope"@, "fvr"@),
        ("interpretation"@, "normal"@),
        ("isGeomParam"@, "true"@),
        ("podExtent"@, "3"@),
        ("podName"@, "float32_t"@),
    ]
}

fn normal_meta() -> (r: MetaData)
    ensures
        metadata_pairs(r) == normal_meta_pairs(),
{
    proof {
        reveal_strlit("arrayExtent");
        reveal_strlit("geoScope");
        reveal_strlit("interpretation");
        reveal_strlit("isGeomParam");
        reveal_strlit("podExtent");
        reveal_strlit("podName");
    }
    let pairs = [
        ("arrayExtent", "1"),
        ("geoScope", "fvr"),
        ("interpretation", "normal"),
        ("isGeomParam", "true"),
        ("podExtent", "3"),
        ("podName", "float32_t"),
    ];
    assert(pairs@ =~= seq![
        ("arrayExtent", "1"),
        ("geoScope", "fvr"),
        ("interpretation", "normal"),
        ("isGeomParam", "true"),
        ("podExtent", "3"),
        ("podName", "float32_t"),
    ]);
    assert forall|i: int, j: int| 0 <= i < j < pairs@.len() implies pairs@[i].0@ != pairs@[j].0@ by {
        assert(pairs@[i].0@[0] != pairs@[j].0@[0] || pairs@[i].0@.len() != pairs@[j].0@.len());
    }
    let r = meta_of(&pairs);
    assert(literal_pairs(pairs@) =~= normal_meta_pairs());
    r
}

/// The view of the data type `pod` with extent `extent`.
pub open spec fn dtype(pod: PlainOldDataType, extent: u8) -> DataType {
    DataType { pod, extent }
}

/// The geom children after recording a PolyMesh sample: the properties are
/// created in the order .selfBnds, P, .faceIndices, .faceCounts, and the
/// velocities and simple-array normals when present, with their write
/// orders; then the samples are recorded.
pub open spec fn polymesh_geom_after(cs: Seq<PropView>, s: OPolyMeshSample, ts: u32) -> Seq<PropView> {
    let f32x3 = dtype(PlainOldDataType::Float32, 3);
    let i32x1 = dtype(PlainOldDataType::Int32, 1);
    let f64x6 = dtype(PlainOldDataType::Float64, 6);
    let none = Seq::<(Seq<char>, Seq<char>)>::empty();
    let pm = seq![("geoScope"@, "vtx"@), ("interpretation"@, "point"@)];
    let c1 = touch_v(cs, ChildKind::Scalar, ".selfBnds"@, f64x6, none, ts, 4);
    let c2 = touch_v(c1, ChildKind::Array, "P"@, f32x3, pm, ts, 0);
    let c3 = touch_v(c2, ChildKind::Array, ".faceIndices"@, i32x1, none, ts, 1);
    let c4 = touch_v(c3, ChildKind::Array, ".faceCounts"@, i32x1, none, ts, 2);
    let c5 = if s.velocities is Some {
        touch_v(c4, ChildKind::Array, ".velocities"@, f32x3, none, ts, 3)
    } else {
        c4
    };
    let c6 = if s.normals is Some && s.normals_is_simple_array {
        touch_v(c5, ChildKind::Array, "N"@, f32x3, normal_meta_pairs(), ts, 5)
    } else {
        c5
    };
    let d1 = put_array_v(c6, "P"@, f32x3, pm, ts, None, s.positions.bytes@, seq![s.positions.len]);
    let d2 = put_array_v(d1, ".faceIndices"@, i32x1, none, ts, None, s.face_indices.bytes@, seq![s.face_indices.len]);
    let d3 = put_array_v(d2, ".faceCounts"@, i32x1, none, ts, None, s.face_counts.bytes@, seq![s.face_counts.len]);
    let d4 = put_scalar_v(d3, ".selfBnds"@, f64x6, none, ts, None, s.self_bounds@);
    let d5 = match s.velocities {
        Some(v) => put_array_v(d4, ".velocities"@, f32x3, none, ts, None, v.bytes@, seq![v.len]),
        None => d4,
    };
    match s.normals {
        Some(n) => if s.normals_is_simple_array {
            put_array_v(d5, "N"@, f32x3, normal_meta_pairs(), ts, None, n.bytes@, seq![n.len])
        } else {
            geom_param_v(d5, "N"@, "3"@, f32x3, ts, None, n.bytes@, seq![n.len], None, None)
        },
        None => d5,
    }
}

/// The arbitrary geometry parameters after recording a PolyMesh sample: the
/// UVs, when present, go to the `uv` parameter of `.arbGeomParams`, which is
/// created on first use.
pub open spec fn polymesh_arb_after(arb: Option<PropView>, s: OPolyMeshSample, ts: u32) -> Option<PropView> {
    match s.uvs {
        Some(uv) => {
            let a = match arb {
                Some(a) => a,
                None => empty_compound_view(".arbGeomParams"@),
            };
            Some(
                with_children(
                    a,
                    geom_param_v(
                        children_view(a),
                        "uv"@,
                        "2"@,
                        dtype(PlainOldDataType::Float32, 2),
                        ts,
                        None,
                        uv.bytes@,
                        seq![uv.len],
                        None,
                        None,
                    ),
                ),
            )
        },
        None => arb,
    }
}

impl OPolyMesh {
    /// The writer's compounds are compounds, and every parameter of
    /// `.arbGeomParams` is a compound.
    pub closed spec fn wf(&self) -> bool {
        &&& self.geom_compound.data is Compound
        &&& match self.arb_geom_compound {
            Some(a) => a.data is Compound && all_compound(children_view(prop_view(a))),
            None => true,
        }
    }

    /// Create a new PolyMesh.
    pub fn new(name: &str) -> (r: Self)
        ensures
            r.wf(),
            r@.object.name@ == name@,
            metadata_pairs(r@.object.meta_data) == schema_meta3(
                "AbcGeom_PolyMesh_v1"@,
                "AbcGeom_GeomBase_v1"@,
                "AbcGeom_PolyMesh_v1:.geom"@,
            ),
            r@.object.children@.len() == 0,
            r@.object.properties@.len() == 0,
            r@.geom == (PropView {
                meta: schema_meta2("AbcGeom_PolyMesh_v1"@, "AbcGeom_GeomBase_v1"@),
                ..empty_compound_view(".geom"@)
            }),
            r@.arb is None,
            r@.time_sampling_index == 0,
    {
        let mut object = OObject::new(name);
        object.meta_data = crate::ogawa::writer::schema::util::object_meta(
            "AbcGeom_PolyMesh_v1",
            "AbcGeom_GeomBase_v1",
            "AbcGeom_PolyMesh_v1:.geom",
        );
        let mut geom = OProperty::compound(".geom");
        geom.meta_data = crate::ogawa::writer::schema::util::geom_meta("AbcGeom_PolyMesh_v1", "AbcGeom_GeomBase_v1");
        let r = Self { object, geom_compound: geom, arb_geom_compound: None, time_sampling_index: 0 };
        proof {
            lemma_children_view(r.geom_compound);
            assert(children_view(r@.geom) =~= Seq::<PropView>::empty());
        }
        assert(r@.geom == (PropView {
            meta: schema_meta2("AbcGeom_PolyMesh_v1"@, "AbcGeom_GeomBase_v1"@),
            ..empty_compound_view(".geom"@)
        }));
        r
    }

    /// Set time sampling index for animated properties.
    pub fn with_time_sampling(self, index: u32) -> (r: Self)
        requires
            self.wf(),
        ensures
            r.wf(),
            r@ == (PolyMeshView { time_sampling_index: index, ..self@ }),
    {
        let mut s = self;
        s.time_sampling_index = index;
        s
    }

    /// Set time sampling index for animated properties.
    pub fn set_time_sampling(&mut self, index: u32)
        requires
            old(self).wf(),
        ensures
            final(self).wf(),
            final(self)@ == (PolyMeshView { time_sampling_index: index, ..old(self)@ }),
    {
        self.time_sampling_index = index;
    }

    /// Add a sample (positions, topology, bounds and optional data).
    ///
    /// The properties are created in the order .selfBnds, P, .faceIndices,
    /// .faceCounts, velocities, normals; the data is written in the order
    /// P, .faceIndices, .faceCounts, velocities, .selfBnds, normals.
    pub fn add_sample(&mut self, sample: &OPolyMeshSample)
        requires
            old(self).wf(),
            sample.normals is Some && !sample.normals_is_simple_array ==> compound_if_present(
                children_view(old(self)@.geom),
                "N"@,
            ),
        ensures
            final(self).wf(),
            final(self)@ == (PolyMeshView {
                geom: with_children(
                    old(self)@.geom,
                    polymesh_geom_after(children_view(old(self)@.geom), *sample, old(self)@.time_sampling_index),
                ),
                arb: polymesh_arb_after(old(self)@.arb, *sample, old(self)@.time_sampling_index),
                ..old(self)@
            }),
    {
        let ts = self.time_sampling_index;
        let ghost g0 = prop_view(self.geom_compound);
        let ghost cs = children_view(g0);
        let ghost f32x3 = dtype(PlainOldDataType::Float32, 3);
        let ghost i32x1 = dtype(PlainOldDataType::Int32, 1);
        let ghost f64x6 = dtype(PlainOldDataType::Float64, 6);
        let ghost none = Seq::<(Seq<char>, Seq<char>)>::empty();
        let ghost pm = seq![("geoScope"@, "vtx"@), ("interpretation"@, "point"@)];
        proof {
            reveal_strlit(".selfBnds");
            reveal_strlit("P");
            reveal_strlit(".faceIndices");
            reveal_strlit(".faceCounts");
            reveal_strlit(".velocities");
            reveal_strlit("N");
            assert("N"@ != ".selfBnds"@ && "N"@ != "P"@ && "N"@ != ".faceIndices"@ && "N"@ != ".faceCounts"@
                && "N"@ != ".velocities"@) by {
                assert("N"@.len() == 1);
                assert("P"@.len() == 1);
                assert("N"@[0] != "P"@[0]);
            }
        }
        touch_child(
            &mut self.geom_compound,
            ChildKind::Scalar,
            ".selfBnds",
            DataType::new(PlainOldDataType::Float64, 6),
            MetaData::new(),
            ts,
            4,
        );
        let ghost c1 = children_view(prop_view(self.geom_compound));
        proof {
            lemma_touch_other(cs, ChildKind::Scalar, ".selfBnds"@, f64x6, none, ts, 4, "N"@);
        }
        touch_child(
            &mut self.geom_compound,
            ChildKind::Array,
            "P",
            DataType::new(PlainOldDataType::Float32, 3),
            p_meta(),
            ts,
            0,
        );
        let ghost c2 = children_view(prop_view(self.geom_compound));
        proof {
            lemma_touch_other(c1, ChildKind::Array, "P"@, f32x3, pm, ts, 0, "N"@);
        }
        touch_child(
            &mut self.geom_compound,
            ChildKind::Array,
            ".faceIndices",
            DataType::new(PlainOldDataType::Int32, 1),
            MetaData::new(),
            ts,
            1,
        );
        let ghost c3 = children_view(prop_view(self.geom_compound));
        proof {
            lemma_touch_other(c2, ChildKind::Array, ".faceIndices"@, i32x1, none, ts, 1, "N"@);
        }
        touch_child(
            &mut self.geom_compound,
            ChildKind::Array,
            ".faceCounts",
            DataType::new(PlainOldDataType::Int32, 1),
            MetaData::new(),
            ts,
            2,
        );
        let ghost c4 = children_view(prop_view(self.geom_compound));
        proof {
            lemma_touch_other(c3, ChildKind::Array, ".faceCounts"@, i32x1, none, ts, 2, "N"@);
        }
        if sample.velocities.is_some() {
            touch_child(
                &mut self.geom_compound,
                ChildKind::Array,
                ".velocities",
                DataType::new(PlainOldDataType::Float32, 3),
                MetaData::new(),
                ts,
                3,
            );
            proof {
                lemma_touch_other(c4, ChildKind::Array, ".velocities"@, f32x3, none, ts, 3, "N"@);
            }
        }
        let ghost c5 = children_view(prop_view(self.geom_compound));
        if sample.normals.is_some() && sample.normals_is_simple_array {
            touch_child(
                &mut self.geom_compound,
                ChildKind::Array,
                "N",
                DataType::new(PlainOldDataType::Float32, 3),
                normal_meta(),
                ts,
                5,
            );
        }
        let ghost c6 = children_view(prop_view(self.geom_compound));
        let d = dims_of(sample.positions.len);
        put_array(
            &mut self.geom_compound,
            "P",
            DataType::new(PlainOldDataType::Float32, 3),
            p_meta(),
            ts,
            None,
            sample.positions.bytes.as_slice(),
            d.as_slice(),
        );
        let ghost d1 = children_view(prop_view(self.geom_compound));
        proof {
            lemma_put_array_other(c6, "P"@, f32x3, pm, ts, None, sample.positions.bytes@, seq![sample.positions.len], "N"@);
        }
        let d = dims_of(sample.face_indices.len);
        put_array(
            &mut self.geom_compound,
            ".faceIndices",
            DataType::new(PlainOldDataType::Int32, 1),
            MetaData::new(),
            ts,
            None,
            sample.face_indices.bytes.as_slice(),
            d.as_slice(),
        );
        let ghost d2 = children_view(prop_view(self.geom_compound));
        proof {
            lemma_put_array_other(d1, ".faceIndices"@, i32x1, none, ts, None, sample.face_indices.bytes@, seq![sample.face_indices.len], "N"@);
        }
        let d = dims_of(sample.face_counts.len);
        put_array(
            &mut self.geom_compound,
            ".faceCounts",
            DataType::new(PlainOldDataType::Int32, 1),
            MetaData::new(),
            ts,
            None,
            sample.face_counts.bytes.as_slice(),
            d.as_slice(),
        );
        let ghost d3 = children_view(prop_view(self.geom_compound));
        proof {
            lemma_put_array_other(d2, ".faceCounts"@, i32x1, none, ts, None, sample.face_counts.bytes@, seq![sample.face_counts.len], "N"@);
        }
        put_scalar(
            &mut self.geom_compound,
            ".selfBnds",
            DataType::new(PlainOldDataType::Float64, 6),
            MetaData::new(),
            ts,
            None,
            sample.self_bounds.as_slice(),
        );
        let ghost d4 = children_view(prop_view(self.geom_compound));
        proof {
            lemma_put_scalar_other(d3, ".selfBnds"@, f64x6, none, ts, None, sample.self_bounds@, "N"@);
        }
        match &sample.velocities {
            Some(vels) => {
                let d = dims_of(vels.len);
                put_array(
                    &mut self.geom_compound,
                    ".velocities",
                    DataType::new(PlainOldDataType::Float32, 3),
                    MetaData::new(),
                    ts,
                    None,
                    vels.bytes.as_slice(),
                    d.as_slice(),
                );
                proof {
                    lemma_put_array_other(d4, ".velocities"@, f32x3, none, ts, None, vels.bytes@, seq![vels.len], "N"@);
                }
            },
            None => {},
        }
        match &sample.normals {
            Some(normals) => {
                let d = dims_of(normals.len);
                if sample.normals_is_simple_array {
                    put_array(
                        &mut self.geom_compound,
                        "N",
                        DataType::new(PlainOldDataType::Float32, 3),
                        normal_meta(),
                        ts,
                        None,
                        normals.bytes.as_slice(),
                        d.as_slice(),
                    );
                } else {
                    put_geom_param(
                        &mut self.geom_compound,
                        "N",
                        "3",
                        DataType::new(PlainOldDataType::Float32, 3),
                        ts,
                        None,
                        normals.bytes.as_slice(),
                        d.as_slice(),
                        None,
                        None,
                    );
                }
            },
            None => {},
        }
        proof {
            let sc1 = touch_v(cs, ChildKind::Scalar, ".selfBnds"@, f64x6, none, ts, 4);
            assert(c1 == sc1);
            assert(c6 == (if sample.normals is Some && sample.normals_is_simple_array {
                touch_v(c5, ChildKind::Array, "N"@, f32x3, normal_meta_pairs(), ts, 5)
            } else {
                c5
            }));
            assert(children_view(prop_view(self.geom_compound)) == polymesh_geom_after(cs, *sample, ts));
            assert(prop_view(self.geom_compound) == with_children(g0, polymesh_geom_after(cs, *sample, ts)));
        }
        let ghost arb0 = self@.arb;
        match &sample.uvs {
            Some(uvs) => {
                if self.arb_geom_compound.is_none() {
                    self.arb_geom_compound = Some(OProperty::compound(".arbGeomParams"));
                    proof {
                        lemma_children_view(self.arb_geom_compound.unwrap());
                        assert(children_view(prop_view(self.arb_geom_compound.unwrap())) =~= Seq::<PropView>::empty());
                        assert(prop_view(self.arb_geom_compound.unwrap()).meta =~= Seq::<(Seq<char>, Seq<char>)>::empty());
                        assert(prop_view(self.arb_geom_compound.unwrap()) == empty_compound_view(".arbGeomParams"@));
                    }
                }
                assert(prop_view(self.arb_geom_compound.unwrap()) == match arb0 {
                    Some(a) => a,
                    None => empty_compound_view(".arbGeomParams"@),
                });
                let ghost a0 = prop_view(self.arb_geom_compound.unwrap());
                let d = dims_of(uvs.len);
                match &mut self.arb_geom_compound {
                    Some(arb) => {
                        put_geom_param(
                            arb,
                            "uv",
                            "2",
                            DataType::new(PlainOldDataType::Float32, 2),
                            ts,
                            None,
                            uvs.bytes.as_slice(),
                            d.as_slice(),
                            None,
                            None,
                        );
                    },
                    None => {},
                }
                assert(self@.arb == Some(with_children(
                    a0,
                    geom_param_v(children_view(a0), "uv"@, "2"@, dtype(PlainOldDataType::Float32, 2), ts, None, uvs.bytes@, seq![uvs.len], None, None),
                )));
                proof {
                    lemma_geom_param_all_compound(children_view(a0), "uv"@, "2"@, dtype(PlainOldDataType::Float32, 2), ts, None, uvs.bytes@, seq![uvs.len], None, None);
                }
            },
            None => {},
        }
        assert(self@.arb == polymesh_arb_after(arb0, *sample, ts));
    }

    /// Build the object: the geometry compound, then the arbitrary geometry
    /// parameters when there are any, follow the object's properties.
    pub fn build(self) -> (r: OObject)
        requires
            self.wf(),
        ensures
            r.name == self@.object.name,
            r.meta_data == self@.object.meta_data,
            r.children == self@.object.children,
            props_view(r.properties@) == props_view(self@.object.properties@) + seq![self@.geom] + match self@.arb {
                Some(a) => seq![a],
                None => Seq::empty(),
            },
    {
        let mut object = self.object;
        let ghost before = props_view(object.properties@);
        object.properties.push(self.geom_compound);
        match self.arb_geom_compound {
            Some(arb) => {
                object.properties.push(arb);
            },
            None => {},
        }
        assert(props_view(object.properties@) =~= before + seq![self@.geom] + match self@.arb {
            Some(a) => seq![a],
            None => Seq::<PropView>::empty(),
        });
        object
    }

    /// Add child object.
    pub fn add_child(&mut self, child: OObject)
        requires
            old(self).wf(),
        ensures
            final(self).wf(),
            final(self)@ == (PolyMeshView {
                object: OObject { children: final(self)@.object.children, ..old(self)@.object },
                ..old(self)@
            }),
            final(self)@.object.children@ == old(self)@.object.children@.push(child),
    {
        self.object.children.push(child);
    }
}

} // verus!
