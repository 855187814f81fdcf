//! SubD schema writer.

use vstd::prelude::*;
use vstd::utf8::encode_utf8;
use crate::util::data_type::DataType;
use crate::util::metadata::{MetaData, metadata_pairs};
use crate::util::pod::PlainOldDataType;
use crate::ogawa::writer::object::OObject;
use crate::ogawa::writer::property::{OProperty, PropView, prop_view};
use crate::ogawa::writer::write_util::{encoded_sample, encode_sample_for_pod};
use crate::ogawa::writer::schema::util::{
    PodArray, GeomSchemaView, p_meta, bounds_meta, put_array, put_scalar, put_opt, put_geom_param,
    put_array_v, put_scalar_v, put_opt_v, geom_param_v, opt_view, children_view, with_children,
    dims_of, lemma_children_view, empty_compound_view, schema_meta3, schema_meta2, props_view,
    object_meta, geom_meta, compound_if_present, lemma_put_array_other, lemma_put_scalar_other,
    lemma_put_opt_other, lemma_geom_param_other, lemma_geom_param_self,
};
use crate::ogawa::writer::schema::polymesh::dtype;

verus! {

/// SubD sample data: positions and topology, the subdivision scheme, the
/// self bounds as six stored doubles, and optional arrays, each as stored
/// bytes with its element count.
pub struct OSubDSample {
    pub positions: PodArray,
    pub face_counts: PodArray,
    pub face_indices: PodArray,
    pub subdivision_scheme: String,
    pub self_bounds: Vec<u8>,
    pub velocities: Option<PodArray>,
    pub uvs: Option<PodArray>,
    pub uv_indices: Option<PodArray>,
    pub crease_indices: Option<PodArray>,
    pub crease_lengths: Option<PodArray>,
    pub crease_sharpnesses: Option<PodArray>,
    pub corner_indices: Option<PodArray>,
    pub corner_sharpnesses: Option<PodArray>,
    pub holes: Option<PodArray>,
    pub normals: Option<PodArray>,
    pub normal_indices: Option<PodArray>,
}

impl OSubDSample {
    /// Create a Catmull-Clark sample with the required geometry data.
    pub fn new(positions: PodArray, face_counts: PodArray, face_indices: PodArray, self_bounds: Vec<u8>) -> (r: Self)
        ensures
            r.positions == positions,
            r.face_counts == face_counts,
            r.face_indices == face_indices,
            r.subdivision_scheme@ == "catmullClark"@,
            r.self_bounds == self_bounds,
            r.velocities is None,
            r.uvs is None,
            r.uv_indices is None,
            r.crease_indices is None,
            r.crease_lengths is None,
            r.crease_sharpnesses is None,
            r.corner_indices is None,
            r.corner_sharpnesses is None,
            r.holes is None,
            r.normals is None,
            r.normal_indices is None,
    {
        Self {
            positions,
            face_counts,
            face_indices,
            subdivision_scheme: "catmullClark".to_owned(),
            self_bounds,
            velocities: None,
            uvs: None,
            uv_indices: None,
            crease_indices: None,
            crease_lengths: None,
            crease_sharpnesses: None,
            corner_indices: None,
            corner_sharpnesses: None,
            holes: None,
            normals: None,
            normal_indices: None,
        }
    }

    /// Set subdivision scheme (such as "catmullClark", "loop", "bilinear").
    pub fn with_scheme(self, scheme: &str) -> (r: Self)
        ensures
            r.subdivision_scheme@ == scheme@,
            r.positions == self.positions,
            r.face_counts == self.face_counts,
            r.face_indices == self.face_indices,
            r.self_bounds == self.self_bounds,
            r.velocities == self.velocities,
            r.uvs == self.uvs,
            r.uv_indices == self.uv_indices,
            r.crease_indices == self.crease_indices,
            r.crease_lengths == self.crease_lengths,
            r.crease_sharpnesses == self.crease_sharpnesses,
            r.corner_indices == self.corner_indices,
            r.corner_sharpnesses == self.corner_sharpnesses,
            r.holes == self.holes,
            r.normals == self.normals,
            r.normal_indices == self.normal_indices,
    {
        let mut s = self;
        s.subdivision_scheme = scheme.to_owned();
        s
    }
}

/// SubD schema writer.
pub struct OSubD {
    object: OObject,
    geom_compound: OProperty,
    time_sampling_index: u32,
}

impl View for OSubD {
    type V = GeomSchemaView;

    closed spec fn view(&self) -> GeomSchemaView {
        GeomSchemaView {
            object: self.object,
            geom: prop_view(self.geom_compound),
            time_sampling_index: self.time_sampling_index,
        }
    }
}

/// The stored scheme of a sample: its UTF-8 text with a terminator.
pub open spec fn scheme_bytes(s: OSubDSample) -> Seq<u8> {
    encoded_sample(encode_utf8(s.subdivision_scheme@), PlainOldDataType::String)
}

/// The geom children of a SubD before its geometry parameters: .selfBnds,
/// P, .faceIndices, .faceCounts, .scheme and the optional arrays, each
/// with its write order.
pub open spec fn subd_geom_base(cs: Seq<PropView>, s: OSubDSample, ts: u32) -> Seq<PropView> {
    let none = Seq::<(Seq<char>, Seq<char>)>::empty();
    let pm = seq![("geoScope"@, "vtx"@), ("interpretation"@, "point"@)];
    let i32x1 = dtype(PlainOldDataType::Int32, 1);
    let f32x1 = dtype(PlainOldDataType::Float32, 1);
    let d0 = put_scalar_v(cs, ".selfBnds"@, dtype(PlainOldDataType::Float64, 6), seq![("interpretation"@, "box"@)], ts, Some(4), s.self_bounds@);
    let d1 = put_array_v(d0, "P"@, dtype(PlainOldDataType::Float32, 3), pm, ts, Some(0), s.positions.bytes@, seq![s.positions.len]);
    let d2 = put_array_v(d1, ".faceIndices"@, i32x1, none, 0, Some(1), s.face_indices.bytes@, seq![s.face_indices.len]);
    let d3 = put_array_v(d2, ".faceCounts"@, i32x1, none, 0, Some(2), s.face_counts.bytes@, seq![s.face_counts.len]);
    let d4 = put_scalar_v(d3, ".scheme"@, dtype(PlainOldDataType::String, 1), none, 0, Some(10), scheme_bytes(s));
    let d5 = put_opt_v(d4, s.velocities, ".velocities"@, dtype(PlainOldDataType::Float32, 3), 3);
    let d6 = put_opt_v(d5, s.crease_indices, ".creaseIndices"@, i32x1, 11);
    let d7 = put_opt_v(d6, s.crease_lengths, ".creaseLengths"@, i32x1, 12);
    let d8 = put_opt_v(d7, s.crease_sharpnesses, ".creaseSharpnesses"@, f32x1, 13);
    let d9 = put_opt_v(d8, s.corner_indices, ".cornerIndices"@, i32x1, 14);
    let d10 = put_opt_v(d9, s.corner_sharpnesses, ".cornerSharpnesses"@, f32x1, 15);
    put_opt_v(d10, s.holes, ".holes"@, i32x1, 16)
}

/// The geom children after recording a SubD sample: the base properties,
/// then the `uv` and `N` geometry parameters when present (with their
/// indices when given).
pub open spec fn subd_geom_after(cs: Seq<PropView>, s: OSubDSample, ts: u32) -> Seq<PropView> {
    let d11 = subd_geom_base(cs, s, ts);
    let d12 = match s.uvs {
        Some(uv) => geom_param_v(
            d11,
            "uv"@,
            "2"@,
            dtype(PlainOldDataType::Float32, 2),
            ts,
            Some(5),
            uv.bytes@,
            seq![uv.len],
            opt_view(s.uv_indices),
            Some(6),
        ),
        None => d11,
    };
    match s.normals {
        Some(n) => geom_param_v(
            d12,
            "N"@,
            "3"@,
            dtype(PlainOldDataType::Float32, 3),
            ts,
            Some(7),
            n.bytes@,
            seq![n.len],
            opt_view(s.normal_indices),
            Some(8),
        ),
        None => d12,
    }
}

/// Neither geometry parameter is anything but a compound.
pub open spec fn params_ok(cs: Seq<PropView>) -> bool {
    compound_if_present(cs, "uv"@) && compound_if_present(cs, "N"@)
}

proof fn lemma_base_keeps_params(cs: Seq<PropView>, s: OSubDSample, ts: u32)
    ensures
        params_ok(subd_geom_base(cs, s, ts)) == params_ok(cs),
{
    reveal_strlit("uv");
    reveal_strlit("N");
    reveal_strlit(".selfBnds");
    reveal_strlit("P");
    reveal_strlit(".faceIndices");
    reveal_strlit(".faceCounts");
    reveal_strlit(".scheme");
    reveal_strlit(".velocities");
    reveal_strlit(".creaseIndices");
    reveal_strlit(".creaseLengths");
    reveal_strlit(".creaseSharpnesses");
    reveal_strlit(".cornerIndices");
    reveal_strlit(".cornerSharpnesses");
    reveal_strlit(".holes");
    let none = Seq::<(Seq<char>, Seq<char>)>::empty();
    let pm = seq![("geoScope"@, "vtx"@), ("interpretation"@, "point"@)];
    let i32x1 = dtype(PlainOldDataType::Int32, 1);
    let f32x1 = dtype(PlainOldDataType::Float32, 1);
    let bm = seq![("interpretation"@, "box"@)];
    let f64x6 = dtype(PlainOldDataType::Float64, 6);
    let f32x3 = dtype(PlainOldDataType::Float32, 3);
    let d0 = put_scalar_v(cs, ".selfBnds"@, f64x6, bm, ts, Some(4), s.self_bounds@);
    let d1 = put_array_v(d0, "P"@, f32x3, pm, ts, Some(0), s.positions.bytes@, seq![s.positions.len]);
    let d2 = put_array_v(d1, ".faceIndices"@, i32x1, none, 0, Some(1), s.face_indices.bytes@, seq![s.face_indices.len]);
    let d3 = put_array_v(d2, ".faceCounts"@, i32x1, none, 0, Some(2), s.face_counts.bytes@, seq![s.face_counts.len]);
    let d4 = put_scalar_v(d3, ".scheme"@, dtype(PlainOldDataType::String, 1), none, 0, Some(10), scheme_bytes(s));
    let d5 = put_opt_v(d4, s.velocities, ".velocities"@, f32x3, 3);
    let d6 = put_opt_v(d5, s.crease_indices, ".creaseIndices"@, i32x1, 11);
    let d7 = put_opt_v(d6, s.crease_lengths, ".creaseLengths"@, i32x1, 12);
    let d8 = put_opt_v(d7, s.crease_sharpnesses, ".creaseSharpnesses"@, f32x1, 13);
    let d9 = put_opt_v(d8, s.corner_indices, ".cornerIndices"@, i32x1, 14);
    let d10 = put_opt_v(d9, s.corner_sharpnesses, ".cornerSharpnesses"@, f32x1, 15);
    assert("uv"@[0] == 'u' && "N"@[0] == 'N' && "P"@[0] == 'P');
    lemma_put_scalar_other(cs, ".selfBnds"@, f64x6, bm, ts, Some(4), s.self_bounds@, "uv"@);
    lemma_put_scalar_other(cs, ".selfBnds"@, f64x6, bm, ts, Some(4), s.self_bounds@, "N"@);
    lemma_put_array_other(d0, "P"@, f32x3, pm, ts, Some(0), s.positions.bytes@, seq![s.positions.len], "uv"@);
    lemma_put_array_other(d0, "P"@, f32x3, pm, ts, Some(0), s.positions.bytes@, seq![s.positions.len], "N"@);
    lemma_put_array_other(d1, ".faceIndices"@, i32x1, none, 0, Some(1), s.face_indices.bytes@, seq![s.face_indices.len], "uv"@);
    lemma_put_array_other(d1, ".faceIndices"@, i32x1, none, 0, Some(1), s.face_indices.bytes@, seq![s.face_indices.len], "N"@);
    lemma_put_array_other(d2, ".faceCounts"@, i32x1, none, 0, Some(2), s.face_counts.bytes@, seq![s.face_counts.len], "uv"@);
    lemma_put_array_other(d2, ".faceCounts"@, i32x1, none, 0, Some(2), s.face_counts.bytes@, seq![s.face_counts.len], "N"@);
    lemma_put_scalar_other(d3, ".scheme"@, dtype(PlainOldDataType::String, 1), none, 0, Some(10), scheme_bytes(s), "uv"@);
    lemma_put_scalar_other(d3, ".scheme"@, dtype(PlainOldDataType::String, 1), none, 0, Some(10), scheme_bytes(s), "N"@);
    lemma_put_opt_other(d4, s.velocities, ".velocities"@, f32x3, 3, "uv"@);
    lemma_put_opt_other(d4, s.velocities, ".velocities"@, f32x3, 3, "N"@);
    lemma_put_opt_other(d5, s.crease_indices, ".creaseIndices"@, i32x1, 11, "uv"@);
    lemma_put_opt_other(d5, s.crease_indices, ".creaseIndices"@, i32x1, 11, "N"@);
    lemma_put_opt_other(d6, s.crease_lengths, ".creaseLengths"@, i32x1, 12, "uv"@);
    lemma_put_opt_other(d6, s.crease_lengths, ".creaseLengths"@, i32x1, 12, "N"@);
    lemma_put_opt_other(d7, s.crease_sharpnesses, ".creaseSharpnesses"@, f32x1, 13, "uv"@);
    lemma_put_opt_other(d7, s.crease_sharpnesses, ".creaseSharpnesses"@, f32x1, 13, "N"@);
    lemma_put_opt_other(d8, s.corner_indices, ".cornerIndices"@, i32x1, 14, "uv"@);
    lemma_put_opt_other(d8, s.corner_indices, ".cornerIndices"@, i32x1, 14, "N"@);
    lemma_put_opt_other(d9, s.corner_sharpnesses, ".cornerSharpnesses"@, f32x1, 15, "uv"@);
    lemma_put_opt_other(d9, s.corner_sharpnesses, ".cornerSharpnesses"@, f32x1, 15, "N"@);
    lemma_put_opt_other(d10, s.holes, ".holes"@, i32x1, 16, "uv"@);
    lemma_put_opt_other(d10, s.holes, ".holes"@, i32x1, 16, "N"@);
}

impl OSubD {
    /// The schema compound is a compound whose geometry parameters, where
    /// present, are compounds.
    pub closed spec fn wf(&self) -> bool {
        &&& self.geom_compound.data is Compound
        &&& params_ok(children_view(prop_view(self.geom_compound)))
    }

    /// Create new SubD.
    pub fn new(name: &str) -> (r: Self)
        ensures
            r.wf(),
            r@.object.name@ == name@,
            metadata_pairs(r@.object.meta_data) == schema_meta3(
                "AbcGeom_SubD_v2"@,
                "AbcGeom_GeomBase_v1"@,
                "AbcGeom_SubD_v2:.geom"@,
            ),
            r@.object.children@.len() == 0,
            r@.object.properties@.len() == 0,
            r@.geom == (PropView {
                meta: schema_meta2("AbcGeom_SubD_v2"@, "AbcGeom_GeomBase_v1"@),
                ..empty_compound_view(".geom"@)
            }),
            r@.time_sampling_index == 0,
    {
        let mut object = OObject::new(name);
        object.meta_data = object_meta("AbcGeom_SubD_v2", "AbcGeom_GeomBase_v1", "AbcGeom_SubD_v2:.geom");
        let mut geom = OProperty::compound(".geom");
        geom.meta_data = geom_meta("AbcGeom_SubD_v2", "AbcGeom_GeomBase_v1");
        let r = Self { object, geom_compound: geom, time_sampling_index: 0 };
        proof {
            lemma_children_view(r.geom_compound);
            assert(children_view(r@.geom) =~= Seq::<PropView>::empty());
        }
        r
    }

    /// Set time sampling index for animated properties.
    pub fn set_time_sampling(&mut self, index: u32)
        requires
            old(self).wf(),
        ensures
            final(self).wf(),
            final(self)@ == (GeomSchemaView { time_sampling_index: index, ..old(self)@ }),
    {
        self.time_sampling_index = index;
    }

    /// Add a sample.
    pub fn add_sample(&mut self, sample: &OSubDSample)
        requires
            old(self).wf(),
        ensures
            final(self).wf(),
            final(self)@ == (GeomSchemaView {
                geom: with_children(
                    old(self)@.geom,
                    subd_geom_after(children_view(old(self)@.geom), *sample, old(self)@.time_sampling_index),
                ),
                ..old(self)@
            }),
    {
        let ts = self.time_sampling_index;
        let ghost cs = children_view(prop_view(self.geom_compound));
        put_scalar(
            &mut self.geom_compound,
            ".selfBnds",
            DataType::new(PlainOldDataType::Float64, 6),
            bounds_meta(),
            ts,
            Some(4),
            sample.self_bounds.as_slice(),
        );
        let d = dims_of(sample.positions.len);
        put_array(
            &mut self.geom_compound,
            "P",
            DataType::new(PlainOldDataType::Float32, 3),
            p_meta(),
            ts,
            Some(0),
            sample.positions.bytes.as_slice(),
            d.as_slice(),
        );
        let d = dims_of(sample.face_indices.len);
        put_array(
            &mut self.geom_compound,
            ".faceIndices",
            DataType::new(PlainOldDataType::Int32, 1),
            MetaData::new(),
            0,
            Some(1),
            sample.face_indices.bytes.as_slice(),
            d.as_slice(),
        );
        let d = dims_of(sample.face_counts.len);
        put_array(
            &mut self.geom_compound,
            ".faceCounts",
            DataType::new(PlainOldDataType::Int32, 1),
            MetaData::new(),
            0,
            Some(2),
            sample.face_counts.bytes.as_slice(),
            d.as_slice(),
        );
        let scheme = encode_sample_for_pod(sample.subdivision_scheme.as_str().as_bytes(), PlainOldDataType::String);
        put_scalar(
            &mut self.geom_compound,
            ".scheme",
            DataType::new(PlainOldDataType::String, 1),
            MetaData::new(),
            0,
            Some(10),
            scheme.as_slice(),
        );
        put_opt(&mut self.geom_compound, &sample.velocities, ".velocities", DataType::new(PlainOldDataType::Float32, 3), 3);
        put_opt(&mut self.geom_compound, &sample.crease_indices, ".creaseIndices", DataType::new(PlainOldDataType::Int32, 1), 11);
        put_opt(&mut self.geom_compound, &sample.crease_lengths, ".creaseLengths", DataType::new(PlainOldDataType::Int32, 1), 12);
        put_opt(
            &mut self.geom_compound,
            &sample.crease_sharpnesses,
            ".creaseSharpnesses",
            DataType::new(PlainOldDataType::Float32, 1),
            13,
        );
        put_opt(&mut self.geom_compound, &sample.corner_indices, ".cornerIndices", DataType::new(PlainOldDataType::Int32, 1), 14);
        put_opt(
            &mut self.geom_compound,
            &sample.corner_sharpnesses,
            ".cornerSharpnesses",
            DataType::new(PlainOldDataType::Float32, 1),
            15,
        );
        put_opt(&mut self.geom_compound, &sample.holes, ".holes", DataType::new(PlainOldDataType::Int32, 1), 16);
        let ghost d11 = children_view(prop_view(self.geom_compound));
        proof {
            assert(d11 == subd_geom_base(cs, *sample, ts));
            lemma_base_keeps_params(cs, *sample, ts);
            reveal_strlit("uv");
            reveal_strlit("N");
            assert("uv"@[0] != "N"@[0]);
        }
        match &sample.uvs {
            Some(uvs) => {
                let d = dims_of(uvs.len);
                let idx_dims;
                let indices = match &sample.uv_indices {
                    Some(uvi) => {
                        idx_dims = dims_of(uvi.len);
                        Some((uvi.bytes.as_slice(), idx_dims.as_slice()))
                    },
                    None => None,
                };
                put_geom_param(
                    &mut self.geom_compound,
                    "uv",
                    "2",
                    DataType::new(PlainOldDataType::Float32, 2),
                    ts,
                    Some(5),
                    uvs.bytes.as_slice(),
                    d.as_slice(),
                    indices,
                    Some(6),
                );
                proof {
                    lemma_geom_param_self(d11, "uv"@, "2"@, dtype(PlainOldDataType::Float32, 2), ts, Some(5), uvs.bytes@, seq![uvs.len], opt_view(sample.uv_indices), Some(6));
                    lemma_geom_param_other(d11, "uv"@, "2"@, dtype(PlainOldDataType::Float32, 2), ts, Some(5), uvs.bytes@, seq![uvs.len], opt_view(sample.uv_indices), Some(6), "N"@);
                }
            },
            None => {},
        }
        let ghost d12 = children_view(prop_view(self.geom_compound));
        match &sample.normals {
            Some(normals) => {
                let d = dims_of(normals.len);
                let idx_dims;
                let indices = match &sample.normal_indices {
                    Some(ni) => {
                        idx_dims = dims_of(ni.len);
                        Some((ni.bytes.as_slice(), idx_dims.as_slice()))
                    },
                    None => None,
                };
                put_geom_param(
                    &mut self.geom_compound,
                    "N",
                    "3",
                    DataType::new(PlainOldDataType::Float32, 3),
                    ts,
                    Some(7),
                    normals.bytes.as_slice(),
                    d.as_slice(),
                    indices,
                    Some(8),
                );
                proof {
                    lemma_geom_param_self(d12, "N"@, "3"@, dtype(PlainOldDataType::Float32, 3), ts, Some(7), normals.bytes@, seq![normals.len], opt_view(sample.normal_indices), Some(8));
                    lemma_geom_param_other(d12, "N"@, "3"@, dtype(PlainOldDataType::Float32, 3), ts, Some(7), normals.bytes@, seq![normals.len], opt_view(sample.normal_indices), Some(8), "uv"@);
                }
            },
            None => {},
        }
    }

    /// Build the object: the schema compound follows the object's properties.
    pub fn build(self) -> (r: OObject)
        requires
            self.wf(),
        ensures
            r.name == self@.object.name,
            r.meta_data == self@.object.meta_data,
            r.children == self@.object.children,
            props_view(r.properties@) == props_view(self@.object.properties@).push(self@.geom),
    {
        let mut object = self.object;
        let ghost before = props_view(object.properties@);
        object.properties.push(self.geom_compound);
        assert(props_view(object.properties@) =~= before.push(self@.geom));
        object
    }

    /// Add child object.
    pub fn add_child(&mut self, child: OObject)
        requires
            old(self).wf(),
        ensures
            final(self).wf(),
            final(self)@ == (GeomSchemaView {
                object: OObject { children: final(self)@.object.children, ..old(self)@.object },
                ..old(self)@
            }),
            final(self)@.object.children@ == old(self)@.object.children@.push(child),
    {
        self.object.children.push(child);
    }
}

} // verus!
