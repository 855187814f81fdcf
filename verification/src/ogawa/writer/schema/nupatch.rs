//! NuPatch schema writer.

use vstd::prelude::*;
use crate::util::data_type::DataType;
use crate::util::metadata::{MetaData, metadata_pairs};
use crate::util::pod::PlainOldDataType;
use crate::ogawa::writer::object::OObject;
use crate::ogawa::writer::property::{OProperty, PropView, prop_view};
use crate::ogawa::writer::schema::util::{
    PodArray, GeomSchemaView, p_meta, bounds_meta, put_array, put_scalar, put_opt, put_geom_param,
    put_array_v, put_scalar_v, put_opt_v, geom_param_v, children_view, with_children, dims_of,
    lemma_children_view, empty_compound_view, schema_meta3, schema_meta2, props_view, object_meta,
    geom_meta, compound_if_present, lemma_put_array_other, lemma_put_scalar_other, lemma_put_opt_other,
    lemma_geom_param_other, lemma_geom_param_self, i32_le, i32_le_bytes,
};
use crate::ogawa::writer::schema::polymesh::dtype;
use crate::ogawa::writer::schema::subd::params_ok;

verus! {

/// NuPatch sample data: control points, the patch dimensions, orders and
/// knots, the self bounds as six stored doubles, and optional arrays, each
/// array as stored bytes with its element count.
pub struct ONuPatchSample {
    pub positions: PodArray,
    pub num_u: i32,
    pub num_v: i32,
    pub u_order: i32,
    pub v_order: i32,
    pub u_knot: PodArray,
    pub v_knot: PodArray,
    pub self_bounds: Vec<u8>,
    pub position_weights: Option<PodArray>,
    pub velocities: Option<PodArray>,
    pub uvs: Option<PodArray>,
    pub normals: Option<PodArray>,
}

impl ONuPatchSample {
    /// Create new NuPatch sample without optional data.
    pub fn new(
        positions: PodArray,
        num_u: i32,
        num_v: i32,
        u_order: i32,
        v_order: i32,
        u_knot: PodArray,
        v_knot: PodArray,
        self_bounds: Vec<u8>,
    ) -> (r: Self)
        ensures
            r == (ONuPatchSample {
                positions,
                num_u,
                num_v,
                u_order,
                v_order,
                u_knot,
                v_knot,
                self_bounds,
                position_weights: None,
                velocities: None,
                uvs: None,
                normals: None,
            }),
    {
        Self {
            positions,
            num_u,
            num_v,
            u_order,
            v_order,
            u_knot,
            v_knot,
            self_bounds,
            position_weights: None,
            velocities: None,
            uvs: None,
            normals: None,
        }
    }
}

/// NuPatch schema writer.
pub struct ONuPatch {
    object: OObject,
    geom_compound: OProperty,
    time_sampling_index: u32,
}

impl View for ONuPatch {
    type V = GeomSchemaView;

    closed spec fn view(&self) -> GeomSchemaView {
        GeomSchemaView {
            object: self.object,
            geom: prop_view(self.geom_compound),
            time_sampling_index: self.time_sampling_index,
        }
    }
}

/// The geom children of a NuPatch before its geometry parameters: .selfBnds,
/// P, nu, nv, uOrder, vOrder, uKnot, vKnot, and the weights and velocities
/// when present, each with its write order.
pub open spec fn nupatch_geom_base(cs: Seq<PropView>, s: ONuPatchSample, ts: u32) -> Seq<PropView> {
    let none = Seq::<(Seq<char>, Seq<char>)>::empty();
    let pm = seq![("geoScope"@, "vtx"@), ("interpretation"@, "point"@)];
    let i32x1 = dtype(PlainOldDataType::Int32, 1);
    let f32x1 = dtype(PlainOldDataType::Float32, 1);
    let d0 = put_scalar_v(cs, ".selfBnds"@, dtype(PlainOldDataType::Float64, 6), seq![("interpretation"@, "box"@)], ts, Some(12), s.self_bounds@);
    let d1 = put_array_v(d0, "P"@, dtype(PlainOldDataType::Float32, 3), pm, ts, Some(0), s.positions.bytes@, seq![s.positions.len]);
    let d2 = put_scalar_v(d1, "nu"@, i32x1, none, 0, Some(1), i32_le(s.num_u));
    let d3 = put_scalar_v(d2, "nv"@, i32x1, none, 0, Some(2), i32_le(s.num_v));
    let d4 = put_scalar_v(d3, "uOrder"@, i32x1, none, 0, Some(3), i32_le(s.u_order));
    let d5 = put_scalar_v(d4, "vOrder"@, i32x1, none, 0, Some(4), i32_le(s.v_order));
    let d6 = put_array_v(d5, "uKnot"@, f32x1, none, 0, Some(5), s.u_knot.bytes@, seq![s.u_knot.len]);
    let d7 = put_array_v(d6, "vKnot"@, f32x1, none, 0, Some(6), s.v_knot.bytes@, seq![s.v_knot.len]);
    let d8 = put_opt_v(d7, s.position_weights, "w"@, f32x1, 8);
    put_opt_v(d8, s.velocities, ".velocities"@, dtype(PlainOldDataType::Float32, 3), 9)
}

/// The geom children after recording a NuPatch sample: the base properties,
/// then the `uv` and `N` geometry parameters when present.
pub open spec fn nupatch_geom_after(cs: Seq<PropView>, s: ONuPatchSample, ts: u32) -> Seq<PropView> {
    let d9 = nupatch_geom_base(cs, s, ts);
    let d10 = match s.uvs {
        Some(uv) => geom_param_v(d9, "uv"@, "2"@, dtype(PlainOldDataType::Float32, 2), ts, Some(10), uv.bytes@, seq![uv.len], None, None),
        None => d9,
    };
    match s.normals {
        Some(n) => geom_param_v(d10, "N"@, "3"@, dtype(PlainOldDataType::Float32, 3), ts, Some(11), n.bytes@, seq![n.len], None, None),
        None => d10,
    }
}

proof fn lemma_base_keeps_params(cs: Seq<PropView>, s: ONuPatchSample, ts: u32)
    ensures
        params_ok(nupatch_geom_base(cs, s, ts)) == params_ok(cs),
{
    reveal_strlit("uv");
    reveal_strlit("N");
    reveal_strlit(".selfBnds");
    reveal_strlit("P");
    reveal_strlit("nu");
    reveal_strlit("nv");
    reveal_strlit("uOrder");
    reveal_strlit("vOrder");
    reveal_strlit("uKnot");
    reveal_strlit("vKnot");
    reveal_strlit("w");
    reveal_strlit(".velocities");
    let none = Seq::<(Seq<char>, Seq<char>)>::empty();
    let pm = seq![("geoScope"@, "vtx"@), ("interpretation"@, "point"@)];
    let i32x1 = dtype(PlainOldDataType::Int32, 1);
    let f32x1 = dtype(PlainOldDataType::Float32, 1);
    let bm = seq![("interpretation"@, "box"@)];
    let f64x6 = dtype(PlainOldDataType::Float64, 6);
    let f32x3 = dtype(PlainOldDataType::Float32, 3);
    let d0 = put_scalar_v(cs, ".selfBnds"@, f64x6, bm, ts, Some(12), s.self_bounds@);
    let d1 = put_array_v(d0, "P"@, f32x3, pm, ts, Some(0), s.positions.bytes@, seq![s.positions.len]);
    let d2 = put_scalar_v(d1, "nu"@, i32x1, none, 0, Some(1), i32_le(s.num_u));
    let d3 = put_scalar_v(d2, "nv"@, i32x1, none, 0, Some(2), i32_le(s.num_v));
    let d4 = put_scalar_v(d3, "uOrder"@, i32x1, none, 0, Some(3), i32_le(s.u_order));
    let d5 = put_scalar_v(d4, "vOrder"@, i32x1, none, 0, Some(4), i32_le(s.v_order));
    let d6 = put_array_v(d5, "uKnot"@, f32x1, none, 0, Some(5), s.u_knot.bytes@, seq![s.u_knot.len]);
    let d7 = put_array_v(d6, "vKnot"@, f32x1, none, 0, Some(6), s.v_knot.bytes@, seq![s.v_knot.len]);
    let d8 = put_opt_v(d7, s.position_weights, "w"@, f32x1, 8);
    assert("uv"@.len() == 2 && "N"@.len() == 1 && "uv"@[1] == 'v' && "N"@[0] == 'N');
    assert("nu"@[1] == 'u' && "nv"@[0] == 'n' && "w"@[0] == 'w' && "P"@[0] == 'P');
    lemma_put_scalar_other(cs, ".selfBnds"@, f64x6, bm, ts, Some(12), s.self_bounds@, "uv"@);
    lemma_put_scalar_other(cs, ".selfBnds"@, f64x6, bm, ts, Some(12), s.self_bounds@, "N"@);
    lemma_put_array_other(d0, "P"@, f32x3, pm, ts, Some(0), s.positions.bytes@, seq![s.positions.len], "uv"@);
    lemma_put_array_other(d0, "P"@, f32x3, pm, ts, Some(0), s.positions.bytes@, seq![s.positions.len], "N"@);
    lemma_put_scalar_other(d1, "nu"@, i32x1, none, 0, Some(1), i32_le(s.num_u), "uv"@);
    lemma_put_scalar_other(d1, "nu"@, i32x1, none, 0, Some(1), i32_le(s.num_u), "N"@);
    lemma_put_scalar_other(d2, "nv"@, i32x1, none, 0, Some(2), i32_le(s.num_v), "uv"@);
    lemma_put_scalar_other(d2, "nv"@, i32x1, none, 0, Some(2), i32_le(s.num_v), "N"@);
    lemma_put_scalar_other(d3, "uOrder"@, i32x1, none, 0, Some(3), i32_le(s.u_order), "uv"@);
    lemma_put_scalar_other(d3, "uOrder"@, i32x1, none, 0, Some(3), i32_le(s.u_order), "N"@);
    lemma_put_scalar_other(d4, "vOrder"@, i32x1, none, 0, Some(4), i32_le(s.v_order), "uv"@);
    lemma_put_scalar_other(d4, "vOrder"@, i32x1, none, 0, Some(4), i32_le(s.v_order), "N"@);
    lemma_put_array_other(d5, "uKnot"@, f32x1, none, 0, Some(5), s.u_knot.bytes@, seq![s.u_knot.len], "uv"@);
    lemma_put_array_other(d5, "uKnot"@, f32x1, none, 0, Some(5), s.u_knot.bytes@, seq![s.u_knot.len], "N"@);
    lemma_put_array_other(d6, "vKnot"@, f32x1, none, 0, Some(6), s.v_knot.bytes@, seq![s.v_knot.len], "uv"@);
    lemma_put_array_other(d6, "vKnot"@, f32x1, none, 0, Some(6), s.v_knot.bytes@, seq![s.v_knot.len], "N"@);
    lemma_put_opt_other(d7, s.position_weights, "w"@, f32x1, 8, "uv"@);
    lemma_put_opt_other(d7, s.position_weights, "w"@, f32x1, 8, "N"@);
    lemma_put_opt_other(d8, s.velocities, ".velocities"@, f32x3, 9, "uv"@);
    lemma_put_opt_other(d8, s.velocities, ".velocities"@, f32x3, 9, "N"@);
}

impl ONuPatch {
    /// The schema compound is a compound whose geometry parameters, where
    /// present, are compounds.
    pub closed spec fn wf(&self) -> bool {
        &&& self.geom_compound.data is Compound
        &&& params_ok(children_view(prop_view(self.geom_compound)))
    }

    /// Create new NuPatch.
    pub fn new(name: &str) -> (r: Self)
        ensures
            r.wf(),
            r@.object.name@ == name@,
            metadata_pairs(r@.object.meta_data) == schema_meta3(
                "AbcGeom_NuPatch_v2"@,
                "AbcGeom_GeomBase_v1"@,
                "AbcGeom_NuPatch_v2:.geom"@,
            ),
            r@.object.children@.len() == 0,
            r@.object.properties@.len() == 0,
            r@.geom == (PropView {
                meta: schema_meta2("AbcGeom_NuPatch_v2"@, "AbcGeom_GeomBase_v1"@),
                ..empty_compound_view(".geom"@)
            }),
            r@.time_sampling_index == 0,
    {
        let mut object = OObject::new(name);
        object.meta_data = object_meta("AbcGeom_NuPatch_v2", "AbcGeom_GeomBase_v1", "AbcGeom_NuPatch_v2:.geom");
        let mut geom = OProperty::compound(".geom");
        geom.meta_data = geom_meta("AbcGeom_NuPatch_v2", "AbcGeom_GeomBase_v1");
        let r = Self { object, geom_compound: geom, time_sampling_index: 0 };
        proof {
            lemma_children_view(r.geom_compound);
            assert(children_view(r@.geom) =~= Seq::<PropView>::empty());
        }
        r
    }

    /// Set time sampling index for animated properties.
    pub fn set_time_sampling(&mut self, index: u32)
        requires
            old(self).wf(),
        ensures
            final(self).wf(),
            final(self)@ == (GeomSchemaView { time_sampling_index: index, ..old(self)@ }),
    {
        self.time_sampling_index = index;
    }

    /// Add a sample.
    pub fn add_sample(&mut self, sample: &ONuPatchSample)
        requires
            old(self).wf(),
        ensures
            final(self).wf(),
            final(self)@ == (GeomSchemaView {
                geom: with_children(
                    old(self)@.geom,
                    nupatch_geom_after(children_view(old(self)@.geom), *sample, old(self)@.time_sampling_index),
                ),
                ..old(self)@
            }),
    {
        let ts = self.time_sampling_index;
        let ghost cs = children_view(prop_view(self.geom_compound));
        put_scalar(
            &mut self.geom_compound,
            ".selfBnds",
            DataType::new(PlainOldDataType::Float64, 6),
            bounds_meta(),
            ts,
            Some(12),
            sample.self_bounds.as_slice(),
        );
        let d = dims_of(sample.positions.len);
        put_array(
            &mut self.geom_compound,
            "P",
            DataType::new(PlainOldDataType::Float32, 3),
            p_meta(),
            ts,
            Some(0),
            sample.positions.bytes.as_slice(),
            d.as_slice(),
        );
        let b = i32_le_bytes(sample.num_u);
        put_scalar(&mut self.geom_compound, "nu", DataType::new(PlainOldDataType::Int32, 1), MetaData::new(), 0, Some(1), b.as_slice());
        let b = i32_le_bytes(sample.num_v);
        put_scalar(&mut self.geom_compound, "nv", DataType::new(PlainOldDataType::Int32, 1), MetaData::new(), 0, Some(2), b.as_slice());
        let b = i32_le_bytes(sample.u_order);
        put_scalar(&mut self.geom_compound, "uOrder", DataType::new(PlainOldDataType::Int32, 1), MetaData::new(), 0, Some(3), b.as_slice());
        let b = i32_le_bytes(sample.v_order);
        put_scalar(&mut self.geom_compound, "vOrder", DataType::new(PlainOldDataType::Int32, 1), MetaData::new(), 0, Some(4), b.as_slice());
        let d = dims_of(sample.u_knot.len);
        put_array(
            &mut self.geom_compound,
            "uKnot",
            DataType::new(PlainOldDataType::Float32, 1),
            MetaData::new(),
            0,
            Some(5),
            sample.u_knot.bytes.as_slice(),
            d.as_slice(),
        );
        let d = dims_of(sample.v_knot.len);
        put_array(
            &mut self.geom_compound,
            "vKnot",
            DataType::new(PlainOldDataType::Float32, 1),
            MetaData::new(),
            0,
            Some(6),
            sample.v_knot.bytes.as_slice(),
            d.as_slice(),
        );
        put_opt(&mut self.geom_compound, &sample.position_weights, "w", DataType::new(PlainOldDataType::Float32, 1), 8);
        put_opt(&mut self.geom_compound, &sample.velocities, ".velocities", DataType::new(PlainOldDataType::Float32, 3), 9);
        let ghost d9 = children_view(prop_view(self.geom_compound));
        proof {
            assert(d9 == nupatch_geom_base(cs, *sample, ts));
            lemma_base_keeps_params(cs, *sample, ts);
            reveal_strlit("uv");
            reveal_strlit("N");
            assert("uv"@[0] != "N"@[0]);
        }
        match &sample.uvs {
            Some(uvs) => {
                let d = dims_of(uvs.len);
                put_geom_param(
                    &mut self.geom_compound,
                    "uv",
                    "2",
                    DataType::new(PlainOldDataType::Float32, 2),
                    ts,
                    Some(10),
                    uvs.bytes.as_slice(),
                    d.as_slice(),
                    None,
                    None,
                );
                proof {
                    lemma_geom_param_self(d9, "uv"@, "2"@, dtype(PlainOldDataType::Float32, 2), ts, Some(10), uvs.bytes@, seq![uvs.len], None, None);
                    lemma_geom_param_other(d9, "uv"@, "2"@, dtype(PlainOldDataType::Float32, 2), ts, Some(10), uvs.bytes@, seq![uvs.len], None, None, "N"@);
                }
            },
            None => {},
        }
        let ghost d10 = children_view(prop_view(self.geom_compound));
        match &sample.normals {
            Some(normals) => {
                let d = dims_of(normals.len);
                put_geom_param(
                    &mut self.geom_compound,
                    "N",
                    "3",
                    DataType::new(PlainOldDataType::Float32, 3),
                    ts,
                    Some(11),
                    normals.bytes.as_slice(),
                    d.as_slice(),
                    None,
                    None,
                );
                proof {
                    lemma_geom_param_self(d10, "N"@, "3"@, dtype(PlainOldDataType::Float32, 3), ts, Some(11), normals.bytes@, seq![normals.len], None, None);
                    lemma_geom_param_other(d10, "N"@, "3"@, dtype(PlainOldDataType::Float32, 3), ts, Some(11), normals.bytes@, seq![normals.len], None, None, "uv"@);
                }
            },
            None => {},
        }
    }

    /// Build the object: the schema compound follows the object's properties.
    pub fn build(self) -> (r: OObject)
        requires
            self.wf(),
        ensures
            r.name == self@.object.name,
            r.meta_data == self@.object.meta_data,
            r.children == self@.object.children,
            props_view(r.properties@) == props_view(self@.object.properties@).push(self@.geom),
    {
        let mut object = self.object;
        let ghost before = props_view(object.properties@);
        object.properties.push(self.geom_compound);
        assert(props_view(object.properties@) =~= before.push(self@.geom));
        object
    }

    /// Add child object.
    pub fn add_child(&mut self, child: OObject)
        requires
            old(self).wf(),
        ensures
            final(self).wf(),
            final(self)@ == (GeomSchemaView {
                object: OObject { children: final(self)@.object.children, ..old(self)@.object },
                ..old(self)@
            }),
            final(self)@.object.children@ == old(self)@.object.children@.push(child),
    {
        self.object.children.push(child);
    }
}

} // verus!
