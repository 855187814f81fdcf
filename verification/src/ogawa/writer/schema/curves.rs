//! Curves schema writer.

use vstd::prelude::*;
use crate::util::data_type::DataType;
use crate::util::metadata::{MetaData, metadata_pairs};
use crate::util::pod::PlainOldDataType;
use crate::ogawa::writer::object::OObject;
use crate::ogawa::writer::property::{OProperty, PropView, prop_view};
use crate::ogawa::writer::schema::util::{
    PodArray, GeomSchemaView, p_meta, bounds_meta, put_array, put_scalar, put_scalar_set, put_array_v,
    put_scalar_v, put_scalar_set_v, children_view, with_children, dims_of, lemma_children_view,
    empty_compound_view, schema_meta3, schema_meta2, props_view, object_meta, geom_meta, put_opt,
    put_opt_v,
};
use crate::ogawa::writer::schema::polymesh::dtype;

verus! {

/// The type of a curve.
#[derive(Clone, Copy, PartialEq, Eq, Structural, Debug)]
pub enum CurveType {
    Cubic,
    Linear,
    VariableOrder,
}

/// Whether a curve is closed.
#[derive(Clone, Copy, PartialEq, Eq, Structural, Debug)]
pub enum CurvePeriodicity {
    NonPeriodic,
    Periodic,
}

/// The basis of a cubic curve.
#[derive(Clone, Copy, PartialEq, Eq, Structural, Debug)]
pub enum BasisType {
    NoBasis,
    Bezier,
    Bspline,
    Catmullrom,
    Hermite,
    Power,
}

/// The stored code of a curve type.
pub open spec fn curve_type_code(t: CurveType) -> u8 {
    match t {
        CurveType::Cubic => 0,
        CurveType::Linear => 1,
        CurveType::VariableOrder => 2,
    }
}

/// The stored code of a periodicity.
pub open spec fn periodicity_code(p: CurvePeriodicity) -> u8 {
    match p {
        CurvePeriodicity::NonPeriodic => 0,
        CurvePeriodicity::Periodic => 1,
    }
}

/// The stored code of a basis.
pub open spec fn basis_code(b: BasisType) -> u8 {
    match b {
        BasisType::NoBasis => 0,
        BasisType::Bezier => 1,
        BasisType::Bspline => 2,
        BasisType::Catmullrom => 3,
        BasisType::Hermite => 4,
        BasisType::Power => 5,
    }
}

/// The stored curve codes are those of Alembic's enumerations: curve types
/// cubic 0, linear 1, variable order 2; periodicities non-periodic 0,
/// periodic 1; bases none 0, Bezier 1, B-spline 2, Catmull-Rom 3, Hermite 4,
/// power 5. Distinct values of each are stored as distinct codes.
pub proof fn lemma_curve_codes_follow_alembic(t: CurveType, u: CurveType, b: BasisType, c: BasisType)
    ensures
        curve_type_code(CurveType::Cubic) == 0,
        curve_type_code(CurveType::Linear) == 1,
        curve_type_code(CurveType::VariableOrder) == 2,
        periodicity_code(CurvePeriodicity::NonPeriodic) == 0,
        periodicity_code(CurvePeriodicity::Periodic) == 1,
        basis_code(BasisType::NoBasis) == 0,
        basis_code(BasisType::Bezier) == 1,
        basis_code(BasisType::Bspline) == 2,
        basis_code(BasisType::Catmullrom) == 3,
        basis_code(BasisType::Hermite) == 4,
        basis_code(BasisType::Power) == 5,
        curve_type_code(t) == curve_type_code(u) ==> t == u,
        basis_code(b) == basis_code(c) ==> b == c,
{
}

impl CurveType {
    /// The stored code of the curve type.
    pub fn to_u8(self) -> (r: u8)
        ensures
            r == curve_type_code(self),
            self == CurveType::Cubic ==> r == 0,
            self == CurveType::Linear ==> r == 1,
            self == CurveType::VariableOrder ==> r == 2,
    {
        match self {
            CurveType::Cubic => 0,
            CurveType::Linear => 1,
            CurveType::VariableOrder => 2,
        }
    }
}

impl CurvePeriodicity {
    /// The stored code of the periodicity.
    pub fn to_u8(self) -> (r: u8)
        ensures
            r == periodicity_code(self),
            self == CurvePeriodicity::NonPeriodic ==> r == 0,
            self == CurvePeriodicity::Periodic ==> r == 1,
    {
        match self {
            CurvePeriodicity::NonPeriodic => 0,
            CurvePeriodicity::Periodic => 1,
        }
    }
}

impl BasisType {
    /// The stored code of the basis.
    pub fn to_u8(self) -> (r: u8)
        ensures
            r == basis_code(self),
            self == BasisType::NoBasis ==> r == 0,
            self == BasisType::Bezier ==> r == 1,
            self == BasisType::Bspline ==> r == 2,
            self == BasisType::Catmullrom ==> r == 3,
            self == BasisType::Hermite ==> r == 4,
            self == BasisType::Power ==> r == 5,
    {
        match self {
            BasisType::NoBasis => 0,
            BasisType::Bezier => 1,
            BasisType::Bspline => 2,
            BasisType::Catmullrom => 3,
            BasisType::Hermite => 4,
            BasisType::Power => 5,
        }
    }
}

/// Curves sample data: positions and vertex counts, the curve kind, the
/// self bounds as six stored doubles, and optional arrays, each as stored
/// bytes with its element count.
pub struct OCurvesSample {
    pub positions: PodArray,
    pub num_vertices: PodArray,
    pub curve_type: CurveType,
    pub wrap: CurvePeriodicity,
    pub basis: BasisType,
    pub self_bounds: Vec<u8>,
    pub velocities: Option<PodArray>,
    pub widths: Option<PodArray>,
    pub normals: Option<PodArray>,
    pub uvs: Option<PodArray>,
    pub knots: Option<PodArray>,
    pub orders: Option<PodArray>,
}

impl OCurvesSample {
    /// Create a linear, non-periodic sample without a basis or optional data.
    pub fn new(positions: PodArray, num_vertices: PodArray, self_bounds: Vec<u8>) -> (r: Self)
        ensures
            r == (OCurvesSample {
                positions,
                num_vertices,
                curve_type: CurveType::Linear,
                wrap: CurvePeriodicity::NonPeriodic,
                basis: BasisType::NoBasis,
                self_bounds,
                velocities: None,
                widths: None,
                normals: None,
                uvs: None,
                knots: None,
                orders: None,
            }),
    {
        Self {
            positions,
            num_vertices,
            curve_type: CurveType::Linear,
            wrap: CurvePeriodicity::NonPeriodic,
            basis: BasisType::NoBasis,
            self_bounds,
            velocities: None,
            widths: None,
            normals: None,
            uvs: None,
            knots: None,
            orders: None,
        }
    }

    /// Set curve type.
    pub fn with_curve_type(self, ct: CurveType) -> (r: Self)
        ensures
            r == (OCurvesSample { curve_type: ct, ..self }),
    {
        let mut s = self;
        s.curve_type = ct;
        s
    }

    /// Set periodicity.
    pub fn with_wrap(self, wrap: CurvePeriodicity) -> (r: Self)
        ensures
            r == (OCurvesSample { wrap, ..self }),
    {
        let mut s = self;
        s.wrap = wrap;
        s
    }

    /// Set basis type.
    pub fn with_basis(self, basis: BasisType) -> (r: Self)
        ensures
            r == (OCurvesSample { basis, ..self }),
    {
        let mut s = self;
        s.basis = basis;
        s
    }
}

/// Curves schema writer.
pub struct OCurves {
    object: OObject,
    geom_compound: OProperty,
    time_sampling_index: u32,
}

impl View for OCurves {
    type V = GeomSchemaView;

    closed spec fn view(&self) -> GeomSchemaView {
        GeomSchemaView {
            object: self.object,
            geom: prop_view(self.geom_compound),
            time_sampling_index: self.time_sampling_index,
        }
    }
}

/// The four bytes of the basis-and-type property: type, wrap, and the basis
/// twice.
pub open spec fn basis_and_type(s: OCurvesSample) -> Seq<u8> {
    seq![curve_type_code(s.curve_type), periodicity_code(s.wrap), basis_code(s.basis), basis_code(s.basis)]
}

/// The geom children after recording a curves sample: .selfBnds (its
/// metadata, time sampling and write order set), P, nVertices,
/// curveBasisAndType, then the optional arrays, each with its write order.
pub open spec fn curves_geom_after(cs: Seq<PropView>, s: OCurvesSample, ts: u32) -> Seq<PropView> {
    let none = Seq::<(Seq<char>, Seq<char>)>::empty();
    let pm = seq![("geoScope"@, "vtx"@), ("interpretation"@, "point"@)];
    let f32x3 = dtype(PlainOldDataType::Float32, 3);
    let d0 = put_scalar_set_v(
        cs,
        ".selfBnds"@,
        dtype(PlainOldDataType::Float64, 6),
        seq![("interpretation"@, "box"@)],
        ts,
        6,
        s.self_bounds@,
    );
    let d1 = put_array_v(d0, "P"@, f32x3, pm, ts, Some(0), s.positions.bytes@, seq![s.positions.len]);
    let d2 = put_array_v(
        d1,
        "nVertices"@,
        dtype(PlainOldDataType::Int32, 1),
        none,
        0,
        Some(1),
        s.num_vertices.bytes@,
        seq![s.num_vertices.len],
    );
    let d3 = put_scalar_v(d2, "curveBasisAndType"@, dtype(PlainOldDataType::Uint8, 4), none, 0, Some(2), basis_and_type(s));
    let d4 = put_opt_v(d3, s.velocities, ".velocities"@, f32x3, 5);
    let d5 = put_opt_v(d4, s.widths, "width"@, dtype(PlainOldDataType::Float32, 1), 9);
    let d6 = put_opt_v(d5, s.normals, "N"@, f32x3, 8);
    let d7 = put_opt_v(d6, s.uvs, "uv"@, dtype(PlainOldDataType::Float32, 2), 7);
    let d8 = put_opt_v(d7, s.knots, ".knots"@, dtype(PlainOldDataType::Float32, 1), 11);
    put_opt_v(d8, s.orders, ".orders"@, dtype(PlainOldDataType::Int32, 1), 10)
}

impl OCurves {
    /// The schema compound is a compound.
    pub closed spec fn wf(&self) -> bool {
        self.geom_compound.data is Compound
    }

    /// Create new Curves.
    pub fn new(name: &str) -> (r: Self)
        ensures
            r.wf(),
            r@.object.name@ == name@,
            metadata_pairs(r@.object.meta_data) == schema_meta3(
                "AbcGeom_Curve_v2"@,
                "AbcGeom_GeomBase_v1"@,
                "AbcGeom_Curve_v2:.geom"@,
            ),
            r@.object.children@.len() == 0,
            r@.object.properties@.len() == 0,
            r@.geom == (PropView {
                meta: schema_meta2("AbcGeom_Curve_v2"@, "AbcGeom_GeomBase_v1"@),
                ..empty_compound_view(".geom"@)
            }),
            r@.time_sampling_index == 0,
    {
        let mut object = OObject::new(name);
        object.meta_data = object_meta("AbcGeom_Curve_v2", "AbcGeom_GeomBase_v1", "AbcGeom_Curve_v2:.geom");
        let mut geom = OProperty::compound(".geom");
        geom.meta_data = geom_meta("AbcGeom_Curve_v2", "AbcGeom_GeomBase_v1");
        let r = Self { object, geom_compound: geom, time_sampling_index: 0 };
        proof {
            lemma_children_view(r.geom_compound);
            assert(children_view(r@.geom) =~= Seq::<PropView>::empty());
        }
        r
    }

    /// Set time sampling index for animated properties.
    pub fn set_time_sampling(&mut self, index: u32)
        requires
            old(self).wf(),
        ensures
            final(self).wf(),
            final(self)@ == (GeomSchemaView { time_sampling_index: index, ..old(self)@ }),
    {
        self.time_sampling_index = index;
    }

    /// Add a sample.
    pub fn add_sample(&mut self, sample: &OCurvesSample)
        requires
            old(self).wf(),
        ensures
            final(self).wf(),
            final(self)@ == (GeomSchemaView {
                geom: with_children(
                    old(self)@.geom,
                    curves_geom_after(children_view(old(self)@.geom), *sample, old(self)@.time_sampling_index),
                ),
                ..old(self)@
            }),
    {
        let ts = self.time_sampling_index;
        put_scalar_set(
            &mut self.geom_compound,
            ".selfBnds",
            DataType::new(PlainOldDataType::Float64, 6),
            bounds_meta(),
            ts,
            6,
            sample.self_bounds.as_slice(),
        );
        let d = dims_of(sample.positions.len);
        put_array(
            &mut self.geom_compound,
            "P",
            DataType::new(PlainOldDataType::Float32, 3),
            p_meta(),
            ts,
            Some(0),
            sample.positions.bytes.as_slice(),
            d.as_slice(),
        );
        let d = dims_of(sample.num_vertices.len);
        put_array(
            &mut self.geom_compound,
            "nVertices",
            DataType::new(PlainOldDataType::Int32, 1),
            MetaData::new(),
            0,
            Some(1),
            sample.num_vertices.bytes.as_slice(),
            d.as_slice(),
        );
        let basis_u8 = sample.basis.to_u8();
        let mut bt: Vec<u8> = Vec::new();
        bt.push(sample.curve_type.to_u8());
        bt.push(sample.wrap.to_u8());
        bt.push(basis_u8);
        bt.push(basis_u8);
        assert(bt@ =~= basis_and_type(*sample));
        put_scalar(
            &mut self.geom_compound,
            "curveBasisAndType",
            DataType::new(PlainOldDataType::Uint8, 4),
            MetaData::new(),
            0,
            Some(2),
            bt.as_slice(),
        );
        put_opt(&mut self.geom_compound, &sample.velocities, ".velocities", DataType::new(PlainOldDataType::Float32, 3), 5);
        put_opt(&mut self.geom_compound, &sample.widths, "width", DataType::new(PlainOldDataType::Float32, 1), 9);
        put_opt(&mut self.geom_compound, &sample.normals, "N", DataType::new(PlainOldDataType::Float32, 3), 8);
        put_opt(&mut self.geom_compound, &sample.uvs, "uv", DataType::new(PlainOldDataType::Float32, 2), 7);
        put_opt(&mut self.geom_compound, &sample.knots, ".knots", DataType::new(PlainOldDataType::Float32, 1), 11);
        put_opt(&mut self.geom_compound, &sample.orders, ".orders", DataType::new(PlainOldDataType::Int32, 1), 10);
    }

    /// Build the object: the schema compound follows the object's properties.
    pub fn build(self) -> (r: OObject)
        requires
            self.wf(),
        ensures
            r.name == self@.object.name,
            r.meta_data == self@.object.meta_data,
            r.children == self@.object.children,
            props_view(r.properties@) == props_view(self@.object.properties@).push(self@.geom),
    {
        let mut object = self.object;
        let ghost before = props_view(object.properties@);
        object.properties.push(self.geom_compound);
        assert(props_view(object.properties@) =~= before.push(self@.geom));
        object
    }

    /// Add child object.
    pub fn add_child(&mut self, child: OObject)
        requires
            old(self).wf(),
        ensures
            final(self).wf(),
            final(self)@ == (GeomSchemaView {
                object: OObject { children: final(self)@.object.children, ..old(self)@.object },
                ..old(self)@
            }),
            final(self)@.object.children@ == old(self)@.object.children@.push(child),
    {
        self.object.children.push(child);
    }
}

} // verus!
