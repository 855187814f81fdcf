//! Points schema writer.

use vstd::prelude::*;
use crate::util::data_type::DataType;
use crate::util::metadata::{MetaData, metadata_pairs};
use crate::util::pod::PlainOldDataType;
use crate::ogawa::writer::object::OObject;
use crate::ogawa::writer::property::{OProperty, PropView, prop_view};
use crate::ogawa::writer::schema::util::{
    PodArray, GeomSchemaView, p_meta, put_array, put_array_v, children_view, with_children,
    dims_of, lemma_children_view, empty_compound_view, schema_meta3, schema_meta2, props_view,
    object_meta, geom_meta,
};
use crate::ogawa::writer::schema::polymesh::dtype;

verus! {

/// Points sample data: positions, ids and optional velocities and widths,
/// each as stored bytes with its element count.
pub struct OPointsSample {
    pub positions: PodArray,
    pub ids: PodArray,
    pub velocities: Option<PodArray>,
    pub widths: Option<PodArray>,
}

impl OPointsSample {
    /// Create a points sample without velocities or widths.
    pub fn new(positions: PodArray, ids: PodArray) -> (r: Self)
        ensures
            r == (OPointsSample { positions, ids, velocities: None, widths: None }),
    {
        Self { positions, ids, velocities: None, widths: None }
    }
}

/// Points schema writer.
pub struct OPoints {
    object: OObject,
    geom_compound: OProperty,
    time_sampling_index: u32,
}

impl View for OPoints {
    type V = GeomSchemaView;

    closed spec fn view(&self) -> GeomSchemaView {
        GeomSchemaView {
            object: self.object,
            geom: prop_view(self.geom_compound),
            time_sampling_index: self.time_sampling_index,
        }
    }
}

/// The geom children after recording a points sample: P (created with the
/// position metadata and the time sampling), id, and the velocities and
/// widths when present.
pub open spec fn points_geom_after(cs: Seq<PropView>, s: OPointsSample, ts: u32) -> Seq<PropView> {
    let none = Seq::<(Seq<char>, Seq<char>)>::empty();
    let pm = seq![("geoScope"@, "vtx"@), ("interpretation"@, "point"@)];
    let d1 = put_array_v(cs, "P"@, dtype(PlainOldDataType::Float32, 3), pm, ts, None, s.positions.bytes@, seq![s.positions.len]);
    let d2 = put_array_v(d1, "id"@, dtype(PlainOldDataType::Int64, 1), none, 0, None, s.ids.bytes@, seq![s.ids.len]);
    let d3 = match s.velocities {
        Some(v) => put_array_v(d2, ".velocities"@, dtype(PlainOldDataType::Float32, 3), none, 0, None, v.bytes@, seq![v.len]),
        None => d2,
    };
    match s.widths {
        Some(w) => put_array_v(d3, ".widths"@, dtype(PlainOldDataType::Float32, 1), none, 0, None, w.bytes@, seq![w.len]),
        None => d3,
    }
}

impl OPoints {
    /// The schema compound is a compound.
    pub closed spec fn wf(&self) -> bool {
        self.geom_compound.data is Compound
    }

    /// Create new Points.
    pub fn new(name: &str) -> (r: Self)
        ensures
            r.wf(),
            r@.object.name@ == name@,
            metadata_pairs(r@.object.meta_data) == schema_meta3(
                "AbcGeom_Points_v1"@,
                "AbcGeom_GeomBase_v1"@,
                "AbcGeom_Points_v1:.geom"@,
            ),
            r@.object.children@.len() == 0,
            r@.object.properties@.len() == 0,
            r@.geom == (PropView {
                meta: schema_meta2("AbcGeom_Points_v1"@, "AbcGeom_GeomBase_v1"@),
                ..empty_compound_view(".geom"@)
            }),
            r@.time_sampling_index == 0,
    {
        let mut object = OObject::new(name);
        object.meta_data = object_meta("AbcGeom_Points_v1", "AbcGeom_GeomBase_v1", "AbcGeom_Points_v1:.geom");
        let mut geom = OProperty::compound(".geom");
        geom.meta_data = geom_meta("AbcGeom_Points_v1", "AbcGeom_GeomBase_v1");
        let r = Self { object, geom_compound: geom, time_sampling_index: 0 };
        proof {
            lemma_children_view(r.geom_compound);
            assert(children_view(r@.geom) =~= Seq::<PropView>::empty());
        }
        r
    }

    /// Set time sampling index for animated properties.
    pub fn set_time_sampling(&mut self, index: u32)
        requires
            old(self).wf(),
        ensures
            final(self).wf(),
            final(self)@ == (GeomSchemaView { time_sampling_index: index, ..old(self)@ }),
    {
        self.time_sampling_index = index;
    }

    /// Add a sample.
    pub fn add_sample(&mut self, sample: &OPointsSample)
        requires
            old(self).wf(),
        ensures
            final(self).wf(),
            final(self)@ == (GeomSchemaView {
                geom: with_children(
                    old(self)@.geom,
                    points_geom_after(children_view(old(self)@.geom), *sample, old(self)@.time_sampling_index),
                ),
                ..old(self)@
            }),
    {
        let ts = self.time_sampling_index;
        let d = dims_of(sample.positions.len);
        put_array(
            &mut self.geom_compound,
            "P",
            DataType::new(PlainOldDataType::Float32, 3),
            p_meta(),
            ts,
            None,
            sample.positions.bytes.as_slice(),
            d.as_slice(),
        );
        let d = dims_of(sample.ids.len);
        put_array(
            &mut self.geom_compound,
            "id",
            DataType::new(PlainOldDataType::Int64, 1),
            MetaData::new(),
            0,
            None,
            sample.ids.bytes.as_slice(),
            d.as_slice(),
        );
        match &sample.velocities {
            Some(vels) => {
                let d = dims_of(vels.len);
                put_array(
                    &mut self.geom_compound,
                    ".velocities",
                    DataType::new(PlainOldDataType::Float32, 3),
                    MetaData::new(),
                    0,
                    None,
                    vels.bytes.as_slice(),
                    d.as_slice(),
                );
            },
            None => {},
        }
        match &sample.widths {
            Some(widths) => {
                let d = dims_of(widths.len);
                put_array(
                    &mut self.geom_compound,
                    ".widths",
                    DataType::new(PlainOldDataType::Float32, 1),
                    MetaData::new(),
                    0,
                    None,
                    widths.bytes.as_slice(),
                    d.as_slice(),
                );
            },
            None => {},
        }
    }

    /// Build the object: the schema compound follows the object's properties.
    pub fn build(self) -> (r: OObject)
        requires
            self.wf(),
        ensures
            r.name == self@.object.name,
            r.meta_data == self@.object.meta_data,
            r.children == self@.object.children,
            props_view(r.properties@) == props_view(self@.object.properties@).push(self@.geom),
    {
        let mut object = self.object;
        let ghost before = props_view(object.properties@);
        object.properties.push(self.geom_compound);
        assert(props_view(object.properties@) =~= before.push(self@.geom));
        object
    }

    /// Add child object.
    pub fn add_child(&mut self, child: OObject)
        requires
            old(self).wf(),
        ensures
            final(self).wf(),
            final(self)@ == (GeomSchemaView {
                object: OObject { children: final(self)@.object.children, ..old(self)@.object },
                ..old(self)@
            }),
            final(self)@.object.children@ == old(self)@.object.children@.push(child),
    {
        self.object.children.push(child);
    }
}

} // verus!
