//! FaceSet schema writer.

use vstd::prelude::*;
use crate::util::data_type::DataType;
use crate::util::metadata::{MetaData, metadata_pairs};
use crate::util::pod::PlainOldDataType;
use crate::ogawa::writer::object::OObject;
use crate::ogawa::writer::property::{OProperty, PropView, prop_view};
use crate::ogawa::writer::schema::util::{
    PodArray, GeomSchemaView, put_array, put_array_v, children_view, with_children, dims_of,
    lemma_children_view, empty_compound_view, schema_meta3, schema_meta2, props_view, object_meta,
    geom_meta,
};
use crate::ogawa::writer::schema::polymesh::dtype;

verus! {

/// FaceSet sample data: the indices of the faces in the set, as stored
/// bytes with their count.
pub struct OFaceSetSample {
    pub faces: PodArray,
}

impl OFaceSetSample {
    /// Create new FaceSet sample.
    pub fn new(faces: PodArray) -> (r: Self)
        ensures
            r == (OFaceSetSample { faces }),
    {
        Self { faces }
    }
}

/// FaceSet schema writer.
pub struct OFaceSet {
    object: OObject,
    geom_compound: OProperty,
    time_sampling_index: u32,
}

impl View for OFaceSet {
    type V = GeomSchemaView;

    closed spec fn view(&self) -> GeomSchemaView {
        GeomSchemaView {
            object: self.object,
            geom: prop_view(self.geom_compound),
            time_sampling_index: self.time_sampling_index,
        }
    }
}

impl OFaceSet {
    /// The schema compound is a compound.
    pub closed spec fn wf(&self) -> bool {
        self.geom_compound.data is Compound
    }

    /// Create new FaceSet.
    pub fn new(name: &str) -> (r: Self)
        ensures
            r.wf(),
            r@.object.name@ == name@,
            metadata_pairs(r@.object.meta_data) == schema_meta3(
                "AbcGeom_FaceSet_v1"@,
                "AbcGeom_GeomBase_v1"@,
                "AbcGeom_FaceSet_v1:.faceset"@,
            ),
            r@.object.children@.len() == 0,
            r@.object.properties@.len() == 0,
            r@.geom == (PropView {
                meta: schema_meta2("AbcGeom_FaceSet_v1"@, "AbcGeom_GeomBase_v1"@),
                ..empty_compound_view(".faceset"@)
            }),
            r@.time_sampling_index == 0,
    {
        let mut object = OObject::new(name);
        object.meta_data = object_meta("AbcGeom_FaceSet_v1", "AbcGeom_GeomBase_v1", "AbcGeom_FaceSet_v1:.faceset");
        let mut faceset = OProperty::compound(".faceset");
        faceset.meta_data = geom_meta("AbcGeom_FaceSet_v1", "AbcGeom_GeomBase_v1");
        let r = Self { object, geom_compound: faceset, time_sampling_index: 0 };
        proof {
            lemma_children_view(r.geom_compound);
            assert(children_view(r@.geom) =~= Seq::<PropView>::empty());
        }
        r
    }

    /// Set time sampling index for animated properties.
    pub fn set_time_sampling(&mut self, index: u32)
        requires
            old(self).wf(),
        ensures
            final(self).wf(),
            final(self)@ == (GeomSchemaView { time_sampling_index: index, ..old(self)@ }),
    {
        self.time_sampling_index = index;
    }

    /// Add a sample: the faces go to the `.faces` array.
    pub fn add_sample(&mut self, sample: &OFaceSetSample)
        requires
            old(self).wf(),
        ensures
            final(self).wf(),
            final(self)@ == (GeomSchemaView {
                geom: with_children(
                    old(self)@.geom,
                    put_array_v(
                        children_view(old(self)@.geom),
                        ".faces"@,
                        dtype(PlainOldDataType::Int32, 1),
                        Seq::empty(),
                        0,
                        None,
                        sample.faces.bytes@,
                        seq![sample.faces.len],
                    ),
                ),
                ..old(self)@
            }),
    {
        let d = dims_of(sample.faces.len);
        put_array(
            &mut self.geom_compound,
            ".faces",
            DataType::new(PlainOldDataType::Int32, 1),
            MetaData::new(),
            0,
            None,
            sample.faces.bytes.as_slice(),
            d.as_slice(),
        );
    }

    /// Build the object: the schema compound follows the object's properties.
    pub fn build(self) -> (r: OObject)
        requires
            self.wf(),
        ensures
            r.name == self@.object.name,
            r.meta_data == self@.object.meta_data,
            r.children == self@.object.children,
            props_view(r.properties@) == props_view(self@.object.properties@).push(self@.geom),
    {
        let mut object = self.object;
        let ghost before = props_view(object.properties@);
        object.properties.push(self.geom_compound);
        assert(props_view(object.properties@) =~= before.push(self@.geom));
        object
    }
}

} // verus!
