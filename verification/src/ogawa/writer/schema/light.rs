//! Light schema writer.

use vstd::prelude::*;
use crate::util::metadata::{MetaData, metadata_pairs};
use crate::ogawa::writer::object::OObject;
use crate::ogawa::writer::property::{OProperty, OPropertyData, PropView, prop_view};
use crate::ogawa::writer::schema::util::{
    empty_compound_view, with_children, schema_titled, titled_meta, props_view, lemma_children_view,
    children_view,
};
use crate::ogawa::writer::schema::camera::{CameraCore, CameraView, core_view, build_core};

verus! {

/// Light schema writer: the light parameters are stored as camera samples.
pub struct OLight {
    object: OObject,
    camera_samples: Vec<CameraCore>,
    time_sampling_index: u32,
}

impl View for OLight {
    type V = CameraView;

    closed spec fn view(&self) -> CameraView {
        CameraView { object: self.object, samples: self.camera_samples@, time_sampling_index: self.time_sampling_index }
    }
}

/// The `.geom` compound a light is built with: a `.camera` compound holding
/// the samples in its `.core` property.
pub open spec fn light_geom_view(samples: Seq<CameraCore>, ts: u32) -> PropView {
    with_children(
        PropView { meta: seq![("schema"@, "AbcGeom_Light_v1"@)], ..empty_compound_view(".geom"@) },
        seq![
            with_children(
                PropView { meta: seq![("schema"@, "AbcGeom_Camera_v1"@)], ..empty_compound_view(".camera"@) },
                seq![core_view(samples, ts)],
            ),
        ],
    )
}

impl OLight {
    /// Create new Light.
    pub fn new(name: &str) -> (r: Self)
        ensures
            r@.object.name@ == name@,
            metadata_pairs(r@.object.meta_data) == schema_titled("AbcGeom_Light_v1"@, "AbcGeom_Light_v1:.geom"@),
            r@.object.children@.len() == 0,
            r@.object.properties@.len() == 0,
            r@.samples.len() == 0,
            r@.time_sampling_index == 0,
    {
        let mut object = OObject::new(name);
        object.meta_data = titled_meta("AbcGeom_Light_v1", "AbcGeom_Light_v1:.geom");
        Self { object, camera_samples: Vec::new(), time_sampling_index: 0 }
    }

    /// Set time sampling index for animated properties.
    pub fn set_time_sampling(&mut self, index: u32)
        ensures
            final(self)@ == (CameraView { time_sampling_index: index, ..old(self)@ }),
    {
        self.time_sampling_index = index;
    }

    /// Add a camera sample (light parameters stored as camera).
    pub fn add_camera_sample(&mut self, sample: CameraCore)
        ensures
            final(self)@ == (CameraView { samples: old(self)@.samples.push(sample), ..old(self)@ }),
    {
        self.camera_samples.push(sample);
    }

    /// Build the object: when there are samples, a `.geom` compound with
    /// the camera compound follows the object's properties.
    pub fn build(self) -> (r: OObject)
        ensures
            r.name == self@.object.name,
            r.meta_data == self@.object.meta_data,
            r.children == self@.object.children,
            props_view(r.properties@) == props_view(self@.object.properties@) + if self@.samples.len() == 0 {
                Seq::<PropView>::empty()
            } else {
                seq![light_geom_view(self@.samples, self@.time_sampling_index)]
            },
    {
        let mut object = self.object;
        let ghost before = props_view(object.properties@);
        if self.camera_samples.len() > 0 {
            let mut geom = OProperty::compound(".geom");
            let mut geom_meta = MetaData::new();
            geom_meta.set("schema", "AbcGeom_Light_v1");
            geom.meta_data = geom_meta;
            let mut cam = OProperty::compound(".camera");
            let mut cam_meta = MetaData::new();
            cam_meta.set("schema", "AbcGeom_Camera_v1");
            cam.meta_data = cam_meta;
            let core = build_core(&self.camera_samples, self.time_sampling_index);
            let ghost cv = prop_view(core);
            match &mut cam.data {
                OPropertyData::Compound(children) => {
                    children.push(core);
                },
                _ => {},
            }
            proof {
                lemma_children_view(cam);
                assert(children_view(prop_view(cam)) =~= seq![cv]);
                assert(prop_view(cam).meta =~= seq![("schema"@, "AbcGeom_Camera_v1"@)]);
            }
            let ghost camv = prop_view(cam);
            match &mut geom.data {
                OPropertyData::Compound(children) => {
                    children.push(cam);
                },
                _ => {},
            }
            proof {
                lemma_children_view(geom);
                assert(children_view(prop_view(geom)) =~= seq![camv]);
                assert(prop_view(geom).meta =~= seq![("schema"@, "AbcGeom_Light_v1"@)]);
                assert(prop_view(geom) == light_geom_view(self@.samples, self@.time_sampling_index));
            }
            object.properties.push(geom);
        }
        assert(props_view(object.properties@) =~= before + if self@.samples.len() == 0 {
            Seq::<PropView>::empty()
        } else {
            seq![light_geom_view(self@.samples, self@.time_sampling_index)]
        });
        object
    }

    /// Add child object.
    pub fn add_child(&mut self, child: OObject)
        ensures
            final(self)@ == (CameraView {
                object: OObject { children: final(self)@.object.children, ..old(self)@.object },
                ..old(self)@
            }),
            final(self)@.object.children@ == old(self)@.object.children@.push(child),
    {
        self.object.children.push(child);
    }
}

} // verus!
