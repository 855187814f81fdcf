//! Camera schema writer.

use vstd::prelude::*;
use crate::ogawa::le::le_bytes;
use crate::util::data_type::DataType;
use crate::util::metadata::{MetaData, metadata_pairs};
use crate::util::pod::PlainOldDataType;
use crate::ogawa::writer::object::OObject;
use crate::ogawa::writer::property::{OProperty, OPropertyData, PropView, PropDataView, prop_view, add_scalar_view};
use crate::ogawa::writer::write_util::write_u64_le;
use crate::ogawa::writer::schema::util::{
    ChildKind, created_view, empty_compound_view, with_children, schema_titled, titled_meta,
    props_view, lemma_children_view, children_view,
};
use crate::ogawa::writer::schema::polymesh::dtype;

verus! {

/// The sixteen camera parameters of a sample, each the bit pattern of a
/// double, in stored order: focal length, horizontal aperture, horizontal
/// film offset, vertical aperture, vertical film offset, lens squeeze
/// ratio, overscan left, right, top and bottom, f-stop, focus distance,
/// shutter open and close, near and far clipping planes.
pub struct CameraCore {
    pub values: [u64; 16],
}

/// The stored bytes of the first `n` parameters of a sample.
pub open spec fn core_prefix_bytes(values: Seq<u64>, n: int) -> Seq<u8>
    decreases n,
{
    if n <= 0 {
        Seq::empty()
    } else {
        core_prefix_bytes(values, n - 1) + le_bytes(values[n - 1] as nat, 8)
    }
}

/// The stored bytes of a sample: its sixteen doubles, little-endian.
pub open spec fn core_bytes(c: CameraCore) -> Seq<u8> {
    core_prefix_bytes(c.values@, 16)
}

/// Encode the parameters of a sample.
pub fn encode_core(c: &CameraCore) -> (r: Vec<u8>)
    ensures
        r@ == core_bytes(*c),
{
    let mut buf: Vec<u8> = Vec::new();
    let mut i: usize = 0;
    while i < 16
        invariant
            i <= 16,
            buf@ == core_prefix_bytes(c.values@, i as int),
        decreases 16 - i,
    {
        write_u64_le(&mut buf, c.values[i]);
        i = i + 1;
    }
    buf
}

/// The core property after recording the samples in order.
pub open spec fn core_after(p: PropView, samples: Seq<CameraCore>) -> PropView
    decreases samples.len(),
{
    if samples.len() == 0 {
        p
    } else {
        add_scalar_view(core_after(p, samples.drop_last()), core_bytes(samples.last()))
    }
}

/// The `.core` property holding the samples, with time sampling `ts`.
pub open spec fn core_view(samples: Seq<CameraCore>, ts: u32) -> PropView {
    core_after(
        created_view(ChildKind::Scalar, ".core"@, dtype(PlainOldDataType::Float64, 16), Seq::empty(), ts),
        samples,
    )
}

/// Build the `.core` property of a list of samples.
pub fn build_core(samples: &Vec<CameraCore>, ts: u32) -> (r: OProperty)
    ensures
        prop_view(r) == core_view(samples@, ts),
        r.data is Scalar,
{
    let mut core = OProperty::scalar(".core", DataType::new(PlainOldDataType::Float64, 16));
    core.time_sampling_index = ts;
    proof {
        match &core.data {
            OPropertyData::Scalar(s) => {
                assert(crate::ogawa::writer::property::scalar_views(s@) =~= Seq::<Seq<u8>>::empty());
            },
            _ => {},
        }
        assert(prop_view(core).meta =~= Seq::<(Seq<char>, Seq<char>)>::empty());
    }
    let ghost p0 = prop_view(core);
    assert(p0 == created_view(ChildKind::Scalar, ".core"@, dtype(PlainOldDataType::Float64, 16), Seq::empty(), ts));
    let mut i: usize = 0;
    assert(samples@.subrange(0, 0) =~= Seq::<CameraCore>::empty());
    while i < samples.len()
        invariant
            i <= samples@.len(),
            core.data is Scalar,
            prop_view(core) == core_after(p0, samples@.subrange(0, i as int)),
        decreases samples@.len() - i,
    {
        let bytes = encode_core(&samples[i]);
        core.add_scalar_sample(bytes.as_slice());
        proof {
            let sub = samples@.subrange(0, i + 1);
            assert(sub.drop_last() =~= samples@.subrange(0, i as int));
            assert(sub.last() == samples@[i as int]);
        }
        i = i + 1;
    }
    assert(samples@.subrange(0, samples@.len() as int) =~= samples@);
    core
}

/// Camera schema writer.
pub struct OCamera {
    object: OObject,
    samples: Vec<CameraCore>,
    time_sampling_index: u32,
}

/// The state of a camera or light writer: the object, the samples recorded
/// so far and the time sampling of the core property.
pub struct CameraView {
    pub object: OObject,
    pub samples: Seq<CameraCore>,
    pub time_sampling_index: u32,
}

impl View for OCamera {
    type V = CameraView;

    closed spec fn view(&self) -> CameraView {
        CameraView { object: self.object, samples: self.samples@, time_sampling_index: self.time_sampling_index }
    }
}

/// The `.geom` compound a camera is built with.
pub open spec fn camera_geom_view(samples: Seq<CameraCore>, ts: u32) -> PropView {
    with_children(
        PropView { meta: seq![("schema"@, "AbcGeom_Camera_v1"@)], ..empty_compound_view(".geom"@) },
        seq![core_view(samples, ts)],
    )
}

impl OCamera {
    /// Create new Camera.
    pub fn new(name: &str) -> (r: Self)
        ensures
            r@.object.name@ == name@,
            metadata_pairs(r@.object.meta_data) == schema_titled("AbcGeom_Camera_v1"@, "AbcGeom_Camera_v1:.geom"@),
            r@.object.children@.len() == 0,
            r@.object.properties@.len() == 0,
            r@.samples.len() == 0,
            r@.time_sampling_index == 0,
    {
        let mut object = OObject::new(name);
        object.meta_data = titled_meta("AbcGeom_Camera_v1", "AbcGeom_Camera_v1:.geom");
        Self { object, samples: Vec::new(), time_sampling_index: 0 }
    }

    /// Set time sampling index for animated properties.
    pub fn set_time_sampling(&mut self, index: u32)
        ensures
            final(self)@ == (CameraView { time_sampling_index: index, ..old(self)@ }),
    {
        self.time_sampling_index = index;
    }

    /// Add a sample.
    pub fn add_sample(&mut self, sample: CameraCore)
        ensures
            final(self)@ == (CameraView { samples: old(self)@.samples.push(sample), ..old(self)@ }),
    {
        self.samples.push(sample);
    }

    /// Build the object: when there are samples, a `.geom` compound holding
    /// them in its `.core` property follows the object's properties.
    pub fn build(self) -> (r: OObject)
        ensures
            r.name == self@.object.name,
            r.meta_data == self@.object.meta_data,
            r.children == self@.object.children,
            props_view(r.properties@) == props_view(self@.object.properties@) + if self@.samples.len() == 0 {
                Seq::<PropView>::empty()
            } else {
                seq![camera_geom_view(self@.samples, self@.time_sampling_index)]
            },
    {
        let mut object = self.object;
        let ghost before = props_view(object.properties@);
        if self.samples.len() > 0 {
            let mut geom = OProperty::compound(".geom");
            let mut geom_meta = MetaData::new();
            geom_meta.set("schema", "AbcGeom_Camera_v1");
            geom.meta_data = geom_meta;
            let core = build_core(&self.samples, self.time_sampling_index);
            let ghost cv = prop_view(core);
            match &mut geom.data {
                OPropertyData::Compound(children) => {
                    children.push(core);
                },
                _ => {},
            }
            proof {
                lemma_children_view(geom);
                assert(children_view(prop_view(geom)) =~= seq![cv]);
                assert(prop_view(geom).meta =~= seq![("schema"@, "AbcGeom_Camera_v1"@)]);
                assert(prop_view(geom) == camera_geom_view(self@.samples, self@.time_sampling_index));
            }
            object.properties.push(geom);
        }
        assert(props_view(object.properties@) =~= before + if self@.samples.len() == 0 {
            Seq::<PropView>::empty()
        } else {
            seq![camera_geom_view(self@.samples, self@.time_sampling_index)]
        });
        object
    }

    /// Add child object.
    pub fn add_child(&mut self, child: OObject)
        ensures
            final(self)@ == (CameraView {
                object: OObject { children: final(self)@.object.children, ..old(self)@.object },
                ..old(self)@
            }),
            final(self)@.object.children@ == old(self)@.object.children@.push(child),
    {
        self.object.children.push(child);
    }
}

} // verus!
