//! Xform schema writer.

use vstd::prelude::*;
use crate::ogawa::le::le_bytes;
use crate::util::data_type::DataType;
use crate::util::metadata::{MetaData, metadata_pairs};
use crate::util::pod::PlainOldDataType;
use crate::ogawa::writer::object::OObject;
use crate::ogawa::writer::property::{OProperty, OPropertyData, PropView, prop_view, add_scalar_view, scalar_views};
use crate::ogawa::writer::write_util::write_u64_le;
use crate::ogawa::writer::schema::util::{
    ChildKind, created_view, empty_compound_view, with_children, schema_titled, titled_meta,
    props_view, lemma_children_view, children_view, bounds_meta,
};
use crate::ogawa::writer::schema::polymesh::dtype;

verus! {

/// The kind of a transform operation.
#[derive(Clone, Copy, PartialEq, Eq, Structural, Debug)]
pub enum XformOpType {
    Scale,
    Translate,
    Rotate,
    Matrix,
    RotateX,
    RotateY,
    RotateZ,
}

/// The stored code of an operation: its type in the high nibble.
pub open spec fn op_code(t: XformOpType) -> u8 {
    match t {
        XformOpType::Scale => 0x00,
        XformOpType::Translate => 0x10,
        XformOpType::Rotate => 0x20,
        XformOpType::Matrix => 0x30,
        XformOpType::RotateX => 0x40,
        XformOpType::RotateY => 0x50,
        XformOpType::RotateZ => 0x60,
    }
}

/// The stored operation codes are those of Alembic's operation type
/// enumeration (scale, translate, rotate, matrix, rotate about x, y and z,
/// numbered 0 to 6) in the high nibble, with a zero hint nibble; distinct
/// operation types are stored as distinct codes.
pub proof fn lemma_op_codes_follow_alembic(t: XformOpType, u: XformOpType)
    ensures
        op_code(XformOpType::Scale) == 0x00,
        op_code(XformOpType::Translate) == 0x10,
        op_code(XformOpType::Rotate) == 0x20,
        op_code(XformOpType::Matrix) == 0x30,
        op_code(XformOpType::RotateX) == 0x40,
        op_code(XformOpType::RotateY) == 0x50,
        op_code(XformOpType::RotateZ) == 0x60,
        op_code(t) % 16 == 0,
        op_code(t) == op_code(u) ==> t == u,
{
}

/// Encode xform operation type to byte: the type code shifted to the high
/// nibble (the hint nibble is 0).
pub fn encode_xform_op(op_type: XformOpType) -> (r: u8)
    ensures
        r == op_code(op_type),
        op_type == XformOpType::Scale ==> r == 0x00,
        op_type == XformOpType::Translate ==> r == 0x10,
        op_type == XformOpType::Rotate ==> r == 0x20,
        op_type == XformOpType::Matrix ==> r == 0x30,
        op_type == XformOpType::RotateX ==> r == 0x40,
        op_type == XformOpType::RotateY ==> r == 0x50,
        op_type == XformOpType::RotateZ ==> r == 0x60,
{
    let type_code: u8 = match op_type {
        XformOpType::Scale => 0,
        XformOpType::Translate => 1,
        XformOpType::Rotate => 2,
        XformOpType::Matrix => 3,
        XformOpType::RotateX => 4,
        XformOpType::RotateY => 5,
        XformOpType::RotateZ => 6,
    };
    assert(type_code < 7);
    assert((type_code << 4u8) == type_code * 16) by (bit_vector)
        requires
            type_code < 7,
    ;
    type_code << 4
}

/// A transform operation: its type and its values, each the bit pattern of
/// a double.
pub struct XformOp {
    pub op_type: XformOpType,
    pub values: Vec<u64>,
}

/// Xform sample data: the operations and whether the parent transform is
/// inherited.
pub struct OXformSample {
    pub ops: Vec<XformOp>,
    pub inherits: bool,
}

impl OXformSample {
    /// Create identity sample.
    pub fn identity() -> (r: Self)
        ensures
            r.ops@.len() == 0,
            r.inherits,
    {
        Self { ops: Vec::new(), inherits: true }
    }

    /// Create a sample of one matrix operation (its sixteen values the bit
    /// patterns of doubles).
    pub fn from_matrix(matrix: [u64; 16], inherits: bool) -> (r: Self)
        ensures
            r.ops@.len() == 1,
            r.ops@[0].op_type == XformOpType::Matrix,
            r.ops@[0].values@ == matrix@,
            r.inherits == inherits,
    {
        let mut values: Vec<u64> = Vec::new();
        let mut i: usize = 0;
        while i < 16
            invariant
                i <= 16,
                values@ =~= matrix@.subrange(0, i as int),
            decreases 16 - i,
        {
            values.push(matrix[i]);
            i = i + 1;
        }
        let mut ops: Vec<XformOp> = Vec::new();
        ops.push(XformOp { op_type: XformOpType::Matrix, values });
        Self { ops, inherits }
    }

    /// Create from operations.
    pub fn from_ops(ops: Vec<XformOp>, inherits: bool) -> (r: Self)
        ensures
            r.ops == ops,
            r.inherits == inherits,
    {
        Self { ops, inherits }
    }
}

/// The stored bytes of doubles given by their bit patterns.
pub open spec fn doubles_le(vs: Seq<u64>) -> Seq<u8>
    decreases vs.len(),
{
    if vs.len() == 0 {
        Seq::empty()
    } else {
        doubles_le(vs.drop_last()) + le_bytes(vs.last() as nat, 8)
    }
}

/// The stored values of a sample: the values of its operations in order.
pub open spec fn sample_vals(ops: Seq<XformOp>) -> Seq<u8>
    decreases ops.len(),
{
    if ops.len() == 0 {
        Seq::empty()
    } else {
        sample_vals(ops.drop_last()) + doubles_le(ops.last().values@)
    }
}

/// The number of values of a list of operations.
pub open spec fn value_count(ops: Seq<XformOp>) -> nat
    decreases ops.len(),
{
    if ops.len() == 0 {
        0
    } else {
        value_count(ops.drop_last()) + ops.last().values@.len()
    }
}

/// The codes of a list of operations.
pub open spec fn op_codes(ops: Seq<XformOp>) -> Seq<u8> {
    Seq::new(ops.len(), |i: int| op_code(ops[i].op_type))
}

/// A scalar property after recording the samples in order.
pub open spec fn scalar_fold(p: PropView, datas: Seq<Seq<u8>>) -> PropView
    decreases datas.len(),
{
    if datas.len() == 0 {
        p
    } else {
        add_scalar_view(scalar_fold(p, datas.drop_last()), datas.last())
    }
}

/// The bytes of a list of byte vectors.
pub open spec fn byte_views(v: Seq<Vec<u8>>) -> Seq<Seq<u8>> {
    v.map_values(|b: Vec<u8>| b@)
}

/// A new scalar property holding the given samples.
pub fn scalar_with_samples(
    name: &str,
    dt: DataType,
    meta: MetaData,
    ts: u32,
    datas: &Vec<Vec<u8>>,
) -> (r: OProperty)
    ensures
        prop_view(r) == scalar_fold(
            created_view(ChildKind::Scalar, name@, dt, metadata_pairs(meta), ts),
            byte_views(datas@),
        ),
{
    let mut p = OProperty::scalar(name, dt);
    let ghost mp = metadata_pairs(meta);
    p.meta_data = meta;
    p.time_sampling_index = ts;
    proof {
        match &p.data {
            OPropertyData::Scalar(s) => {
                assert(scalar_views(s@) =~= Seq::<Seq<u8>>::empty());
            },
            _ => {},
        }
    }
    let ghost p0 = prop_view(p);
    assert(p0 == created_view(ChildKind::Scalar, name@, dt, mp, ts));
    let mut i: usize = 0;
    assert(byte_views(datas@).subrange(0, 0) =~= Seq::<Seq<u8>>::empty());
    while i < datas.len()
        invariant
            i <= datas@.len(),
            prop_view(p) == scalar_fold(p0, byte_views(datas@).subrange(0, i as int)),
        decreases datas@.len() - i,
    {
        p.add_scalar_sample(datas[i].as_slice());
        proof {
            let sub = byte_views(datas@).subrange(0, i + 1);
            assert(sub.drop_last() =~= byte_views(datas@).subrange(0, i as int));
            assert(sub.last() == datas@[i as int]@);
        }
        i = i + 1;
    }
    assert(byte_views(datas@).subrange(0, datas@.len() as int) =~= byte_views(datas@));
    p
}

fn encode_doubles(out: &mut Vec<u8>, vs: &[u64])
    ensures
        final(out)@ == old(out)@ + doubles_le(vs@),
{
    let mut i: usize = 0;
    while i < vs.len()
        invariant
            i <= vs@.len(),
            out@ == old(out)@ + doubles_le(vs@.subrange(0, i as int)),
        decreases vs@.len() - i,
    {
        write_u64_le(out, vs[i]);
        proof {
            let sub = vs@.subrange(0, i + 1);
            assert(sub.drop_last() =~= vs@.subrange(0, i as int));
        }
        i = i + 1;
    }
    assert(vs@.subrange(0, vs@.len() as int) =~= vs@);
}

fn encode_sample_vals(ops: &Vec<XformOp>) -> (r: Vec<u8>)
    ensures
        r@ == sample_vals(ops@),
{
    let mut out: Vec<u8> = Vec::new();
    let mut i: usize = 0;
    while i < ops.len()
        invariant
            i <= ops@.len(),
            out@ == sample_vals(ops@.subrange(0, i as int)),
        decreases ops@.len() - i,
    {
        encode_doubles(&mut out, ops[i].values.as_slice());
        proof {
            let sub = ops@.subrange(0, i + 1);
            assert(sub.drop_last() =~= ops@.subrange(0, i as int));
        }
        i = i + 1;
    }
    assert(ops@.subrange(0, ops@.len() as int) =~= ops@);
    out
}

/// Xform schema writer.
pub struct OXform {
    object: OObject,
    samples: Vec<OXformSample>,
    time_sampling_index: u32,
    child_bounds: Vec<[u64; 6]>,
    child_bounds_ts_index: u32,
}

/// The state of an Xform writer: the object, the samples and child bounds
/// recorded so far (each bound six doubles as bit patterns) and their time
/// samplings.
pub struct XformView {
    pub object: OObject,
    pub samples: Seq<OXformSample>,
    pub time_sampling_index: u32,
    pub child_bounds: Seq<[u64; 6]>,
    pub child_bounds_ts_index: u32,
}

impl View for OXform {
    type V = XformView;

    closed spec fn view(&self) -> XformView {
        XformView {
            object: self.object,
            samples: self.samples@,
            time_sampling_index: self.time_sampling_index,
            child_bounds: self.child_bounds@,
            child_bounds_ts_index: self.child_bounds_ts_index,
        }
    }
}

/// Some sample has an operation.
pub open spec fn not_identity(samples: Seq<OXformSample>) -> bool {
    exists|i: int| 0 <= i < samples.len() && (#[trigger] samples[i]).ops@.len() > 0
}

/// The stored flag of a sample's inheritance.
pub open spec fn inherits_byte(s: OXformSample) -> Seq<u8> {
    seq![if s.inherits { 1u8 } else { 0u8 }]
}

/// The transform properties: `.inherits` and `.vals` with a sample per
/// sample, `.ops` with the codes of the first sample's operations, and the
/// `isNotConstantIdentity` flag.
pub open spec fn xform_props(samples: Seq<OXformSample>, ts: u32) -> Seq<PropView> {
    let first = samples[0].ops@;
    let bool1 = dtype(PlainOldDataType::Boolean, 1);
    seq![
        scalar_fold(
            created_view(ChildKind::Scalar, ".inherits"@, bool1, Seq::empty(), ts),
            Seq::new(samples.len(), |i: int| inherits_byte(samples[i])),
        ),
        add_scalar_view(
            created_view(ChildKind::Scalar, ".ops"@, dtype(PlainOldDataType::Uint8, (first.len() % 256) as u8), Seq::empty(), 0),
            op_codes(first),
        ),
        scalar_fold(
            created_view(
                ChildKind::Scalar,
                ".vals"@,
                dtype(PlainOldDataType::Float64, (value_count(first) % 256) as u8),
                Seq::empty(),
                ts,
            ),
            Seq::new(samples.len(), |i: int| sample_vals(samples[i].ops@)),
        ),
        add_scalar_view(created_view(ChildKind::Scalar, "isNotConstantIdentity"@, bool1, Seq::empty(), 0), seq![1u8]),
    ]
}

/// The `.childBnds` property holding the child bounds.
pub open spec fn child_bounds_prop(bounds: Seq<[u64; 6]>, ts: u32) -> PropView {
    scalar_fold(
        created_view(
            ChildKind::Scalar,
            ".childBnds"@,
            dtype(PlainOldDataType::Float64, 6),
            seq![("interpretation"@, "box"@)],
            ts,
        ),
        Seq::new(bounds.len(), |i: int| doubles_le(bounds[i]@)),
    )
}

/// The `.xform` compound an Xform is built with.
pub open spec fn xform_geom_view(v: XformView) -> PropView {
    with_children(
        PropView { meta: seq![("schema"@, "AbcGeom_Xform_v3"@)], ..empty_compound_view(".xform"@) },
        (if not_identity(v.samples) {
            xform_props(v.samples, v.time_sampling_index)
        } else {
            Seq::empty()
        }) + (if v.child_bounds.len() > 0 {
            seq![child_bounds_prop(v.child_bounds, v.child_bounds_ts_index)]
        } else {
            Seq::empty()
        }),
    )
}

impl OXform {
    /// Create new Xform.
    pub fn new(name: &str) -> (r: Self)
        ensures
            r@.object.name@ == name@,
            metadata_pairs(r@.object.meta_data) == schema_titled("AbcGeom_Xform_v3"@, "AbcGeom_Xform_v3:.xform"@),
            r@.object.children@.len() == 0,
            r@.object.properties@.len() == 0,
            r@.samples.len() == 0,
            r@.time_sampling_index == 0,
            r@.child_bounds.len() == 0,
            r@.child_bounds_ts_index == 0,
    {
        let mut object = OObject::new(name);
        object.meta_data = titled_meta("AbcGeom_Xform_v3", "AbcGeom_Xform_v3:.xform");
        Self {
            object,
            samples: Vec::new(),
            time_sampling_index: 0,
            child_bounds: Vec::new(),
            child_bounds_ts_index: 0,
        }
    }

    /// Set time sampling index for animated properties.
    pub fn with_time_sampling(self, index: u32) -> (r: Self)
        ensures
            r@ == (XformView { time_sampling_index: index, ..self@ }),
    {
        let mut s = self;
        s.time_sampling_index = index;
        s
    }

    /// Set time sampling index for animated properties.
    pub fn set_time_sampling(&mut self, index: u32)
        ensures
            final(self)@ == (XformView { time_sampling_index: index, ..old(self)@ }),
    {
        self.time_sampling_index = index;
    }

    /// Add a sample.
    pub fn add_sample(&mut self, sample: OXformSample)
        ensures
            final(self)@ == (XformView { samples: old(self)@.samples.push(sample), ..old(self)@ }),
    {
        self.samples.push(sample);
    }

    /// Add child bounds sample (bounding box of all children).
    pub fn add_child_bounds(&mut self, bounds: [u64; 6])
        ensures
            final(self)@ == (XformView { child_bounds: old(self)@.child_bounds.push(bounds), ..old(self)@ }),
    {
        self.child_bounds.push(bounds);
    }

    /// Set child bounds time sampling index.
    pub fn set_child_bounds_time_sampling(&mut self, index: u32)
        ensures
            final(self)@ == (XformView { child_bounds_ts_index: index, ..old(self)@ }),
    {
        self.child_bounds_ts_index = index;
    }

    /// Build the object: when there are samples, an `.xform` compound
    /// follows the object's properties.
    pub fn build(self) -> (r: OObject)
        ensures
            r.name == self@.object.name,
            r.meta_data == self@.object.meta_data,
            r.children == self@.object.children,
            props_view(r.properties@) == props_view(self@.object.properties@) + if self@.samples.len() == 0 {
                Seq::<PropView>::empty()
            } else {
                seq![xform_geom_view(self@)]
            },
    {
        let ghost v = self@;
        let mut object = self.object;
        let ghost before = props_view(object.properties@);
        if self.samples.len() > 0 {
            let mut geom = OProperty::compound(".xform");
            let mut geom_meta = MetaData::new();
            geom_meta.set("schema", "AbcGeom_Xform_v3");
            geom.meta_data = geom_meta;
            let samples = &self.samples;
            let mut children: Vec<OProperty> = Vec::new();
            let mut not_id = false;
            let mut i: usize = 0;
            while i < samples.len()
                invariant
                    i <= samples@.len(),
                    not_id == exists|j: int| 0 <= j < i && (#[trigger] samples@[j]).ops@.len() > 0,
                decreases samples@.len() - i,
            {
                if samples[i].ops.len() > 0 {
                    not_id = true;
                }
                i = i + 1;
            }
            if not_id {
                let first = &samples[0].ops;
                let mut inherits_datas: Vec<Vec<u8>> = Vec::new();
                let mut vals_datas: Vec<Vec<u8>> = Vec::new();
                let mut k: usize = 0;
                while k < samples.len()
                    invariant
                        k <= samples@.len(),
                        byte_views(inherits_datas@) =~= Seq::new(k as nat, |m: int| inherits_byte(samples@[m])),
                        byte_views(vals_datas@) =~= Seq::new(k as nat, |m: int| sample_vals(samples@[m].ops@)),
                    decreases samples@.len() - k,
                {
                    let mut b: Vec<u8> = Vec::new();
                    b.push(if samples[k].inherits { 1u8 } else { 0u8 });
                    assert(b@ =~= inherits_byte(samples@[k as int]));
                    let ghost bi = byte_views(inherits_datas@);
                    let ghost bv0 = byte_views(vals_datas@);
                    inherits_datas.push(b);
                    let sv = encode_sample_vals(&samples[k].ops);
                    let ghost svv = sv@;
                    vals_datas.push(sv);
                    assert(byte_views(inherits_datas@) =~= bi.push(inherits_byte(samples@[k as int])));
                    assert(byte_views(vals_datas@) =~= bv0.push(svv));
                    k = k + 1;
                }
                let mut codes: Vec<u8> = Vec::new();
                let mut total: u8 = 0;
                let mut m: usize = 0;
                while m < first.len()
                    invariant
                        m <= first@.len(),
                        codes@ =~= op_codes(first@.subrange(0, m as int)),
                        total == value_count(first@.subrange(0, m as int)) % 256,
                    decreases first@.len() - m,
                {
                    codes.push(encode_xform_op(first[m].op_type));
                    let n8: u8 = (first[m].values.len() % 256) as u8;
                    proof {
                        let sub = first@.subrange(0, m + 1);
                        assert(sub.drop_last() =~= first@.subrange(0, m as int));
                        vstd::arithmetic::div_mod::lemma_add_mod_noop(
                            value_count(first@.subrange(0, m as int)) as int,
                            first@[m as int].values@.len() as int,
                            256,
                        );
                    }
                    total = ((total as u16 + n8 as u16) % 256) as u8;
                    m = m + 1;
                }
                assert(first@.subrange(0, first@.len() as int) =~= first@);
                let inherits = scalar_with_samples(
                    ".inherits",
                    DataType::new(PlainOldDataType::Boolean, 1),
                    MetaData::new(),
                    self.time_sampling_index,
                    &inherits_datas,
                );
                let mut ops = OProperty::scalar(".ops", DataType::new(PlainOldDataType::Uint8, (first.len() % 256) as u8));
                proof {
                    match &ops.data {
                        OPropertyData::Scalar(s) => {
                            assert(scalar_views(s@) =~= Seq::<Seq<u8>>::empty());
                        },
                        _ => {},
                    }
                    assert(prop_view(ops).meta =~= Seq::<(Seq<char>, Seq<char>)>::empty());
                }
                ops.add_scalar_sample(codes.as_slice());
                let vals = scalar_with_samples(
                    ".vals",
                    DataType::new(PlainOldDataType::Float64, total),
                    MetaData::new(),
                    self.time_sampling_index,
                    &vals_datas,
                );
                let mut one: Vec<u8> = Vec::new();
                one.push(1u8);
                assert(one@ =~= seq![1u8]);
                let mut nid = OProperty::scalar("isNotConstantIdentity", DataType::new(PlainOldDataType::Boolean, 1));
                proof {
                    match &nid.data {
                        OPropertyData::Scalar(s) => {
                            assert(scalar_views(s@) =~= Seq::<Seq<u8>>::empty());
                        },
                        _ => {},
                    }
                    assert(prop_view(nid).meta =~= Seq::<(Seq<char>, Seq<char>)>::empty());
                }
                nid.add_scalar_sample(one.as_slice());
                let ghost vs = seq![prop_view(inherits), prop_view(ops), prop_view(vals), prop_view(nid)];
                children.push(inherits);
                children.push(ops);
                children.push(vals);
                children.push(nid);
                proof {
                    assert(props_view(children@) =~= vs);
                    assert(vs =~= xform_props(samples@, self.time_sampling_index));
                }
            }
            let ghost head = props_view(children@);
            assert(head =~= (if not_identity(v.samples) {
                xform_props(v.samples, v.time_sampling_index)
            } else {
                Seq::<PropView>::empty()
            }));
            if self.child_bounds.len() > 0 {
                let mut datas: Vec<Vec<u8>> = Vec::new();
                let mut k: usize = 0;
                while k < self.child_bounds.len()
                    invariant
                        k <= self.child_bounds@.len(),
                        byte_views(datas@) =~= Seq::new(k as nat, |m: int| doubles_le(self.child_bounds@[m]@)),
                    decreases self.child_bounds@.len() - k,
                {
                    let mut b: Vec<u8> = Vec::new();
                    encode_doubles(&mut b, &self.child_bounds[k]);
                    assert(b@ =~= doubles_le(self.child_bounds@[k as int]@));
                    let ghost bd = byte_views(datas@);
                    datas.push(b);
                    assert(byte_views(datas@) =~= bd.push(doubles_le(self.child_bounds@[k as int]@)));
                    k = k + 1;
                }
                let bnds = scalar_with_samples(
                    ".childBnds",
                    DataType::new(PlainOldDataType::Float64, 6),
                    bounds_meta(),
                    self.child_bounds_ts_index,
                    &datas,
                );
                let ghost bv = prop_view(bnds);
                children.push(bnds);
                assert(props_view(children@) =~= head.push(bv));
            }
            geom.data = OPropertyData::Compound(children);
            proof {
                lemma_children_view(geom);
                assert(prop_view(geom).meta =~= seq![("schema"@, "AbcGeom_Xform_v3"@)]);
                assert(children_view(prop_view(geom)) =~= head + (if v.child_bounds.len() > 0 {
                    seq![child_bounds_prop(v.child_bounds, v.child_bounds_ts_index)]
                } else {
                    Seq::<PropView>::empty()
                }));
                assert(prop_view(geom) == xform_geom_view(v));
            }
            let ghost gv = prop_view(geom);
            object.properties.push(geom);
            assert(props_view(object.properties@) =~= before.push(gv));
        }
        assert(props_view(object.properties@) =~= before + if v.samples.len() == 0 {
            Seq::<PropView>::empty()
        } else {
            seq![xform_geom_view(v)]
        });
        object
    }

    /// Add child xform.
    pub fn add_child(&mut self, child: OObject)
        ensures
            final(self)@ == (XformView {
                object: OObject { children: final(self)@.object.children, ..old(self)@.object },
                ..old(self)@
            }),
            final(self)@.object.children@ == old(self)@.object.children@.push(child),
    {
        self.object.children.push(child);
    }
}

} // verus!
