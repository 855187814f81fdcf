//! Helpers shared by the schema writers: metadata lists and the lookup or
//! creation of the properties of a schema compound.

use vstd::prelude::*;
use crate::util::data_type::DataType;
use crate::ogawa::writer::object::OObject;
use crate::util::pod::PlainOldDataType;
use crate::util::metadata::{MetaData, metadata_pairs, pairs_with, is_first_key_index};
use crate::ogawa::writer::property::{
    OProperty, OPropertyData, PropView, PropDataView, prop_view, find_named, is_first_named,
    only_data_differs, find_child, changes_after, is_single_element, scalar_views, array_views,
    add_array_view, add_scalar_view,
};

verus! {

/// The key/value pairs of a literal list, as character sequences.
pub open spec fn literal_pairs(pairs: Seq<(&str, &str)>) -> Seq<(Seq<char>, Seq<char>)> {
    pairs.map_values(|p: (&str, &str)| (p.0@, p.1@))
}

/// Metadata holding the given pairs, in order; the keys are distinct.
pub fn meta_of(pairs: &[(&str, &str)]) -> (r: MetaData)
    requires
        forall|i: int, j: int| 0 <= i < j < pairs@.len() ==> pairs@[i].0@ != pairs@[j].0@,
    ensures
        metadata_pairs(r) == literal_pairs(pairs@),
{
    let mut md = MetaData::new();
    let mut i: usize = 0;
    while i < pairs.len()
        invariant
            i <= pairs@.len(),
            forall|a: int, b: int| 0 <= a < b < pairs@.len() ==> pairs@[a].0@ != pairs@[b].0@,
            metadata_pairs(md) == literal_pairs(pairs@.subrange(0, i as int)),
        decreases pairs@.len() - i,
    {
        let ghost before = metadata_pairs(md);
        let (k, v) = pairs[i];
        proof {
            assert forall|x: int| !is_first_key_index(before, k@, x) by {
                if 0 <= x < before.len() {
                    assert(before[x].0 == pairs@[x].0@);
                }
            }
        }
        md.set(k, v);
        assert(literal_pairs(pairs@.subrange(0, i + 1)) =~= before.push((k@, v@)));
        i = i + 1;
    }
    assert(pairs@.subrange(0, pairs@.len() as int) =~= pairs@);
    md
}

/// The kind of property a schema creates on demand.
#[derive(Clone, Copy, PartialEq, Eq, Structural, Debug)]
pub enum ChildKind {
    Scalar,
    Array,
    Compound,
}

/// A property as a schema creates it: of kind `kind`, named `name`, of type
/// `dt`, with metadata `meta` and time sampling `ts`, no samples, no changes
/// recorded and the default write order.
pub open spec fn is_created_child(
    p: OProperty,
    kind: ChildKind,
    name: Seq<char>,
    dt: DataType,
    meta: Seq<(Seq<char>, Seq<char>)>,
    ts: u32,
) -> bool {
    &&& p.name@ == name
    &&& p.data_type == (if kind == ChildKind::Compound { DataType { pod: PlainOldDataType::Unknown, extent: 0 } } else { dt })
    &&& metadata_pairs(p.meta_data) == meta
    &&& p.time_sampling_index == ts
    &&& p.first_changed_index == 0
    &&& p.last_changed_index == 0
    &&& p.data_write_order == u32::MAX
    &&& p.is_scalar_like == (kind != ChildKind::Compound)
    &&& match kind {
        ChildKind::Scalar => p.data matches OPropertyData::Scalar(s) && s@.len() == 0,
        ChildKind::Array => p.data matches OPropertyData::Array(s) && s@.len() == 0,
        ChildKind::Compound => p.data matches OPropertyData::Compound(c) && c@.len() == 0,
    }
}

/// The effect of looking up or creating a child of a compound: the first
/// child called `name` when there is one (the compound unchanged but for what
/// is done through the returned reference), otherwise a created child
/// appended at the end.
pub open spec fn child_lookup(
    old_c: OProperty,
    new_c: OProperty,
    r: OProperty,
    r_final: OProperty,
    kind: ChildKind,
    name: Seq<char>,
    dt: DataType,
    meta: Seq<(Seq<char>, Seq<char>)>,
    ts: u32,
) -> bool {
    &&& only_data_differs(new_c, old_c)
    &&& old_c.data matches OPropertyData::Compound(oc)
    &&& new_c.data matches OPropertyData::Compound(fc)
    &&& match find_named(oc@, name) {
        Some(i) => r == oc@[i] && fc@ =~= oc@.update(i, r_final),
        None => is_created_child(r, kind, name, dt, meta, ts) && fc@ =~= oc@.push(r_final),
    }
}

/// Get the first child called `name` of a schema compound, or append a new
/// property of kind `kind` with that name, type, metadata and time sampling
/// and return it.
pub fn child_with<'a>(
    compound: &'a mut OProperty,
    kind: ChildKind,
    name: &str,
    dt: DataType,
    meta: MetaData,
    ts: u32,
) -> (r: &'a mut OProperty)
    requires
        old(compound).data is Compound,
    ensures
        child_lookup(*old(compound), *final(compound), *r, *final(r), kind, name@, dt, metadata_pairs(meta), ts),
{
    let found = match &compound.data {
        OPropertyData::Compound(children) => find_child(children, name),
        _ => vstd::pervasive::unreached(),
    };
    let mut fresh = match kind {
        ChildKind::Scalar => OProperty::scalar(name, dt),
        ChildKind::Array => OProperty::array(name, dt),
        ChildKind::Compound => OProperty::compound(name),
    };
    let ghost mp = metadata_pairs(meta);
    fresh.meta_data = meta;
    fresh.time_sampling_index = ts;
    assert(is_created_child(fresh, kind, name@, dt, mp, ts));
    match &mut compound.data {
        OPropertyData::Compound(children) => {
            let ghost oc = children@;
            match found {
                Some(i) => {
                    let c = &mut children[i];
                    assert(*c == oc[i as int]);
                    c
                },
                None => {
                    let n = children.len();
                    children.push(fresh);
                    assert(children@ == oc.push(fresh));
                    let c = &mut children[n];
                    assert(*c == fresh);
                    c
                },
            }
        },
        _ => vstd::pervasive::unreached(),
    }
}

/// The metadata of a position property: vertex scope, point interpretation.
pub fn p_meta() -> (r: MetaData)
    ensures
        metadata_pairs(r) == seq![("geoScope"@, "vtx"@), ("interpretation"@, "point"@)],
{
    proof {
        reveal_strlit("geoScope");
        reveal_strlit("interpretation");
    }
    let pairs = [("geoScope", "vtx"), ("interpretation", "point")];
    assert(pairs@ =~= seq![("geoScope", "vtx"), ("interpretation", "point")]);
    assert(pairs@[0].0 == "geoScope");
    assert(pairs@[1].0 == "interpretation");
    assert("geoScope"@.len() != "interpretation"@.len());
    assert(pairs@[0].0@ != pairs@[1].0@);
    let r = meta_of(&pairs);
    assert(literal_pairs(pairs@) =~= seq![("geoScope"@, "vtx"@), ("interpretation"@, "point"@)]);
    r
}

/// Standard bounds metadata (interpretation=box).
pub fn bounds_meta() -> (r: MetaData)
    ensures
        metadata_pairs(r) == seq![("interpretation"@, "box"@)],
{
    let mut meta = MetaData::new();
    meta.set("interpretation", "box");
    assert(metadata_pairs(meta) =~= seq![("interpretation"@, "box"@)]);
    meta
}

/// The children of a compound property view (none for other properties).
pub open spec fn children_view(p: PropView) -> Seq<PropView> {
    match p.data {
        PropDataView::Compound(cs) => cs,
        _ => Seq::empty(),
    }
}

/// The view `p` with children `cs`.
pub open spec fn with_children(p: PropView, cs: Seq<PropView>) -> PropView {
    PropView { data: PropDataView::Compound(cs), ..p }
}

/// `i` is the first child view called `name`.
pub open spec fn is_first_named_v(cs: Seq<PropView>, name: Seq<char>, i: int) -> bool {
    0 <= i < cs.len() && cs[i].name == name && forall|j: int| 0 <= j < i ==> cs[j].name != name
}

/// The position of the first child view called `name`, if any.
pub open spec fn first_named(cs: Seq<PropView>, name: Seq<char>) -> Option<int> {
    if exists|i: int| is_first_named_v(cs, name, i) {
        Some(choose|i: int| is_first_named_v(cs, name, i))
    } else {
        None
    }
}

/// The view of a property a schema creates (see `is_created_child`).
pub open spec fn created_view(
    kind: ChildKind,
    name: Seq<char>,
    dt: DataType,
    meta: Seq<(Seq<char>, Seq<char>)>,
    ts: u32,
) -> PropView {
    PropView {
        name,
        data_type: if kind == ChildKind::Compound { DataType { pod: PlainOldDataType::Unknown, extent: 0 } } else { dt },
        meta,
        time_sampling_index: ts,
        first_changed_index: 0,
        last_changed_index: 0,
        data: match kind {
            ChildKind::Scalar => PropDataView::Scalar(Seq::empty()),
            ChildKind::Array => PropDataView::Array(Seq::empty()),
            ChildKind::Compound => PropDataView::Compound(Seq::empty()),
        },
        is_scalar_like: kind != ChildKind::Compound,
        data_write_order: u32::MAX,
    }
}

/// Looking up the first child called `name`, or appending a created one:
/// the children afterwards and the position of the child.
pub open spec fn lookup_or_create(
    cs: Seq<PropView>,
    kind: ChildKind,
    name: Seq<char>,
    dt: DataType,
    meta: Seq<(Seq<char>, Seq<char>)>,
    ts: u32,
) -> (Seq<PropView>, int) {
    match first_named(cs, name) {
        Some(i) => (cs, i),
        None => (cs.push(created_view(kind, name, dt, meta, ts)), cs.len() as int),
    }
}

/// The children after looking up or creating `name` and giving it write
/// order `order`.
pub open spec fn touch_v(
    cs: Seq<PropView>,
    kind: ChildKind,
    name: Seq<char>,
    dt: DataType,
    meta: Seq<(Seq<char>, Seq<char>)>,
    ts: u32,
    order: u32,
) -> Seq<PropView> {
    let (c, i) = lookup_or_create(cs, kind, name, dt, meta, ts);
    c.update(i, PropView { data_write_order: order, ..c[i] })
}

/// The children after looking up or creating the array `name` and
/// recording a sample in it.
pub open spec fn put_array_v(
    cs: Seq<PropView>,
    name: Seq<char>,
    dt: DataType,
    meta: Seq<(Seq<char>, Seq<char>)>,
    ts: u32,
    order: Option<u32>,
    data: Seq<u8>,
    dims: Seq<usize>,
) -> Seq<PropView> {
    let (c, i) = lookup_or_create(cs, ChildKind::Array, name, dt, meta, ts);
    c.update(i, add_array_view(with_order(c[i], order), data, dims))
}

/// A property view with write order `order`, when one is given.
pub open spec fn with_order(p: PropView, order: Option<u32>) -> PropView {
    match order {
        Some(o) => PropView { data_write_order: o, ..p },
        None => p,
    }
}

/// The children after looking up or creating the scalar `name` and
/// recording a sample in it.
pub open spec fn put_scalar_v(
    cs: Seq<PropView>,
    name: Seq<char>,
    dt: DataType,
    meta: Seq<(Seq<char>, Seq<char>)>,
    ts: u32,
    order: Option<u32>,
    data: Seq<u8>,
) -> Seq<PropView> {
    let (c, i) = lookup_or_create(cs, ChildKind::Scalar, name, dt, meta, ts);
    c.update(i, add_scalar_view(with_order(c[i], order), data))
}

/// The views of a list of properties.
pub open spec fn props_view(cs: Seq<OProperty>) -> Seq<PropView> {
    Seq::new(cs.len(), |i: int| prop_view(cs[i]))
}

/// The children view of a compound is the view of its children.
pub proof fn lemma_children_view(p: OProperty)
    requires
        p.data is Compound,
    ensures
        p.data matches OPropertyData::Compound(cs) && children_view(prop_view(p)) == props_view(cs@),
{
    match p.data {
        OPropertyData::Compound(cs) => {
            assert(children_view(prop_view(p)) =~= props_view(cs@));
        },
        _ => {},
    }
}

/// Looking up a name among views finds what looking it up among the
/// properties finds.
pub proof fn lemma_first_named_props(cs: Seq<OProperty>, name: Seq<char>)
    ensures
        first_named(props_view(cs), name) == find_named(cs, name),
{
    let vs = props_view(cs);
    assert forall|k: int| 0 <= k < cs.len() implies (#[trigger] vs[k]).name == cs[k].name@ by {
        assert(vs[k] == prop_view(cs[k]));
    }
    assert forall|k: int| is_first_named_v(vs, name, k) implies is_first_named(cs, name, k) by {
        assert(vs[k].name == cs[k].name@);
        assert forall|j: int| 0 <= j < k implies cs[j].name@ != name by {
            assert(vs[j].name == cs[j].name@);
            assert(vs[j].name != name);
        }
    }
    assert forall|k: int| is_first_named(cs, name, k) implies is_first_named_v(vs, name, k) by {
        assert(vs[k].name == cs[k].name@);
        assert forall|j: int| 0 <= j < k implies vs[j].name != name by {
            assert(vs[j].name == cs[j].name@);
            assert(cs[j].name@ != name);
        }
    }
    if exists|i: int| is_first_named(cs, name, i) {
        let i = choose|i: int| is_first_named(cs, name, i);
        assert(is_first_named_v(vs, name, i));
        let k = choose|k: int| is_first_named_v(vs, name, k);
        assert(is_first_named(cs, name, k));
        if k < i {
            assert(cs[k].name@ != name);
        } else if k > i {
            assert(cs[i].name@ != name);
        }
    } else {
        if exists|k: int| is_first_named_v(vs, name, k) {
            let k = choose|k: int| is_first_named_v(vs, name, k);
            assert(is_first_named(cs, name, k));
        }
    }
}

/// What `child_with` promises, in terms of views: the reference points at
/// the child `lookup_or_create` selects, and the compound afterwards holds
/// there whatever the reference ends up holding.
pub proof fn lemma_child_lookup_view(
    old_c: OProperty,
    new_c: OProperty,
    r: OProperty,
    r_final: OProperty,
    kind: ChildKind,
    name: Seq<char>,
    dt: DataType,
    meta: Seq<(Seq<char>, Seq<char>)>,
    ts: u32,
)
    requires
        child_lookup(old_c, new_c, r, r_final, kind, name, dt, meta, ts),
    ensures
        ({
            let (cs, i) = lookup_or_create(children_view(prop_view(old_c)), kind, name, dt, meta, ts);
            &&& 0 <= i < cs.len()
            &&& prop_view(r) == cs[i]
            &&& prop_view(new_c) == with_children(prop_view(old_c), cs.update(i, prop_view(r_final)))
        }),
{
    let oc = match old_c.data { OPropertyData::Compound(c) => c, _ => arbitrary() };
    let fc = match new_c.data { OPropertyData::Compound(c) => c, _ => arbitrary() };
    lemma_children_view(old_c);
    lemma_children_view(new_c);
    lemma_first_named_props(oc@, name);
    let ov = props_view(oc@);
    let (cs, i) = lookup_or_create(ov, kind, name, dt, meta, ts);
    match find_named(oc@, name) {
        Some(j) => {
            assert(fc@ =~= oc@.update(j, r_final));
            assert(props_view(fc@) =~= cs.update(i, prop_view(r_final)));
        },
        None => {
            assert(fc@ =~= oc@.push(r_final));
            assert(prop_view(r) == created_view(kind, name, dt, meta, ts)) by {
                match r.data {
                    OPropertyData::Scalar(s) => {
                        assert(scalar_views(s@) =~= Seq::<Seq<u8>>::empty());
                    },
                    OPropertyData::Array(s) => {
                        assert(array_views(s@) =~= Seq::<(Seq<u8>, Seq<usize>)>::empty());
                    },
                    OPropertyData::Compound(c) => {
                        assert(children_view(prop_view(r)) =~= Seq::<PropView>::empty());
                    },
                }
            }
            assert(props_view(fc@) =~= cs.update(i, prop_view(r_final)));
        },
    }
}

/// Look up or create the child `name` of a schema compound and give it
/// write order `order`.
pub fn touch_child(
    compound: &mut OProperty,
    kind: ChildKind,
    name: &str,
    dt: DataType,
    meta: MetaData,
    ts: u32,
    order: u32,
)
    requires
        old(compound).data is Compound,
    ensures
        final(compound).data is Compound,
        final(compound)@ == with_children(
            old(compound)@,
            touch_v(children_view(old(compound)@), kind, name@, dt, metadata_pairs(meta), ts, order),
        ),
{
    let ghost old_c = *compound;
    let ghost mp = metadata_pairs(meta);
    let c = child_with(compound, kind, name, dt, meta, ts);
    let ghost r0 = *c;
    c.data_write_order = order;
    let ghost rf = *c;
    proof {
        lemma_child_lookup_view(old_c, *compound, r0, rf, kind, name@, dt, mp, ts);
        let (cs, i) = lookup_or_create(children_view(prop_view(old_c)), kind, name@, dt, mp, ts);
        assert(prop_view(rf) == PropView { data_write_order: order, ..cs[i] });
    }
}

/// Look up or create the array `name` of a schema compound and record a
/// sample in it.
pub fn put_array(
    compound: &mut OProperty,
    name: &str,
    dt: DataType,
    meta: MetaData,
    ts: u32,
    order: Option<u32>,
    data: &[u8],
    dims: &[usize],
)
    requires
        old(compound).data is Compound,
    ensures
        final(compound).data is Compound,
        final(compound)@ == with_children(
            old(compound)@,
            put_array_v(children_view(old(compound)@), name@, dt, metadata_pairs(meta), ts, order, data@, dims@),
        ),
{
    let ghost old_c = *compound;
    let ghost mp = metadata_pairs(meta);
    let c = child_with(compound, ChildKind::Array, name, dt, meta, ts);
    let ghost r0 = *c;
    if let Some(o) = order {
        c.data_write_order = o;
    }
    c.add_array_sample(data, dims);
    let ghost rf = *c;
    proof {
        lemma_child_lookup_view(old_c, *compound, r0, rf, ChildKind::Array, name@, dt, mp, ts);
    }
}

/// Look up or create the scalar `name` of a schema compound and record a
/// sample in it.
pub fn put_scalar(
    compound: &mut OProperty,
    name: &str,
    dt: DataType,
    meta: MetaData,
    ts: u32,
    order: Option<u32>,
    data: &[u8],
)
    requires
        old(compound).data is Compound,
    ensures
        final(compound).data is Compound,
        final(compound)@ == with_children(
            old(compound)@,
            put_scalar_v(children_view(old(compound)@), name@, dt, metadata_pairs(meta), ts, order, data@),
        ),
{
    let ghost old_c = *compound;
    let ghost mp = metadata_pairs(meta);
    let c = child_with(compound, ChildKind::Scalar, name, dt, meta, ts);
    let ghost r0 = *c;
    if let Some(o) = order {
        c.data_write_order = o;
    }
    c.add_scalar_sample(data);
    let ghost rf = *c;
    proof {
        lemma_child_lookup_view(old_c, *compound, r0, rf, ChildKind::Scalar, name@, dt, mp, ts);
    }
}

/// The children after looking up or creating the array `name` (with no
/// metadata), giving it time sampling `ts` and write order `order` (when
/// given) and recording a sample in it.
pub open spec fn vals_put_v(
    cs: Seq<PropView>,
    name: Seq<char>,
    dt: DataType,
    ts: u32,
    order: Option<u32>,
    data: Seq<u8>,
    dims: Seq<usize>,
) -> Seq<PropView> {
    let (c, i) = lookup_or_create(cs, ChildKind::Array, name, dt, Seq::empty(), 0);
    c.update(i, add_array_view(with_order(PropView { time_sampling_index: ts, ..c[i] }, order), data, dims))
}

/// The metadata of a geometry parameter compound: `meta` with the
/// parameter keys set (float32 values of extent `extent`, face-varying).
pub open spec fn geom_param_meta(meta: Seq<(Seq<char>, Seq<char>)>, extent: Seq<char>) -> Seq<(Seq<char>, Seq<char>)> {
    pairs_with(
        pairs_with(pairs_with(pairs_with(meta, "isGeomParam"@, "true"@), "podName"@, "float32_t"@), "podExtent"@, extent),
        "geoScope"@,
        "fvr"@,
    )
}

/// The data type of an index array.
pub open spec fn index_type() -> DataType {
    DataType { pod: PlainOldDataType::Int32, extent: 1 }
}

/// The children after recording a geometry parameter sample: the compound
/// `name` (looked up or created) gets the parameter metadata, its `.vals`
/// array the values and, when given, its `.indices` array the indices.
pub open spec fn geom_param_v(
    cs: Seq<PropView>,
    name: Seq<char>,
    extent: Seq<char>,
    dt: DataType,
    ts: u32,
    vals_order: Option<u32>,
    data: Seq<u8>,
    dims: Seq<usize>,
    indices: Option<(Seq<u8>, Seq<usize>)>,
    idx_order: Option<u32>,
) -> Seq<PropView> {
    let (c, i) = lookup_or_create(cs, ChildKind::Compound, name, dt, Seq::empty(), 0);
    let m = PropView { meta: geom_param_meta(c[i].meta, extent), ..c[i] };
    let k1 = vals_put_v(children_view(m), ".vals"@, dt, ts, vals_order, data, dims);
    let k2 = match indices {
        Some((ib, id)) => vals_put_v(k1, ".indices"@, index_type(), ts, idx_order, ib, id),
        None => k1,
    };
    c.update(i, with_children(m, k2))
}

/// The child called `name`, if there is one, is a compound.
pub open spec fn compound_if_present(cs: Seq<PropView>, name: Seq<char>) -> bool {
    first_named(cs, name) matches Some(i) ==> cs[i].data is Compound
}

proof fn lemma_compound_present(c: OProperty, name: Seq<char>)
    requires
        c.data is Compound,
        compound_if_present(children_view(prop_view(c)), name),
    ensures
        c.data matches OPropertyData::Compound(oc) && (find_named(oc@, name) matches Some(i) ==> oc@[i].data is Compound),
{
    lemma_children_view(c);
    match c.data {
        OPropertyData::Compound(oc) => {
            lemma_first_named_props(oc@, name);
            match find_named(oc@, name) {
                Some(i) => {
                    assert(props_view(oc@)[i] == prop_view(oc@[i]));
                },
                None => {},
            }
        },
        _ => {},
    }
}

fn vals_into(
    compound: &mut OProperty,
    name: &str,
    dt: DataType,
    ts: u32,
    order: Option<u32>,
    data: &[u8],
    dims: &[usize],
)
    requires
        old(compound).data is Compound,
    ensures
        final(compound).data is Compound,
        final(compound)@ == with_children(
            old(compound)@,
            vals_put_v(children_view(old(compound)@), name@, dt, ts, order, data@, dims@),
        ),
{
    let ghost old_c = *compound;
    let md = MetaData::new();
    let ghost mp = metadata_pairs(md);
    let c = child_with(compound, ChildKind::Array, name, dt, md, 0);
    let ghost r0 = *c;
    c.time_sampling_index = ts;
    if let Some(o) = order {
        c.data_write_order = o;
    }
    c.add_array_sample(data, dims);
    let ghost rf = *c;
    proof {
        lemma_child_lookup_view(old_c, *compound, r0, rf, ChildKind::Array, name@, dt, mp, 0);
    }
}

/// Record a geometry parameter sample (values and optional indices) in the
/// compound `name` of a schema compound, creating what is missing.
pub fn put_geom_param(
    compound: &mut OProperty,
    name: &str,
    extent: &str,
    dt: DataType,
    ts: u32,
    vals_order: Option<u32>,
    data: &[u8],
    dims: &[usize],
    indices: Option<(&[u8], &[usize])>,
    idx_order: Option<u32>,
)
    requires
        old(compound).data is Compound,
        compound_if_present(children_view(old(compound)@), name@),
    ensures
        final(compound).data is Compound,
        final(compound)@ == with_children(
            old(compound)@,
            geom_param_v(
                children_view(old(compound)@),
                name@,
                extent@,
                dt,
                ts,
                vals_order,
                data@,
                dims@,
                match indices {
                    Some((ib, id)) => Some((ib@, id@)),
                    None => None,
                },
                idx_order,
            ),
        ),
{
    let ghost old_c = *compound;
    let md = MetaData::new();
    let ghost mp = metadata_pairs(md);
    let n = child_with(compound, ChildKind::Compound, name, dt, md, 0);
    let ghost r0 = *n;
    proof {
        lemma_compound_present(old_c, name@);
    }
    n.meta_data.set("isGeomParam", "true");
    n.meta_data.set("podName", "float32_t");
    n.meta_data.set("podExtent", extent);
    n.meta_data.set("geoScope", "fvr");
    vals_into(n, ".vals", dt, ts, vals_order, data, dims);
    match indices {
        Some((ib, id)) => {
            vals_into(n, ".indices", DataType::INT32(), ts, idx_order, ib, id);
        },
        None => {},
    }
    let ghost rf = *n;
    proof {
        lemma_child_lookup_view(old_c, *compound, r0, rf, ChildKind::Compound, name@, dt, mp, 0);
    }
}

/// The bytes of an array of fixed-size elements and the number of elements.
pub struct PodArray {
    pub bytes: Vec<u8>,
    pub len: usize,
}

/// The child `lookup_or_create` selects carries the looked-up name.
pub proof fn lemma_lookup_name(
    cs: Seq<PropView>,
    kind: ChildKind,
    name: Seq<char>,
    dt: DataType,
    meta: Seq<(Seq<char>, Seq<char>)>,
    ts: u32,
)
    ensures
        ({
            let (c, i) = lookup_or_create(cs, kind, name, dt, meta, ts);
            &&& 0 <= i < c.len()
            &&& c[i].name == name
            &&& first_named(cs, name) matches Some(k) ==> c == cs && i == k
            &&& first_named(cs, name) is None ==> c == cs.push(created_view(kind, name, dt, meta, ts))
        }),
{
    if exists|i: int| is_first_named_v(cs, name, i) {
        let i = choose|i: int| is_first_named_v(cs, name, i);
        assert(is_first_named_v(cs, name, i));
    }
}

/// Replacing the child `lookup_or_create` selects by one of the same name
/// leaves the first child of any other name where and what it was.
pub proof fn lemma_update_other(
    cs: Seq<PropView>,
    kind: ChildKind,
    name: Seq<char>,
    dt: DataType,
    meta: Seq<(Seq<char>, Seq<char>)>,
    ts: u32,
    x: PropView,
    name2: Seq<char>,
)
    requires
        x.name == name,
        name2 != name,
    ensures
        ({
            let (c, i) = lookup_or_create(cs, kind, name, dt, meta, ts);
            let cs2 = c.update(i, x);
            &&& first_named(cs2, name2) == first_named(cs, name2)
            &&& first_named(cs, name2) matches Some(k) ==> cs2[k] == cs[k]
            &&& compound_if_present(cs2, name2) == compound_if_present(cs, name2)
        }),
{
    lemma_lookup_name(cs, kind, name, dt, meta, ts);
    let (c, i) = lookup_or_create(cs, kind, name, dt, meta, ts);
    let cs2 = c.update(i, x);
    assert forall|k: int| 0 <= k < cs.len() implies #[trigger] cs2[k].name == name2 <==> cs[k].name == name2 by {
        if k == i {
            assert(cs2[k].name == name);
            assert(c[k] == cs[k]);
        } else {
            assert(c[k] == cs[k]);
        }
    }
    assert forall|k: int| is_first_named_v(cs2, name2, k) <==> is_first_named_v(cs, name2, k) by {
        if 0 <= k < cs2.len() {
            if k == cs.len() {
                assert(cs2[k].name == name);
            } else {
                assert(cs2[k].name == name2 <==> cs[k].name == name2);
                if is_first_named_v(cs2, name2, k) {
                    assert forall|j: int| 0 <= j < k implies cs[j].name != name2 by {
                        assert(cs2[j].name == name2 <==> cs[j].name == name2);
                    }
                }
                if is_first_named_v(cs, name2, k) {
                    assert forall|j: int| 0 <= j < k implies cs2[j].name != name2 by {
                        assert(cs2[j].name == name2 <==> cs[j].name == name2);
                    }
                }
            }
        }
    }
    if exists|k: int| is_first_named_v(cs, name2, k) {
        let k = choose|k: int| is_first_named_v(cs, name2, k);
        assert(is_first_named_v(cs2, name2, k));
        assert(k != i) by {
            if k == i {
                assert(cs2[k].name == name);
            }
        }
        assert(cs2[k] == c[k]);
    } else {
        if exists|k: int| is_first_named_v(cs2, name2, k) {
            let k = choose|k: int| is_first_named_v(cs2, name2, k);
            assert(is_first_named_v(cs, name2, k));
        }
    }
}

/// The dimensions of a one-dimensional array of `len` elements.
pub fn dims_of(len: usize) -> (r: Vec<usize>)
    ensures
        r@ == seq![len],
{
    let mut d: Vec<usize> = Vec::new();
    d.push(len);
    assert(d@ =~= seq![len]);
    d
}

/// The view of a new, empty compound property called `name`.
pub open spec fn empty_compound_view(name: Seq<char>) -> PropView {
    created_view(ChildKind::Compound, name, DataType { pod: PlainOldDataType::Unknown, extent: 0 }, Seq::empty(), 0)
}

/// Schema metadata of an object: its schema, base type and title.
pub open spec fn schema_meta3(schema: Seq<char>, base: Seq<char>, title: Seq<char>) -> Seq<(Seq<char>, Seq<char>)> {
    seq![("schema"@, schema), ("schemaBaseType"@, base), ("schemaObjTitle"@, title)]
}

/// Schema metadata of a schema compound: its schema and base type.
pub open spec fn schema_meta2(schema: Seq<char>, base: Seq<char>) -> Seq<(Seq<char>, Seq<char>)> {
    seq![("schema"@, schema), ("schemaBaseType"@, base)]
}

/// Schema metadata of an object: its schema and title.
pub open spec fn schema_titled(schema: Seq<char>, title: Seq<char>) -> Seq<(Seq<char>, Seq<char>)> {
    seq![("schema"@, schema), ("schemaObjTitle"@, title)]
}

/// The metadata of a schema object.
pub fn object_meta(schema: &str, base: &str, title: &str) -> (r: MetaData)
    ensures
        metadata_pairs(r) == schema_meta3(schema@, base@, title@),
{
    proof {
        reveal_strlit("schema");
        reveal_strlit("schemaBaseType");
        reveal_strlit("schemaObjTitle");
    }
    let pairs = [("schema", schema), ("schemaBaseType", base), ("schemaObjTitle", title)];
    assert(pairs@ =~= seq![("schema", schema), ("schemaBaseType", base), ("schemaObjTitle", title)]);
    assert forall|i: int, j: int| 0 <= i < j < pairs@.len() implies pairs@[i].0@ != pairs@[j].0@ by {
        assert(pairs@[i].0@.len() != pairs@[j].0@.len() || pairs@[i].0@[6] != pairs@[j].0@[6]);
    }
    let r = meta_of(&pairs);
    assert(literal_pairs(pairs@) =~= schema_meta3(schema@, base@, title@));
    r
}

/// The metadata of a schema compound.
pub fn geom_meta(schema: &str, base: &str) -> (r: MetaData)
    ensures
        metadata_pairs(r) == schema_meta2(schema@, base@),
{
    proof {
        reveal_strlit("schema");
        reveal_strlit("schemaBaseType");
    }
    let pairs = [("schema", schema), ("schemaBaseType", base)];
    assert(pairs@ =~= seq![("schema", schema), ("schemaBaseType", base)]);
    assert(pairs@[0].0@.len() != pairs@[1].0@.len());
    let r = meta_of(&pairs);
    assert(literal_pairs(pairs@) =~= schema_meta2(schema@, base@));
    r
}

/// The metadata of a schema object without a base type.
pub fn titled_meta(schema: &str, title: &str) -> (r: MetaData)
    ensures
        metadata_pairs(r) == schema_titled(schema@, title@),
{
    proof {
        reveal_strlit("schema");
        reveal_strlit("schemaObjTitle");
    }
    let pairs = [("schema", schema), ("schemaObjTitle", title)];
    assert(pairs@ =~= seq![("schema", schema), ("schemaObjTitle", title)]);
    assert(pairs@[0].0@.len() != pairs@[1].0@.len());
    let r = meta_of(&pairs);
    assert(literal_pairs(pairs@) =~= schema_titled(schema@, title@));
    r
}

/// Every child view is a compound.
pub open spec fn all_compound(cs: Seq<PropView>) -> bool {
    forall|i: int| 0 <= i < cs.len() ==> (#[trigger] cs[i]).data is Compound
}

/// Recording a geometry parameter keeps a list of compounds a list of
/// compounds, in which every name is a compound where present.
pub proof fn lemma_geom_param_all_compound(
    cs: Seq<PropView>,
    name: Seq<char>,
    extent: Seq<char>,
    dt: DataType,
    ts: u32,
    vals_order: Option<u32>,
    data: Seq<u8>,
    dims: Seq<usize>,
    indices: Option<(Seq<u8>, Seq<usize>)>,
    idx_order: Option<u32>,
)
    ensures
        all_compound(cs) ==> compound_if_present(cs, name),
        all_compound(cs) ==> all_compound(geom_param_v(cs, name, extent, dt, ts, vals_order, data, dims, indices, idx_order)),
{
    lemma_lookup_name(cs, ChildKind::Compound, name, dt, Seq::empty(), 0);
    let (c, i) = lookup_or_create(cs, ChildKind::Compound, name, dt, Seq::empty(), 0);
    let r = geom_param_v(cs, name, extent, dt, ts, vals_order, data, dims, indices, idx_order);
    if all_compound(cs) {
        assert forall|k: int| 0 <= k < r.len() implies (#[trigger] r[k]).data is Compound by {
            if k != i {
                assert(r[k] == c[k]);
                if k < cs.len() {
                    assert(c[k] == cs[k]);
                }
            }
        }
    }
}

/// Looking up or creating a child, then changing it but not its name,
/// leaves whether a child of another name is a compound as it was.
pub proof fn lemma_touch_other(
    cs: Seq<PropView>,
    kind: ChildKind,
    name: Seq<char>,
    dt: DataType,
    meta: Seq<(Seq<char>, Seq<char>)>,
    ts: u32,
    order: u32,
    name2: Seq<char>,
)
    requires
        name2 != name,
    ensures
        compound_if_present(touch_v(cs, kind, name, dt, meta, ts, order), name2) == compound_if_present(cs, name2),
{
    lemma_lookup_name(cs, kind, name, dt, meta, ts);
    let (c, i) = lookup_or_create(cs, kind, name, dt, meta, ts);
    lemma_update_other(cs, kind, name, dt, meta, ts, PropView { data_write_order: order, ..c[i] }, name2);
}

/// Recording an array sample in the child `name` leaves whether a child of
/// another name is a compound as it was.
pub proof fn lemma_put_array_other(
    cs: Seq<PropView>,
    name: Seq<char>,
    dt: DataType,
    meta: Seq<(Seq<char>, Seq<char>)>,
    ts: u32,
    order: Option<u32>,
    data: Seq<u8>,
    dims: Seq<usize>,
    name2: Seq<char>,
)
    requires
        name2 != name,
    ensures
        compound_if_present(put_array_v(cs, name, dt, meta, ts, order, data, dims), name2) == compound_if_present(
            cs,
            name2,
        ),
{
    lemma_lookup_name(cs, ChildKind::Array, name, dt, meta, ts);
    let (c, i) = lookup_or_create(cs, ChildKind::Array, name, dt, meta, ts);
    lemma_update_other(cs, ChildKind::Array, name, dt, meta, ts, add_array_view(with_order(c[i], order), data, dims), name2);
}

/// Recording a scalar sample in the child `name` leaves whether a child of
/// another name is a compound as it was.
pub proof fn lemma_put_scalar_other(
    cs: Seq<PropView>,
    name: Seq<char>,
    dt: DataType,
    meta: Seq<(Seq<char>, Seq<char>)>,
    ts: u32,
    order: Option<u32>,
    data: Seq<u8>,
    name2: Seq<char>,
)
    requires
        name2 != name,
    ensures
        compound_if_present(put_scalar_v(cs, name, dt, meta, ts, order, data), name2) == compound_if_present(
            cs,
            name2,
        ),
{
    lemma_lookup_name(cs, ChildKind::Scalar, name, dt, meta, ts);
    let (c, i) = lookup_or_create(cs, ChildKind::Scalar, name, dt, meta, ts);
    lemma_update_other(cs, ChildKind::Scalar, name, dt, meta, ts, add_scalar_view(with_order(c[i], order), data), name2);
}

/// The state of a geometry schema writer: the object, the schema compound
/// and the time sampling of animated properties.
pub struct GeomSchemaView {
    pub object: OObject,
    pub geom: PropView,
    pub time_sampling_index: u32,
}

/// The children after looking up or creating the scalar `name` (with no
/// metadata and time sampling 0), then setting its metadata, time sampling
/// and write order and recording a sample in it.
pub open spec fn put_scalar_set_v(
    cs: Seq<PropView>,
    name: Seq<char>,
    dt: DataType,
    meta: Seq<(Seq<char>, Seq<char>)>,
    ts: u32,
    order: u32,
    data: Seq<u8>,
) -> Seq<PropView> {
    let (c, i) = lookup_or_create(cs, ChildKind::Scalar, name, dt, Seq::empty(), 0);
    c.update(
        i,
        add_scalar_view(PropView { meta, time_sampling_index: ts, data_write_order: order, ..c[i] }, data),
    )
}

/// Look up or create the scalar `name`, set its metadata, time sampling and
/// write order, and record a sample in it.
pub fn put_scalar_set(
    compound: &mut OProperty,
    name: &str,
    dt: DataType,
    meta: MetaData,
    ts: u32,
    order: u32,
    data: &[u8],
)
    requires
        old(compound).data is Compound,
    ensures
        final(compound).data is Compound,
        final(compound)@ == with_children(
            old(compound)@,
            put_scalar_set_v(children_view(old(compound)@), name@, dt, metadata_pairs(meta), ts, order, data@),
        ),
{
    let ghost old_c = *compound;
    let md = MetaData::new();
    let ghost mp = metadata_pairs(md);
    let c = child_with(compound, ChildKind::Scalar, name, dt, md, 0);
    let ghost r0 = *c;
    c.meta_data = meta;
    c.time_sampling_index = ts;
    c.data_write_order = order;
    c.add_scalar_sample(data);
    let ghost rf = *c;
    proof {
        lemma_child_lookup_view(old_c, *compound, r0, rf, ChildKind::Scalar, name@, dt, mp, 0);
    }
}

/// Recording a geometry parameter `name` leaves whether a child of another
/// name is a compound as it was.
pub proof fn lemma_geom_param_other(
    cs: Seq<PropView>,
    name: Seq<char>,
    extent: Seq<char>,
    dt: DataType,
    ts: u32,
    vals_order: Option<u32>,
    data: Seq<u8>,
    dims: Seq<usize>,
    indices: Option<(Seq<u8>, Seq<usize>)>,
    idx_order: Option<u32>,
    name2: Seq<char>,
)
    requires
        name2 != name,
    ensures
        compound_if_present(
            geom_param_v(cs, name, extent, dt, ts, vals_order, data, dims, indices, idx_order),
            name2,
        ) == compound_if_present(cs, name2),
{
    lemma_lookup_name(cs, ChildKind::Compound, name, dt, Seq::empty(), 0);
    let (c, i) = lookup_or_create(cs, ChildKind::Compound, name, dt, Seq::empty(), 0);
    let m = PropView { meta: geom_param_meta(c[i].meta, extent), ..c[i] };
    let k1 = vals_put_v(children_view(m), ".vals"@, dt, ts, vals_order, data, dims);
    let k2 = match indices {
        Some((ib, id)) => vals_put_v(k1, ".indices"@, index_type(), ts, idx_order, ib, id),
        None => k1,
    };
    lemma_update_other(cs, ChildKind::Compound, name, dt, Seq::empty(), 0, with_children(m, k2), name2);
}

/// The four little-endian bytes of a 32-bit integer.
pub open spec fn i32_le(v: i32) -> Seq<u8> {
    crate::ogawa::le::le_bytes(v as u32 as nat, 4)
}

/// The stored bytes of a 32-bit integer, least significant first.
pub fn i32_le_bytes(v: i32) -> (r: Vec<u8>)
    ensures
        r@ == i32_le(v),
{
    let mut buf: Vec<u8> = Vec::new();
    crate::ogawa::writer::write_util::write_with_hint(&mut buf, v as u32, 2);
    assert(buf@ =~= i32_le(v));
    buf
}

/// The stored bytes of a list of 32-bit integers, each least significant
/// byte first.
pub open spec fn i32s_le(vs: Seq<i32>) -> Seq<u8>
    decreases vs.len(),
{
    if vs.len() == 0 {
        Seq::empty()
    } else {
        i32s_le(vs.drop_last()) + i32_le(vs.last())
    }
}

/// The stored form of an array of 32-bit integers: their bytes and their
/// number.
pub fn i32_array(values: &[i32]) -> (r: PodArray)
    ensures
        r.bytes@ == i32s_le(values@),
        r.len == values@.len(),
{
    let mut bytes: Vec<u8> = Vec::new();
    let mut i: usize = 0;
    while i < values.len()
        invariant
            i <= values@.len(),
            bytes@ == i32s_le(values@.subrange(0, i as int)),
        decreases values@.len() - i,
    {
        let b = i32_le_bytes(values[i]);
        crate::ogawa::writer::write_util::extend_bytes(&mut bytes, b.as_slice());
        assert(values@.subrange(0, i + 1).drop_last() =~= values@.subrange(0, i as int));
        i = i + 1;
    }
    assert(values@.subrange(0, values@.len() as int) =~= values@);
    PodArray { bytes, len: values.len() }
}

/// An optional array recorded in the child `name` with write order
/// `order` (created without metadata, with time sampling 0).
pub open spec fn put_opt_v(
    cs: Seq<PropView>,
    a: Option<PodArray>,
    name: Seq<char>,
    dt: DataType,
    order: u32,
) -> Seq<PropView> {
    match a {
        Some(v) => put_array_v(cs, name, dt, Seq::empty(), 0, Some(order), v.bytes@, seq![v.len]),
        None => cs,
    }
}

/// Record an optional array in the child `name` with write order `order`.
pub fn put_opt(compound: &mut OProperty, a: &Option<PodArray>, name: &str, dt: DataType, order: u32)
    requires
        old(compound).data is Compound,
    ensures
        final(compound).data is Compound,
        final(compound)@ == with_children(
            old(compound)@,
            put_opt_v(children_view(old(compound)@), *a, name@, dt, order),
        ),
{
    match a {
        Some(v) => {
            let d = dims_of(v.len);
            put_array(compound, name, dt, MetaData::new(), 0, Some(order), v.bytes.as_slice(), d.as_slice());
        },
        None => {},
    }
}

/// Recording an optional array in the child `name` leaves whether a child
/// of another name is a compound as it was.
pub proof fn lemma_put_opt_other(cs: Seq<PropView>, a: Option<PodArray>, name: Seq<char>, dt: DataType, order: u32, name2: Seq<char>)
    requires
        name2 != name,
    ensures
        compound_if_present(put_opt_v(cs, a, name, dt, order), name2) == compound_if_present(cs, name2),
{
    match a {
        Some(v) => {
            lemma_put_array_other(cs, name, dt, Seq::empty(), 0, Some(order), v.bytes@, seq![v.len], name2);
        },
        None => {},
    }
}

/// The values and element count of an optional array.
pub open spec fn opt_view(a: Option<PodArray>) -> Option<(Seq<u8>, Seq<usize>)> {
    match a {
        Some(v) => Some((v.bytes@, seq![v.len])),
        None => None,
    }
}

/// After recording a geometry parameter `name`, the child `name` is a
/// compound.
pub proof fn lemma_geom_param_self(
    cs: Seq<PropView>,
    name: Seq<char>,
    extent: Seq<char>,
    dt: DataType,
    ts: u32,
    vals_order: Option<u32>,
    data: Seq<u8>,
    dims: Seq<usize>,
    indices: Option<(Seq<u8>, Seq<usize>)>,
    idx_order: Option<u32>,
)
    ensures
        compound_if_present(geom_param_v(cs, name, extent, dt, ts, vals_order, data, dims, indices, idx_order), name),
{
    lemma_lookup_name(cs, ChildKind::Compound, name, dt, Seq::empty(), 0);
    let (c, i) = lookup_or_create(cs, ChildKind::Compound, name, dt, Seq::empty(), 0);
    let r = geom_param_v(cs, name, extent, dt, ts, vals_order, data, dims, indices, idx_order);
    assert(r[i].name == name);
    assert(r[i].data is Compound);
    if exists|k: int| is_first_named_v(r, name, k) {
        let k = choose|k: int| is_first_named_v(r, name, k);
        if k != i {
            assert(r[k] == c[k]);
            if k < i {
                match first_named(cs, name) {
                    Some(f) => {
                        assert(f == i);
                        assert(is_first_named_v(cs, name, f));
                        assert(c[k] == cs[k]);
                    },
                    None => {
                        assert(k < cs.len());
                        assert(c[k] == cs[k]);
                        assert(!is_first_named_v(cs, name, k));
                        assert(exists|j: int| 0 <= j < k && cs[j].name == name);
                        let j = choose|j: int| 0 <= j < k && cs[j].name == name;
                        assert(r[j] == cs[j]);
                    },
                }
            } else {
                assert(r[i].name == name);
            }
        }
    }
}

} // verus!
