//! Properties of the writer model: scalar, array and compound properties with
//! their samples and change tracking.

use vstd::prelude::*;
use crate::util::data_type::DataType;
use crate::util::metadata::{MetaData, metadata_pairs};
use crate::util::pod::PlainOldDataType;

verus! {

/// Property data variants.
#[derive(Debug)]
pub enum OPropertyData {
    /// Scalar property samples.
    Scalar(Vec<Vec<u8>>),
    /// Array property samples (data, dimensions).
    Array(Vec<(Vec<u8>, Vec<usize>)>),
    /// Compound property children.
    Compound(Vec<OProperty>),
}

/// Property for writing.
#[derive(Debug)]
pub struct OProperty {
    /// Property name.
    pub name: String,
    /// Data type.
    pub data_type: DataType,
    /// Metadata.
    pub meta_data: MetaData,
    /// Time sampling index.
    pub time_sampling_index: u32,
    /// First changed sample index.
    pub first_changed_index: u32,
    /// Last changed sample index.
    pub last_changed_index: u32,
    /// Property data.
    pub data: OPropertyData,
    /// Array property whose every sample holds exactly one element.
    pub is_scalar_like: bool,
    /// Order in which the property's data is written (lower first); the
    /// largest value means "in compound order".
    pub data_write_order: u32,
}

/// The data of a property as mathematical values.
pub enum PropDataView {
    Scalar(Seq<Seq<u8>>),
    Array(Seq<(Seq<u8>, Seq<usize>)>),
    Compound(Seq<PropView>),
}

/// A property as mathematical values: its description, its change range and
/// its samples or children.
pub struct PropView {
    pub name: Seq<char>,
    pub data_type: DataType,
    pub meta: Seq<(Seq<char>, Seq<char>)>,
    pub time_sampling_index: u32,
    pub first_changed_index: u32,
    pub last_changed_index: u32,
    pub data: PropDataView,
    pub is_scalar_like: bool,
    pub data_write_order: u32,
}

/// The view of a property.
pub open spec fn prop_view(p: OProperty) -> PropView
    decreases p,
{
    PropView {
        name: p.name@,
        data_type: p.data_type,
        meta: metadata_pairs(p.meta_data),
        time_sampling_index: p.time_sampling_index,
        first_changed_index: p.first_changed_index,
        last_changed_index: p.last_changed_index,
        data: match p.data {
            OPropertyData::Scalar(s) => PropDataView::Scalar(scalar_views(s@)),
            OPropertyData::Array(s) => PropDataView::Array(array_views(s@)),
            OPropertyData::Compound(cs) => PropDataView::Compound(
                Seq::new(cs@.len(), |i: int| if 0 <= i < cs@.len() { prop_view(cs@[i]) } else { arbitrary() }),
            ),
        },
        is_scalar_like: p.is_scalar_like,
        data_write_order: p.data_write_order,
    }
}

impl View for OProperty {
    type V = PropView;

    open spec fn view(&self) -> PropView {
        prop_view(*self)
    }
}

/// A property view after recording an array sample (see
/// `OProperty::add_array_sample`).
pub open spec fn add_array_view(p: PropView, data: Seq<u8>, dims: Seq<usize>) -> PropView {
    match p.data {
        PropDataView::Array(s) => {
            let same = s.len() > 0 && s.last() == (data, dims);
            let (f, l) = changes_after(p.first_changed_index, p.last_changed_index, s.len() as u32, same);
            PropView {
                data: PropDataView::Array(s.push((data, dims))),
                first_changed_index: f,
                last_changed_index: l,
                is_scalar_like: p.is_scalar_like && is_single_element(dims),
                ..p
            }
        },
        _ => p,
    }
}

/// A property view after recording a scalar sample (see
/// `OProperty::add_scalar_sample`).
pub open spec fn add_scalar_view(p: PropView, data: Seq<u8>) -> PropView {
    match p.data {
        PropDataView::Scalar(s) => {
            let same = s.len() > 0 && s.last() == data;
            let (f, l) = changes_after(p.first_changed_index, p.last_changed_index, s.len() as u32, same);
            PropView { data: PropDataView::Scalar(s.push(data)), first_changed_index: f, last_changed_index: l, ..p }
        },
        _ => p,
    }
}

/// The sample bytes of a scalar property.
pub open spec fn scalar_views(s: Seq<Vec<u8>>) -> Seq<Seq<u8>> {
    s.map_values(|v: Vec<u8>| v@)
}

/// The samples of an array property: bytes and dimensions.
pub open spec fn array_views(s: Seq<(Vec<u8>, Vec<usize>)>) -> Seq<(Seq<u8>, Seq<usize>)> {
    s.map_values(|v: (Vec<u8>, Vec<usize>)| (v.0@, v.1@))
}

/// A property as a constructor makes it: named `name`, no metadata, time
/// sampling 0, no changes recorded, default write order.
pub open spec fn is_fresh_property(p: OProperty, name: Seq<char>) -> bool {
    &&& p.name@ == name
    &&& metadata_pairs(p.meta_data).len() == 0
    &&& p.time_sampling_index == 0
    &&& p.first_changed_index == 0
    &&& p.last_changed_index == 0
    &&& p.data_write_order == u32::MAX
}

/// An empty scalar property of type `dt`.
pub open spec fn is_new_scalar(p: OProperty, name: Seq<char>, dt: DataType) -> bool {
    &&& is_fresh_property(p, name)
    &&& p.data_type == dt
    &&& p.data matches OPropertyData::Scalar(s) && s@.len() == 0
    &&& p.is_scalar_like
}

/// An empty array property of type `dt` (scalar-like until a sample of more
/// or fewer than one element arrives).
pub open spec fn is_new_array(p: OProperty, name: Seq<char>, dt: DataType) -> bool {
    &&& is_fresh_property(p, name)
    &&& p.data_type == dt
    &&& p.data matches OPropertyData::Array(s) && s@.len() == 0
    &&& p.is_scalar_like
}

/// An empty compound property.
pub open spec fn is_new_compound(p: OProperty, name: Seq<char>) -> bool {
    &&& is_fresh_property(p, name)
    &&& p.data_type == (DataType { pod: PlainOldDataType::Unknown, extent: 0 })
    &&& p.data matches OPropertyData::Compound(c) && c@.len() == 0
    &&& !p.is_scalar_like
}

/// The change range after recording sample `index`, which equals the
/// previous sample exactly when `same`: the first sample resets the range to
/// (0, 0); a differing later sample becomes the last change, and the first
/// change when none was recorded yet.
pub open spec fn changes_after(first: u32, last: u32, index: u32, same: bool) -> (u32, u32) {
    if index == 0 {
        (0, 0)
    } else if !same {
        (if first == 0 { index } else { first }, index)
    } else {
        (first, last)
    }
}

/// Two properties agree on everything but their data and change tracking.
pub open spec fn same_description(a: OProperty, b: OProperty) -> bool {
    &&& a.name == b.name
    &&& a.data_type == b.data_type
    &&& a.meta_data == b.meta_data
    &&& a.time_sampling_index == b.time_sampling_index
    &&& a.data_write_order == b.data_write_order
}

/// The product of the dimensions is 1 exactly when every dimension is 1.
pub open spec fn is_single_element(dims: Seq<usize>) -> bool {
    forall|i: int| 0 <= i < dims.len() ==> dims[i] == 1
}

/// Number of samples of a property (0 for a compound).
pub open spec fn sample_count(p: OProperty) -> nat {
    match p.data {
        OPropertyData::Scalar(s) => s@.len(),
        OPropertyData::Array(s) => s@.len(),
        OPropertyData::Compound(_) => 0,
    }
}


/// `i` is the first child called `name`.
pub open spec fn is_first_named(children: Seq<OProperty>, name: Seq<char>, i: int) -> bool {
    0 <= i < children.len() && children[i].name@ == name && forall|j: int|
        0 <= j < i ==> children[j].name@ != name
}

/// The position of the first child called `name`, if any.
pub open spec fn find_named(children: Seq<OProperty>, name: Seq<char>) -> Option<int> {
    if exists|i: int| is_first_named(children, name, i) {
        Some(choose|i: int| is_first_named(children, name, i))
    } else {
        None
    }
}

/// Two properties agree on everything but their data.
pub open spec fn only_data_differs(a: OProperty, b: OProperty) -> bool {
    &&& same_description(a, b)
    &&& a.first_changed_index == b.first_changed_index
    &&& a.last_changed_index == b.last_changed_index
    &&& a.is_scalar_like == b.is_scalar_like
}

/// Find the first property called `name`.
pub fn find_child(children: &Vec<OProperty>, name: &str) -> (r: Option<usize>)
    ensures
        r matches Some(i) ==> find_named(children@, name@) == Some(i as int),
        r is None ==> find_named(children@, name@) is None,
{
    let mut i: usize = 0;
    while i < children.len()
        invariant
            i <= children@.len(),
            forall|j: int| 0 <= j < i ==> children@[j].name@ != name@,
        decreases children@.len() - i,
    {
        if crate::util::text::str_equals(children[i].name.as_str(), name) {
            assert(is_first_named(children@, name@, i as int));
            let ghost k = choose|k: int| is_first_named(children@, name@, k);
            assert(k == i) by {
                if k < i {
                    assert(children@[k].name@ != name@);
                } else if k > i {
                    assert(children@[i as int].name@ != name@);
                }
            }
            return Some(i);
        }
        i = i + 1;
    }
    None
}

fn copy_bytes(data: &[u8]) -> (r: Vec<u8>)
    ensures
        r@ == data@,
{
    crate::ogawa::writer::write_util::bytes_to_vec(data)
}

fn copy_dims(dims: &[usize]) -> (r: Vec<usize>)
    ensures
        r@ == dims@,
{
    let mut out: Vec<usize> = Vec::with_capacity(dims.len());
    let mut i: usize = 0;
    while i < dims.len()
        invariant
            i <= dims@.len(),
            out@ == dims@.subrange(0, i as int),
        decreases dims@.len() - i,
    {
        out.push(dims[i]);
        i = i + 1;
    }
    assert(out@ =~= dims@);
    out
}

/// Compare two byte slices.
pub fn bytes_equal(a: &[u8], b: &[u8]) -> (r: bool)
    ensures
        r == (a@ == b@),
{
    if a.len() != b.len() {
        return false;
    }
    let mut i: usize = 0;
    while i < a.len()
        invariant
            a@.len() == b@.len(),
            i <= a@.len(),
            forall|j: int| 0 <= j < i ==> a@[j] == b@[j],
        decreases a@.len() - i,
    {
        if a[i] != b[i] {
            return false;
        }
        i = i + 1;
    }
    assert(a@ =~= b@);
    true
}

fn dims_equal(a: &[usize], b: &[usize]) -> (r: bool)
    ensures
        r == (a@ == b@),
{
    if a.len() != b.len() {
        return false;
    }
    let mut i: usize = 0;
    while i < a.len()
        invariant
            a@.len() == b@.len(),
            i <= a@.len(),
            forall|j: int| 0 <= j < i ==> a@[j] == b@[j],
        decreases a@.len() - i,
    {
        if a[i] != b[i] {
            return false;
        }
        i = i + 1;
    }
    assert(a@ =~= b@);
    true
}

fn all_ones(dims: &[usize]) -> (r: bool)
    ensures
        r == is_single_element(dims@),
{
    let mut i: usize = 0;
    while i < dims.len()
        invariant
            i <= dims@.len(),
            forall|j: int| 0 <= j < i ==> dims@[j] == 1,
        decreases dims@.len() - i,
    {
        if dims[i] != 1 {
            return false;
        }
        i = i + 1;
    }
    true
}

impl OProperty {
    /// Create a scalar property.
    pub fn scalar(name: &str, data_type: DataType) -> (r: Self)
        ensures
            is_new_scalar(r, name@, data_type),
    {
        Self {
            name: name.to_owned(),
            data_type,
            meta_data: MetaData::new(),
            time_sampling_index: 0,
            first_changed_index: 0,
            last_changed_index: 0,
            data: OPropertyData::Scalar(Vec::new()),
            is_scalar_like: true,
            data_write_order: u32::MAX,
        }
    }

    /// Create an array property.
    pub fn array(name: &str, data_type: DataType) -> (r: Self)
        ensures
            is_new_array(r, name@, data_type),
    {
        Self {
            name: name.to_owned(),
            data_type,
            meta_data: MetaData::new(),
            time_sampling_index: 0,
            first_changed_index: 0,
            last_changed_index: 0,
            data: OPropertyData::Array(Vec::new()),
            is_scalar_like: true,
            data_write_order: u32::MAX,
        }
    }

    /// Create an array property that behaves like a scalar (scalar-like).
    pub fn scalar_like_array(name: &str, data_type: DataType) -> (r: Self)
        ensures
            is_new_array(r, name@, data_type),
    {
        Self {
            name: name.to_owned(),
            data_type,
            meta_data: MetaData::new(),
            time_sampling_index: 0,
            first_changed_index: 0,
            last_changed_index: 0,
            data: OPropertyData::Array(Vec::new()),
            is_scalar_like: true,
            data_write_order: u32::MAX,
        }
    }

    /// Create a compound property.
    pub fn compound(name: &str) -> (r: Self)
        ensures
            is_new_compound(r, name@),
    {
        Self {
            name: name.to_owned(),
            data_type: DataType::UNKNOWN(),
            meta_data: MetaData::new(),
            time_sampling_index: 0,
            first_changed_index: 0,
            last_changed_index: 0,
            data: OPropertyData::Compound(Vec::new()),
            is_scalar_like: false,
            data_write_order: u32::MAX,
        }
    }

    /// Set metadata.
    pub fn with_meta_data(self, md: MetaData) -> (r: Self)
        ensures
            r == (OProperty { meta_data: md, ..self }),
    {
        let mut s = self;
        s.meta_data = md;
        s
    }

    /// Set time sampling index.
    pub fn with_time_sampling(self, index: u32) -> (r: Self)
        ensures
            r == (OProperty { time_sampling_index: index, ..self }),
    {
        let mut s = self;
        s.time_sampling_index = index;
        s
    }

    /// Add a scalar sample; a property that is not scalar is left unchanged.
    pub fn add_scalar_sample(&mut self, data: &[u8])
        ensures
            old(self).data matches OPropertyData::Scalar(old_s) ==> {
                let index = old_s@.len() as u32;
                let same = old_s@.len() > 0 && old_s@.last()@ == data@;
                let (f, l) = changes_after(
                    old(self).first_changed_index,
                    old(self).last_changed_index,
                    index,
                    same,
                );
                &&& final(self).data matches OPropertyData::Scalar(s) && scalar_views(s@)
                    == scalar_views(old_s@).push(data@)
                &&& final(self).first_changed_index == f
                &&& final(self).last_changed_index == l
                &&& final(self).is_scalar_like == old(self).is_scalar_like
                &&& same_description(*final(self), *old(self))
            },
            !(old(self).data is Scalar) ==> *final(self) == *old(self),
            final(self)@ == add_scalar_view(old(self)@, data@),
    {
        let first = self.first_changed_index;
        let last = self.last_changed_index;
        match &mut self.data {
            OPropertyData::Scalar(samples) => {
                let n = samples.len();
                let sample_index = n as u32;
                let is_same = n > 0 && bytes_equal(samples[n - 1].as_slice(), data);
                let ghost old_s = samples@;
                samples.push(copy_bytes(data));
                assert(scalar_views(samples@) =~= scalar_views(old_s).push(data@));
                if sample_index == 0 {
                    self.first_changed_index = 0;
                    self.last_changed_index = 0;
                } else if !is_same {
                    if first == 0 {
                        self.first_changed_index = sample_index;
                    }
                    self.last_changed_index = sample_index;
                }
            },
            _ => {},
        }
    }

    /// Add an array sample with its dimensions; a property that is not an
    /// array is left unchanged. A sample of other than exactly one element
    /// makes the property no longer scalar-like.
    pub fn add_array_sample(&mut self, data: &[u8], dims: &[usize])
        ensures
            old(self).data matches OPropertyData::Array(old_s) ==> {
                let index = old_s@.len() as u32;
                let same = old_s@.len() > 0 && array_views(old_s@).last() == (data@, dims@);
                let (f, l) = changes_after(
                    old(self).first_changed_index,
                    old(self).last_changed_index,
                    index,
                    same,
                );
                &&& final(self).data matches OPropertyData::Array(s) && array_views(s@)
                    == array_views(old_s@).push((data@, dims@))
                &&& final(self).first_changed_index == f
                &&& final(self).last_changed_index == l
                &&& final(self).is_scalar_like == (old(self).is_scalar_like && is_single_element(
                    dims@,
                ))
                &&& same_description(*final(self), *old(self))
            },
            !(old(self).data is Array) ==> *final(self) == *old(self),
            final(self)@ == add_array_view(old(self)@, data@, dims@),
    {
        let first = self.first_changed_index;
        let single = all_ones(dims);
        match &mut self.data {
            OPropertyData::Array(samples) => {
                let n = samples.len();
                let sample_index = n as u32;
                let is_same = n > 0 && bytes_equal(samples[n - 1].0.as_slice(), data) && dims_equal(
                    samples[n - 1].1.as_slice(),
                    dims,
                );
                let ghost old_s = samples@;
                proof {
                    if n > 0 {
                        assert(array_views(old_s).last() == (old_s.last().0@, old_s.last().1@));
                    }
                }
                samples.push((copy_bytes(data), copy_dims(dims)));
                assert(array_views(samples@) =~= array_views(old_s).push((data@, dims@)));
                if self.is_scalar_like && !single {
                    self.is_scalar_like = false;
                }
                if sample_index == 0 {
                    self.first_changed_index = 0;
                    self.last_changed_index = 0;
                } else if !is_same {
                    if first == 0 {
                        self.first_changed_index = sample_index;
                    }
                    self.last_changed_index = sample_index;
                }
            },
            _ => {},
        }
    }

    /// Add a scalar sample given as the stored bytes of one value.
    pub fn add_scalar_pod(&mut self, value: &[u8])
        ensures
            final(self)@ == add_scalar_view(old(self)@, value@),
    {
        self.add_scalar_sample(value);
    }

    /// Add an array sample of `len` values given as their stored bytes.
    pub fn add_array_pod(&mut self, values: &[u8], len: usize)
        ensures
            final(self)@ == add_array_view(old(self)@, values@, seq![len]),
    {
        let mut dims: Vec<usize> = Vec::new();
        dims.push(len);
        assert(dims@ =~= seq![len]);
        self.add_array_sample(values, dims.as_slice());
    }

    /// Add a child property to a compound; other properties are left
    /// unchanged and give `None`.
    pub fn add_child(&mut self, prop: OProperty) -> (r: Option<&mut OProperty>)
        ensures
            old(self).data matches OPropertyData::Compound(oc) ==> {
                &&& only_data_differs(*final(self), *old(self))
                &&& r matches Some(c)
                &&& *c == prop
                &&& final(self).data matches OPropertyData::Compound(fc)
                &&& fc@ == oc@.push(*final(c))
            },
            !(old(self).data is Compound) ==> r is None && *final(self) == *old(self),
    {
        match &mut self.data {
            OPropertyData::Compound(children) => {
                let n = children.len();
                children.push(prop);
                Some(&mut children[n])
            },
            _ => None,
        }
    }

    /// Get the first child called `name` of a compound, or append a new array
    /// property of type `dt` with that name and return it.
    pub fn get_or_create_array_child(&mut self, name: &str, dt: DataType) -> (r: &mut OProperty)
        requires
            old(self).data is Compound,
        ensures
            only_data_differs(*final(self), *old(self)),
            old(self).data matches OPropertyData::Compound(oc) ==> {
                &&& final(self).data matches OPropertyData::Compound(fc)
                &&& match find_named(oc@, name@) {
                    Some(i) => *r == oc@[i] && fc@ == oc@.update(i, *final(r)),
                    None => is_new_array(*r, name@, dt) && fc@ == oc@.push(*final(r)),
                }
            },
    {
        let found = match &self.data {
            OPropertyData::Compound(children) => find_child(children, name),
            _ => vstd::pervasive::unreached(),
        };
        let fresh = OProperty::array(name, dt);
        match &mut self.data {
            OPropertyData::Compound(children) => {
                let ghost oc = children@;
                match found {
                    Some(i) => {
                        assert(find_named(oc, name@) == Some(i as int));
                        let c = &mut children[i];
                        assert(*c == oc[i as int]);
                        c
                    },
                    None => {
                        let n = children.len();
                        assert(find_named(oc, name@) is None);
                        children.push(fresh);
                        let c = &mut children[n];
                        assert(*c == fresh);
                        c
                    },
                }
            },
            _ => vstd::pervasive::unreached(),
        }
    }

    /// Get the first child called `name` of a compound, or append a new
    /// scalar property of type `dt` with that name and return it.
    pub fn get_or_create_scalar_child(&mut self, name: &str, dt: DataType) -> (r: &mut OProperty)
        requires
            old(self).data is Compound,
        ensures
            only_data_differs(*final(self), *old(self)),
            old(self).data matches OPropertyData::Compound(oc) ==> {
                &&& final(self).data matches OPropertyData::Compound(fc)
                &&& match find_named(oc@, name@) {
                    Some(i) => *r == oc@[i] && fc@ == oc@.update(i, *final(r)),
                    None => is_new_scalar(*r, name@, dt) && fc@ == oc@.push(*final(r)),
                }
            },
    {
        let found = match &self.data {
            OPropertyData::Compound(children) => find_child(children, name),
            _ => vstd::pervasive::unreached(),
        };
        let fresh = OProperty::scalar(name, dt);
        match &mut self.data {
            OPropertyData::Compound(children) => {
                let ghost oc = children@;
                match found {
                    Some(i) => {
                        assert(find_named(oc, name@) == Some(i as int));
                        let c = &mut children[i];
                        assert(*c == oc[i as int]);
                        c
                    },
                    None => {
                        let n = children.len();
                        assert(find_named(oc, name@) is None);
                        children.push(fresh);
                        let c = &mut children[n];
                        assert(*c == fresh);
                        c
                    },
                }
            },
            _ => vstd::pervasive::unreached(),
        }
    }

    /// Get the first child called `name` of a compound, or append a new
    /// compound property with that name and return it.
    pub fn get_or_create_compound_child(&mut self, name: &str) -> (r: &mut OProperty)
        requires
            old(self).data is Compound,
        ensures
            only_data_differs(*final(self), *old(self)),
            old(self).data matches OPropertyData::Compound(oc) ==> {
                &&& final(self).data matches OPropertyData::Compound(fc)
                &&& match find_named(oc@, name@) {
                    Some(i) => *r == oc@[i] && fc@ == oc@.update(i, *final(r)),
                    None => is_new_compound(*r, name@) && fc@ == oc@.push(*final(r)),
                }
            },
    {
        let found = match &self.data {
            OPropertyData::Compound(children) => find_child(children, name),
            _ => vstd::pervasive::unreached(),
        };
        let fresh = OProperty::compound(name);
        match &mut self.data {
            OPropertyData::Compound(children) => {
                let ghost oc = children@;
                match found {
                    Some(i) => {
                        assert(find_named(oc, name@) == Some(i as int));
                        let c = &mut children[i];
                        assert(*c == oc[i as int]);
                        c
                    },
                    None => {
                        let n = children.len();
                        assert(find_named(oc, name@) is None);
                        children.push(fresh);
                        let c = &mut children[n];
                        assert(*c == fresh);
                        c
                    },
                }
            },
            _ => vstd::pervasive::unreached(),
        }
    }

    /// Number of samples (0 for a compound).
    #[allow(non_snake_case)]
    pub fn getNumSamples(&self) -> (r: usize)
        ensures
            r == sample_count(*self),
    {
        match &self.data {
            OPropertyData::Scalar(s) => s.len(),
            OPropertyData::Array(s) => s.len(),
            OPropertyData::Compound(_) => 0,
        }
    }
}

} // verus!
