//! Collections schema writer.

use vstd::prelude::*;
use crate::util::data_type::DataType;
use crate::util::metadata::{MetaData, metadata_pairs};
use crate::util::pod::PlainOldDataType;
use crate::ogawa::writer::object::OObject;
use crate::ogawa::writer::property::{OProperty, OPropertyData, PropView, prop_view, add_array_view};
use crate::ogawa::writer::write_util::{encode_string_array, string_array_bytes};
use crate::ogawa::writer::schema::util::{
    ChildKind, created_view, empty_compound_view, with_children, props_view, lemma_children_view,
    children_view,
};
use crate::ogawa::writer::schema::polymesh::dtype;

verus! {

/// Collections sample data: named lists of object paths, in the order the
/// names were first added; no name occurs twice.
pub struct OCollectionsSample {
    pub collections: Vec<(String, Vec<String>)>,
}

/// A list of paths as character sequences.
pub open spec fn path_views(v: Seq<String>) -> Seq<Seq<char>> {
    v.map_values(|p: String| p@)
}

/// The named path lists of a sample, as character sequences.
pub open spec fn collections_view(s: OCollectionsSample) -> Seq<(Seq<char>, Seq<Seq<char>>)> {
    s.collections@.map_values(|e: (String, Vec<String>)| (e.0@, path_views(e.1@)))
}

/// `i` is the first entry called `name`.
pub open spec fn is_first_entry(es: Seq<(Seq<char>, Seq<Seq<char>>)>, name: Seq<char>, i: int) -> bool {
    0 <= i < es.len() && es[i].0 == name && forall|j: int| 0 <= j < i ==> es[j].0 != name
}

/// The entries after adding `paths` under `name`: the paths of an existing
/// name are replaced in place, a new name is appended.
pub open spec fn with_collection(
    es: Seq<(Seq<char>, Seq<Seq<char>>)>,
    name: Seq<char>,
    paths: Seq<Seq<char>>,
) -> Seq<(Seq<char>, Seq<Seq<char>>)> {
    if exists|i: int| is_first_entry(es, name, i) {
        es.update(choose|i: int| is_first_entry(es, name, i), (name, paths))
    } else {
        es.push((name, paths))
    }
}

/// No name occurs twice.
pub open spec fn names_unique(es: Seq<(Seq<char>, Seq<Seq<char>>)>) -> bool {
    forall|i: int, j: int| 0 <= i < j < es.len() ==> es[i].0 != es[j].0
}

impl OCollectionsSample {
    /// Create empty collections sample.
    pub fn new() -> (r: Self)
        ensures
            collections_view(r).len() == 0,
    {
        Self { collections: Vec::new() }
    }

    /// Add a collection, replacing the paths of one of the same name.
    pub fn add_collection(&mut self, name: &str, paths: Vec<String>)
        ensures
            collections_view(*final(self)) == with_collection(
                collections_view(*old(self)),
                name@,
                path_views(paths@),
            ),
            names_unique(collections_view(*old(self))) ==> names_unique(collections_view(*final(self))),
    {
        let ghost es = collections_view(*self);
        let ghost pv = path_views(paths@);
        let mut i: usize = 0;
        while i < self.collections.len()
            invariant
                i <= self.collections@.len(),
                es == collections_view(*self),
                es == collections_view(*old(self)),
                pv == path_views(paths@),
                forall|j: int| 0 <= j < i ==> es[j].0 != name@,
            decreases self.collections@.len() - i,
        {
            if crate::util::text::str_equals(self.collections[i].0.as_str(), name) {
                assert(is_first_entry(es, name@, i as int));
                let ghost k = choose|k: int| is_first_entry(es, name@, k);
                assert(k == i) by {
                    if k < i {
                        assert(es[k].0 != name@);
                    } else if k > i {
                        assert(es[i as int].0 != name@);
                    }
                }
                let ghost before = self.collections@;
                self.collections.set(i, (name.to_owned(), paths));
                assert(self.collections@ == before.update(i as int, self.collections@[i as int]));
                assert(collections_view(*self) =~= es.update(i as int, (name@, pv)));
                return;
            }
            i = i + 1;
        }
        self.collections.push((name.to_owned(), paths));
        assert(collections_view(*self) =~= es.push((name@, pv)));
    }
}

impl Default for OCollectionsSample {
    fn default() -> (r: Self)
        ensures
            collections_view(r).len() == 0,
    {
        Self::new()
    }
}

/// Collections schema writer.
pub struct OCollections {
    object: OObject,
    sample: OCollectionsSample,
}

/// The state of a collections writer: the object and the collections added.
pub struct CollectionsView {
    pub object: OObject,
    pub collections: Seq<(Seq<char>, Seq<Seq<char>>)>,
}

impl View for OCollections {
    type V = CollectionsView;

    closed spec fn view(&self) -> CollectionsView {
        CollectionsView { object: self.object, collections: collections_view(self.sample) }
    }
}

/// The property of one collection: a string array holding its paths as its
/// only sample.
pub open spec fn collection_prop_view(e: (Seq<char>, Seq<Seq<char>>)) -> PropView {
    add_array_view(
        created_view(ChildKind::Array, e.0, dtype(PlainOldDataType::String, 1), Seq::empty(), 0),
        string_array_bytes(e.1),
        seq![e.1.len() as usize],
    )
}

/// The `.collections` compound holding one property per collection, in order.
pub open spec fn collections_compound_view(es: Seq<(Seq<char>, Seq<Seq<char>>)>) -> PropView {
    with_children(empty_compound_view(".collections"@), Seq::new(es.len(), |i: int| collection_prop_view(es[i])))
}

impl OCollections {
    /// Create new Collections.
    pub fn new(name: &str) -> (r: Self)
        ensures
            r@.object.name@ == name@,
            metadata_pairs(r@.object.meta_data) == seq![("schema"@, "AbcCollection_Collection_v1"@)],
            r@.object.children@.len() == 0,
            r@.object.properties@.len() == 0,
            r@.collections.len() == 0,
    {
        let mut object = OObject::new(name);
        let mut meta = MetaData::new();
        meta.set("schema", "AbcCollection_Collection_v1");
        assert(metadata_pairs(meta) =~= seq![("schema"@, "AbcCollection_Collection_v1"@)]);
        object.meta_data = meta;
        Self { object, sample: OCollectionsSample::new() }
    }

    /// Add a collection, replacing the paths of one of the same name.
    pub fn add_collection(&mut self, name: &str, paths: Vec<String>)
        ensures
            final(self)@ == (CollectionsView {
                collections: with_collection(old(self)@.collections, name@, path_views(paths@)),
                ..old(self)@
            }),
    {
        self.sample.add_collection(name, paths);
    }

    /// Build the object: a `.collections` compound with one string array per
    /// collection, in the order the collections were added, follows the
    /// object's properties.
    pub fn build(self) -> (r: OObject)
        ensures
            r.name == self@.object.name,
            r.meta_data == self@.object.meta_data,
            r.children == self@.object.children,
            props_view(r.properties@) == props_view(self@.object.properties@).push(
                collections_compound_view(self@.collections),
            ),
    {
        let ghost es = self@.collections;
        let mut object = self.object;
        let ghost before = props_view(object.properties@);
        let mut coll = OProperty::compound(".collections");
        let mut children: Vec<OProperty> = Vec::new();
        let mut i: usize = 0;
        while i < self.sample.collections.len()
            invariant
                i <= self.sample.collections@.len(),
                es == collections_view(self.sample),
                props_view(children@) == Seq::new(i as nat, |k: int| collection_prop_view(es[k])),
            decreases self.sample.collections@.len() - i,
        {
            let name = self.sample.collections[i].0.as_str();
            let paths = &self.sample.collections[i].1;
            let data = encode_string_array(paths.as_slice());
            let mut prop = OProperty::array(name, DataType::new(PlainOldDataType::String, 1));
            let mut dims: Vec<usize> = Vec::new();
            dims.push(paths.len());
            proof {
                match &prop.data {
                    OPropertyData::Array(s) => {
                        assert(crate::ogawa::writer::property::array_views(s@) =~= Seq::<(Seq<u8>, Seq<usize>)>::empty());
                    },
                    _ => {},
                }
                assert(prop_view(prop).meta =~= Seq::<(Seq<char>, Seq<char>)>::empty());
                assert(prop_view(prop) == created_view(ChildKind::Array, es[i as int].0, dtype(PlainOldDataType::String, 1), Seq::empty(), 0));
                assert(path_views(paths@) == es[i as int].1);
                assert(dims@ =~= seq![es[i as int].1.len() as usize]);
            }
            prop.add_array_sample(data.as_slice(), dims.as_slice());
            let ghost pv = prop_view(prop);
            let ghost prev = props_view(children@);
            children.push(prop);
            assert(props_view(children@) =~= prev.push(pv));
            assert(props_view(children@) =~= Seq::new((i + 1) as nat, |k: int| collection_prop_view(es[k])));
            i = i + 1;
        }
        coll.data = OPropertyData::Compound(children);
        proof {
            lemma_children_view(coll);
            assert(children_view(prop_view(coll)) =~= Seq::new(es.len(), |k: int| collection_prop_view(es[k])));
            assert(prop_view(coll).meta =~= Seq::<(Seq<char>, Seq<char>)>::empty());
            assert(prop_view(coll) == collections_compound_view(es));
        }
        let ghost cv = prop_view(coll);
        object.properties.push(coll);
        assert(props_view(object.properties@) =~= before.push(cv));
        object
    }
}

} // verus!
