//! Objects of the writer model: a named node with metadata, child objects
//! and properties.

use vstd::prelude::*;
use crate::util::data_type::DataType;
use crate::util::metadata::{MetaData, metadata_pairs};
use crate::ogawa::writer::property::{OProperty, is_new_scalar, is_new_array};

verus! {

/// Object for writing to an archive.
#[derive(Debug)]
pub struct OObject {
    /// Object name.
    pub name: String,
    /// Object metadata.
    pub meta_data: MetaData,
    /// Child objects.
    pub children: Vec<OObject>,
    /// Properties.
    pub properties: Vec<OProperty>,
}

impl OObject {
    /// Create a new object with no metadata, children or properties.
    pub fn new(name: &str) -> (r: Self)
        ensures
            r.name@ == name@,
            metadata_pairs(r.meta_data).len() == 0,
            r.children@.len() == 0,
            r.properties@.len() == 0,
    {
        Self {
            name: name.to_owned(),
            meta_data: MetaData::new(),
            children: Vec::new(),
            properties: Vec::new(),
        }
    }

    /// Set metadata.
    pub fn with_meta_data(self, md: MetaData) -> (r: Self)
        ensures
            r == (OObject { meta_data: md, ..self }),
    {
        let mut s = self;
        s.meta_data = md;
        s
    }

    /// Add a child object and return it.
    pub fn add_child(&mut self, child: OObject) -> (r: &mut OObject)
        ensures
            *r == child,
            final(self).children@ == old(self).children@.push(*final(r)),
            final(self).name == old(self).name,
            final(self).meta_data == old(self).meta_data,
            final(self).properties == old(self).properties,
    {
        let n = self.children.len();
        self.children.push(child);
        &mut self.children[n]
    }

    /// Add a property and return it.
    pub fn add_property(&mut self, prop: OProperty) -> (r: &mut OProperty)
        ensures
            *r == prop,
            final(self).properties@ == old(self).properties@.push(*final(r)),
            final(self).name == old(self).name,
            final(self).meta_data == old(self).meta_data,
            final(self).children == old(self).children,
    {
        let n = self.properties.len();
        self.properties.push(prop);
        &mut self.properties[n]
    }

    /// Create, add and return an empty scalar property.
    pub fn add_scalar(&mut self, name: &str, data_type: DataType) -> (r: &mut OProperty)
        ensures
            is_new_scalar(*r, name@, data_type),
            final(self).properties@ == old(self).properties@.push(*final(r)),
            final(self).name == old(self).name,
            final(self).meta_data == old(self).meta_data,
            final(self).children == old(self).children,
    {
        let prop = OProperty::scalar(name, data_type);
        self.add_property(prop)
    }

    /// Create, add and return an empty array property.
    pub fn add_array(&mut self, name: &str, data_type: DataType) -> (r: &mut OProperty)
        ensures
            is_new_array(*r, name@, data_type),
            final(self).properties@ == old(self).properties@.push(*final(r)),
            final(self).name == old(self).name,
            final(self).meta_data == old(self).meta_data,
            final(self).children == old(self).children,
    {
        let prop = OProperty::array(name, data_type);
        self.add_property(prop)
    }
}

} // verus!
