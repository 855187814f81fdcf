//! The in-memory model of an archive being written: objects, properties and
//! the schema writers, with the encoders of the headers they produce.

pub mod archive;
pub mod hash_input;
pub mod headers;
pub mod image;
pub mod object;
pub mod property;
pub mod room;
pub mod roundtrip;
pub mod samples;
pub mod schema;
pub mod time_table;
pub mod write_util;

use vstd::prelude::*;

verus! {

} // verus!
