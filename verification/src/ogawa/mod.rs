//! The Ogawa binary container: layout constants, child-offset encoding,
//! header decoding and the property/object header codecs.

pub mod archive_reader;
pub mod format;
pub mod le;
pub mod read_util;
pub mod reader;
pub mod writer;

use vstd::prelude::*;

verus! {

} // verus!
