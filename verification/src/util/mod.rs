//! Fundamental value types shared by the reader and the writer.

pub mod data_type;
pub mod dimensions;
pub mod error;
pub mod metadata;
pub mod pod;
pub mod text;

use vstd::prelude::*;

verus! {

} // verus!
