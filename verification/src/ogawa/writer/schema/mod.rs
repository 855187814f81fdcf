//! Schema writers: the geometry, material and collection schemas built on
//! objects and properties.

pub mod util;
pub mod polymesh;
pub mod points;
pub mod faceset;
pub mod curves;
pub mod subd;
pub mod nupatch;
pub mod camera;
pub mod light;
pub mod collections;
pub mod order;
pub mod material;
pub mod xform;

use vstd::prelude::*;

verus! {

} // verus!
