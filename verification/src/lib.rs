//! Verified core of an Alembic (Ogawa) archive library: offsets and header
//! layout of the Ogawa container, plain-old-data descriptors, the encoders and
//! decoders of property and object headers, and the in-memory writer model.

pub mod ogawa;
pub mod util;

use vstd::prelude::*;

verus! {

} // verus!
