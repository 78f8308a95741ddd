//! Version control for block-program projects: a canonical working tree for packaged
//! bundles, content-addressed asset storage, a linear revision history with fast-forward
//! synchronization, and a structural diff keyed by stable target names and block ids.
use vstd::prelude::*;

pub mod content;
pub mod model;
pub mod diff;
pub mod codec;
pub mod repo;

verus! {

} // verus!
