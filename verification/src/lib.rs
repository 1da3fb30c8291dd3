//! Extension core for path-named capabilities: an interner that maps
//! validated hierarchical path strings to dense integer handles, a registry
//! of typed values keyed by those handles, a fault-tolerant package catalog,
//! and a strictly ordered three-phase boot pipeline.

use vstd::prelude::*;

pub mod loader;
pub mod metadata;
pub mod paths;
pub mod pipeline;
pub mod registry;

verus! {

/// Opaque handle for an interned path. Assigned sequentially at first
/// interning; stable for the process lifetime; never reused.
#[derive(Debug, Clone, Copy, PartialEq, Eq, Structural, PartialOrd, Ord, Hash)]
pub struct Id(pub u32);

} // verus!
