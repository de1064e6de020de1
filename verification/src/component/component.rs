use vstd::prelude::*;

use crate::util::PropertyId;

verus! {

/// A component is a plain value attached to an entity, at most one of each
/// type per entity. Components are shared between threads.
pub trait Component: PropertyId + Send + Sync {

}

} // verus!
