use std::sync::Arc;
use std::sync::RwLock;
use vstd::prelude::*;

use crate::entity::EntityManager;
use crate::system::SystemParamAccessor;
use crate::util::PropertyId;

verus! {

/// A system is a stateless process over the entities that answer a query.
/// What it needs to keep it keeps in components, or gets from the parameters
/// that are handed to it.
pub trait System: PropertyId {
    /// The entry point of the system. It locks the directory for as long as it
    /// queries or changes it, and a component for as long as it reads or
    /// writes it.
    fn execute(entity_manager: Arc<RwLock<EntityManager>>, params: Arc<SystemParamAccessor>);
}

} // verus!
