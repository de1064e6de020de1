use std::collections::HashMap;
use vstd::prelude::*;

use crate::util::map_keys;
use crate::util::Handle;

verus! {

broadcast use vstd::std_specs::hash::group_hash_axioms;

/// The storage of one component type: which entity has which component of
/// that type.
pub struct ComponentManager {
    entity_id_to_component: HashMap<u32, Handle>,
}

impl View for ComponentManager {
    type V = Map<u32, Handle>;

    closed spec fn view(&self) -> Map<u32, Handle> {
        self.entity_id_to_component@
    }
}

impl ComponentManager {
    /// The empty storage.
    pub fn new() -> (manager: ComponentManager)
        ensures
            manager@ == Map::<u32, Handle>::empty(),
    {
        ComponentManager { entity_id_to_component: HashMap::new() }
    }

    /// Records `component` for the entity, in place of what was recorded for
    /// it.
    pub fn register_entity(&mut self, entity_id: &u32, component: Handle)
        ensures
            final(self)@ == old(self)@.insert(*entity_id, component),
    {
        self.entity_id_to_component.insert(*entity_id, component);
    }

    /// Forgets the component of the entity. An entity without one is left as
    /// it is.
    pub fn deregister_entity(&mut self, entity_id: &u32)
        ensures
            final(self)@ == old(self)@.remove(*entity_id),
    {
        self.entity_id_to_component.remove(entity_id);
    }

    /// Returns the component of the entity, if one is recorded.
    pub fn get_component_for_entity(&self, entity_id: &u32) -> (found: Option<Handle>)
        ensures
            found == if self@.contains_key(*entity_id) {
                Some(self@[*entity_id])
            } else {
                None
            },
    {
        match self.entity_id_to_component.get(entity_id) {
            Some(handle) => Some(handle.share()),
            None => None,
        }
    }

    /// Returns the entities that have a component in this storage, each once.
    pub fn all_entities(&self) -> (entities: Vec<u32>)
        ensures
            entities@.no_duplicates(),
            entities@.to_set() == self@.dom(),
    {
        map_keys(&self.entity_id_to_component)
    }
}

impl Default for ComponentManager {
    fn default() -> (manager: ComponentManager)
        ensures
            manager@ == Map::<u32, Handle>::empty(),
    {
        ComponentManager::new()
    }
}

} // verus!
