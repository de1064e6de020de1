use std::collections::HashMap;
use vstd::prelude::*;

use crate::component::Component;
use crate::error::EcsError;
use crate::util::keyed_by_type;
use crate::util::Handle;

verus! {

broadcast use vstd::std_specs::hash::group_hash_axioms;

/// A collection of components, at most one of each type, that describes what
/// an entity is created with or what is attached to it.
pub struct ComponentBundle {
    components: HashMap<u64, Handle>,
}

impl View for ComponentBundle {
    type V = Map<u64, Handle>;

    closed spec fn view(&self) -> Map<u64, Handle> {
        self.components@
    }
}

impl ComponentBundle {
    /// A bundle is well formed when it is finite and each of its handles
    /// stands under the key of its own type.
    pub open spec fn wf(&self) -> bool {
        &&& self@.dom().finite()
        &&& keyed_by_type(self@)
    }

    /// The empty bundle.
    pub fn new() -> (bundle: ComponentBundle)
        ensures
            bundle@ == Map::<u64, Handle>::empty(),
            bundle.wf(),
    {
        ComponentBundle { components: HashMap::new() }
    }

    /// Adds `component` to the bundle, in a fresh cell. A bundle that holds a
    /// component of that type already is refused.
    pub fn add_component<T: 'static + Component>(self, component: T) -> (added: Result<
        ComponentBundle,
        EcsError,
    >)
        requires
            self.wf(),
        ensures
            added is Ok <==> !self@.contains_key(T::type_key()),
            added matches Ok(bundle) ==> {
                &&& bundle.wf()
                &&& bundle@.contains_key(T::type_key())
                &&& bundle@.remove(T::type_key()) == self@
            },
            added matches Err(error) ==> error == EcsError::DuplicateComponent,
    {
        let handle = Handle::new(component);
        let ghost key = handle.type_key();
        let added = self.add_handle(handle);
        proof {
            if added is Ok {
                assert(added->Ok_0@.remove(key) =~= self@);
            }
        }
        added
    }

    /// Adds a component that is shared already. A bundle that holds a
    /// component of that type already is refused.
    pub fn add_handle(self, handle: Handle) -> (added: Result<ComponentBundle, EcsError>)
        requires
            self.wf(),
        ensures
            added is Ok <==> !self@.contains_key(handle.type_key()),
            added matches Ok(bundle) ==> {
                &&& bundle.wf()
                &&& bundle@ == self@.insert(handle.type_key(), handle)
            },
            added matches Err(error) ==> error == EcsError::DuplicateComponent,
    {
        let key = handle.key();
        if self.components.contains_key(&key) {
            return Err(EcsError::DuplicateComponent);
        }
        let mut bundle = self;
        bundle.components.insert(key, handle);
        Ok(bundle)
    }

    /// Puts `component` under the key of its type, in place of what stood
    /// there.
    pub fn add_component_arc(&mut self, component: Handle) -> (bundle: &ComponentBundle)
        requires
            old(self).wf(),
        ensures
            final(self).wf(),
            final(self)@ == old(self)@.insert(component.type_key(), component),
            *bundle == *final(self),
    {
        let key = component.key();
        self.components.insert(key, component);
        self
    }

    /// Returns the component of type `T`, if the bundle holds one.
    pub fn get_component<T: 'static + Component>(&self) -> (found: Option<Handle>)
        ensures
            found == if self@.contains_key(T::type_key()) {
                Some(self@[T::type_key()])
            } else {
                None
            },
    {
        self.get_handle(T::property_id())
    }

    /// Returns the component that stands under `key`, if there is one.
    pub fn get_handle(&self, key: u64) -> (found: Option<Handle>)
        ensures
            found == if self@.contains_key(key) {
                Some(self@[key])
            } else {
                None
            },
    {
        match self.components.get(&key) {
            Some(handle) => Some(handle.share()),
            None => None,
        }
    }

    /// Whether the bundle holds a component under `key`.
    pub fn contains(&self, key: u64) -> (found: bool)
        ensures
            found == self@.contains_key(key),
    {
        self.components.contains_key(&key)
    }

    /// The components of the bundle, by the key of their type.
    pub fn get_components(&self) -> (components: &HashMap<u64, Handle>)
        ensures
            components@ == self@,
    {
        &self.components
    }
}

impl Default for ComponentBundle {
    fn default() -> (bundle: ComponentBundle)
        ensures
            bundle@ == Map::<u64, Handle>::empty(),
            bundle.wf(),
    {
        ComponentBundle::new()
    }
}

} // verus!
