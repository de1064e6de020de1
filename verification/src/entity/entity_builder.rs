use vstd::prelude::*;

use crate::component::Component;
use crate::util::Handle;

verus! {

/// Collects components one by one, in the order in which they are added,
/// before anything is made of them. Nothing is checked here: a type can be
/// added more than once.
pub struct EntityBuilder {
    components: Vec<Handle>,
}

impl View for EntityBuilder {
    type V = Seq<Handle>;

    closed spec fn view(&self) -> Seq<Handle> {
        self.components@
    }
}

impl EntityBuilder {
    /// The builder without components.
    pub fn new() -> (builder: EntityBuilder)
        ensures
            builder@ == Seq::<Handle>::empty(),
    {
        EntityBuilder { components: Vec::new() }
    }

    /// Adds `component` in a fresh cell, after those that were added before,
    /// and hands the builder back for the next call.
    pub fn add_component<T: 'static + Component>(&mut self, component: T) -> (builder:
        &mut EntityBuilder)
        ensures
            builder@.len() == old(self)@.len() + 1,
            builder@.drop_last() == old(self)@,
            builder@.last().type_key() == T::type_key(),
            *final(self) == *final(builder),
    {
        let handle = Handle::new(component);
        self.components.push(handle);
        assert(self@.drop_last() =~= old(self)@);
        self
    }

    /// The components, in the order in which they were added.
    pub fn get_components(&self) -> (components: &Vec<Handle>)
        ensures
            components@ == self@,
    {
        &self.components
    }
}

impl Default for EntityBuilder {
    fn default() -> (builder: EntityBuilder)
        ensures
            builder@ == Seq::<Handle>::empty(),
    {
        EntityBuilder::new()
    }
}

} // verus!
