use std::collections::HashMap;
use std::sync::Arc;
use std::sync::RwLock;
use vstd::prelude::*;

use crate::entity::EntityManager;
use crate::error::EcsError;
use crate::system::GroupView;
use crate::system::SystemGroup;
use crate::system::SystemManager;
use crate::system::SystemParamAccessor;
use crate::util::share_arc;

verus! {

broadcast use vstd::std_specs::hash::group_hash_axioms;

/// The state of an engine: the next group id to hand out, and the registered
/// groups by their id.
#[verifier::ext_equal]
pub struct EngineView {
    pub next_group_id: nat,
    pub groups: Map<u32, GroupView>,
}

impl EngineView {
    /// Whether a group is registered under the id.
    pub open spec fn is_registered(self, group_id: u32) -> bool {
        self.groups.contains_key(group_id)
    }

    /// A state is well formed when every registered group has an id below
    /// the next one.
    pub open spec fn wf(self) -> bool {
        &&& self.next_group_id <= u32::MAX
        &&& forall|group_id: u32| #[trigger]
            self.groups.contains_key(group_id) ==> group_id < self.next_group_id
    }

    /// The state after a group was registered.
    pub open spec fn register(self, group: GroupView) -> EngineView {
        EngineView {
            next_group_id: self.next_group_id + 1,
            groups: self.groups.insert(self.next_group_id as u32, group),
        }
    }

    /// The state after the group under the id was deregistered.
    pub open spec fn deregister(self, group_id: u32) -> EngineView {
        EngineView { next_group_id: self.next_group_id, groups: self.groups.remove(group_id) }
    }

    /// What executing or deregistering the group under the id fails with, if
    /// it fails.
    pub open spec fn group_error(self, group_id: u32) -> Option<EcsError> {
        if self.is_registered(group_id) {
            None
        } else {
            Some(EcsError::UnknownGroup)
        }
    }
}

/// Deregistering a group makes it unknown and leaves every other group as it
/// was: executing the group fails from then on, and a group that could be
/// executed before can still be executed.
pub proof fn deregistered_group_is_isolated(state: EngineView, group_id: u32, other: u32)
    requires
        other != group_id,
    ensures
        state.deregister(group_id).group_error(group_id) == Some(EcsError::UnknownGroup),
        state.deregister(group_id).is_registered(other) == state.is_registered(other),
        state.is_registered(other) ==> state.deregister(group_id).groups[other]
            == state.groups[other],
        state.deregister(group_id).group_error(other) == state.group_error(other),
{
}

/// A group id is never handed out twice: a group gets an id under which no
/// group is registered, and which no later group gets either.
pub proof fn registered_ids_grow(state: EngineView, group: GroupView)
    requires
        state.wf(),
        state.next_group_id < u32::MAX,
    ensures
        !state.is_registered(state.next_group_id as u32),
        state.register(group).wf(),
        state.register(group).next_group_id > state.next_group_id,
{
    if state.is_registered(state.next_group_id as u32) {
        assert(state.groups.contains_key(state.next_group_id as u32));
    }
}

/// The engine owns the entity directory and the registered groups of
/// systems, and runs a group on request. Which groups there are and in what
/// order they are run is left to the caller.
pub struct Engine {
    entity_manager: Arc<RwLock<EntityManager>>,
    system_manager: SystemManager,
    next_group_id: u32,
    system_groups: HashMap<u32, SystemGroup>,
}

impl View for Engine {
    type V = EngineView;

    closed spec fn view(&self) -> EngineView {
        EngineView {
            next_group_id: self.next_group_id as nat,
            groups: Map::new(
                |group_id: u32| self.system_groups@.contains_key(group_id),
                |group_id: u32| self.system_groups@[group_id]@,
            ),
        }
    }
}

impl Engine {
    /// The directory that the systems of this engine work on. It stays the
    /// same for as long as the engine lives.
    pub closed spec fn directory(&self) -> Arc<RwLock<EntityManager>> {
        self.entity_manager
    }

    /// An engine is well formed when the state that it stands for is.
    pub open spec fn wf(&self) -> bool {
        self@.wf()
    }

    /// The engine with an empty directory and no group.
    pub fn new() -> (engine: Engine)
        ensures
            engine.wf(),
            engine@ == (EngineView { next_group_id: 0, groups: Map::<u32, GroupView>::empty() }),
    {
        let engine = Engine {
            entity_manager: Arc::new(RwLock::new(EntityManager::new())),
            system_manager: SystemManager,
            next_group_id: 0,
            system_groups: HashMap::new(),
        };
        assert(engine@.groups =~= Map::<u32, GroupView>::empty());
        engine
    }

    /// Returns the directory that the systems of this engine work on, shared
    /// with the engine.
    pub fn entity_manager(&self) -> (shared: Arc<RwLock<EntityManager>>)
        ensures
            shared == self.directory(),
    {
        share_arc(&self.entity_manager)
    }

    /// Whether another group can be registered: ids are never handed out
    /// twice, and the last one is kept back.
    pub fn has_spare_group_id(&self) -> (spare: bool)
        ensures
            spare == (self@.next_group_id < u32::MAX),
    {
        self.next_group_id < u32::MAX
    }

    /// Whether a group is registered under the id.
    pub fn is_registered(&self, group_id: u32) -> (registered: bool)
        ensures
            registered == self@.is_registered(group_id),
    {
        self.system_groups.contains_key(&group_id)
    }

    /// Registers the group and returns the id under which it can be executed,
    /// an id that no group had before.
    pub fn register_system_group(&mut self, group: SystemGroup) -> (group_id: u32)
        requires
            old(self).wf(),
            old(self)@.next_group_id < u32::MAX,
        ensures
            final(self).wf(),
            group_id == old(self)@.next_group_id,
            !old(self)@.is_registered(group_id),
            final(self)@ == old(self)@.register(group@),
            final(self).directory() == old(self).directory(),
    {
        let ghost before = self@;
        let group_id = self.next_group_id;
        self.next_group_id += 1;
        self.system_groups.insert(group_id, group);
        proof {
            registered_ids_grow(before, group@);
            assert(self@.groups =~= before.groups.insert(group_id, group@));
        }
        group_id
    }

    /// Deregisters the group under the id. An id under which no group is
    /// registered is refused.
    pub fn deregister_system_group(&mut self, group_id: u32) -> (deregistered: Result<(), EcsError>)
        requires
            old(self).wf(),
        ensures
            final(self).wf(),
            final(self).directory() == old(self).directory(),
            deregistered matches Ok(_) ==> {
                &&& old(self)@.group_error(group_id) is None
                &&& final(self)@ == old(self)@.deregister(group_id)
            },
            deregistered matches Err(error) ==> {
                &&& old(self)@.group_error(group_id) == Some(error)
                &&& final(self)@ == old(self)@
            },
    {
        let ghost before = self@;
        match self.system_groups.remove(&group_id) {
            Some(_) => {
                assert(self@.groups =~= before.groups.remove(group_id));
                Ok(())
            },
            None => {
                assert(self@.groups =~= before.groups);
                Err(EcsError::UnknownGroup)
            },
        }
    }

    /// Runs every system of the group under the id once, against the
    /// directory of this engine and `params`. An id under which no group is
    /// registered is refused, and no system is run.
    pub fn execute_group(
        &mut self,
        group_id: u32,
        params: SystemParamAccessor,
    ) -> (executed: Result<(), EcsError>)
        ensures
            final(self)@ == old(self)@,
            final(self).directory() == old(self).directory(),
            executed matches Ok(_) ==> old(self)@.group_error(group_id) is None,
            executed matches Err(error) ==> old(self)@.group_error(group_id) == Some(error),
    {
        match self.system_groups.get(&group_id) {
            None => Err(EcsError::UnknownGroup),
            Some(group) => {
                self.system_manager.execute_group(
                    group,
                    share_arc(&self.entity_manager),
                    Arc::new(params),
                );
                Ok(())
            },
        }
    }
}

impl Default for Engine {
    fn default() -> (engine: Engine)
        ensures
            engine.wf(),
            engine@ == (EngineView { next_group_id: 0, groups: Map::<u32, GroupView>::empty() }),
    {
        Engine::new()
    }
}

} // verus!
