use std::marker::PhantomData;
use std::sync::Arc;
use std::sync::RwLock;
use vstd::prelude::*;

use crate::entity::EntityManager;
use crate::error::EcsError;
use crate::system::System;
use crate::system::SystemParamAccessor;
use crate::util::ExecutionMode;

verus! {

/// Something that can be run against a directory and parameters.
trait Invoke: Send + Sync {
    fn invoke(&self, entity_manager: Arc<RwLock<EntityManager>>, params: Arc<SystemParamAccessor>);
}

/// Runs the entry point of the system type `T`.
struct EntryPoint<T> {
    system: PhantomData<T>,
}

impl<T: System + Send + Sync> Invoke for EntryPoint<T> {
    fn invoke(&self, entity_manager: Arc<RwLock<EntityManager>>, params: Arc<SystemParamAccessor>) {
        T::execute(entity_manager, params)
    }
}

/// One member of a group: the key of a system type and its entry point.
pub struct SystemEntry {
    system_id: u64,
    entry_point: Box<dyn Invoke>,
}

impl SystemEntry {
    /// The key of the system type of this member.
    pub closed spec fn system_id(&self) -> u64 {
        self.system_id
    }

    /// The member for the system type `T`.
    pub fn of<T: 'static + System + Send + Sync>() -> (entry: SystemEntry)
        ensures
            entry.system_id() == T::type_key(),
    {
        let entry_point: Box<dyn Invoke> = Box::new(EntryPoint::<T> { system: PhantomData });
        SystemEntry { system_id: T::property_id(), entry_point }
    }

    /// Returns the key of the system type of this member.
    pub fn id(&self) -> (system_id: u64)
        ensures
            system_id == self.system_id(),
    {
        self.system_id
    }

    /// Runs the system against the directory and the parameters.
    pub fn run(
        &self,
        entity_manager: Arc<RwLock<EntityManager>>,
        params: Arc<SystemParamAccessor>,
    ) {
        self.entry_point.invoke(entity_manager, params)
    }
}

/// What a group is: the keys of its members in the order of registration,
/// and how they are run.
pub struct GroupView {
    pub system_ids: Seq<u64>,
    pub mode: ExecutionMode,
}

/// A group of systems that are run together, in sequence or in parallel as
/// was fixed when the group was made. No system type is in a group twice.
pub struct SystemGroup {
    systems: Vec<SystemEntry>,
    execution_mode: ExecutionMode,
}

impl View for SystemGroup {
    type V = GroupView;

    closed spec fn view(&self) -> GroupView {
        GroupView {
            system_ids: self.systems@.map_values(|entry: SystemEntry| entry.system_id()),
            mode: self.execution_mode,
        }
    }
}

impl SystemGroup {
    /// A group is well formed when no system type is in it twice.
    pub open spec fn wf(&self) -> bool {
        self@.system_ids.no_duplicates()
    }

    /// An empty group whose members will run one after the other, in the
    /// order of registration.
    pub fn new_sequential_group() -> (group: SystemGroup)
        ensures
            group.wf(),
            group@ == (GroupView {
                system_ids: Seq::<u64>::empty(),
                mode: ExecutionMode::Sequential,
            }),
    {
        let group = SystemGroup { systems: Vec::new(), execution_mode: ExecutionMode::Sequential };
        assert(group@.system_ids =~= Seq::<u64>::empty());
        group
    }

    /// An empty group whose members will run at once, on a pool of threads.
    pub fn new_parallel_group() -> (group: SystemGroup)
        ensures
            group.wf(),
            group@ == (GroupView {
                system_ids: Seq::<u64>::empty(),
                mode: ExecutionMode::Parallel,
            }),
    {
        let group = SystemGroup { systems: Vec::new(), execution_mode: ExecutionMode::Parallel };
        assert(group@.system_ids =~= Seq::<u64>::empty());
        group
    }

    /// Adds the system type `T` as the last member. A group that has `T`
    /// already is refused.
    pub fn register<T: 'static + System + Send + Sync>(self) -> (registered: Result<
        SystemGroup,
        EcsError,
    >)
        requires
            self.wf(),
        ensures
            registered is Ok <==> !self@.system_ids.contains(T::type_key()),
            registered matches Ok(group) ==> {
                &&& group.wf()
                &&& group@.system_ids == self@.system_ids.push(T::type_key())
                &&& group@.mode == self@.mode
            },
            registered matches Err(error) ==> error == EcsError::DuplicateSystem,
    {
        let system_id = T::property_id();
        if self.contains_system(system_id) {
            return Err(EcsError::DuplicateSystem);
        }
        let ghost before = self@.system_ids;
        let mut group = self;
        group.systems.push(SystemEntry::of::<T>());
        proof {
            assert(group@.system_ids =~= before.push(system_id));
            assert forall|i: int, j: int|
                0 <= i < group@.system_ids.len() && 0 <= j < group@.system_ids.len() && i
                    != j implies group@.system_ids[i] != group@.system_ids[j] by {
                if i < before.len() {
                    assert(before.contains(before[i]));
                }
                if j < before.len() {
                    assert(before.contains(before[j]));
                }
            }
        }
        Ok(group)
    }

    /// Whether the system type with the given key is a member.
    pub fn contains_system(&self, system_id: u64) -> (found: bool)
        ensures
            found == self@.system_ids.contains(system_id),
    {
        let mut i: usize = 0;
        while i < self.systems.len()
            invariant
                i <= self.systems.len(),
                forall|j: int| 0 <= j < i ==> self@.system_ids[j] != system_id,
            decreases self.systems.len() - i,
        {
            if self.systems[i].system_id == system_id {
                assert(self@.system_ids[i as int] == system_id);
                return true;
            }
            i += 1;
        }
        false
    }

    /// The keys of the members, in the order of registration.
    pub fn get_registered_systems(&self) -> (system_ids: Vec<u64>)
        ensures
            system_ids@ == self@.system_ids,
    {
        let mut system_ids: Vec<u64> = Vec::new();
        let mut i: usize = 0;
        while i < self.systems.len()
            invariant
                i <= self.systems.len(),
                system_ids@ == self@.system_ids.take(i as int),
            decreases self.systems.len() - i,
        {
            system_ids.push(self.systems[i].system_id);
            assert(system_ids@ =~= self@.system_ids.take(i + 1));
            i += 1;
        }
        assert(self@.system_ids.take(self.systems.len() as int) =~= self@.system_ids);
        system_ids
    }

    /// How the members are run.
    pub fn get_execution_mode(&self) -> (mode: &ExecutionMode)
        ensures
            *mode == self@.mode,
    {
        &self.execution_mode
    }

    /// The members, in the order of registration.
    pub fn members(&self) -> (systems: &Vec<SystemEntry>)
        ensures
            systems@.map_values(|entry: SystemEntry| entry.system_id()) == self@.system_ids,
    {
        &self.systems
    }
}

} // verus!
