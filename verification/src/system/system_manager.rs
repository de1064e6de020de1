use rayon::iter::IntoParallelRefIterator;
use rayon::iter::ParallelIterator;
use std::sync::Arc;
use std::sync::RwLock;
use vstd::prelude::*;

use crate::entity::EntityManager;
use crate::system::SystemEntry;
use crate::system::SystemGroup;
use crate::system::SystemParamAccessor;
use crate::util::share_arc;
use crate::util::ExecutionMode;

verus! {

/// Runs one member against the directory and the parameters that the whole
/// group shares.
pub fn run_shared(
    system: &SystemEntry,
    entity_manager: &Arc<RwLock<EntityManager>>,
    params: &Arc<SystemParamAccessor>,
) {
    system.run(share_arc(entity_manager), share_arc(params))
}

/// Rayon's `par_iter` and `for_each`: each member is run once, by one call of
/// `run_shared`, on the threads of the pool; the call returns when all of
/// them have returned. Nothing is claimed of the order in which they run.
#[verifier::external_body]
fn run_in_parallel(
    systems: &Vec<SystemEntry>,
    entity_manager: &Arc<RwLock<EntityManager>>,
    params: &Arc<SystemParamAccessor>,
) {
    systems.par_iter().for_each(|system| run_shared(system, entity_manager, params));
}

/// Runs the systems of a group.
pub struct SystemManager;

impl SystemManager {
    /// Runs every member of the group once against the same directory and the
    /// same parameters: one after the other in the order of registration for a
    /// sequential group, all at once for a parallel group.
    pub fn execute_group(
        &self,
        group: &SystemGroup,
        entity_manager: Arc<RwLock<EntityManager>>,
        params: Arc<SystemParamAccessor>,
    ) {
        let systems = group.members();
        match *group.get_execution_mode() {
            ExecutionMode::Sequential => {
                let mut i: usize = 0;
                while i < systems.len()
                    invariant
                        i <= systems.len(),
                    decreases systems.len() - i,
                {
                    run_shared(&systems[i], &entity_manager, &params);
                    i += 1;
                }
            },
            ExecutionMode::Parallel => {
                run_in_parallel(systems, &entity_manager, &params);
            },
        }
    }
}

impl Default for SystemManager {
    fn default() -> SystemManager {
        SystemManager
    }
}

} // verus!
