use std::sync::{Arc, RwLock};

use moecs::component::{Component, ComponentBundle};
use moecs::entity::{EntityManager, Query};
use moecs::system::{System, SystemGroup, SystemManager, SystemParam, SystemParamAccessor};
use moecs::util::ExecutionMode::{Parallel, Sequential};
use moecs::util::{Handle, PropertyId};
use moecs::EcsError;

struct TestSystem;

impl PropertyId for TestSystem {
    fn type_key() -> u64 {
        0x7e57_c0de_0000_0021
    }

    fn property_id() -> u64 {
        0x7e57_c0de_0000_0021
    }

    fn self_property_id(&self) -> u64 {
        TestSystem::property_id()
    }
}

impl System for TestSystem {
    fn execute(_entity_manager: Arc<RwLock<EntityManager>>, _params: Arc<SystemParamAccessor>) {}
}

struct TestParam;

impl PropertyId for TestParam {
    fn type_key() -> u64 {
        0x7e57_c0de_0000_0022
    }

    fn property_id() -> u64 {
        0x7e57_c0de_0000_0022
    }

    fn self_property_id(&self) -> u64 {
        TestParam::property_id()
    }
}

impl SystemParam for TestParam {}

struct Log {
    lines: Vec<u32>,
}

impl PropertyId for Log {
    fn type_key() -> u64 {
        0x7e57_c0de_0000_0023
    }

    fn property_id() -> u64 {
        0x7e57_c0de_0000_0023
    }

    fn self_property_id(&self) -> u64 {
        Log::property_id()
    }
}

impl SystemParam for Log {}

struct Tally {
    count: u32,
}

impl PropertyId for Tally {
    fn type_key() -> u64 {
        0x7e57_c0de_0000_0024
    }

    fn property_id() -> u64 {
        0x7e57_c0de_0000_0024
    }

    fn self_property_id(&self) -> u64 {
        Tally::property_id()
    }
}

impl Component for Tally {}

fn write_line(params: &SystemParamAccessor, line: u32) {
    let log = params.get_param::<Log>().unwrap();
    log.write().unwrap().lines.push(line);
}

struct FirstSystem;

impl PropertyId for FirstSystem {
    fn type_key() -> u64 {
        0x7e57_c0de_0000_0025
    }

    fn property_id() -> u64 {
        0x7e57_c0de_0000_0025
    }

    fn self_property_id(&self) -> u64 {
        FirstSystem::property_id()
    }
}

impl System for FirstSystem {
    fn execute(_entity_manager: Arc<RwLock<EntityManager>>, params: Arc<SystemParamAccessor>) {
        write_line(&params, 1);
    }
}

struct SecondSystem;

impl PropertyId for SecondSystem {
    fn type_key() -> u64 {
        0x7e57_c0de_0000_0026
    }

    fn property_id() -> u64 {
        0x7e57_c0de_0000_0026
    }

    fn self_property_id(&self) -> u64 {
        SecondSystem::property_id()
    }
}

impl System for SecondSystem {
    fn execute(_entity_manager: Arc<RwLock<EntityManager>>, params: Arc<SystemParamAccessor>) {
        write_line(&params, 2);
    }
}

struct ThirdSystem;

impl PropertyId for ThirdSystem {
    fn type_key() -> u64 {
        0x7e57_c0de_0000_0027
    }

    fn property_id() -> u64 {
        0x7e57_c0de_0000_0027
    }

    fn self_property_id(&self) -> u64 {
        ThirdSystem::property_id()
    }
}

impl System for ThirdSystem {
    fn execute(entity_manager: Arc<RwLock<EntityManager>>, params: Arc<SystemParamAccessor>) {
        write_line(&params, 3);
        let results = entity_manager
            .write()
            .unwrap()
            .filter(Query::new().with::<Tally>());
        for result in results {
            result
                .get_component::<Tally>()
                .unwrap()
                .write()
                .unwrap()
                .count += 1;
        }
    }
}

#[test]
fn system_group_sequential_success() {
    let group = SystemGroup::new_sequential_group()
        .register::<TestSystem>()
        .unwrap();
    assert!(group
        .get_registered_systems()
        .contains(&TestSystem::property_id()));
    assert_eq!(group.get_execution_mode(), &Sequential);
}

#[test]
fn system_group_parallel_success() {
    let group = SystemGroup::new_parallel_group()
        .register::<TestSystem>()
        .unwrap();
    assert!(group.contains_system(TestSystem::property_id()));
    assert_eq!(group.get_execution_mode(), &Parallel);
}

#[test]
fn system_param_accessor_success() {
    let accessor = SystemParamAccessor::new().add_param(TestParam);
    assert!(accessor.get_param::<TestParam>().is_some());
}

#[test]
fn system_manager_sequential_success() {
    SystemManager.execute_group(
        &SystemGroup::new_sequential_group()
            .register::<TestSystem>()
            .unwrap(),
        Arc::new(RwLock::new(EntityManager::new())),
        Arc::new(SystemParamAccessor::new()),
    );
}

#[test]
fn system_manager_parallel_success() {
    SystemManager.execute_group(
        &SystemGroup::new_parallel_group()
            .register::<TestSystem>()
            .unwrap(),
        Arc::new(RwLock::new(EntityManager::new())),
        Arc::new(SystemParamAccessor::new()),
    );
}

#[test]
fn group_refuses_a_system_twice() {
    let group = SystemGroup::new_sequential_group()
        .register::<FirstSystem>()
        .unwrap()
        .register::<SecondSystem>()
        .unwrap();
    match group.register::<FirstSystem>() {
        Err(error) => assert_eq!(error, EcsError::DuplicateSystem),
        Ok(_) => panic!("a system was registered twice"),
    }
}

#[test]
fn group_keeps_the_order_of_registration() {
    let group = SystemGroup::new_parallel_group()
        .register::<SecondSystem>()
        .unwrap()
        .register::<ThirdSystem>()
        .unwrap()
        .register::<FirstSystem>()
        .unwrap();
    assert_eq!(
        group.get_registered_systems(),
        vec![
            SecondSystem::property_id(),
            ThirdSystem::property_id(),
            FirstSystem::property_id()
        ]
    );
    assert!(!group.contains_system(TestSystem::property_id()));
    assert_eq!(group.members().len(), 3);
    assert_eq!(group.members()[1].id(), ThirdSystem::property_id());
}

#[test]
fn sequential_group_runs_in_the_order_of_registration() {
    let log = Arc::new(RwLock::new(Log { lines: Vec::new() }));
    let params = Arc::new(
        SystemParamAccessor::new().add_param_handle(Handle::from_shared(log.clone())),
    );
    let directory = Arc::new(RwLock::new(EntityManager::new()));
    let entity_id = directory.write().unwrap().create_entity(
        ComponentBundle::new()
            .add_component(Tally { count: 0 })
            .unwrap(),
    );
    let group = SystemGroup::new_sequential_group()
        .register::<ThirdSystem>()
        .unwrap()
        .register::<FirstSystem>()
        .unwrap()
        .register::<SecondSystem>()
        .unwrap();

    SystemManager.execute_group(&group, directory.clone(), params.clone());
    assert_eq!(log.read().unwrap().lines, vec![3, 1, 2]);
    SystemManager.execute_group(&group, directory.clone(), params);
    assert_eq!(log.read().unwrap().lines, vec![3, 1, 2, 3, 1, 2]);

    let tally = directory
        .read()
        .unwrap()
        .get_component(&entity_id, Tally::property_id())
        .unwrap()
        .downcast::<Tally>()
        .unwrap();
    assert_eq!(tally.read().unwrap().count, 2);
}

#[test]
fn parallel_group_runs_every_member_once() {
    let log = Arc::new(RwLock::new(Log { lines: Vec::new() }));
    let params = Arc::new(
        SystemParamAccessor::new().add_param_handle(Handle::from_shared(log.clone())),
    );
    let directory = Arc::new(RwLock::new(EntityManager::new()));
    let group = SystemGroup::new_parallel_group()
        .register::<FirstSystem>()
        .unwrap()
        .register::<SecondSystem>()
        .unwrap()
        .register::<ThirdSystem>()
        .unwrap();

    SystemManager.execute_group(&group, directory, params);
    let mut lines = log.read().unwrap().lines.clone();
    lines.sort();
    assert_eq!(lines, vec![1, 2, 3]);
}

#[test]
fn accessor_gives_the_parameter_of_the_asked_type() {
    let log = Arc::new(RwLock::new(Log { lines: vec![5] }));
    let accessor = SystemParamAccessor::default()
        .add_param(TestParam)
        .add_param_handle(Handle::from_shared(log.clone()));
    assert!(Arc::ptr_eq(&accessor.get_param::<Log>().unwrap(), &log));
    assert!(accessor.get_param_handle(Log::property_id()).is_some());
    assert!(accessor.get_param_handle(Tally::property_id()).is_none());

    let empty = SystemParamAccessor::new();
    assert!(empty.get_param::<TestParam>().is_none());
    assert!(empty.get_param::<Log>().is_none());

    // A parameter that is added again takes the place of the earlier one.
    let replaced = accessor.add_param(Log { lines: vec![6, 7] });
    let found = replaced.get_param::<Log>().unwrap();
    assert!(!Arc::ptr_eq(&found, &log));
    assert_eq!(found.read().unwrap().lines, vec![6, 7]);
}
