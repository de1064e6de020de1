use std::sync::{Arc, RwLock};

use moecs::component::{Component, ComponentBundle, ComponentManager};
use moecs::util::{Handle, PropertyId};
use moecs::EcsError;

struct TestComponent;

impl PropertyId for TestComponent {
    fn type_key() -> u64 {
        0x7e57_c0de_0000_0001
    }

    fn property_id() -> u64 {
        0x7e57_c0de_0000_0001
    }

    fn self_property_id(&self) -> u64 {
        TestComponent::property_id()
    }
}

impl Component for TestComponent {}

struct Counter {
    count: u32,
}

impl PropertyId for Counter {
    fn type_key() -> u64 {
        0x7e57_c0de_0000_0002
    }

    fn property_id() -> u64 {
        0x7e57_c0de_0000_0002
    }

    fn self_property_id(&self) -> u64 {
        Counter::property_id()
    }
}

impl Component for Counter {}

#[test]
fn component_bundle_success() {
    let bundle = ComponentBundle::new().add_component(TestComponent).unwrap();

    assert_eq!(bundle.get_components().len(), 1);

    let component = bundle
        .get_components()
        .get(&TestComponent::property_id())
        .unwrap();
    assert_eq!(
        component
            .downcast::<TestComponent>()
            .unwrap()
            .read()
            .unwrap()
            .self_property_id(),
        TestComponent::property_id()
    );
}

#[test]
#[should_panic]
fn component_bundle_multiple_same_component_panics() {
    ComponentBundle::new()
        .add_component(TestComponent)
        .unwrap()
        .add_component(TestComponent)
        .unwrap();
}

#[test]
fn component_manager_success() {
    let mut manager: ComponentManager = ComponentManager::new();
    let entity_id = 0;
    let component = Arc::new(RwLock::new(TestComponent));

    manager.register_entity(&entity_id, Handle::from_shared(component.clone()));
    assert!(Arc::ptr_eq(
        &manager
            .get_component_for_entity(&entity_id)
            .unwrap()
            .downcast::<TestComponent>()
            .unwrap(),
        &component
    ));

    manager.deregister_entity(&entity_id);
    assert!(manager.get_component_for_entity(&entity_id).is_none());
}

#[test]
fn bundle_refuses_a_second_component_of_a_type() {
    let bundle = ComponentBundle::new()
        .add_component(Counter { count: 1 })
        .unwrap();
    match bundle.add_component(Counter { count: 2 }) {
        Err(error) => assert_eq!(error, EcsError::DuplicateComponent),
        Ok(_) => panic!("a second component of the type was accepted"),
    }
    let bundle = ComponentBundle::new()
        .add_component(Counter { count: 1 })
        .unwrap();
    match bundle.add_handle(Handle::new(Counter { count: 3 })) {
        Err(error) => assert_eq!(error, EcsError::DuplicateComponent),
        Ok(_) => panic!("a second component of the type was accepted"),
    }
}

#[test]
fn bundle_gives_back_what_was_put_in() {
    let mut bundle = ComponentBundle::default();
    assert!(bundle.get_component::<Counter>().is_none());
    assert!(!bundle.contains(Counter::property_id()));

    bundle.add_component_arc(Handle::new(Counter { count: 4 }));
    bundle.add_component_arc(Handle::new(Counter { count: 5 }));
    assert_eq!(bundle.get_components().len(), 1);
    assert!(bundle.contains(Counter::property_id()));
    let counter = bundle
        .get_component::<Counter>()
        .unwrap()
        .downcast::<Counter>()
        .unwrap();
    assert_eq!(counter.read().unwrap().count, 5);
    assert!(bundle.get_handle(TestComponent::property_id()).is_none());
}

#[test]
fn handle_shares_its_value_and_keeps_its_type() {
    let handle = Handle::new(Counter { count: 7 });
    assert_eq!(handle.key(), Counter::property_id());
    let copy = handle.share();
    assert_eq!(copy.key(), Counter::property_id());
    let cloned = handle.clone();

    let first = handle.downcast::<Counter>().unwrap();
    let second = copy.downcast::<Counter>().unwrap();
    let third = cloned.downcast::<Counter>().unwrap();
    assert!(Arc::ptr_eq(&first, &second));
    assert!(Arc::ptr_eq(&first, &third));
    first.write().unwrap().count += 1;
    assert_eq!(second.read().unwrap().count, 8);

    assert!(handle.downcast::<TestComponent>().is_none());
    let other = Handle::new(Counter { count: 7 });
    assert!(!Arc::ptr_eq(&first, &other.downcast::<Counter>().unwrap()));
}

#[test]
fn storage_lists_its_entities_once() {
    let mut manager = ComponentManager::default();
    assert!(manager.all_entities().is_empty());
    manager.register_entity(&4, Handle::new(Counter { count: 0 }));
    manager.register_entity(&9, Handle::new(Counter { count: 1 }));
    manager.register_entity(&4, Handle::new(Counter { count: 2 }));
    let mut entities = manager.all_entities();
    entities.sort();
    assert_eq!(entities, vec![4, 9]);
    let counter = manager
        .get_component_for_entity(&4)
        .unwrap()
        .downcast::<Counter>()
        .unwrap();
    assert_eq!(counter.read().unwrap().count, 2);

    manager.deregister_entity(&7);
    manager.deregister_entity(&4);
    assert_eq!(manager.all_entities(), vec![9]);
}
