use std::sync::{Arc, RwLock};

use moecs::component::{Component, ComponentBundle};
use moecs::entity::{EntityBuilder, EntityManager, Query, QueryCache, QueryResult};
use moecs::util::{Handle, PropertyId};
use moecs::EcsError;

struct TestComponent;

impl PropertyId for TestComponent {
    fn type_key() -> u64 {
        0x7e57_c0de_0000_0011
    }

    fn property_id() -> u64 {
        0x7e57_c0de_0000_0011
    }

    fn self_property_id(&self) -> u64 {
        TestComponent::property_id()
    }
}

impl Component for TestComponent {}

struct OtherTestComponent;

impl PropertyId for OtherTestComponent {
    fn type_key() -> u64 {
        0x7e57_c0de_0000_0012
    }

    fn property_id() -> u64 {
        0x7e57_c0de_0000_0012
    }

    fn self_property_id(&self) -> u64 {
        OtherTestComponent::property_id()
    }
}

impl Component for OtherTestComponent {}

fn same_cell<T: 'static + Component>(one: &QueryResult, other: &QueryResult) -> bool {
    match (one.get_component::<T>(), other.get_component::<T>()) {
        (Some(a), Some(b)) => Arc::ptr_eq(&a, &b),
        (None, None) => true,
        _ => false,
    }
}

fn ids(results: &[QueryResult]) -> Vec<u32> {
    let mut ids: Vec<u32> = results.iter().map(|result| result.entity_id()).collect();
    ids.sort();
    ids
}

#[test]
fn query_with_success() {
    let query = Query::new().with::<TestComponent>();
    assert_eq!(query.get_with_components().len(), 1);
    assert_eq!(
        query.get_with_components().first().unwrap(),
        &TestComponent::property_id()
    );
}

#[test]
fn query_without_success() {
    let query = Query::new().without::<TestComponent>();
    assert_eq!(query.get_without_components().len(), 1);
    assert_eq!(
        query.get_without_components().first().unwrap(),
        &TestComponent::property_id()
    );
}

#[test]
fn query_result_success() {
    let entity_id = 1;
    let entity_component = Arc::new(RwLock::new(TestComponent));
    let mut result = QueryResult::new(entity_id);
    result.add_component(Handle::from_shared(entity_component.clone()));
    assert!(Arc::ptr_eq(
        &result.get_component::<TestComponent>().unwrap(),
        &entity_component
    ));
}

#[test]
fn entity_manager_create_entity_success() {
    let mut manager = EntityManager::new();
    let entity_id =
        manager.create_entity(ComponentBundle::new().add_component(TestComponent).unwrap());
    assert!(manager
        .filter(Query::new().with::<TestComponent>())
        .iter()
        .any(|result| result.entity_id() == entity_id));
}

#[test]
fn entity_manager_create_entity_unique_id_success() {
    let mut manager = EntityManager::new();
    let entity_id = manager.create_entity(ComponentBundle::new());
    // Loop an arbitrarily high amount of times to ensure the same id isn't used.
    for _ in 0..100 {
        let other_entity_id = manager.create_entity(ComponentBundle::new());
        assert_ne!(entity_id, other_entity_id);
    }
}

#[test]
fn entity_manager_add_components_to_entity_success() {
    let mut manager = EntityManager::new();
    let entity_id = manager.create_entity(ComponentBundle::new());
    assert!(manager
        .get_all_components_for_entity(&entity_id)
        .get_components()
        .is_empty());

    manager
        .add_components_to_entity(
            &entity_id,
            ComponentBundle::new().add_component(TestComponent).unwrap(),
        )
        .unwrap();
    let component_bundle = manager.get_all_components_for_entity(&entity_id);
    assert_eq!(component_bundle.get_components().len(), 1);
    assert!(component_bundle.get_component::<TestComponent>().is_some());
}

#[test]
#[should_panic]
fn entity_manager_add_components_to_entity_already_registered_panic() {
    let mut manager = EntityManager::new();
    let entity_id =
        manager.create_entity(ComponentBundle::new().add_component(TestComponent).unwrap());
    manager
        .add_components_to_entity(
            &entity_id,
            ComponentBundle::new().add_component(TestComponent).unwrap(),
        )
        .unwrap();
}

#[test]
fn entity_manager_remove_component_from_entity_success() {
    let mut manager = EntityManager::new();
    let entity_id =
        manager.create_entity(ComponentBundle::new().add_component(TestComponent).unwrap());
    let component_bundle = manager.get_all_components_for_entity(&entity_id);
    assert_eq!(component_bundle.get_components().len(), 1);
    assert!(component_bundle.get_component::<TestComponent>().is_some());

    manager
        .remove_component_from_entity::<TestComponent>(&entity_id)
        .unwrap();
    let component_bundle = manager.get_all_components_for_entity(&entity_id);
    assert!(component_bundle.get_components().is_empty());
    assert!(component_bundle.get_component::<TestComponent>().is_none());
}

#[test]
fn entity_manager_filter_with_success() {
    let mut manager = EntityManager::new();
    let entity_id =
        manager.create_entity(ComponentBundle::new().add_component(TestComponent).unwrap());
    assert!(manager
        .filter(Query::new().with::<TestComponent>())
        .iter()
        .any(|result| result.entity_id() == entity_id));
    assert!(manager
        .filter(Query::new().with::<OtherTestComponent>())
        .iter()
        .all(|result| result.entity_id() != entity_id));
}

#[test]
fn entity_manager_filter_without_success() {
    let mut manager = EntityManager::new();
    let entity_id =
        manager.create_entity(ComponentBundle::new().add_component(TestComponent).unwrap());
    assert!(manager
        .filter(Query::new().without::<TestComponent>())
        .iter()
        .all(|result| result.entity_id() != entity_id));
    assert!(manager
        .filter(Query::new().without::<OtherTestComponent>())
        .iter()
        .any(|result| result.entity_id() == entity_id));
}

#[test]
fn query_cache_success() {
    let mut cache = QueryCache::new();
    let entity_id = 1;
    let entity_component = Arc::new(RwLock::new(TestComponent));

    let query = Query::new().with::<TestComponent>();
    let mut query_result = QueryResult::new(entity_id);
    query_result.add_component(Handle::from_shared(entity_component.clone()));

    cache.add_to_cache((query.clone(), vec![query_result.clone()]));
    let query_result = cache.check_cache(&query).unwrap();
    assert!(Arc::ptr_eq(
        &query_result
            .first()
            .unwrap()
            .get_component::<TestComponent>()
            .unwrap(),
        &entity_component
    ));

    cache.remove_entity_from_cache(&entity_id);
    assert!(cache.check_cache(&query).unwrap().is_empty());
}

#[test]
fn entity_manager_filter_cached_success() {
    let mut manager = EntityManager::new();
    let entity_id =
        manager.create_entity(ComponentBundle::new().add_component(TestComponent).unwrap());
    assert!(manager
        .filter(Query::new().with::<TestComponent>())
        .iter()
        .any(|result| result.entity_id() == entity_id));
    // Subsequent runs should use the cache and also not panic.
    assert!(manager
        .filter(Query::new().with::<TestComponent>())
        .iter()
        .any(|result| result.entity_id() == entity_id));
}

#[test]
fn query_without_any_type_is_answered_by_every_entity() {
    let mut manager = EntityManager::new();
    let bare = manager.create_entity(ComponentBundle::new());
    let shaped =
        manager.create_entity(ComponentBundle::new().add_component(TestComponent).unwrap());
    assert_eq!(ids(&manager.filter_uncached(&Query::new())), vec![bare, shaped]);
}

#[test]
fn query_whose_lists_share_a_type_is_answered_by_nothing() {
    let mut manager = EntityManager::new();
    manager.create_entity(ComponentBundle::new().add_component(TestComponent).unwrap());
    manager.create_entity(ComponentBundle::new());
    let query = Query::new()
        .with::<TestComponent>()
        .without::<TestComponent>();
    assert!(manager.filter_uncached(&query).is_empty());
    assert!(manager.filter(query).is_empty());
}

#[test]
fn uncached_matching_keeps_exactly_the_entities_that_answer() {
    let mut manager = EntityManager::new();
    let both = manager.create_entity(
        ComponentBundle::new()
            .add_component(TestComponent)
            .unwrap()
            .add_component(OtherTestComponent)
            .unwrap(),
    );
    let first = manager.create_entity(ComponentBundle::new().add_component(TestComponent).unwrap());
    let second =
        manager.create_entity(ComponentBundle::new().add_component(OtherTestComponent).unwrap());
    let none = manager.create_entity(ComponentBundle::new());
    assert_eq!((both, first, second, none), (0, 1, 2, 3));

    let with_first = manager.filter_uncached(&Query::new().with::<TestComponent>());
    assert_eq!(ids(&with_first), vec![both, first]);
    let only_first = manager.filter_uncached(
        &Query::new()
            .with::<TestComponent>()
            .without::<OtherTestComponent>(),
    );
    assert_eq!(ids(&only_first), vec![first]);
    let without_first = manager.filter_uncached(&Query::new().without::<TestComponent>());
    assert_eq!(ids(&without_first), vec![second, none]);
}

#[test]
fn answers_hold_the_components_that_were_asked_for() {
    let mut manager = EntityManager::new();
    let component = Arc::new(RwLock::new(TestComponent));
    let entity_id = manager.create_entity(
        ComponentBundle::new()
            .add_handle(Handle::from_shared(component.clone()))
            .unwrap()
            .add_component(OtherTestComponent)
            .unwrap(),
    );
    let results = manager.filter(Query::new().with::<TestComponent>());
    assert_eq!(results.len(), 1);
    assert_eq!(results[0].entity_id(), entity_id);
    assert!(Arc::ptr_eq(
        &results[0].get_component::<TestComponent>().unwrap(),
        &component
    ));
    assert!(results[0].get_component::<OtherTestComponent>().is_none());
    assert!(results[0]
        .get_handle(OtherTestComponent::property_id())
        .is_none());

    // The remembered answers share the same components.
    let again = manager.filter(Query::new().with::<TestComponent>());
    assert!(Arc::ptr_eq(
        &again[0].get_component::<TestComponent>().unwrap(),
        &component
    ));
}

#[test]
fn queries_are_remembered_whatever_the_order_of_their_types() {
    let mut cache = QueryCache::new();
    let forward = Query::new()
        .with::<TestComponent>()
        .with::<OtherTestComponent>();
    let backward = Query::new()
        .with::<OtherTestComponent>()
        .with::<TestComponent>()
        .with::<OtherTestComponent>();
    assert!(forward.same_key(&backward));
    assert!(!forward.same_key(&Query::new().with::<TestComponent>()));
    assert!(!forward.same_key(
        &Query::new()
            .with::<TestComponent>()
            .without::<OtherTestComponent>()
    ));

    cache.add_to_cache((forward, vec![QueryResult::new(7)]));
    let found = cache.check_cache(&backward).unwrap();
    assert_eq!(ids(&found), vec![7]);
    assert!(cache
        .check_cache(&Query::new().with::<TestComponent>())
        .is_none());
}

#[test]
fn removing_an_entity_moves_the_last_answer_into_its_place() {
    let mut cache = QueryCache::new();
    let query = Query::new();
    cache.add_to_cache((
        query.clone(),
        vec![
            QueryResult::new(1),
            QueryResult::new(2),
            QueryResult::new(3),
            QueryResult::new(4),
        ],
    ));
    cache.remove_entity_from_cache(&2);
    let left: Vec<u32> = cache
        .check_cache(&query)
        .unwrap()
        .iter()
        .map(|result| result.entity_id())
        .collect();
    assert_eq!(left, vec![1, 4, 3]);

    cache.remove_entity_from_cache(&9);
    let left: Vec<u32> = cache
        .check_cache(&query)
        .unwrap()
        .iter()
        .map(|result| result.entity_id())
        .collect();
    assert_eq!(left, vec![1, 4, 3]);

    cache.remove_entity_from_cache(&3);
    let left: Vec<u32> = cache
        .check_cache(&query)
        .unwrap()
        .iter()
        .map(|result| result.entity_id())
        .collect();
    assert_eq!(left, vec![1, 4]);
}

#[test]
fn updating_the_cache_refreshes_the_answer_of_the_entity() {
    let mut cache = QueryCache::new();
    let with_test = Query::new().with::<TestComponent>();
    let without_test = Query::new().without::<TestComponent>();
    cache.add_to_cache((with_test.clone(), vec![QueryResult::new(1), QueryResult::new(2)]));
    cache.add_to_cache((without_test.clone(), vec![QueryResult::new(5)]));

    let component = Arc::new(RwLock::new(TestComponent));
    let bundle = ComponentBundle::new()
        .add_handle(Handle::from_shared(component.clone()))
        .unwrap()
        .add_component(OtherTestComponent)
        .unwrap();
    cache.update_cache(&1, &bundle);

    let answers = cache.check_cache(&with_test).unwrap();
    let order: Vec<u32> = answers.iter().map(|result| result.entity_id()).collect();
    assert_eq!(order, vec![2, 1]);
    assert!(Arc::ptr_eq(
        &answers[1].get_component::<TestComponent>().unwrap(),
        &component
    ));
    assert!(answers[1]
        .get_handle(OtherTestComponent::property_id())
        .is_none());
    assert_eq!(ids(&cache.check_cache(&without_test).unwrap()), vec![5]);

    // An entity without components is taken out and not put back.
    cache.update_cache(&5, &ComponentBundle::new());
    assert!(cache.check_cache(&without_test).unwrap().is_empty());
    cache.update_cache(&2, &ComponentBundle::new());
    assert_eq!(ids(&cache.check_cache(&with_test).unwrap()), vec![1]);
}

#[test]
fn attaching_a_present_type_is_refused_and_changes_nothing() {
    let mut manager = EntityManager::new();
    let component = Arc::new(RwLock::new(TestComponent));
    let entity_id = manager.create_entity(
        ComponentBundle::new()
            .add_handle(Handle::from_shared(component.clone()))
            .unwrap(),
    );
    let refused = manager.add_components_to_entity(
        &entity_id,
        ComponentBundle::new()
            .add_component(OtherTestComponent)
            .unwrap()
            .add_component(TestComponent)
            .unwrap(),
    );
    assert_eq!(refused, Err(EcsError::DuplicateComponent));

    let held = manager.get_all_components_for_entity(&entity_id);
    assert_eq!(held.get_components().len(), 1);
    assert!(Arc::ptr_eq(
        &held
            .get_component::<TestComponent>()
            .unwrap()
            .downcast::<TestComponent>()
            .unwrap(),
        &component
    ));
    assert!(manager
        .get_component(&entity_id, OtherTestComponent::property_id())
        .is_none());
}

#[test]
fn changing_an_entity_that_is_not_live_is_refused() {
    let mut manager = EntityManager::new();
    assert_eq!(
        manager.add_components_to_entity(
            &3,
            ComponentBundle::new().add_component(TestComponent).unwrap()
        ),
        Err(EcsError::UnknownEntity)
    );
    assert_eq!(
        manager.remove_component_from_entity::<TestComponent>(&3),
        Err(EcsError::UnknownEntity)
    );
    assert!(!manager.is_live(&3));
    assert!(manager
        .get_all_components_for_entity(&3)
        .get_components()
        .is_empty());
    assert_eq!(manager.delete_entity(&3), Err(EcsError::UnknownEntity));
    assert!(!manager.is_live(&3));
}

#[test]
fn attached_components_are_found_and_detached_ones_are_not() {
    let mut manager = EntityManager::new();
    let entity_id = manager.create_entity(ComponentBundle::new());
    // Both queries are remembered before the entity changes.
    assert!(manager.filter(Query::new().with::<TestComponent>()).is_empty());
    assert!(manager
        .filter(Query::new().with::<OtherTestComponent>())
        .is_empty());

    manager
        .add_components_to_entity(
            &entity_id,
            ComponentBundle::new()
                .add_component(TestComponent)
                .unwrap()
                .add_component(OtherTestComponent)
                .unwrap(),
        )
        .unwrap();
    assert_eq!(
        ids(&manager.filter(Query::new().with::<TestComponent>())),
        vec![entity_id]
    );
    assert_eq!(
        ids(&manager.filter(Query::new().with::<OtherTestComponent>())),
        vec![entity_id]
    );

    manager
        .remove_component_from_entity::<TestComponent>(&entity_id)
        .unwrap();
    assert!(manager.filter(Query::new().with::<TestComponent>()).is_empty());
    assert!(manager
        .filter_uncached(&Query::new().with::<TestComponent>())
        .is_empty());
    assert_eq!(
        ids(&manager.filter(Query::new().with::<OtherTestComponent>())),
        vec![entity_id]
    );
}

#[test]
fn remembered_answers_agree_with_matching_after_mutations() {
    let mut manager = EntityManager::new();
    let queries = || {
        vec![
            Query::new().with::<TestComponent>(),
            Query::new().with::<OtherTestComponent>(),
            Query::new()
                .with::<TestComponent>()
                .with::<OtherTestComponent>(),
            Query::new()
                .with::<TestComponent>()
                .without::<OtherTestComponent>(),
        ]
    };
    let check = |manager: &mut EntityManager| {
        for query in queries() {
            let matched = manager.filter_uncached(&query);
            let remembered = manager.filter(query);
            assert_eq!(ids(&remembered), ids(&matched));
            for answer in &remembered {
                let other = matched
                    .iter()
                    .find(|result| result.entity_id() == answer.entity_id())
                    .unwrap();
                assert!(same_cell::<TestComponent>(answer, other));
                assert!(same_cell::<OtherTestComponent>(answer, other));
            }
        }
    };
    check(&mut manager);
    let a = manager.create_entity(ComponentBundle::new().add_component(TestComponent).unwrap());
    check(&mut manager);
    let b = manager.create_entity(
        ComponentBundle::new()
            .add_component(TestComponent)
            .unwrap()
            .add_component(OtherTestComponent)
            .unwrap(),
    );
    let c = manager.create_entity(ComponentBundle::new());
    check(&mut manager);
    manager
        .add_components_to_entity(
            &a,
            ComponentBundle::new().add_component(OtherTestComponent).unwrap(),
        )
        .unwrap();
    check(&mut manager);
    manager
        .remove_component_from_entity::<TestComponent>(&b)
        .unwrap();
    check(&mut manager);
    manager
        .add_components_to_entity(
            &c,
            ComponentBundle::new().add_component(TestComponent).unwrap(),
        )
        .unwrap();
    check(&mut manager);
    manager.delete_entity(&a).unwrap();
    check(&mut manager);
    manager
        .remove_component_from_entity::<OtherTestComponent>(&b)
        .unwrap();
    check(&mut manager);
}

#[test]
fn entity_without_components_is_not_added_to_remembered_answers() {
    let mut manager = EntityManager::new();
    let query = || Query::new().without::<TestComponent>();
    let early = manager.create_entity(ComponentBundle::new());
    // Matched afresh, the entity without components answers the query.
    assert_eq!(ids(&manager.filter(query())), vec![early]);
    // Created after the query was remembered, it is not added.
    let late = manager.create_entity(ComponentBundle::new());
    assert_eq!(ids(&manager.filter(query())), vec![early]);
    assert_eq!(ids(&manager.filter_uncached(&query())), vec![early, late]);
    // With a component that the query does not exclude, it is.
    manager
        .add_components_to_entity(
            &late,
            ComponentBundle::new().add_component(OtherTestComponent).unwrap(),
        )
        .unwrap();
    assert_eq!(ids(&manager.filter(query())), vec![early, late]);
}

#[test]
fn deleted_entity_leaves_queries_and_storages() {
    let mut manager = EntityManager::new();
    let kept = manager.create_entity(ComponentBundle::new().add_component(TestComponent).unwrap());
    let deleted = manager.create_entity(
        ComponentBundle::new()
            .add_component(TestComponent)
            .unwrap()
            .add_component(OtherTestComponent)
            .unwrap(),
    );
    assert_eq!(
        ids(&manager.filter(Query::new().with::<TestComponent>())),
        vec![kept, deleted]
    );
    assert!(manager
        .get_component(&deleted, TestComponent::property_id())
        .is_some());

    assert_eq!(manager.delete_entity(&deleted), Ok(()));
    assert_eq!(manager.delete_entity(&deleted), Err(EcsError::UnknownEntity));

    assert!(!manager.is_live(&deleted));
    assert!(manager.is_live(&kept));
    assert_eq!(
        ids(&manager.filter(Query::new().with::<TestComponent>())),
        vec![kept]
    );
    assert!(manager
        .filter(Query::new().with::<OtherTestComponent>())
        .is_empty());
    assert_eq!(
        ids(&manager.filter_uncached(&Query::new())),
        vec![kept]
    );
    assert!(manager
        .get_component(&deleted, TestComponent::property_id())
        .is_none());
    assert!(manager
        .get_component(&deleted, OtherTestComponent::property_id())
        .is_none());
    assert!(manager
        .get_all_components_for_entity(&deleted)
        .get_components()
        .is_empty());
    // The id is not handed out again.
    assert!(manager.has_spare_id());
    let next = manager.create_entity(ComponentBundle::new());
    assert_eq!(next, 2);
}

#[test]
fn queries_are_equal_when_they_ask_for_the_same() {
    let forward = Query::new()
        .with::<TestComponent>()
        .with::<OtherTestComponent>();
    let backward = Query::default()
        .with_key(OtherTestComponent::property_id())
        .with_key(TestComponent::property_id());
    assert_eq!(forward, backward);
    assert_eq!(forward.clone(), forward);
    assert_ne!(forward, Query::new().with::<TestComponent>());
    assert_ne!(
        Query::new().with::<TestComponent>(),
        Query::new().without::<TestComponent>()
    );
    assert_eq!(
        Query::new().without::<TestComponent>(),
        Query::new().without_key(TestComponent::property_id())
    );
}

#[test]
fn builder_keeps_the_components_in_the_order_of_adding() {
    let mut builder = EntityBuilder::default();
    assert!(builder.get_components().is_empty());
    builder
        .add_component(TestComponent)
        .add_component(OtherTestComponent)
        .add_component(TestComponent);
    let keys: Vec<u64> = builder
        .get_components()
        .iter()
        .map(|handle| handle.key())
        .collect();
    assert_eq!(
        keys,
        vec![
            TestComponent::property_id(),
            OtherTestComponent::property_id(),
            TestComponent::property_id()
        ]
    );
}

#[test]
fn one_component_is_attached_where_none_of_its_type_is() {
    let mut manager = EntityManager::default();
    let entity_id = manager.create_entity(ComponentBundle::new());
    assert_eq!(manager.add_component_to_entity(entity_id, TestComponent), Ok(()));
    assert_eq!(
        manager.add_component_to_entity(entity_id, TestComponent),
        Err(EcsError::DuplicateComponent)
    );
    assert_eq!(
        manager.add_component_to_entity(entity_id + 1, TestComponent),
        Err(EcsError::UnknownEntity)
    );
    assert_eq!(
        ids(&manager.filter(Query::new().with::<TestComponent>())),
        vec![entity_id]
    );
    assert_eq!(
        manager.remove_component_by_key(&entity_id, TestComponent::property_id()),
        Ok(())
    );
    assert_eq!(
        manager.remove_component_by_key(&entity_id, TestComponent::property_id()),
        Ok(())
    );
    assert!(manager.filter(Query::new().with::<TestComponent>()).is_empty());
}
