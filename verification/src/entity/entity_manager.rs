use rayon::iter::IntoParallelRefIterator;
use rayon::iter::ParallelIterator;
use std::collections::HashMap;
use std::collections::HashSet;
use vstd::prelude::*;

use crate::component::Component;
use crate::component::ComponentBundle;
use crate::component::ComponentManager;
use crate::entity::copy_results;
use crate::entity::model::answers_query;
use crate::entity::model::lemma_attach_keeps_wf;
use crate::entity::model::lemma_create_keeps_wf;
use crate::entity::model::lemma_delete_keeps_wf;
use crate::entity::model::lemma_detach_keeps_wf;
use crate::entity::model::lemma_query_keeps_wf;
use crate::entity::model::DirectoryView;
use crate::entity::result_for;
use crate::entity::results_view;
use crate::entity::shape_matches;
use crate::entity::Query;
use crate::entity::QueryCache;
use crate::entity::QueryKey;
use crate::entity::QueryResult;
use crate::error::EcsError;
use crate::util::lemma_take_next;
use crate::util::map_keys;
use crate::util::set_members;
use crate::util::Handle;

verus! {

broadcast use vstd::std_specs::hash::group_hash_axioms;

/// The entity directory: it hands out entity ids, keeps for each live entity
/// the set of component types that it has, keeps the components in one storage
/// per type, and answers queries, the answers of which it remembers and keeps
/// up to date as entities change.
pub struct EntityManager {
    next_entity_id: u32,
    entity_id_to_component_ids: HashMap<u32, HashSet<u64>>,
    component_id_to_component_managers: HashMap<u64, ComponentManager>,
    query_cache: QueryCache,
}

/// The components of the entity, read from the storages by its shape.
spec fn components_of(
    shapes: Map<u32, HashSet<u64>>,
    storages: Map<u64, ComponentManager>,
    entity_id: u32,
) -> Map<u64, Handle> {
    Map::new(|key: u64| shapes[entity_id]@.contains(key), |key: u64| storages[key]@[entity_id])
}

/// The components of each live entity.
spec fn entities_of(shapes: Map<u32, HashSet<u64>>, storages: Map<u64, ComponentManager>) -> Map<
    u32,
    Map<u64, Handle>,
> {
    Map::new(
        |entity_id: u32| shapes.contains_key(entity_id),
        |entity_id: u32| components_of(shapes, storages, entity_id),
    )
}

/// Whether the shapes and the storages say the same: an entity has a type in
/// its shape exactly when the storage of that type has a component for it, and
/// that component is of that type.
spec fn indexes_agree(
    shapes: Map<u32, HashSet<u64>>,
    storages: Map<u64, ComponentManager>,
) -> bool {
    &&& forall|entity_id: u32, key: u64|
        #![trigger shapes[entity_id]@.contains(key)]
        shapes.contains_key(entity_id) && shapes[entity_id]@.contains(key) ==> {
            &&& storages.contains_key(key)
            &&& storages[key]@.contains_key(entity_id)
            &&& storages[key]@[entity_id].type_key() == key
        }
    &&& forall|key: u64, entity_id: u32|
        #![trigger storages[key]@.contains_key(entity_id)]
        storages.contains_key(key) && storages[key]@.contains_key(entity_id) ==> {
            &&& shapes.contains_key(entity_id)
            &&& shapes[entity_id]@.contains(key)
        }
}

/// Whether the entity is live and its shape answers the query.
pub open spec fn shape_answers(
    shapes: Map<u32, HashSet<u64>>,
    key: QueryKey,
    entity_id: u32,
) -> bool {
    shapes.contains_key(entity_id) && shape_matches(key, shapes[entity_id]@)
}

/// Whether the entity is live and its shape answers the query.
pub fn entity_matches(
    shapes: &HashMap<u32, HashSet<u64>>,
    entity_id: u32,
    query: &Query,
) -> (matched: bool)
    ensures
        matched == shape_answers(shapes@, query.key(), entity_id),
{
    match shapes.get(&entity_id) {
        Some(shape) => query.matches_shape(shape),
        None => false,
    }
}

/// Rayon's `par_iter`, `copied`, `filter` and `collect`: the candidates are
/// tested on the threads of the pool, each by one call of `entity_matches`,
/// and those for which the test held are collected. What is claimed is that
/// the result holds exactly those candidates, each as often as it was given;
/// nothing is claimed of their order.
#[verifier::external_body]
fn retain_matching(
    candidates: &Vec<u32>,
    shapes: &HashMap<u32, HashSet<u64>>,
    query: &Query,
) -> (kept: Vec<u32>)
    ensures
        kept@.to_multiset() == candidates@.to_multiset().filter(
            |entity_id: u32| shape_answers(shapes@, query.key(), entity_id),
        ),
{
    candidates
        .par_iter()
        .copied()
        .filter(|entity_id| entity_matches(shapes, *entity_id, query))
        .collect()
}

impl View for EntityManager {
    type V = DirectoryView;

    closed spec fn view(&self) -> DirectoryView {
        DirectoryView {
            next_id: self.next_entity_id as nat,
            entities: entities_of(
                self.entity_id_to_component_ids@,
                self.component_id_to_component_managers@,
            ),
            cache: self.query_cache@,
        }
    }
}

impl EntityManager {
    /// What holds of the representation at every moment: the shapes and the
    /// storages agree, and no query is remembered twice.
    pub closed spec fn inv(&self) -> bool {
        &&& indexes_agree(
            self.entity_id_to_component_ids@,
            self.component_id_to_component_managers@,
        )
        &&& self.query_cache.wf()
    }

    /// A directory is well formed when its representation is sound and the
    /// state that it stands for is well formed.
    pub open spec fn wf(&self) -> bool {
        &&& self.inv()
        &&& self@.wf()
    }

    /// The directory without entities.
    pub fn new() -> (manager: EntityManager)
        ensures
            manager.wf(),
            manager@ == DirectoryView::empty(),
    {
        let manager = EntityManager {
            next_entity_id: 0,
            entity_id_to_component_ids: HashMap::new(),
            component_id_to_component_managers: HashMap::new(),
            query_cache: QueryCache::new(),
        };
        assert(manager@.entities =~= Map::<u32, Map<u64, Handle>>::empty());
        manager
    }

    /// Whether the id names a live entity.
    pub fn is_live(&self, entity_id: &u32) -> (live: bool)
        ensures
            live == self@.is_live(*entity_id),
    {
        self.entity_id_to_component_ids.contains_key(entity_id)
    }

    /// Whether another entity can be created: ids are never handed out twice,
    /// and the last one is kept back.
    pub fn has_spare_id(&self) -> (spare: bool)
        ensures
            spare == (self@.next_id < u32::MAX),
    {
        self.next_entity_id < u32::MAX
    }

    /// Returns what the storage of the type `key` holds for the entity.
    pub fn get_component(&self, entity_id: &u32, key: u64) -> (found: Option<Handle>)
        requires
            self.wf(),
        ensures
            found == if self@.is_live(*entity_id) && self@.shape(*entity_id).contains(key) {
                Some(self@.entities[*entity_id][key])
            } else {
                None
            },
    {
        match self.component_id_to_component_managers.get(&key) {
            Some(manager) => manager.get_component_for_entity(entity_id),
            None => None,
        }
    }

    /// Records one more component for a live entity that has none of its type.
    fn attach_one(&mut self, entity_id: u32, handle: Handle)
        requires
            old(self).inv(),
            old(self)@.is_live(entity_id),
            !old(self)@.shape(entity_id).contains(handle.type_key()),
        ensures
            final(self).inv(),
            final(self)@.next_id == old(self)@.next_id,
            final(self)@.cache == old(self)@.cache,
            final(self)@.entities == old(self)@.entities.insert(
                entity_id,
                old(self)@.entities[entity_id].insert(handle.type_key(), handle),
            ),
    {
        let ghost shapes = self.entity_id_to_component_ids@;
        let ghost storages = self.component_id_to_component_managers@;
        let key = handle.key();
        let mut shape = match self.entity_id_to_component_ids.remove(&entity_id) {
            Some(shape) => shape,
            None => HashSet::new(),
        };
        shape.insert(key);
        self.entity_id_to_component_ids.insert(entity_id, shape);
        let mut manager = match self.component_id_to_component_managers.remove(&key) {
            Some(manager) => manager,
            None => ComponentManager::new(),
        };
        manager.register_entity(&entity_id, handle);
        self.component_id_to_component_managers.insert(key, manager);
        proof {
            let shapes2 = self.entity_id_to_component_ids@;
            let storages2 = self.component_id_to_component_managers@;
            assert(shapes2[entity_id]@ == shapes[entity_id]@.insert(key));
            assert(storages2[key]@.contains_key(entity_id));
            assert(indexes_agree(shapes2, storages2)) by {
                assert forall|e: u32, k: u64|
                    #![trigger shapes2[e]@.contains(k)]
                    shapes2.contains_key(e) && shapes2[e]@.contains(k) implies {
                    &&& storages2.contains_key(k)
                    &&& storages2[k]@.contains_key(e)
                    &&& storages2[k]@[e].type_key() == k
                } by {
                    if !(e == entity_id && k == key) {
                        assert(shapes[e]@.contains(k));
                    }
                }
                assert forall|k: u64, e: u32|
                    #![trigger storages2[k]@.contains_key(e)]
                    storages2.contains_key(k) && storages2[k]@.contains_key(e) implies {
                    &&& shapes2.contains_key(e)
                    &&& shapes2[e]@.contains(k)
                } by {
                    if !(e == entity_id && k == key) {
                        assert(storages[k]@.contains_key(e));
                    }
                }
            }
            let target = entities_of(shapes, storages).insert(
                entity_id,
                components_of(shapes, storages, entity_id).insert(key, handle),
            );
            let entities2 = entities_of(shapes2, storages2);
            assert forall|e: u32| #[trigger] entities2.contains_key(e) implies entities2[e]
                == target[e] by {
                if e == entity_id {
                    assert(components_of(shapes2, storages2, e) =~= components_of(
                        shapes,
                        storages,
                        entity_id,
                    ).insert(key, handle));
                } else {
                    assert forall|k: u64| shapes[e]@.contains(k) implies storages2[k]@[e]
                        == storages[k]@[e] by {}
                    assert(components_of(shapes2, storages2, e) =~= components_of(
                        shapes,
                        storages,
                        e,
                    ));
                }
            }
            assert(entities_of(shapes2, storages2) =~= target);
        }
    }

    /// Forgets the component under `key` of a live entity, if it has one.
    fn detach_one(&mut self, entity_id: u32, key: u64)
        requires
            old(self).inv(),
            old(self)@.is_live(entity_id),
        ensures
            final(self).inv(),
            final(self)@.next_id == old(self)@.next_id,
            final(self)@.cache == old(self)@.cache,
            final(self)@.entities == old(self)@.entities.insert(
                entity_id,
                old(self)@.entities[entity_id].remove(key),
            ),
    {
        let ghost shapes = self.entity_id_to_component_ids@;
        let ghost storages = self.component_id_to_component_managers@;
        let mut shape = match self.entity_id_to_component_ids.remove(&entity_id) {
            Some(shape) => shape,
            None => HashSet::new(),
        };
        shape.remove(&key);
        self.entity_id_to_component_ids.insert(entity_id, shape);
        match self.component_id_to_component_managers.remove(&key) {
            Some(manager) => {
                let mut manager = manager;
                manager.deregister_entity(&entity_id);
                self.component_id_to_component_managers.insert(key, manager);
            },
            None => {},
        }
        proof {
            let shapes2 = self.entity_id_to_component_ids@;
            let storages2 = self.component_id_to_component_managers@;
            assert(shapes2[entity_id]@ == shapes[entity_id]@.remove(key));
            assert(storages2.dom() =~= storages.dom());
            assert(indexes_agree(shapes2, storages2)) by {
                assert forall|e: u32, k: u64|
                    #![trigger shapes2[e]@.contains(k)]
                    shapes2.contains_key(e) && shapes2[e]@.contains(k) implies {
                    &&& storages2.contains_key(k)
                    &&& storages2[k]@.contains_key(e)
                    &&& storages2[k]@[e].type_key() == k
                } by {
                    assert(shapes[e]@.contains(k));
                }
                assert forall|k: u64, e: u32|
                    #![trigger storages2[k]@.contains_key(e)]
                    storages2.contains_key(k) && storages2[k]@.contains_key(e) implies {
                    &&& shapes2.contains_key(e)
                    &&& shapes2[e]@.contains(k)
                } by {
                    assert(storages[k]@.contains_key(e));
                }
            }
            let target = entities_of(shapes, storages).insert(
                entity_id,
                components_of(shapes, storages, entity_id).remove(key),
            );
            let entities2 = entities_of(shapes2, storages2);
            assert forall|e: u32| #[trigger] entities2.contains_key(e) implies entities2[e]
                == target[e] by {
                if e == entity_id {
                    assert(components_of(shapes2, storages2, e) =~= components_of(
                        shapes,
                        storages,
                        entity_id,
                    ).remove(key));
                } else {
                    assert forall|k: u64| shapes[e]@.contains(k) implies storages2[k]@[e]
                        == storages[k]@[e] by {
                        assert(storages[k]@.contains_key(e));
                    }
                    assert(components_of(shapes2, storages2, e) =~= components_of(
                        shapes,
                        storages,
                        e,
                    ));
                }
            }
            assert(entities_of(shapes2, storages2) =~= target);
        }
    }

    /// Records every component of `components` for a live entity that has
    /// none of their types.
    fn attach_bundle(&mut self, entity_id: u32, components: &ComponentBundle)
        requires
            old(self).inv(),
            components.wf(),
            old(self)@.is_live(entity_id),
            forall|key: u64|
                components@.contains_key(key) ==> !old(self)@.shape(entity_id).contains(key),
        ensures
            final(self).inv(),
            final(self)@.next_id == old(self)@.next_id,
            final(self)@.cache == old(self)@.cache,
            final(self)@.entities == old(self)@.entities.insert(
                entity_id,
                old(self)@.entities[entity_id].union_prefer_right(components@),
            ),
    {
        let ghost before = self@;
        let ghost held = before.entities[entity_id];
        let keys = map_keys(components.get_components());
        let mut i: usize = 0;
        proof {
            assert(keys@.take(0).to_set() =~= Set::<u64>::empty());
            assert(held.union_prefer_right(components@.restrict(Set::<u64>::empty())) =~= held);
            assert(self@.entities =~= before.entities.insert(entity_id, held));
        }
        while i < keys.len()
            invariant
                i <= keys.len(),
                keys@.no_duplicates(),
                keys@.to_set() == components@.dom(),
                components.wf(),
                held == before.entities[entity_id],
                before.entities.contains_key(entity_id),
                forall|key: u64| components@.contains_key(key) ==> !held.contains_key(key),
                self.inv(),
                self@.next_id == before.next_id,
                self@.cache == before.cache,
                self@.entities == before.entities.insert(
                    entity_id,
                    held.union_prefer_right(components@.restrict(keys@.take(i as int).to_set())),
                ),
            decreases keys.len() - i,
        {
            let key = keys[i];
            assert(keys@.to_set().contains(keys@[i as int]));
            let handle = components.get_handle(key).unwrap();
            let ghost done = keys@.take(i as int).to_set();
            proof {
                if done.contains(key) {
                    let shorter = keys@.take(i as int);
                    let j = choose|j: int| 0 <= j < shorter.len() && shorter[j] == key;
                    assert(keys@[j] == keys@[i as int]);
                }
            }
            self.attach_one(entity_id, handle);
            proof {
                let next = keys@.take(i + 1).to_set();
                lemma_take_next(keys@, i as int);
                assert(held.union_prefer_right(components@.restrict(done)).insert(key, handle)
                    =~= held.union_prefer_right(components@.restrict(next)));
            }
            i += 1;
        }
        proof {
            assert(keys@.take(keys@.len() as int) == keys@);
            assert(components@.restrict(components@.dom()) =~= components@);
        }
    }

    /// Returns shared handles to every component of the entity, whatever the
    /// state of the remembered answers.
    fn snapshot(&self, entity_id: &u32) -> (bundle: ComponentBundle)
        requires
            self.inv(),
        ensures
            bundle.wf(),
            bundle@ == if self@.is_live(*entity_id) {
                self@.entities[*entity_id]
            } else {
                Map::<u64, Handle>::empty()
            },
    {
        let mut bundle = ComponentBundle::new();
        match self.entity_id_to_component_ids.get(entity_id) {
            Some(shape) => {
                let keys = set_members(shape);
                let ghost held = self@.entities[*entity_id];
                let mut i: usize = 0;
                assert(bundle@ =~= held.restrict(keys@.take(0).to_set()));
                while i < keys.len()
                    invariant
                        i <= keys.len(),
                        self.inv(),
                        self@.is_live(*entity_id),
                        held == self@.entities[*entity_id],
                        keys@.to_set() == held.dom(),
                        self.entity_id_to_component_ids@[*entity_id] == *shape,
                        bundle.wf(),
                        bundle@ == held.restrict(keys@.take(i as int).to_set()),
                    decreases keys.len() - i,
                {
                    let key = keys[i];
                    assert(keys@.to_set().contains(keys@[i as int]));
                    assert(shape@.contains(key));
                    let manager = self.component_id_to_component_managers.get(&key).unwrap();
                    let handle = manager.get_component_for_entity(entity_id).unwrap();
                    let ghost done = keys@.take(i as int).to_set();
                    bundle.add_component_arc(handle);
                    proof {
                        let next = keys@.take(i + 1).to_set();
                        lemma_take_next(keys@, i as int);
                        assert(held.restrict(done).insert(key, handle) =~= held.restrict(next));
                    }
                    i += 1;
                }
                proof {
                    assert(keys@.take(keys@.len() as int) == keys@);
                    assert(held.restrict(held.dom()) =~= held);
                }
            },
            None => {},
        }
        bundle
    }

    /// Creates an entity with the components of `components` and returns its
    /// id, which no entity had before.
    pub fn create_entity(&mut self, components: ComponentBundle) -> (entity_id: u32)
        requires
            old(self).wf(),
            old(self)@.next_id < u32::MAX,
            components.wf(),
        ensures
            final(self).wf(),
            entity_id == old(self)@.next_id,
            !old(self)@.is_live(entity_id),
            final(self)@ == old(self)@.create(components@),
    {
        let ghost before = self@;
        let ghost shapes = self.entity_id_to_component_ids@;
        let ghost storages = self.component_id_to_component_managers@;
        let entity_id = self.next_entity_id;
        assert(!before.is_live(entity_id)) by {
            if before.entities.contains_key(entity_id) {
                assert(entity_id < before.next_id);
            }
        }
        self.next_entity_id += 1;
        self.entity_id_to_component_ids.insert(entity_id, HashSet::new());
        proof {
            let shapes2 = self.entity_id_to_component_ids@;
            assert(shapes2[entity_id]@ =~= Set::<u64>::empty());
            assert(indexes_agree(shapes2, storages)) by {
                assert forall|e: u32, k: u64|
                    #![trigger shapes2[e]@.contains(k)]
                    shapes2.contains_key(e) && shapes2[e]@.contains(k) implies {
                    &&& storages.contains_key(k)
                    &&& storages[k]@.contains_key(e)
                    &&& storages[k]@[e].type_key() == k
                } by {
                    assert(shapes[e]@.contains(k));
                }
            }
            let entities2 = entities_of(shapes2, storages);
            assert forall|e: u32| #[trigger] entities2.contains_key(e) implies entities2[e]
                == before.entities.insert(entity_id, Map::<u64, Handle>::empty())[e] by {
                if e == entity_id {
                    assert(components_of(shapes2, storages, e) =~= Map::<u64, Handle>::empty());
                } else {
                    assert(components_of(shapes2, storages, e) =~= components_of(
                        shapes,
                        storages,
                        e,
                    ));
                }
            }
            assert(self@.entities =~= before.entities.insert(
                entity_id,
                Map::<u64, Handle>::empty(),
            ));
        }
        self.attach_bundle(entity_id, &components);
        self.query_cache.update_cache(&entity_id, &components);
        proof {
            assert(Map::<u64, Handle>::empty().union_prefer_right(components@) =~= components@);
            assert(self@.entities =~= before.entities.insert(entity_id, components@));
            assert(self@ =~= before.create(components@));
            lemma_create_keeps_wf(before, components@);
        }
        entity_id
    }

    /// Deletes the entity: it leaves the directory, every storage, and the
    /// remembered answers of every query. An id that names no live entity is
    /// refused.
    pub fn delete_entity(&mut self, entity_id: &u32) -> (deleted: Result<(), EcsError>)
        requires
            old(self).wf(),
        ensures
            final(self).wf(),
            deleted is Ok <==> old(self)@.is_live(*entity_id),
            deleted matches Ok(_) ==> final(self)@ == old(self)@.delete(*entity_id),
            deleted matches Err(error) ==> error == EcsError::UnknownEntity && final(self)@ == old(
                self,
            )@,
    {
        let ghost before = self@;
        let keys = match self.entity_id_to_component_ids.get(entity_id) {
            Some(shape) => set_members(shape),
            None => {
                return Err(EcsError::UnknownEntity);
            },
        };
        {
            let ghost held = before.entities[*entity_id];
            let mut i: usize = 0;
            proof {
                assert(keys@.take(0).to_set() =~= Set::<u64>::empty());
                assert(held.remove_keys(Set::<u64>::empty()) =~= held);
                assert(self@.entities =~= before.entities.insert(*entity_id, held));
            }
            while i < keys.len()
                invariant
                    i <= keys.len(),
                    held == before.entities[*entity_id],
                    before.entities.contains_key(*entity_id),
                    self.inv(),
                    self@.next_id == before.next_id,
                    self@.cache == before.cache,
                    self@.entities == before.entities.insert(
                        *entity_id,
                        held.remove_keys(keys@.take(i as int).to_set()),
                    ),
                decreases keys.len() - i,
            {
                let key = keys[i];
                let ghost done = keys@.take(i as int).to_set();
                self.detach_one(*entity_id, key);
                proof {
                    let next = keys@.take(i + 1).to_set();
                    lemma_take_next(keys@, i as int);
                    assert(held.remove_keys(done).remove(key) =~= held.remove_keys(next));
                }
                i += 1;
            }
            let ghost shapes = self.entity_id_to_component_ids@;
            let ghost storages = self.component_id_to_component_managers@;
            proof {
                assert(keys@.take(keys@.len() as int) == keys@);
                assert(held.remove_keys(held.dom()) =~= Map::<u64, Handle>::empty());
                assert(self@.entities[*entity_id] =~= Map::<u64, Handle>::empty());
                assert(components_of(shapes, storages, *entity_id) =~= Map::<u64, Handle>::empty());
                assert forall|k: u64| !shapes[*entity_id]@.contains(k) by {
                    if shapes[*entity_id]@.contains(k) {
                        assert(components_of(shapes, storages, *entity_id).contains_key(k));
                    }
                }
            }
            self.entity_id_to_component_ids.remove(entity_id);
            proof {
                let shapes2 = self.entity_id_to_component_ids@;
                assert(indexes_agree(shapes2, storages)) by {
                    assert forall|e: u32, k: u64|
                        #![trigger shapes2[e]@.contains(k)]
                        shapes2.contains_key(e) && shapes2[e]@.contains(k) implies {
                        &&& storages.contains_key(k)
                        &&& storages[k]@.contains_key(e)
                        &&& storages[k]@[e].type_key() == k
                    } by {
                        assert(shapes[e]@.contains(k));
                    }
                    assert forall|k: u64, e: u32|
                        #![trigger storages[k]@.contains_key(e)]
                        storages.contains_key(k) && storages[k]@.contains_key(e) implies {
                        &&& shapes2.contains_key(e)
                        &&& shapes2[e]@.contains(k)
                    } by {
                        assert(shapes[e]@.contains(k));
                    }
                }
                let entities2 = entities_of(shapes2, storages);
                assert forall|e: u32| #[trigger] entities2.contains_key(e) implies entities2[e]
                    == before.entities.remove(*entity_id)[e] by {
                    assert(entities_of(shapes, storages).contains_key(e));
                    assert(entities_of(shapes, storages)[e] == before.entities[e]);
                    assert(components_of(shapes2, storages, e) =~= components_of(
                        shapes,
                        storages,
                        e,
                    ));
                }
                assert(self@.entities =~= before.entities.remove(*entity_id));
            }
        }
        self.query_cache.remove_entity_from_cache(entity_id);
        proof {
            assert(self@ =~= before.delete(*entity_id));
            lemma_delete_keeps_wf(before, *entity_id);
        }
        Ok(())
    }

    /// Attaches the components of `components` to the entity. Nothing is
    /// attached where the entity is not live or has a component of one of
    /// their types already: a component is never put in the place of another.
    pub fn add_components_to_entity(
        &mut self,
        entity_id: &u32,
        components: ComponentBundle,
    ) -> (attached: Result<(), EcsError>)
        requires
            old(self).wf(),
            components.wf(),
        ensures
            final(self).wf(),
            attached matches Ok(_) ==> {
                &&& old(self)@.attach_error(*entity_id, components@) is None
                &&& final(self)@ == old(self)@.attach(*entity_id, components@)
            },
            attached matches Err(error) ==> {
                &&& old(self)@.attach_error(*entity_id, components@) == Some(error)
                &&& final(self)@ == old(self)@
            },
    {
        let ghost before = self@;
        match self.entity_id_to_component_ids.get(entity_id) {
            None => {
                return Err(EcsError::UnknownEntity);
            },
            Some(shape) => {
                let keys = map_keys(components.get_components());
                let mut i: usize = 0;
                assert(shape@ =~= before.shape(*entity_id));
                while i < keys.len()
                    invariant
                        i <= keys.len(),
                        keys@.to_set() == components@.dom(),
                        self.wf(),
                        self@ == before,
                        before.is_live(*entity_id),
                        shape@ == before.shape(*entity_id),
                        forall|j: int| 0 <= j < i ==> !shape@.contains(#[trigger] keys@[j]),
                    decreases keys.len() - i,
                {
                    if shape.contains(&keys[i]) {
                        assert(keys@.to_set().contains(keys@[i as int]));
                        assert(components@.contains_key(keys@[i as int]) && before.shape(
                            *entity_id,
                        ).contains(keys@[i as int]));
                        return Err(EcsError::DuplicateComponent);
                    }
                    i += 1;
                }
                assert forall|key: u64| components@.contains_key(key) implies !before.shape(
                    *entity_id,
                ).contains(key) by {
                    assert(keys@.to_set().contains(key));
                    let j = choose|j: int| 0 <= j < keys@.len() && keys@[j] == key;
                    assert(!shape@.contains(keys@[j]));
                }
            },
        }
        self.attach_bundle(*entity_id, &components);
        let all_components = self.snapshot(entity_id);
        self.query_cache.update_cache(entity_id, &all_components);
        proof {
            assert(self@ =~= before.attach(*entity_id, components@));
            lemma_attach_keeps_wf(before, *entity_id, components@);
        }
        Ok(())
    }

    /// Attaches one component, in a fresh cell, to the entity. Nothing is
    /// attached where the entity is not live or has a component of that type
    /// already.
    pub fn add_component_to_entity<T: 'static + Component>(
        &mut self,
        entity_id: u32,
        component: T,
    ) -> (attached: Result<(), EcsError>)
        requires
            old(self).wf(),
        ensures
            final(self).wf(),
            attached is Ok <==> {
                &&& old(self)@.is_live(entity_id)
                &&& !old(self)@.shape(entity_id).contains(T::type_key())
            },
            attached matches Ok(_) ==> exists|handle: Handle|
                {
                    &&& handle.type_key() == T::type_key()
                    &&& final(self)@ == #[trigger] old(self)@.attach(
                        entity_id,
                        Map::<u64, Handle>::empty().insert(T::type_key(), handle),
                    )
                },
            attached matches Err(error) ==> {
                &&& final(self)@ == old(self)@
                &&& error == if old(self)@.is_live(entity_id) {
                    EcsError::DuplicateComponent
                } else {
                    EcsError::UnknownEntity
                }
            },
    {
        let handle = Handle::new(component);
        let ghost one = Map::<u64, Handle>::empty().insert(handle.type_key(), handle);
        match ComponentBundle::new().add_handle(handle) {
            Ok(bundle) => {
                proof {
                    assert(bundle@ == one);
                    assert(one.contains_key(T::type_key()));
                    assert(one.dom() =~= set![T::type_key()]);
                }
                let attached = self.add_components_to_entity(&entity_id, bundle);
                proof {
                    if attached is Ok {
                        assert(old(self)@.is_live(entity_id));
                        assert(!old(self)@.shape(entity_id).contains(T::type_key()));
                        assert(self@ == old(self)@.attach(entity_id, one));
                    }
                }
                attached
            },
            Err(error) => Err(error),
        }
    }

    /// Detaches the component of type `T` from the entity. An entity that is
    /// not live is refused; one that has no such component is left as it is,
    /// but for the place of its answer among the remembered ones.
    pub fn remove_component_from_entity<T: 'static + Component>(
        &mut self,
        entity_id: &u32,
    ) -> (detached: Result<(), EcsError>)
        requires
            old(self).wf(),
        ensures
            final(self).wf(),
            detached is Ok <==> old(self)@.is_live(*entity_id),
            detached matches Ok(_) ==> final(self)@ == old(self)@.detach(*entity_id, T::type_key()),
            detached matches Err(error) ==> error == EcsError::UnknownEntity && final(self)@ == old(
                self,
            )@,
    {
        self.remove_component_by_key(entity_id, T::property_id())
    }

    /// Detaches the component under `key` from the entity. An entity that is
    /// not live is refused; one that has no such component is left as it is,
    /// but for the place of its answer among the remembered ones.
    pub fn remove_component_by_key(&mut self, entity_id: &u32, key: u64) -> (detached: Result<
        (),
        EcsError,
    >)
        requires
            old(self).wf(),
        ensures
            final(self).wf(),
            detached is Ok <==> old(self)@.is_live(*entity_id),
            detached matches Ok(_) ==> final(self)@ == old(self)@.detach(*entity_id, key),
            detached matches Err(error) ==> error == EcsError::UnknownEntity && final(self)@ == old(
                self,
            )@,
    {
        let ghost before = self@;
        if !self.entity_id_to_component_ids.contains_key(entity_id) {
            return Err(EcsError::UnknownEntity);
        }
        self.detach_one(*entity_id, key);
        let all_components = self.snapshot(entity_id);
        self.query_cache.update_cache(entity_id, &all_components);
        proof {
            assert(self@ =~= before.detach(*entity_id, key));
            lemma_detach_keeps_wf(before, *entity_id, key);
        }
        Ok(())
    }

    /// Returns shared handles to every component of the entity; the empty
    /// bundle for an id that names no live entity.
    pub fn get_all_components_for_entity(&self, entity_id: &u32) -> (bundle: ComponentBundle)
        requires
            self.wf(),
        ensures
            bundle.wf(),
            bundle@ == if self@.is_live(*entity_id) {
                self@.entities[*entity_id]
            } else {
                Map::<u64, Handle>::empty()
            },
    {
        self.snapshot(entity_id)
    }

    /// Builds the answer of a live entity that answers the query.
    fn answer_for(&self, entity_id: u32, query: &Query) -> (result: QueryResult)
        requires
            self.inv(),
            self@.matches(query.key(), entity_id),
        ensures
            result@ == result_for(query.key(), entity_id, self@.entities[entity_id]),
    {
        let ghost held = self@.entities[entity_id];
        let mut result = QueryResult::new(entity_id);
        let keys = query.get_with_components();
        let mut i: usize = 0;
        while i < keys.len()
            invariant
                i <= keys.len(),
                keys@ == query.with_seq(),
                self.inv(),
                self@.matches(query.key(), entity_id),
                held == self@.entities[entity_id],
                result@.entity_id == entity_id,
                forall|k: u64|
                    result@.components.contains_key(k) <==> exists|j: int|
                        0 <= j < i && #[trigger] keys@[j] == k,
                forall|k: u64| #[trigger]
                    result@.components.contains_key(k) ==> result@.components[k] == held[k],
            decreases keys.len() - i,
        {
            let key = keys[i];
            assert(query.key().with.contains(keys@[i as int]));
            assert(held.contains_key(key));
            assert(self.entity_id_to_component_ids@[entity_id]@.contains(key));
            let manager = self.component_id_to_component_managers.get(&key).unwrap();
            let handle = manager.get_component_for_entity(&entity_id).unwrap();
            let ghost earlier = result@.components;
            result.add_component(handle);
            proof {
                assert(result@.components == earlier.insert(key, held[key]));
                assert forall|k: u64| result@.components.contains_key(k) implies exists|j: int|
                    0 <= j < i + 1 && #[trigger] keys@[j] == k by {
                    if k == key {
                        assert(keys@[i as int] == k);
                    } else {
                        assert(earlier.contains_key(k));
                        let j = choose|j: int| 0 <= j < i && #[trigger] keys@[j] == k;
                        assert(keys@[j] == k);
                    }
                }
            }
            i += 1;
        }
        assert(result@.components =~= held.restrict(query.key().with));
        result
    }

    /// Answers the query by matching every live entity against it, without
    /// looking at the remembered answers or adding to them. The entities are
    /// matched in parallel; the order of the answers is not determined.
    pub fn filter_uncached(&self, query: &Query) -> (results: Vec<QueryResult>)
        requires
            self.wf(),
        ensures
            self@.matched_afresh(query.key(), results_view(results@)),
    {
        let ghost key = query.key();
        let ghost shapes = self.entity_id_to_component_ids@;
        let candidates = map_keys(&self.entity_id_to_component_ids);
        let kept = retain_matching(&candidates, &self.entity_id_to_component_ids, query);
        proof {
            let test = |entity_id: u32| shape_answers(shapes, key, entity_id);
            candidates@.lemma_multiset_has_no_duplicates();
            assert forall|entity_id: u32| kept@.to_multiset().count(entity_id) <= 1 by {
                vstd::multiset::axiom_filter_count(candidates@.to_multiset(), test, entity_id);
            }
            kept@.lemma_multiset_has_no_duplicates_conv();
            assert forall|entity_id: u32| kept@.contains(entity_id) <==> self@.matches(
                key,
                entity_id,
            ) by {
                vstd::multiset::axiom_filter_count(candidates@.to_multiset(), test, entity_id);
                vstd::seq_lib::to_multiset_contains(kept@, entity_id);
                vstd::seq_lib::to_multiset_contains(candidates@, entity_id);
                if shapes.contains_key(entity_id) {
                    assert(candidates@.to_set().contains(entity_id));
                    assert(self@.shape(entity_id) =~= shapes[entity_id]@);
                }
            }
        }
        let mut results: Vec<QueryResult> = Vec::new();
        let mut i: usize = 0;
        while i < kept.len()
            invariant
                i <= kept.len(),
                key == query.key(),
                self.wf(),
                results.len() == i,
                forall|entity_id: u32| kept@.contains(entity_id) <==> self@.matches(key, entity_id),
                forall|j: int|
                    0 <= j < i ==> (#[trigger] results@[j])@ == result_for(
                        key,
                        kept@[j],
                        self@.entities[kept@[j]],
                    ),
            decreases kept.len() - i,
        {
            assert(kept@.contains(kept@[i as int]));
            let result = self.answer_for(kept[i], query);
            results.push(result);
            i += 1;
        }
        proof {
            let answers = results_view(results@);
            assert forall|j: int| 0 <= j < answers.len() implies answers_query(
                self@.entities,
                key,
                #[trigger] answers[j],
            ) && answers[j].entity_id == kept@[j] by {
                assert(answers[j] == results@[j]@);
                assert(kept@.contains(kept@[j]));
            }
            assert forall|entity_id: u32|
                self@.entities.contains_key(entity_id) && shape_matches(
                    key,
                    self@.entities[entity_id].dom(),
                ) implies crate::entity::model::mentions(answers, entity_id) by {
                assert(kept@.contains(entity_id));
                let j = choose|j: int| 0 <= j < kept@.len() && kept@[j] == entity_id;
                assert(answers[j].entity_id == entity_id);
            }
        }
        results
    }

    /// Answers the query. A query that was answered before, in whatever order
    /// its types were named, gets a copy of the remembered answers; any other
    /// is matched against every live entity, and its answers are remembered.
    pub fn filter(&mut self, query: Query) -> (results: Vec<QueryResult>)
        requires
            old(self).wf(),
        ensures
            final(self).wf(),
            old(self)@.answered_by(query.key(), results_view(results@)),
            final(self)@ == old(self)@.after_query(query.key(), results_view(results@)),
    {
        let ghost before = self@;
        match self.query_cache.check_cache(&query) {
            Some(results) => {
                return results;
            },
            None => {},
        }
        let results = self.filter_uncached(&query);
        let copies = copy_results(&results);
        self.query_cache.add_to_cache((query, copies));
        proof {
            assert(self@ =~= before.after_query(query.key(), results_view(results@)));
            lemma_query_keeps_wf(before, query.key(), results_view(results@));
        }
        results
    }
}

impl Default for EntityManager {
    fn default() -> (manager: EntityManager)
        ensures
            manager.wf(),
            manager@ == DirectoryView::empty(),
    {
        EntityManager::new()
    }
}

} // verus!
