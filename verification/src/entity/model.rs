use vstd::prelude::*;

use crate::error::EcsError;
use crate::util::keyed_by_type;
use crate::util::Handle;

verus! {

/// What a query asks for: the component types that an entity must have and
/// those that it must not have. Two queries with the same two sets are the
/// same query, in whatever order their types were named.
#[verifier::ext_equal]
pub struct QueryKey {
    pub with: Set<u64>,
    pub without: Set<u64>,
}

/// One answer of a query: an entity, and a handle to its component of each
/// type that the query asked for.
#[verifier::ext_equal]
pub struct ResultView {
    pub entity_id: u32,
    pub components: Map<u64, Handle>,
}

/// Whether an entity of the given shape answers the query: it has every type
/// of `with` and none of `without`.
pub open spec fn shape_matches(key: QueryKey, shape: Set<u64>) -> bool {
    &&& key.with.subset_of(shape)
    &&& shape.disjoint(key.without)
}

/// Whether one of `results` is about the entity.
pub open spec fn mentions(results: Seq<ResultView>, entity_id: u32) -> bool {
    exists|i: int| 0 <= i < results.len() && (#[trigger] results[i]).entity_id == entity_id
}

/// Whether `i` is the first place of `results` that is about the entity.
pub open spec fn is_first_position(results: Seq<ResultView>, entity_id: u32, i: int) -> bool {
    &&& 0 <= i < results.len()
    &&& results[i].entity_id == entity_id
    &&& forall|j: int| 0 <= j < i ==> (#[trigger] results[j]).entity_id != entity_id
}

/// `results` without the first result that is about the entity: the last
/// result takes its place. Where none is about the entity, `results` itself.
pub open spec fn without_entity(results: Seq<ResultView>, entity_id: u32) -> Seq<ResultView> {
    if exists|i: int| is_first_position(results, entity_id, i) {
        let i = choose|i: int| is_first_position(results, entity_id, i);
        results.update(i, results.last()).drop_last()
    } else {
        results
    }
}

/// The answer that an entity with the given components gives to the query.
pub open spec fn result_for(key: QueryKey, entity_id: u32, components: Map<u64, Handle>)
    -> ResultView {
    ResultView { entity_id, components: components.restrict(key.with) }
}

/// The cached answers of one query after the entity has come to hold exactly
/// `components`: its earlier result leaves, and a result for what it holds now
/// is added at the end if it holds anything and answers the query.
pub open spec fn refreshed(
    key: QueryKey,
    results: Seq<ResultView>,
    entity_id: u32,
    components: Map<u64, Handle>,
) -> Seq<ResultView> {
    let rest = without_entity(results, entity_id);
    if !components.is_empty() && shape_matches(key, components.dom()) {
        rest.push(result_for(key, entity_id, components))
    } else {
        rest
    }
}

/// The cache after the entity has come to hold exactly `components`: the
/// answers of every remembered query are refreshed.
pub open spec fn refresh_all(
    cache: Map<QueryKey, Seq<ResultView>>,
    entity_id: u32,
    components: Map<u64, Handle>,
) -> Map<QueryKey, Seq<ResultView>> {
    Map::new(
        |key: QueryKey| cache.contains_key(key),
        |key: QueryKey| refreshed(key, cache[key], entity_id, components),
    )
}

/// The cache after the entity has left: it leaves the answers of every
/// remembered query.
pub open spec fn purge_all(cache: Map<QueryKey, Seq<ResultView>>, entity_id: u32) -> Map<
    QueryKey,
    Seq<ResultView>,
> {
    Map::new(
        |key: QueryKey| cache.contains_key(key),
        |key: QueryKey| without_entity(cache[key], entity_id),
    )
}

/// Whether no two of `results` are about the same entity.
pub open spec fn distinct_entities(results: Seq<ResultView>) -> bool {
    forall|i: int, j: int|
        0 <= i < results.len() && 0 <= j < results.len() && i != j ==> (
        #[trigger] results[i]).entity_id != (#[trigger] results[j]).entity_id
}

/// The first place that is about the entity is the place that `without_entity`
/// empties.
pub proof fn lemma_without_entity_at(results: Seq<ResultView>, entity_id: u32, i: int)
    requires
        is_first_position(results, entity_id, i),
    ensures
        without_entity(results, entity_id) == results.update(i, results.last()).drop_last(),
{
    let chosen = choose|i: int| is_first_position(results, entity_id, i);
    assert(is_first_position(results, entity_id, chosen));
    if chosen < i {
        assert(results[chosen].entity_id != entity_id);
    }
    if i < chosen {
        assert(results[i].entity_id != entity_id);
    }
}

/// Where nothing is about the entity, `without_entity` changes nothing.
pub proof fn lemma_without_entity_absent(results: Seq<ResultView>, entity_id: u32)
    requires
        !mentions(results, entity_id),
    ensures
        without_entity(results, entity_id) == results,
{
    if exists|i: int| is_first_position(results, entity_id, i) {
        let i = choose|i: int| is_first_position(results, entity_id, i);
        assert(results[i].entity_id == entity_id);
    }
}

/// If something is about the entity, some place is the first such place.
pub proof fn lemma_first_position_exists(results: Seq<ResultView>, entity_id: u32) -> (i: int)
    requires
        mentions(results, entity_id),
    ensures
        is_first_position(results, entity_id, i),
    decreases results.len(),
{
    let some = choose|i: int|
        0 <= i < results.len() && (#[trigger] results[i]).entity_id == entity_id;
    if results[0].entity_id == entity_id {
        0
    } else {
        let tail = results.drop_first();
        assert(tail[some - 1] == results[some]);
        let k = lemma_first_position_exists(tail, entity_id);
        assert forall|j: int| 0 <= j < k + 1 implies (#[trigger] results[j]).entity_id
            != entity_id by {
            if j > 0 {
                assert(tail[j - 1] == results[j]);
            }
        }
        assert(tail[k] == results[k + 1]);
        k + 1
    }
}

/// What `without_entity` leaves of results that are about distinct entities:
/// exactly the results that are about another entity, still distinct.
pub proof fn lemma_without_entity_contents(results: Seq<ResultView>, entity_id: u32)
    requires
        distinct_entities(results),
    ensures
        distinct_entities(without_entity(results, entity_id)),
        !mentions(without_entity(results, entity_id), entity_id),
        forall|r: ResultView|
            without_entity(results, entity_id).contains(r) <==> results.contains(r) && r.entity_id
                != entity_id,
{
    let rest = without_entity(results, entity_id);
    if mentions(results, entity_id) {
        let i = lemma_first_position_exists(results, entity_id);
        lemma_without_entity_at(results, entity_id, i);
        let last = results.len() - 1;
        assert forall|j: int| 0 <= j < rest.len() implies (#[trigger] rest[j]).entity_id
            != entity_id && results.contains(rest[j]) by {
            if j == i {
                assert(rest[j] == results[last]);
                assert(results[last].entity_id != results[i].entity_id);
            } else {
                assert(rest[j] == results[j]);
                assert(results[j].entity_id != results[i].entity_id);
            }
        }
        assert forall|a: int, b: int|
            0 <= a < rest.len() && 0 <= b < rest.len() && a != b implies (
        #[trigger] rest[a]).entity_id != (#[trigger] rest[b]).entity_id by {
            let a0 = if a == i { last } else { a };
            let b0 = if b == i { last } else { b };
            assert(rest[a] == results[a0]);
            assert(rest[b] == results[b0]);
        }
        assert forall|r: ResultView|
            results.contains(r) && r.entity_id != entity_id implies rest.contains(r) by {
            let j = choose|j: int| 0 <= j < results.len() && results[j] == r;
            if j == last {
                assert(rest[i] == r);
            } else {
                assert(rest[j] == r);
            }
        }
        assert forall|r: ResultView| rest.contains(r) implies results.contains(r) && r.entity_id
            != entity_id by {
            let j = choose|j: int| 0 <= j < rest.len() && rest[j] == r;
            assert(rest[j].entity_id != entity_id && results.contains(rest[j]));
        }
    } else {
        lemma_without_entity_absent(results, entity_id);
        assert forall|r: ResultView| results.contains(r) implies r.entity_id != entity_id by {
            let j = choose|j: int| 0 <= j < results.len() && results[j] == r;
            assert(results[j].entity_id != entity_id);
        }
    }
}

/// Whether `result` is the answer that its entity gives to the query in
/// `entities`.
pub open spec fn answers_query(
    entities: Map<u32, Map<u64, Handle>>,
    key: QueryKey,
    result: ResultView,
) -> bool {
    &&& entities.contains_key(result.entity_id)
    &&& shape_matches(key, entities[result.entity_id].dom())
    &&& result == result_for(key, result.entity_id, entities[result.entity_id])
}

/// Whether every one of `results` is the answer of a different entity that
/// answers the query.
pub open spec fn answers_sound(
    entities: Map<u32, Map<u64, Handle>>,
    key: QueryKey,
    results: Seq<ResultView>,
) -> bool {
    &&& distinct_entities(results)
    &&& forall|i: int|
        0 <= i < results.len() ==> answers_query(entities, key, #[trigger] results[i])
}

/// Whether every entity that answers the query is among `results`.
pub open spec fn answers_complete(
    entities: Map<u32, Map<u64, Handle>>,
    key: QueryKey,
    results: Seq<ResultView>,
) -> bool {
    forall|entity_id: u32|
        #![trigger mentions(results, entity_id)]
        #![trigger entities.contains_key(entity_id)]
        entities.contains_key(entity_id) && shape_matches(key, entities[entity_id].dom())
            ==> mentions(results, entity_id)
}

/// Whether every entity that has a component and answers the query is among
/// `results`.
pub open spec fn answers_cover_shaped(
    entities: Map<u32, Map<u64, Handle>>,
    key: QueryKey,
    results: Seq<ResultView>,
) -> bool {
    forall|entity_id: u32|
        #![trigger mentions(results, entity_id)]
        #![trigger entities.contains_key(entity_id)]
        entities.contains_key(entity_id) && shape_matches(key, entities[entity_id].dom())
            && !entities[entity_id].is_empty() ==> mentions(results, entity_id)
}

/// The state of an entity directory: the next id to hand out, the components
/// of each live entity by the key of their type, and the remembered answers of
/// queries.
#[verifier::ext_equal]
pub struct DirectoryView {
    pub next_id: nat,
    pub entities: Map<u32, Map<u64, Handle>>,
    pub cache: Map<QueryKey, Seq<ResultView>>,
}

impl DirectoryView {
    /// The directory without entities, in which no query is remembered.
    pub open spec fn empty() -> DirectoryView {
        DirectoryView {
            next_id: 0,
            entities: Map::<u32, Map<u64, Handle>>::empty(),
            cache: Map::<QueryKey, Seq<ResultView>>::empty(),
        }
    }

    /// Whether the id names a live entity.
    pub open spec fn is_live(self, entity_id: u32) -> bool {
        self.entities.contains_key(entity_id)
    }

    /// The component types that the entity has.
    pub open spec fn shape(self, entity_id: u32) -> Set<u64> {
        self.entities[entity_id].dom()
    }

    /// Whether the entity is live and answers the query.
    pub open spec fn matches(self, key: QueryKey, entity_id: u32) -> bool {
        self.is_live(entity_id) && shape_matches(key, self.shape(entity_id))
    }

    /// A directory is well formed when every live entity has an id below the
    /// next one and finitely many components, each under the key of its type,
    /// and the remembered answers of each query are the answers of different
    /// entities that answer it now, among them every such entity that has a
    /// component.
    pub open spec fn wf(self) -> bool {
        &&& self.next_id <= u32::MAX
        &&& self.entities.dom().finite()
        &&& forall|entity_id: u32| #[trigger]
            self.entities.contains_key(entity_id) ==> {
                &&& entity_id < self.next_id
                &&& self.entities[entity_id].dom().finite()
                &&& keyed_by_type(self.entities[entity_id])
            }
        &&& forall|key: QueryKey| #[trigger]
            self.cache.contains_key(key) ==> {
                &&& answers_sound(self.entities, key, self.cache[key])
                &&& answers_cover_shaped(self.entities, key, self.cache[key])
            }
    }

    /// The directory after an entity was created with `components`.
    pub open spec fn create(self, components: Map<u64, Handle>) -> DirectoryView {
        let entity_id = self.next_id as u32;
        DirectoryView {
            next_id: self.next_id + 1,
            entities: self.entities.insert(entity_id, components),
            cache: refresh_all(self.cache, entity_id, components),
        }
    }

    /// Why `bundle` cannot be attached to the entity, if it cannot.
    pub open spec fn attach_error(self, entity_id: u32, bundle: Map<u64, Handle>) -> Option<
        EcsError,
    > {
        if !self.is_live(entity_id) {
            Some(EcsError::UnknownEntity)
        } else if exists|key: u64| bundle.contains_key(key) && self.shape(entity_id).contains(key) {
            Some(EcsError::DuplicateComponent)
        } else {
            None
        }
    }

    /// The directory after `bundle` was attached to the entity.
    pub open spec fn attach(self, entity_id: u32, bundle: Map<u64, Handle>) -> DirectoryView {
        let components = self.entities[entity_id].union_prefer_right(bundle);
        DirectoryView {
            next_id: self.next_id,
            entities: self.entities.insert(entity_id, components),
            cache: refresh_all(self.cache, entity_id, components),
        }
    }

    /// The directory after the component under `key` was detached from the
    /// entity.
    pub open spec fn detach(self, entity_id: u32, key: u64) -> DirectoryView {
        let components = self.entities[entity_id].remove(key);
        DirectoryView {
            next_id: self.next_id,
            entities: self.entities.insert(entity_id, components),
            cache: refresh_all(self.cache, entity_id, components),
        }
    }

    /// The directory after the entity was deleted.
    pub open spec fn delete(self, entity_id: u32) -> DirectoryView {
        DirectoryView {
            next_id: self.next_id,
            entities: self.entities.remove(entity_id),
            cache: purge_all(self.cache, entity_id),
        }
    }

    /// Whether `results` is what matching from scratch gives for the query:
    /// one answer for each entity that answers it, in any order.
    pub open spec fn matched_afresh(self, key: QueryKey, results: Seq<ResultView>) -> bool {
        &&& answers_sound(self.entities, key, results)
        &&& answers_complete(self.entities, key, results)
    }

    /// Whether `results` is what a query returns: the remembered answers where
    /// the query is remembered, and else what matching from scratch gives.
    pub open spec fn answered_by(self, key: QueryKey, results: Seq<ResultView>) -> bool {
        if self.cache.contains_key(key) {
            results == self.cache[key]
        } else {
            self.matched_afresh(key, results)
        }
    }

    /// The directory after a query returned `results`: a query that was not
    /// remembered is remembered with them.
    pub open spec fn after_query(self, key: QueryKey, results: Seq<ResultView>) -> DirectoryView {
        if self.cache.contains_key(key) {
            self
        } else {
            DirectoryView {
                next_id: self.next_id,
                entities: self.entities,
                cache: self.cache.insert(key, results),
            }
        }
    }
}

/// Answers that were right stay right when an entity comes to hold
/// `components` and the answers are refreshed for it.
pub proof fn lemma_refreshed_stays_right(
    entities: Map<u32, Map<u64, Handle>>,
    key: QueryKey,
    results: Seq<ResultView>,
    entity_id: u32,
    components: Map<u64, Handle>,
)
    requires
        answers_sound(entities, key, results),
        answers_cover_shaped(entities, key, results),
    ensures
        answers_sound(
            entities.insert(entity_id, components),
            key,
            refreshed(key, results, entity_id, components),
        ),
        answers_cover_shaped(
            entities.insert(entity_id, components),
            key,
            refreshed(key, results, entity_id, components),
        ),
{
    let after = entities.insert(entity_id, components);
    let rest = without_entity(results, entity_id);
    let fresh = refreshed(key, results, entity_id, components);
    let added = !components.is_empty() && shape_matches(key, components.dom());
    lemma_without_entity_contents(results, entity_id);
    assert forall|i: int| 0 <= i < rest.len() implies answers_query(after, key, #[trigger] rest[i])
        && rest[i].entity_id != entity_id by {
        assert(rest.contains(rest[i]));
        let j = choose|j: int| 0 <= j < results.len() && results[j] == rest[i];
        assert(answers_query(entities, key, results[j]));
    }
    assert forall|i: int| 0 <= i < fresh.len() implies answers_query(
        after,
        key,
        #[trigger] fresh[i],
    ) by {
        if i < rest.len() {
            assert(fresh[i] == rest[i]);
        }
    }
    assert forall|i: int, j: int| 0 <= i < fresh.len() && 0 <= j < fresh.len() && i != j implies (
    #[trigger] fresh[i]).entity_id != (#[trigger] fresh[j]).entity_id by {
        if i < rest.len() {
            assert(fresh[i] == rest[i]);
        }
        if j < rest.len() {
            assert(fresh[j] == rest[j]);
        }
    }
    assert forall|other: u32|
        after.contains_key(other) && shape_matches(key, after[other].dom())
            && !after[other].is_empty() implies mentions(fresh, other) by {
        if other == entity_id {
            assert(added);
            assert(fresh[rest.len() as int].entity_id == other);
        } else {
            assert(entities.contains_key(other));
            assert(mentions(results, other));
            let j = choose|j: int|
                0 <= j < results.len() && (#[trigger] results[j]).entity_id == other;
            assert(results.contains(results[j]));
            assert(rest.contains(results[j]));
            let k = choose|k: int| 0 <= k < rest.len() && rest[k] == results[j];
            assert(fresh[k] == rest[k]);
            assert(fresh[k].entity_id == other);
        }
    }
}

/// Answers that were right stay right when an entity is deleted and leaves
/// the answers.
pub proof fn lemma_purged_stays_right(
    entities: Map<u32, Map<u64, Handle>>,
    key: QueryKey,
    results: Seq<ResultView>,
    entity_id: u32,
)
    requires
        answers_sound(entities, key, results),
        answers_cover_shaped(entities, key, results),
    ensures
        answers_sound(entities.remove(entity_id), key, without_entity(results, entity_id)),
        answers_cover_shaped(entities.remove(entity_id), key, without_entity(results, entity_id)),
        !mentions(without_entity(results, entity_id), entity_id),
{
    let after = entities.remove(entity_id);
    let rest = without_entity(results, entity_id);
    lemma_without_entity_contents(results, entity_id);
    assert forall|i: int| 0 <= i < rest.len() implies answers_query(
        after,
        key,
        #[trigger] rest[i],
    ) by {
        assert(rest.contains(rest[i]));
        let j = choose|j: int| 0 <= j < results.len() && results[j] == rest[i];
        assert(answers_query(entities, key, results[j]));
    }
    assert forall|other: u32|
        after.contains_key(other) && shape_matches(key, after[other].dom())
            && !after[other].is_empty() implies mentions(rest, other) by {
        assert(entities.contains_key(other));
        assert(mentions(results, other));
        let j = choose|j: int|
            0 <= j < results.len() && (#[trigger] results[j]).entity_id == other;
        assert(results.contains(results[j]));
        assert(rest.contains(results[j]));
        let k = choose|k: int| 0 <= k < rest.len() && rest[k] == results[j];
        assert(rest[k].entity_id == other);
    }
}

/// Creating an entity keeps a directory well formed.
pub proof fn lemma_create_keeps_wf(state: DirectoryView, components: Map<u64, Handle>)
    requires
        state.wf(),
        state.next_id < u32::MAX,
        components.dom().finite(),
        keyed_by_type(components),
    ensures
        state.create(components).wf(),
{
    let entity_id = state.next_id as u32;
    let after = state.create(components);
    assert forall|key: QueryKey| #[trigger] after.cache.contains_key(key) implies answers_sound(
        after.entities,
        key,
        after.cache[key],
    ) && answers_cover_shaped(after.entities, key, after.cache[key]) by {
        lemma_refreshed_stays_right(state.entities, key, state.cache[key], entity_id, components);
    }
}

/// Attaching components to a live entity keeps a directory well formed.
pub proof fn lemma_attach_keeps_wf(state: DirectoryView, entity_id: u32, bundle: Map<u64, Handle>)
    requires
        state.wf(),
        state.is_live(entity_id),
        bundle.dom().finite(),
        keyed_by_type(bundle),
    ensures
        state.attach(entity_id, bundle).wf(),
{
    let components = state.entities[entity_id].union_prefer_right(bundle);
    let after = state.attach(entity_id, bundle);
    assert(components.dom() =~= state.entities[entity_id].dom().union(bundle.dom()));
    assert forall|key: QueryKey| #[trigger] after.cache.contains_key(key) implies answers_sound(
        after.entities,
        key,
        after.cache[key],
    ) && answers_cover_shaped(after.entities, key, after.cache[key]) by {
        lemma_refreshed_stays_right(state.entities, key, state.cache[key], entity_id, components);
    }
}

/// Detaching a component from a live entity keeps a directory well formed.
pub proof fn lemma_detach_keeps_wf(state: DirectoryView, entity_id: u32, key: u64)
    requires
        state.wf(),
        state.is_live(entity_id),
    ensures
        state.detach(entity_id, key).wf(),
{
    let components = state.entities[entity_id].remove(key);
    let after = state.detach(entity_id, key);
    assert(components.dom() =~= state.entities[entity_id].dom().remove(key));
    assert forall|query: QueryKey| #[trigger] after.cache.contains_key(query) implies answers_sound(
        after.entities,
        query,
        after.cache[query],
    ) && answers_cover_shaped(after.entities, query, after.cache[query]) by {
        lemma_refreshed_stays_right(
            state.entities,
            query,
            state.cache[query],
            entity_id,
            components,
        );
    }
}

/// Deleting an entity keeps a directory well formed.
pub proof fn lemma_delete_keeps_wf(state: DirectoryView, entity_id: u32)
    requires
        state.wf(),
    ensures
        state.delete(entity_id).wf(),
{
    let after = state.delete(entity_id);
    assert forall|key: QueryKey| #[trigger] after.cache.contains_key(key) implies answers_sound(
        after.entities,
        key,
        after.cache[key],
    ) && answers_cover_shaped(after.entities, key, after.cache[key]) by {
        lemma_purged_stays_right(state.entities, key, state.cache[key], entity_id);
    }
}

/// Answering a query keeps a directory well formed.
pub proof fn lemma_query_keeps_wf(state: DirectoryView, key: QueryKey, results: Seq<ResultView>)
    requires
        state.wf(),
        state.answered_by(key, results),
    ensures
        state.after_query(key, results).wf(),
{
}

} // verus!
