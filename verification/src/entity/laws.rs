//! What holds of every well-formed entity directory, proved over the states
//! that the directory stands for.

use vstd::prelude::*;

use crate::entity::model::answers_complete;
use crate::entity::model::answers_cover_shaped;
use crate::entity::model::answers_query;
use crate::entity::model::answers_sound;
use crate::entity::model::lemma_attach_keeps_wf;
use crate::entity::model::lemma_create_keeps_wf;
use crate::entity::model::lemma_delete_keeps_wf;
use crate::entity::model::lemma_detach_keeps_wf;
use crate::entity::model::lemma_query_keeps_wf;
use crate::entity::model::mentions;
use crate::entity::DirectoryView;
use crate::entity::QueryKey;
use crate::entity::ResultView;
use crate::util::keyed_by_type;
use crate::util::Handle;

verus! {

/// One step in the life of a directory: a structural change, or a query,
/// which can add to what is remembered.
pub enum Step {
    /// An entity is created with the given components.
    Create { components: Map<u64, Handle> },
    /// The given components are attached to an entity.
    Attach { entity_id: u32, components: Map<u64, Handle> },
    /// The component under a key is detached from an entity.
    Detach { entity_id: u32, key: u64 },
    /// An entity is deleted.
    Delete { entity_id: u32 },
    /// A query is asked and returns the given answers.
    Query { query: QueryKey, results: Seq<ResultView> },
}

/// Whether `components` can make a bundle: finitely many, each under the key
/// of its type.
pub open spec fn is_bundle(components: Map<u64, Handle>) -> bool {
    components.dom().finite() && keyed_by_type(components)
}

/// The query that asks for the one type `key` and excludes nothing.
pub open spec fn with_only(key: u64) -> QueryKey {
    QueryKey { with: set![key], without: Set::<u64>::empty() }
}

impl DirectoryView {
    /// Whether the directory takes the step: an entity can be created while
    /// an id is left, components can be attached to a live entity that has
    /// none of their types, a component can be detached from a live entity,
    /// which can also be deleted, and a query returns what the directory
    /// answers.
    pub open spec fn admits(self, step: Step) -> bool {
        match step {
            Step::Create { components } => self.next_id < u32::MAX && is_bundle(components),
            Step::Attach { entity_id, components } => self.attach_error(entity_id, components)
                is None && is_bundle(components),
            Step::Detach { entity_id, key } => self.is_live(entity_id),
            Step::Delete { entity_id } => self.is_live(entity_id),
            Step::Query { query, results } => self.answered_by(query, results),
        }
    }

    /// The directory after the step. A step that the directory does not
    /// take changes nothing.
    pub open spec fn apply(self, step: Step) -> DirectoryView {
        if !self.admits(step) {
            self
        } else {
            match step {
                Step::Create { components } => self.create(components),
                Step::Attach { entity_id, components } => self.attach(entity_id, components),
                Step::Detach { entity_id, key } => self.detach(entity_id, key),
                Step::Delete { entity_id } => self.delete(entity_id),
                Step::Query { query, results } => self.after_query(query, results),
            }
        }
    }

    /// The directory after the steps, one after the other.
    pub open spec fn apply_all(self, steps: Seq<Step>) -> DirectoryView
        decreases steps.len(),
    {
        if steps.len() == 0 {
            self
        } else {
            self.apply_all(steps.drop_last()).apply(steps.last())
        }
    }
}

/// A step keeps a directory well formed and never lowers the next id.
pub proof fn step_keeps_wf(state: DirectoryView, step: Step)
    requires
        state.wf(),
    ensures
        state.apply(step).wf(),
        state.apply(step).next_id >= state.next_id,
{
    if state.admits(step) {
        match step {
            Step::Create { components } => {
                lemma_create_keeps_wf(state, components);
            },
            Step::Attach { entity_id, components } => {
                lemma_attach_keeps_wf(state, entity_id, components);
            },
            Step::Detach { entity_id, key } => {
                lemma_detach_keeps_wf(state, entity_id, key);
            },
            Step::Delete { entity_id } => {
                lemma_delete_keeps_wf(state, entity_id);
            },
            Step::Query { query, results } => {
                lemma_query_keeps_wf(state, query, results);
            },
        }
    }
}

/// Any sequence of steps keeps a directory well formed and never lowers
/// the next id.
pub proof fn steps_keep_wf(state: DirectoryView, steps: Seq<Step>)
    requires
        state.wf(),
    ensures
        state.apply_all(steps).wf(),
        state.apply_all(steps).next_id >= state.next_id,
    decreases steps.len(),
{
    if steps.len() > 0 {
        steps_keep_wf(state, steps.drop_last());
        step_keeps_wf(state.apply_all(steps.drop_last()), steps.last());
    }
}

/// The next id after the first `later` steps is at least the next id
/// after the first `earlier` ones.
proof fn next_id_grows(state: DirectoryView, steps: Seq<Step>, earlier: int, later: int)
    requires
        state.wf(),
        0 <= earlier <= later <= steps.len(),
    ensures
        state.apply_all(steps.take(earlier)).next_id <= state.apply_all(
            steps.take(later),
        ).next_id,
    decreases later - earlier,
{
    if earlier < later {
        next_id_grows(state, steps, earlier, later - 1);
        assert(steps.take(later).drop_last() =~= steps.take(later - 1));
        steps_keep_wf(state, steps.take(later - 1));
        step_keeps_wf(state.apply_all(steps.take(later - 1)), steps.take(later).last());
    }
}

/// Ids are unique: whatever else happens to a directory in between, two
/// entities that it creates get different ids. The id of an entity is the
/// next id of the directory at the moment of its creation.
pub proof fn created_ids_are_distinct(
    state: DirectoryView,
    steps: Seq<Step>,
    first: int,
    second: int,
)
    requires
        state.wf(),
        0 <= first < second < steps.len(),
        steps[first] is Create,
        steps[second] is Create,
        state.apply_all(steps.take(first)).admits(steps[first]),
        state.apply_all(steps.take(second)).admits(steps[second]),
    ensures
        state.apply_all(steps.take(first)).next_id as u32 != state.apply_all(
            steps.take(second),
        ).next_id as u32,
{
    let at_first = state.apply_all(steps.take(first));
    let after_first = state.apply_all(steps.take(first + 1));
    let at_second = state.apply_all(steps.take(second));
    assert(steps.take(first + 1).drop_last() =~= steps.take(first));
    assert(steps.take(first + 1).last() == steps[first]);
    assert(after_first == at_first.apply(steps[first]));
    assert(after_first.next_id == at_first.next_id + 1);
    next_id_grows(state, steps, first + 1, second);
    steps_keep_wf(state, steps.take(first));
    steps_keep_wf(state, steps.take(second));
}

/// A component that was attached is found: after components were attached to
/// an entity, a query for the type of any one of them has the entity among its
/// answers.
pub proof fn attached_component_is_found(
    state: DirectoryView,
    entity_id: u32,
    components: Map<u64, Handle>,
    key: u64,
    results: Seq<ResultView>,
)
    requires
        state.wf(),
        is_bundle(components),
        state.attach_error(entity_id, components) is None,
        components.contains_key(key),
        state.attach(entity_id, components).answered_by(with_only(key), results),
    ensures
        mentions(results, entity_id),
{
    let now = state.attach(entity_id, components);
    lemma_attach_keeps_wf(state, entity_id, components);
    assert(now.entities[entity_id].contains_key(key));
    assert(now.entities.contains_key(entity_id));
    assert(!now.entities[entity_id].is_empty()) by {
        if now.entities[entity_id].is_empty() {
            assert(now.entities[entity_id].dom() =~= Set::<u64>::empty());
        }
    }
    if now.cache.contains_key(with_only(key)) {
        assert(answers_cover_shaped(now.entities, with_only(key), now.cache[with_only(key)]));
    }
}

/// A component that was detached is not found: after the component of a type
/// was detached from an entity, a query for that type does not have the entity
/// among its answers.
pub proof fn detached_component_is_not_found(
    state: DirectoryView,
    entity_id: u32,
    key: u64,
    results: Seq<ResultView>,
)
    requires
        state.wf(),
        state.is_live(entity_id),
        state.detach(entity_id, key).answered_by(with_only(key), results),
    ensures
        !mentions(results, entity_id),
{
    let now = state.detach(entity_id, key);
    lemma_detach_keeps_wf(state, entity_id, key);
    if now.cache.contains_key(with_only(key)) {
        assert(answers_sound(now.entities, with_only(key), now.cache[with_only(key)]));
    }
    if mentions(results, entity_id) {
        let i = choose|i: int|
            0 <= i < results.len() && (#[trigger] results[i]).entity_id == entity_id;
        assert(answers_query(now.entities, with_only(key), results[i]));
        assert(with_only(key).with.contains(key));
        assert(now.entities[entity_id].dom().contains(key));
    }
}

/// Remembered answers are right: after any sequence of steps, what a query
/// returns holds one answer for each of different entities that answer it now,
/// each with the components that the entity has now, and leaves out no entity
/// that answers it, but possibly entities without any component, which only a
/// query that asks for no type can concern.
pub proof fn query_agrees_with_matching(
    state: DirectoryView,
    steps: Seq<Step>,
    key: QueryKey,
    results: Seq<ResultView>,
)
    requires
        state.wf(),
        state.apply_all(steps).answered_by(key, results),
    ensures
        answers_sound(state.apply_all(steps).entities, key, results),
        answers_cover_shaped(state.apply_all(steps).entities, key, results),
        forall|entity_id: u32|
            state.apply_all(steps).matches(key, entity_id) && !mentions(
                results,
                entity_id,
            ) ==> {
                &&& key.with == Set::<u64>::empty()
                &&& state.apply_all(steps).entities[entity_id].is_empty()
            },
        !(key.with == Set::<u64>::empty()) ==> state.apply_all(steps).matched_afresh(
            key,
            results,
        ),
{
    let now = state.apply_all(steps);
    steps_keep_wf(state, steps);
    assert forall|entity_id: u32|
        now.matches(key, entity_id) && !mentions(results, entity_id) implies {
        &&& key.with == Set::<u64>::empty()
        &&& now.entities[entity_id].is_empty()
    } by {
        let held = now.entities[entity_id];
        assert(now.entities.contains_key(entity_id));
        assert(held.is_empty());
        assert(held.dom() =~= Set::<u64>::empty());
        assert(key.with =~= Set::<u64>::empty());
    }
    if !(key.with == Set::<u64>::empty()) {
        assert forall|entity_id: u32|
            now.entities.contains_key(entity_id) && shape_matches_here(
                now,
                key,
                entity_id,
            ) implies mentions(results, entity_id) by {
            if !mentions(results, entity_id) {
                assert(now.matches(key, entity_id));
            }
        }
        assert(answers_complete(now.entities, key, results));
    }
}

/// The remembered path and matching from scratch give the same answers: after
/// any sequence of steps, every answer that a query returns is an answer
/// that matching from scratch gives, with the same components; and every
/// answer that matching from scratch gives is returned, but possibly that of
/// an entity without any component, which only a query that asks for no type
/// can concern. For a query that asks for a type the two sets of answers are
/// equal.
pub proof fn query_equals_matching_from_scratch(
    state: DirectoryView,
    steps: Seq<Step>,
    key: QueryKey,
    returned: Seq<ResultView>,
    matched: Seq<ResultView>,
)
    requires
        state.wf(),
        state.apply_all(steps).answered_by(key, returned),
        state.apply_all(steps).matched_afresh(key, matched),
    ensures
        forall|result: ResultView| returned.contains(result) ==> matched.contains(result),
        forall|result: ResultView|
            matched.contains(result) && !returned.contains(result) ==> {
                &&& key.with == Set::<u64>::empty()
                &&& state.apply_all(steps).entities[result.entity_id].is_empty()
            },
        !(key.with == Set::<u64>::empty()) ==> returned.to_set() == matched.to_set(),
{
    let now = state.apply_all(steps);
    query_agrees_with_matching(state, steps, key, returned);
    assert forall|result: ResultView| returned.contains(result) implies matched.contains(
        result,
    ) by {
        let i = choose|i: int| 0 <= i < returned.len() && returned[i] == result;
        assert(answers_query(now.entities, key, returned[i]));
        assert(mentions(matched, result.entity_id));
        let j = choose|j: int|
            0 <= j < matched.len() && (#[trigger] matched[j]).entity_id == result.entity_id;
        assert(answers_query(now.entities, key, matched[j]));
        assert(matched[j] == result);
    }
    assert forall|result: ResultView|
        matched.contains(result) && !returned.contains(result) implies {
        &&& key.with == Set::<u64>::empty()
        &&& now.entities[result.entity_id].is_empty()
    } by {
        let j = choose|j: int| 0 <= j < matched.len() && matched[j] == result;
        assert(answers_query(now.entities, key, matched[j]));
        if mentions(returned, result.entity_id) {
            let i = choose|i: int|
                0 <= i < returned.len() && (#[trigger] returned[i]).entity_id
                    == result.entity_id;
            assert(answers_query(now.entities, key, returned[i]));
            assert(returned[i] == result);
        }
        assert(now.matches(key, result.entity_id));
    }
    if !(key.with == Set::<u64>::empty()) {
        assert(returned.to_set() =~= matched.to_set());
    }
}

/// Whether the shape of the entity answers the query.
spec fn shape_matches_here(state: DirectoryView, key: QueryKey, entity_id: u32) -> bool {
    crate::entity::shape_matches(key, state.entities[entity_id].dom())
}

/// Deletion purges: after an entity was deleted it is not live, and no query
/// has it among its answers, remembered or matched afresh.
pub proof fn deleted_entity_is_purged(
    state: DirectoryView,
    entity_id: u32,
    key: QueryKey,
    results: Seq<ResultView>,
)
    requires
        state.wf(),
        state.delete(entity_id).answered_by(key, results),
    ensures
        !state.delete(entity_id).is_live(entity_id),
        !mentions(results, entity_id),
{
    let now = state.delete(entity_id);
    lemma_delete_keeps_wf(state, entity_id);
    if now.cache.contains_key(key) {
        assert(answers_sound(now.entities, key, now.cache[key]));
    }
    if mentions(results, entity_id) {
        let i = choose|i: int|
            0 <= i < results.len() && (#[trigger] results[i]).entity_id == entity_id;
        assert(answers_query(now.entities, key, results[i]));
    }
}

} // verus!
