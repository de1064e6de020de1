use vstd::prelude::*;

use crate::component::ComponentBundle;
use crate::entity::model::lemma_without_entity_absent;
use crate::entity::model::lemma_without_entity_at;
use crate::entity::model::purge_all;
use crate::entity::model::refresh_all;
use crate::entity::refreshed;
use crate::entity::result_for;
use crate::entity::results_view;
use crate::entity::without_entity;
use crate::entity::Query;
use crate::entity::QueryKey;
use crate::entity::QueryResult;
use crate::entity::ResultView;

verus! {

/// One remembered query with its answers.
struct CacheEntry {
    query: Query,
    results: Vec<QueryResult>,
}

/// Remembers the answers of queries, so that a query asked again is answered
/// without matching. No query is remembered twice, where two queries that ask
/// for the same thing count as one.
pub struct QueryCache {
    entries: Vec<CacheEntry>,
}

/// Whether one of `entries` is for the query `key`.
spec fn holds(entries: Seq<CacheEntry>, key: QueryKey) -> bool {
    exists|i: int| 0 <= i < entries.len() && (#[trigger] entries[i]).query.key() == key
}

/// A place of `entries` that is for the query `key`.
spec fn place_of(entries: Seq<CacheEntry>, key: QueryKey) -> int {
    choose|i: int| 0 <= i < entries.len() && (#[trigger] entries[i]).query.key() == key
}

/// Whether no two of `entries` are for the same query.
spec fn distinct_queries(entries: Seq<CacheEntry>) -> bool {
    forall|i: int, j: int|
        0 <= i < entries.len() && 0 <= j < entries.len() && i != j ==> (
        #[trigger] entries[i]).query.key() != (#[trigger] entries[j]).query.key()
}

/// The mapping that `entries` stand for.
spec fn contents(entries: Seq<CacheEntry>) -> Map<QueryKey, Seq<ResultView>> {
    Map::new(
        |key: QueryKey| holds(entries, key),
        |key: QueryKey| results_view(entries[place_of(entries, key)].results@),
    )
}

/// With distinct queries, each entry is what the mapping has for its query.
proof fn lemma_contents_at(entries: Seq<CacheEntry>, i: int)
    requires
        distinct_queries(entries),
        0 <= i < entries.len(),
    ensures
        contents(entries).contains_key(entries[i].query.key()),
        contents(entries)[entries[i].query.key()] == results_view(entries[i].results@),
{
    let key = entries[i].query.key();
    assert(holds(entries, key));
    let p = place_of(entries, key);
    assert(entries[p].query.key() == key);
}

impl View for QueryCache {
    type V = Map<QueryKey, Seq<ResultView>>;

    closed spec fn view(&self) -> Map<QueryKey, Seq<ResultView>> {
        contents(self.entries@)
    }
}

impl QueryCache {
    /// A cache is well formed when it remembers no query twice.
    pub closed spec fn wf(&self) -> bool {
        distinct_queries(self.entries@)
    }

    /// The cache that remembers nothing.
    pub fn new() -> (cache: QueryCache)
        ensures
            cache.wf(),
            cache@ == Map::<QueryKey, Seq<ResultView>>::empty(),
    {
        let cache = QueryCache { entries: Vec::new() };
        assert(cache@ =~= Map::<QueryKey, Seq<ResultView>>::empty());
        cache
    }

    /// Returns a copy of the answers remembered for the query, if it is
    /// remembered. The copy shares the components with the cache.
    pub fn check_cache(&self, query: &Query) -> (found: Option<Vec<QueryResult>>)
        requires
            self.wf(),
        ensures
            found is Some <==> self@.contains_key(query.key()),
            found matches Some(results) ==> results_view(results@) == self@[query.key()],
    {
        let mut i: usize = 0;
        while i < self.entries.len()
            invariant
                i <= self.entries.len(),
                self.wf(),
                forall|j: int|
                    0 <= j < i ==> (#[trigger] self.entries@[j]).query.key() != query.key(),
            decreases self.entries.len() - i,
        {
            if self.entries[i].query.same_key(query) {
                proof {
                    lemma_contents_at(self.entries@, i as int);
                }
                return Some(copy_results(&self.entries[i].results));
            }
            i += 1;
        }
        None
    }

    /// Remembers the answers of a query that is not remembered yet.
    pub fn add_to_cache(&mut self, entry: (Query, Vec<QueryResult>))
        requires
            old(self).wf(),
            !old(self)@.contains_key(entry.0.key()),
        ensures
            final(self).wf(),
            final(self)@ == old(self)@.insert(entry.0.key(), results_view(entry.1@)),
    {
        let ghost before = self.entries@;
        let ghost key = entry.0.key();
        let ghost answers = results_view(entry.1@);
        self.entries.push(CacheEntry { query: entry.0, results: entry.1 });
        proof {
            let after = self.entries@;
            assert forall|i: int| 0 <= i < before.len() implies (#[trigger] before[i]).query.key()
                != key by {
                assert(holds(before, before[i].query.key()));
            }
            assert(distinct_queries(after));
            assert forall|k: QueryKey| #[trigger]
                contents(after).contains_key(k) <==> contents(before).insert(
                    key,
                    answers,
                ).contains_key(k) by {
                if holds(after, k) {
                    let p = place_of(after, k);
                    if p < before.len() {
                        assert(before[p].query.key() == k);
                    }
                }
                if holds(before, k) {
                    let p = place_of(before, k);
                    assert(after[p].query.key() == k);
                }
                if k == key {
                    assert(after[before.len() as int].query.key() == k);
                }
            }
            assert forall|k: QueryKey| #[trigger] contents(after).contains_key(k) implies contents(
                after,
            )[k] == contents(before).insert(key, answers)[k] by {
                let p = place_of(after, k);
                lemma_contents_at(after, p);
                if p < before.len() {
                    assert(before[p] == after[p]);
                    lemma_contents_at(before, p);
                }
            }
            assert(contents(after) =~= contents(before).insert(key, answers));
        }
    }

    /// Takes the entity out of the answers of every remembered query: in each,
    /// the first answer about it leaves and the last answer takes its place.
    pub fn remove_entity_from_cache(&mut self, entity_id: &u32)
        requires
            old(self).wf(),
        ensures
            final(self).wf(),
            final(self)@ == purge_all(old(self)@, *entity_id),
    {
        let ghost before = self.entries@;
        let mut i: usize = 0;
        while i < self.entries.len()
            invariant
                i <= self.entries.len(),
                self.entries.len() == before.len(),
                forall|j: int|
                    0 <= j < before.len() ==> (#[trigger] self.entries@[j]).query.key()
                        == before[j].query.key(),
                forall|j: int|
                    0 <= j < i ==> results_view((#[trigger] self.entries@[j]).results@)
                        == without_entity(results_view(before[j].results@), *entity_id),
                forall|j: int|
                    i <= j < before.len() ==> (#[trigger] self.entries@[j]).results@
                        == before[j].results@,
            decreases self.entries.len() - i,
        {
            remove_entity(&mut self.entries[i].results, *entity_id);
            i += 1;
        }
        proof {
            let after = self.entries@;
            let target = purge_all(contents(before), *entity_id);
            assert(distinct_queries(after));
            assert forall|k: QueryKey| #[trigger]
                contents(after).contains_key(k) <==> target.contains_key(k) by {
                if holds(after, k) {
                    let p = place_of(after, k);
                    assert(before[p].query.key() == k);
                }
                if holds(before, k) {
                    let p = place_of(before, k);
                    assert(after[p].query.key() == k);
                }
            }
            assert forall|k: QueryKey| #[trigger] contents(after).contains_key(k) implies contents(
                after,
            )[k] == target[k] by {
                let p = place_of(after, k);
                lemma_contents_at(after, p);
                lemma_contents_at(before, p);
            }
            assert(contents(after) =~= target);
        }
    }

    /// Brings the remembered answers up to date with an entity that has come
    /// to hold exactly `all_components`. In each remembered query the earlier
    /// answer about the entity leaves; an answer for what it holds now is added
    /// where it holds anything and answers the query.
    pub fn update_cache(&mut self, entity_id: &u32, all_components: &ComponentBundle)
        requires
            old(self).wf(),
            all_components.wf(),
        ensures
            final(self).wf(),
            final(self)@ == refresh_all(old(self)@, *entity_id, all_components@),
    {
        let ghost before = self.entries@;
        let degenerate = all_components.get_components().is_empty();
        let mut i: usize = 0;
        while i < self.entries.len()
            invariant
                i <= self.entries.len(),
                self.entries.len() == before.len(),
                all_components.wf(),
                degenerate == all_components@.is_empty(),
                forall|j: int|
                    0 <= j < before.len() ==> (#[trigger] self.entries@[j]).query.key()
                        == before[j].query.key(),
                forall|j: int|
                    0 <= j < i ==> results_view((#[trigger] self.entries@[j]).results@)
                        == refreshed(
                        before[j].query.key(),
                        results_view(before[j].results@),
                        *entity_id,
                        all_components@,
                    ),
                forall|j: int|
                    i <= j < before.len() ==> (#[trigger] self.entries@[j]).results@
                        == before[j].results@,
            decreases self.entries.len() - i,
        {
            remove_entity(&mut self.entries[i].results, *entity_id);
            if !degenerate && self.entries[i].query.matches_bundle(all_components) {
                let result = answer_from_bundle(&self.entries[i].query, *entity_id, all_components);
                let ghost shorter = results_view(self.entries@[i as int].results@);
                self.entries[i].results.push(result);
                assert(results_view(self.entries@[i as int].results@) =~= shorter.push(result@));
            }
            i += 1;
        }
        proof {
            let after = self.entries@;
            let target = refresh_all(contents(before), *entity_id, all_components@);
            assert(distinct_queries(after));
            assert forall|k: QueryKey| #[trigger]
                contents(after).contains_key(k) <==> target.contains_key(k) by {
                if holds(after, k) {
                    let p = place_of(after, k);
                    assert(before[p].query.key() == k);
                }
                if holds(before, k) {
                    let p = place_of(before, k);
                    assert(after[p].query.key() == k);
                }
            }
            assert forall|k: QueryKey| #[trigger] contents(after).contains_key(k) implies contents(
                after,
            )[k] == target[k] by {
                let p = place_of(after, k);
                lemma_contents_at(after, p);
                lemma_contents_at(before, p);
            }
            assert(contents(after) =~= target);
        }
    }
}

impl Default for QueryCache {
    fn default() -> (cache: QueryCache)
        ensures
            cache.wf(),
            cache@ == Map::<QueryKey, Seq<ResultView>>::empty(),
    {
        QueryCache::new()
    }
}

/// Copies the answers; each copy shares the components with the answer it
/// was made from.
pub fn copy_results(results: &Vec<QueryResult>) -> (copies: Vec<QueryResult>)
    ensures
        results_view(copies@) == results_view(results@),
{
    let mut copies: Vec<QueryResult> = Vec::new();
    let mut i: usize = 0;
    while i < results.len()
        invariant
            i <= results.len(),
            copies.len() == i,
            forall|j: int| 0 <= j < i ==> (#[trigger] copies@[j])@ == results@[j]@,
        decreases results.len() - i,
    {
        copies.push(results[i].clone());
        i += 1;
    }
    assert(results_view(copies@) =~= results_view(results@));
    copies
}

/// Takes the first answer about the entity out of `results`; the last answer
/// takes its place.
fn remove_entity(results: &mut Vec<QueryResult>, entity_id: u32)
    ensures
        results_view(final(results)@) == without_entity(results_view(old(results)@), entity_id),
{
    let ghost answers = results_view(results@);
    let mut i: usize = 0;
    while i < results.len()
        invariant
            i <= results.len(),
            results@ == old(results)@,
            answers == results_view(results@),
            forall|j: int| 0 <= j < i ==> (#[trigger] answers[j]).entity_id != entity_id,
        decreases results.len() - i,
    {
        if results[i].entity_id() == entity_id {
            proof {
                lemma_without_entity_at(answers, entity_id, i as int);
            }
            results.swap_remove(i);
            assert(results_view(results@) =~= answers.update(i as int, answers.last()).drop_last());
            return ;
        }
        i += 1;
    }
    proof {
        lemma_without_entity_absent(answers, entity_id);
    }
}

/// Builds the answer that an entity with the components of `bundle` gives to
/// `query`.
fn answer_from_bundle(query: &Query, entity_id: u32, bundle: &ComponentBundle) -> (result:
    QueryResult)
    requires
        bundle.wf(),
        query.key().with.subset_of(bundle@.dom()),
    ensures
        result@ == result_for(query.key(), entity_id, bundle@),
{
    let mut result = QueryResult::new(entity_id);
    let keys = query.get_with_components();
    let mut i: usize = 0;
    while i < keys.len()
        invariant
            i <= keys.len(),
            keys@ == query.with_seq(),
            bundle.wf(),
            query.key().with.subset_of(bundle@.dom()),
            result@.entity_id == entity_id,
            forall|k: u64|
                result@.components.contains_key(k) <==> exists|j: int|
                    0 <= j < i && #[trigger] keys@[j] == k,
            forall|k: u64| #[trigger]
                result@.components.contains_key(k) ==> result@.components[k] == bundle@[k],
        decreases keys.len() - i,
    {
        let key = keys[i];
        assert(query.key().with.contains(keys@[i as int]));
        let handle = bundle.get_handle(key);
        let ghost earlier = result@.components;
        result.add_component(handle.unwrap());
        proof {
            assert(bundle@[key].type_key() == key);
            assert(result@.components == earlier.insert(key, bundle@[key]));
            assert forall|k: u64| result@.components.contains_key(k) implies exists|j: int|
                0 <= j < i + 1 && #[trigger] keys@[j] == k by {
                if k == key {
                    assert(keys@[i as int] == k);
                } else {
                    assert(earlier.contains_key(k));
                    let j = choose|j: int| 0 <= j < i && #[trigger] keys@[j] == k;
                    assert(keys@[j] == k);
                }
            }
        }
        i += 1;
    }
    assert(result@.components =~= bundle@.restrict(query.key().with));
    result
}

} // verus!
