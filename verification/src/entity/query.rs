use std::collections::HashMap;
use std::collections::HashSet;
use std::sync::Arc;
use std::sync::RwLock;
use vstd::prelude::*;

use crate::component::Component;
use crate::component::ComponentBundle;
use crate::entity::shape_matches;
use crate::entity::QueryKey;
use crate::entity::ResultView;
use crate::util::Handle;

verus! {

broadcast use vstd::std_specs::hash::group_hash_axioms;

/// A predicate over entities: the component types that an entity must have
/// and those that it must not have, each in the order in which they were
/// named. A query whose two lists share a type is allowed and answers nothing.
#[derive(Debug)]
pub struct Query {
    with_components: Vec<u64>,
    without_components: Vec<u64>,
}

impl Query {
    /// The types that an entity must have, in the order in which they were named.
    pub closed spec fn with_seq(&self) -> Seq<u64> {
        self.with_components@
    }

    /// The types that an entity must not have, in the order in which they were
    /// named.
    pub closed spec fn without_seq(&self) -> Seq<u64> {
        self.without_components@
    }

    /// What the query asks for, whatever the order.
    pub open spec fn key(&self) -> QueryKey {
        QueryKey { with: self.with_seq().to_set(), without: self.without_seq().to_set() }
    }

    /// The query that every entity answers.
    pub fn new() -> (query: Query)
        ensures
            query.with_seq() == Seq::<u64>::empty(),
            query.without_seq() == Seq::<u64>::empty(),
    {
        Query { with_components: Vec::new(), without_components: Vec::new() }
    }

    /// Asks in addition for a component of type `T`.
    pub fn with<T: 'static + Component>(self) -> (query: Query)
        ensures
            query.with_seq() == self.with_seq().push(T::type_key()),
            query.without_seq() == self.without_seq(),
    {
        self.with_key(T::property_id())
    }

    /// Asks in addition that there be no component of type `T`.
    pub fn without<T: 'static + Component>(self) -> (query: Query)
        ensures
            query.with_seq() == self.with_seq(),
            query.without_seq() == self.without_seq().push(T::type_key()),
    {
        self.without_key(T::property_id())
    }

    /// Asks in addition for a component of the type with the given key.
    pub fn with_key(self, key: u64) -> (query: Query)
        ensures
            query.with_seq() == self.with_seq().push(key),
            query.without_seq() == self.without_seq(),
    {
        let mut query = self;
        query.with_components.push(key);
        query
    }

    /// Asks in addition that there be no component of the type with the given
    /// key.
    pub fn without_key(self, key: u64) -> (query: Query)
        ensures
            query.with_seq() == self.with_seq(),
            query.without_seq() == self.without_seq().push(key),
    {
        let mut query = self;
        query.without_components.push(key);
        query
    }

    /// The types that an entity must have.
    pub fn get_with_components(&self) -> (keys: &Vec<u64>)
        ensures
            keys@ == self.with_seq(),
    {
        &self.with_components
    }

    /// The types that an entity must not have.
    pub fn get_without_components(&self) -> (keys: &Vec<u64>)
        ensures
            keys@ == self.without_seq(),
    {
        &self.without_components
    }

    /// Whether the two queries ask for the same thing: the same types to have
    /// and the same types not to have, in whatever order.
    pub fn same_key(&self, other: &Query) -> (same: bool)
        ensures
            same == (self.key() == other.key()),
    {
        let same = covers(&self.with_components, &other.with_components) && covers(
            &other.with_components,
            &self.with_components,
        ) && covers(&self.without_components, &other.without_components) && covers(
            &other.without_components,
            &self.without_components,
        );
        proof {
            if same {
                assert(self.key().with =~= other.key().with);
                assert(self.key().without =~= other.key().without);
            }
        }
        same
    }

    /// Whether an entity with exactly the component types of `shape` answers
    /// the query.
    pub fn matches_shape(&self, shape: &HashSet<u64>) -> (matched: bool)
        ensures
            matched == shape_matches(self.key(), shape@),
    {
        let mut i: usize = 0;
        while i < self.with_components.len()
            invariant
                i <= self.with_components.len(),
                forall|j: int| 0 <= j < i ==> shape@.contains(#[trigger] self.with_components@[j]),
            decreases self.with_components.len() - i,
        {
            if !shape.contains(&self.with_components[i]) {
                assert(self.key().with.contains(self.with_components@[i as int]));
                return false;
            }
            i += 1;
        }
        let mut i: usize = 0;
        while i < self.without_components.len()
            invariant
                i <= self.without_components.len(),
                self.key().with.subset_of(shape@),
                forall|j: int|
                    0 <= j < i ==> !shape@.contains(#[trigger] self.without_components@[j]),
            decreases self.without_components.len() - i,
        {
            if shape.contains(&self.without_components[i]) {
                assert(self.key().without.contains(self.without_components@[i as int]));
                return false;
            }
            i += 1;
        }
        true
    }

    /// Whether an entity with exactly the components of `bundle` answers the
    /// query.
    pub fn matches_bundle(&self, bundle: &ComponentBundle) -> (matched: bool)
        ensures
            matched == shape_matches(self.key(), bundle@.dom()),
    {
        let mut i: usize = 0;
        while i < self.with_components.len()
            invariant
                i <= self.with_components.len(),
                forall|j: int|
                    0 <= j < i ==> bundle@.contains_key(#[trigger] self.with_components@[j]),
            decreases self.with_components.len() - i,
        {
            if !bundle.contains(self.with_components[i]) {
                assert(self.key().with.contains(self.with_components@[i as int]));
                return false;
            }
            i += 1;
        }
        let mut i: usize = 0;
        while i < self.without_components.len()
            invariant
                i <= self.without_components.len(),
                self.key().with.subset_of(bundle@.dom()),
                forall|j: int|
                    0 <= j < i ==> !bundle@.contains_key(#[trigger] self.without_components@[j]),
            decreases self.without_components.len() - i,
        {
            if bundle.contains(self.without_components[i]) {
                assert(self.key().without.contains(self.without_components@[i as int]));
                return false;
            }
            i += 1;
        }
        true
    }
}

impl Default for Query {
    fn default() -> (query: Query)
        ensures
            query.with_seq() == Seq::<u64>::empty(),
            query.without_seq() == Seq::<u64>::empty(),
    {
        Query::new()
    }
}

impl PartialEq for Query {
    /// Two queries are equal when they ask for the same thing.
    fn eq(&self, other: &Query) -> (same: bool) {
        self.same_key(other)
    }
}

impl Eq for Query {

}

impl vstd::std_specs::cmp::PartialEqSpecImpl for Query {
    open spec fn obeys_eq_spec() -> bool {
        true
    }

    open spec fn eq_spec(&self, other: &Query) -> bool {
        self.key() == other.key()
    }
}

impl Clone for Query {
    fn clone(&self) -> (query: Query)
        ensures
            query.with_seq() == self.with_seq(),
            query.without_seq() == self.without_seq(),
    {
        Query {
            with_components: self.with_components.clone(),
            without_components: self.without_components.clone(),
        }
    }
}

/// Whether every key of `keys` occurs in `among`.
fn covers(keys: &Vec<u64>, among: &Vec<u64>) -> (covered: bool)
    ensures
        covered == keys@.to_set().subset_of(among@.to_set()),
{
    let mut i: usize = 0;
    while i < keys.len()
        invariant
            i <= keys.len(),
            forall|j: int| 0 <= j < i ==> among@.contains(#[trigger] keys@[j]),
        decreases keys.len() - i,
    {
        if !occurs(among, keys[i]) {
            assert(keys@.to_set().contains(keys@[i as int]));
            return false;
        }
        i += 1;
    }
    true
}

/// Whether `key` occurs in `among`.
fn occurs(among: &Vec<u64>, key: u64) -> (found: bool)
    ensures
        found == among@.contains(key),
{
    let mut i: usize = 0;
    while i < among.len()
        invariant
            i <= among.len(),
            forall|j: int| 0 <= j < i ==> among@[j] != key,
        decreases among.len() - i,
    {
        if among[i] == key {
            return true;
        }
        i += 1;
    }
    false
}

/// One answer of a query: an entity, and a handle to its component of each
/// type that the query asked for.
pub struct QueryResult {
    entity_id: u32,
    component_id_to_component: HashMap<u64, Handle>,
}

impl View for QueryResult {
    type V = ResultView;

    closed spec fn view(&self) -> ResultView {
        ResultView { entity_id: self.entity_id, components: self.component_id_to_component@ }
    }
}

impl QueryResult {
    /// An answer about the entity, with no component yet.
    pub fn new(entity_id: u32) -> (result: QueryResult)
        ensures
            result@ == (ResultView { entity_id, components: Map::<u64, Handle>::empty() }),
    {
        QueryResult { entity_id, component_id_to_component: HashMap::new() }
    }

    /// The entity that this answer is about.
    pub fn entity_id(&self) -> (entity_id: u32)
        ensures
            entity_id == self@.entity_id,
    {
        self.entity_id
    }

    /// Puts `component` under the key of its type, in place of what stood
    /// there, and hands the answer back for the next call.
    pub fn add_component(&mut self, component: Handle) -> (result: &mut QueryResult)
        ensures
            result@ == (ResultView {
                entity_id: old(self)@.entity_id,
                components: old(self)@.components.insert(component.type_key(), component),
            }),
            *final(self) == *final(result),
    {
        let key = component.key();
        self.component_id_to_component.insert(key, component);
        self
    }

    /// Returns the handle that stands under `key`, if there is one.
    pub fn get_handle(&self, key: u64) -> (found: Option<Handle>)
        ensures
            found == if self@.components.contains_key(key) {
                Some(self@.components[key])
            } else {
                None
            },
    {
        match self.component_id_to_component.get(&key) {
            Some(handle) => Some(handle.share()),
            None => None,
        }
    }

    /// Returns the component of type `T` with its type, ready to be locked.
    /// An answer that holds no component under the key of `T` gives none; one
    /// that holds a component under that key gives what that component's
    /// handle gives for `T`.
    pub fn get_component<T: 'static + Component>(&self) -> (found: Option<Arc<RwLock<T>>>)
        ensures
            !self@.components.contains_key(T::type_key()) ==> found is None,
            self@.components.contains_key(T::type_key()) ==> call_ensures(
                Handle::downcast::<T>,
                (&self@.components[T::type_key()],),
                found,
            ),
    {
        match self.component_id_to_component.get(&T::property_id()) {
            Some(handle) => handle.downcast::<T>(),
            None => None,
        }
    }
}

impl Clone for QueryResult {
    /// The copy shares the components with the answer it was made from.
    fn clone(&self) -> (result: QueryResult)
        ensures
            result@ == self@,
    {
        QueryResult {
            entity_id: self.entity_id,
            component_id_to_component: self.component_id_to_component.clone(),
        }
    }
}

/// The answers of `results`, each by its view.
pub open spec fn results_view(results: Seq<QueryResult>) -> Seq<ResultView> {
    results.map_values(|result: QueryResult| result@)
}

} // verus!
