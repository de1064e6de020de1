use std::collections::HashMap;
use std::collections::HashSet;
use std::hash::Hash;
use vstd::prelude::*;
use vstd::std_specs::hash::obeys_key_model;
use vstd::std_specs::iter::IteratorSpec;

verus! {

broadcast use vstd::std_specs::hash::group_hash_axioms;

/// Returns the keys of `map`, each once, in the order in which the map yields
/// them.
pub fn map_keys<K: Copy + Eq + Hash, V>(map: &HashMap<K, V>) -> (keys: Vec<K>)
    requires
        obeys_key_model::<K>(),
    ensures
        keys@.no_duplicates(),
        keys@.to_set() == map@.dom(),
{
    let mut keys: Vec<K> = Vec::new();
    let ghost all: Seq<K> = map.keys().remaining().unref();
    proof {
        let refs = map.keys().remaining();
        assert forall|i: int, j: int|
            0 <= i < all.len() && 0 <= j < all.len() && i != j implies all[i] != all[j] by {
            assert(refs[i] != refs[j]);
        }
    }
    for key in it: map.keys()
        invariant
            it.seq().unref() == all,
            keys@ == all.take(it.index() as int),
    {
        keys.push(*key);
    }
    assert(keys@ == all);
    keys
}

/// Returns the members of `set`, each once, in the order in which the set
/// yields them.
pub fn set_members<K: Copy + Eq + Hash>(set: &HashSet<K>) -> (members: Vec<K>)
    requires
        obeys_key_model::<K>(),
    ensures
        members@.no_duplicates(),
        members@.to_set() == set@,
{
    let mut members: Vec<K> = Vec::new();
    let ghost all: Seq<K> = set.iter().remaining().unref();
    proof {
        let refs = set.iter().remaining();
        assert forall|i: int, j: int|
            0 <= i < all.len() && 0 <= j < all.len() && i != j implies all[i] != all[j] by {
            assert(refs[i] != refs[j]);
        }
    }
    for member in it: set.iter()
        invariant
            it.seq().unref() == all,
            members@ == all.take(it.index() as int),
    {
        members.push(*member);
    }
    assert(members@ == all);
    members
}

/// The set of the first `i + 1` items of a sequence is the set of the first
/// `i` items with the next one added.
pub proof fn lemma_take_next<K>(items: Seq<K>, i: int)
    requires
        0 <= i < items.len(),
    ensures
        items.take(i + 1).to_set() == items.take(i).to_set().insert(items[i]),
        items.take(i + 1) == items.take(i).push(items[i]),
{
    let shorter = items.take(i);
    let longer = items.take(i + 1);
    assert(longer =~= shorter.push(items[i]));
    assert forall|item: K| longer.to_set().contains(item) <==> shorter.to_set().insert(
        items[i],
    ).contains(item) by {
        if longer.contains(item) {
            let j = choose|j: int| 0 <= j < longer.len() && longer[j] == item;
            if j < i {
                assert(shorter[j] == item);
            }
        }
        if shorter.contains(item) {
            let j = choose|j: int| 0 <= j < shorter.len() && shorter[j] == item;
            assert(longer[j] == item);
        }
        if item == items[i] {
            assert(longer[i] == item);
        }
    }
    assert(longer.to_set() =~= shorter.to_set().insert(items[i]));
}

} // verus!
