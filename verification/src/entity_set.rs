//! Executable operations on sets of entity identifiers.
//!
//! An entity is identified by the `u64` that `Entity::to_bits` gives for it.
use std::collections::HashMap;
use std::collections::HashSet;
use vstd::prelude::*;
use vstd::std_specs::iter::IteratorSpec;

verus! {

broadcast use {vstd::std_specs::hash::group_hash_axioms, vstd::seq_lib::group_seq_properties};

/// Every hash set of entity identifiers has a finite view.
pub(crate) proof fn lemma_entity_set_finite(s: &HashSet<u64>)
    ensures
        s@.finite(),
{
    let keys = vstd::std_specs::hash::spec_hash_keys_iter(s).remaining().unref();
    assert(keys.to_set() == s@);
    vstd::seq_lib::seq_to_set_is_finite(keys);
}

/// The union of the sets that `sets` gives for those of the `keys` it maps.
pub open spec fn union_over(keys: Set<u64>, sets: Map<u64, Set<u64>>) -> Set<u64> {
    Set::new(
        |e: u64|
            exists|k: u64|
                #![trigger keys.contains(k), sets[k]]
                keys.contains(k) && sets.contains_key(k) && sets[k].contains(e),
    )
}

/// The union over no key is empty.
pub(crate) proof fn lemma_union_over_empty(sets: Map<u64, Set<u64>>)
    ensures
        union_over(Set::empty(), sets) == Set::<u64>::empty(),
{
    assert(union_over(Set::empty(), sets) =~= Set::<u64>::empty());
}

/// Adding a key adds the set that key maps to, if it maps to one.
pub(crate) proof fn lemma_union_over_insert(keys: Set<u64>, k: u64, sets: Map<u64, Set<u64>>)
    ensures
        union_over(keys.insert(k), sets) == union_over(keys, sets).union(
            if sets.contains_key(k) {
                sets[k]
            } else {
                Set::empty()
            },
        ),
{
    let extra = if sets.contains_key(k) {
        sets[k]
    } else {
        Set::empty()
    };
    assert forall|e: u64| #[trigger]
        union_over(keys.insert(k), sets).contains(e) implies union_over(keys, sets).union(
        extra,
    ).contains(e) by {
        let w = choose|w: u64| keys.insert(k).contains(w) && sets.contains_key(w) && sets[w].contains(e);
        if w != k {
            assert(keys.contains(w) && sets[w].contains(e));
        }
    }
    assert forall|e: u64| #[trigger]
        union_over(keys, sets).union(extra).contains(e) implies union_over(
        keys.insert(k),
        sets,
    ).contains(e) by {
        if union_over(keys, sets).contains(e) {
            let w = choose|w: u64| keys.contains(w) && sets.contains_key(w) && sets[w].contains(e);
            assert(keys.insert(k).contains(w) && sets[w].contains(e));
        } else {
            assert(keys.insert(k).contains(k) && sets[k].contains(e));
        }
    }
    assert(union_over(keys.insert(k), sets) =~= union_over(keys, sets).union(extra));
}

/// A value that holds a set of entities.
pub trait HoldsEntities {
    /// The entities held.
    spec fn held(&self) -> Set<u64>;

    /// The entities held.
    fn held_entities(&self) -> (held: &HashSet<u64>)
        ensures
            held@ == self.held(),
    ;
}

/// The sets of entities that the values of `map` hold.
pub open spec fn held_sets<V: HoldsEntities>(map: Map<u64, V>) -> Map<u64, Set<u64>> {
    map.map_values(|v: V| v.held())
}

/// The union of what `map` holds under those of the `keys` that it maps.
pub(crate) fn union_of_held<V: HoldsEntities>(keys: &HashSet<u64>, map: &HashMap<u64, V>) -> (union:
    HashSet<u64>)
    ensures
        union@ == union_over(keys@, held_sets(map@)),
{
    let mut union = HashSet::new();
    proof {
        lemma_union_over_empty(held_sets(map@));
    }
    for k in it: keys.iter()
        invariant
            it.seq().unref().to_set() == keys@,
            union@ == union_over(it.seq().take(it.index()).unref().to_set(), held_sets(map@)),
            it.index() == it.seq().len() ==> union@ == union_over(keys@, held_sets(map@)),
    {
        let ghost before = it.seq().take(it.index()).unref().to_set();
        let ghost after = it.seq().take(it.index() + 1).unref().to_set();
        assert(it.seq().take(it.index() + 1).unref() =~= it.seq().take(it.index()).unref().push(
            *k,
        ));
        assert(after == before.insert(*k));
        proof {
            lemma_union_over_insert(before, *k, held_sets(map@));
        }
        match map.get(k) {
            Some(value) => {
                extend_set(&mut union, value.held_entities());
                assert(union@ =~= union_over(after, held_sets(map@)));
            },
            None => {
                assert(union@ =~= union_over(after, held_sets(map@)));
            },
        }
        assert(it.seq().take(it.seq().len() as int) =~= it.seq());
    }
    union
}

/// The union over `keys` is the same under `before` and `after` when every
/// key outside `changed` maps to the same set, or to none, in both.
pub(crate) proof fn lemma_union_over_unchanged(
    keys: Set<u64>,
    changed: Set<u64>,
    before: Map<u64, Set<u64>>,
    after: Map<u64, Set<u64>>,
)
    requires
        keys.disjoint(changed),
        forall|k: u64|
            keys.contains(k) && !changed.contains(k) ==> (before.contains_key(k)
                <==> after.contains_key(k)) && (before.contains_key(k) ==> before[k] == after[k]),
    ensures
        union_over(keys, before) == union_over(keys, after),
{
    assert forall|e: u64| union_over(keys, before).contains(e) implies union_over(
        keys,
        after,
    ).contains(e) by {
        let k = choose|k: u64| keys.contains(k) && before.contains_key(k) && before[k].contains(e);
        assert(!changed.contains(k));
        assert(after.contains_key(k) && after[k].contains(e));
    }
    assert forall|e: u64| union_over(keys, after).contains(e) implies union_over(
        keys,
        before,
    ).contains(e) by {
        let k = choose|k: u64| keys.contains(k) && after.contains_key(k) && after[k].contains(e);
        assert(!changed.contains(k));
        assert(before.contains_key(k) && before[k].contains(e));
    }
    assert(union_over(keys, before) =~= union_over(keys, after));
}

/// Inserts every element of `source` into `target`.
pub(crate) fn extend_set(target: &mut HashSet<u64>, source: &HashSet<u64>)
    ensures
        final(target)@ == old(target)@.union(source@),
{
    let ghost start = target@;
    for e in it: source.iter()
        invariant
            it.seq().unref().to_set() == source@,
            target@ == start.union(it.seq().take(it.index()).unref().to_set()),
            it.index() == it.seq().len() ==> target@ == start.union(source@),
    {
        target.insert(*e);
        assert(it.seq().take(it.index() + 1).unref() =~= it.seq().take(it.index()).unref().push(
            *e,
        ));
        assert(it.seq().take(it.seq().len() as int) =~= it.seq());
    }
}

/// A new hash set with the same elements as `source`.
pub(crate) fn copy_set(source: &HashSet<u64>) -> (copy: HashSet<u64>)
    ensures
        copy@ == source@,
{
    let mut copy = HashSet::new();
    extend_set(&mut copy, source);
    assert(copy@ =~= source@);
    copy
}

/// Whether the two sets hold the same elements.
pub(crate) fn same_elements(a: &HashSet<u64>, b: &HashSet<u64>) -> (same: bool)
    ensures
        same == (a@ == b@),
{
    proof {
        lemma_entity_set_finite(a);
        lemma_entity_set_finite(b);
    }
    if a.len() != b.len() {
        return false;
    }
    for e in it: a.iter()
        invariant
            it.seq().unref().to_set() == a@,
            a@.finite(),
            b@.finite(),
            a@.len() == b@.len(),
            forall|i: int| 0 <= i < it.index() ==> b@.contains(*it.seq()[i]),
    {
        if !b.contains(e) {
            assert(it.seq().unref()[it.index()] == *e);
            assert(a@.contains(*e));
            return false;
        }
    }
    proof {
        assert forall|x: u64| a@.contains(x) implies b@.contains(x) by {
            let keys = vstd::std_specs::hash::spec_hash_keys_iter(a).remaining();
            assert(keys.unref().to_set().contains(x));
            let i = choose|i: int| 0 <= i < keys.len() && keys.unref()[i] == x;
            assert(b@.contains(*keys[i]));
        }
        vstd::set_lib::lemma_subset_equality(a@, b@);
    }
    true
}

/// Whether the two sets have no element in common.
pub(crate) fn no_common_element(a: &HashSet<u64>, b: &HashSet<u64>) -> (disjoint: bool)
    ensures
        disjoint == a@.disjoint(b@),
{
    for e in it: a.iter()
        invariant
            it.seq().unref().to_set() == a@,
            forall|i: int| 0 <= i < it.index() ==> !b@.contains(*it.seq()[i]),
    {
        if b.contains(e) {
            assert(it.seq().unref()[it.index()] == *e);
            assert(a@.contains(*e));
            return false;
        }
    }
    proof {
        assert forall|x: u64| a@.contains(x) implies !b@.contains(x) by {
            let keys = vstd::std_specs::hash::spec_hash_keys_iter(a).remaining();
            assert(keys.unref().to_set().contains(x));
            let i = choose|i: int| 0 <= i < keys.len() && keys.unref()[i] == x;
            assert(!b@.contains(*keys[i]));
        }
    }
    true
}

/// The set of the entities listed in `first` or in `second`.
pub fn set_of_both(first: &Vec<u64>, second: &Vec<u64>) -> (set: HashSet<u64>)
    ensures
        set@ == first@.to_set().union(second@.to_set()),
{
    let mut set = HashSet::new();
    for i in 0..first.len()
        invariant
            set@ == first@.take(i as int).to_set(),
    {
        set.insert(first[i]);
        assert(first@.take(i + 1) =~= first@.take(i as int).push(first@[i as int]));
    }
    assert(first@.take(first@.len() as int) =~= first@);
    let ghost head = set@;
    for i in 0..second.len()
        invariant
            head == first@.to_set(),
            set@ == head.union(second@.take(i as int).to_set()),
    {
        set.insert(second[i]);
        assert(second@.take(i + 1) =~= second@.take(i as int).push(second@[i as int]));
    }
    assert(second@.take(second@.len() as int) =~= second@);
    set
}

} // verus!
