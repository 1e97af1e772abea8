//! Potentially visible set containers.
use std::collections::HashMap;
use std::collections::HashSet;
use vstd::prelude::*;

use crate::entity_set::{
    held_sets, lemma_union_over_unchanged, no_common_element, same_elements, union_of_held,
    union_over, HoldsEntities,
};
use crate::observer::VisibleObserver;

verus! {

broadcast use {vstd::std_specs::hash::group_hash_axioms, vstd::seq_lib::group_seq_properties};

/// Which [`VisibleContainer`] this entity is visible in.
/// An entity can only be visible inside one container.
#[derive(Debug)]
pub struct VisibleIn(pub u64);

/// The entities related to a container through [`VisibleIn`].
#[derive(Debug)]
pub struct VisibleContainer {
    contained: HashSet<u64>,
}

impl View for VisibleContainer {
    type V = Set<u64>;

    closed spec fn view(&self) -> Set<u64> {
        self.contained@
    }
}

impl VisibleContainer {
    /// A container holding exactly the given entities.
    pub fn from_contained(contained: HashSet<u64>) -> (container: Self)
        ensures
            container@ == contained@,
    {
        VisibleContainer { contained }
    }

    /// The entities held.
    pub fn contained(&self) -> (contained: &HashSet<u64>)
        ensures
            contained@ == self@,
    {
        &self.contained
    }
}

impl Default for VisibleContainer {
    fn default() -> (container: Self)
        ensures
            container@ == Set::<u64>::empty(),
    {
        VisibleContainer { contained: HashSet::new() }
    }
}

impl HoldsEntities for VisibleContainer {
    open spec fn held(&self) -> Set<u64> {
        self@
    }

    fn held_entities(&self) -> (held: &HashSet<u64>) {
        &self.contained
    }
}

/// The views of the containers in `containers`.
pub open spec fn container_views(containers: Map<u64, VisibleContainer>) -> Map<u64, Set<u64>> {
    held_sets(containers)
}

/// The entities held by those of the `keys` that are containers.
pub open spec fn contents_of(keys: Set<u64>, containers: Map<u64, VisibleContainer>) -> Set<u64> {
    union_over(keys, container_views(containers))
}

/// Whether an observer's cache has to be recomputed: the observer itself
/// changed, or one of its containers changed or went away.
pub open spec fn observer_needs_update(
    observer_changed: bool,
    containers: Set<u64>,
    changed_containers: Set<u64>,
) -> bool {
    observer_changed || !containers.disjoint(changed_containers)
}

/// Refreshes the cache of one observer, as `update_visible_containers` does
/// for each observer once per update.
///
/// `observer_changed` tells whether the observer was changed since the last
/// update; `changed_containers` holds every container entity that was changed or
/// lost its `VisibleContainer` since then; `containers` maps each container
/// entity to its container. The cache is replaced only where it has to be
/// recomputed and the result differs; the result says whether it was replaced.
pub fn update_visible_containers(
    observer: &mut VisibleObserver,
    observer_changed: bool,
    changed_containers: &HashSet<u64>,
    containers: &HashMap<u64, VisibleContainer>,
) -> (replaced: bool)
    ensures
        final(observer).observed() == old(observer).observed(),
        final(observer).visible() == if observer_needs_update(
            observer_changed,
            old(observer).observed(),
            changed_containers@,
        ) {
            contents_of(old(observer).observed(), containers@)
        } else {
            old(observer).visible()
        },
        replaced == (observer_needs_update(
            observer_changed,
            old(observer).observed(),
            changed_containers@,
        ) && contents_of(old(observer).observed(), containers@) != old(observer).visible()),
{
    proof {
        observer.lemma_views();
    }
    let needs_update = observer_changed || !no_common_element(&observer.containers, changed_containers);
    if !needs_update {
        return false;
    }
    let new_visible = union_of_held(&observer.containers, containers);
    if !same_elements(observer.visible_entities(), &new_visible) {
        observer.replace_visible(new_visible);
        true
    } else {
        false
    }
}

} // verus!

verus! {

/// Refreshing an observer keeps its cache equal to the union of the contents
/// of the containers it looks at, provided every one of those containers that
/// changed, appeared or went away since the last refresh is among the changed
/// ones, and that the observer is reported as changed unless its cache was
/// exact for its current containers.
pub proof fn lemma_observer_cache_stays_exact(
    observed: Set<u64>,
    cached: Set<u64>,
    observer_changed: bool,
    changed_containers: Set<u64>,
    before: Map<u64, VisibleContainer>,
    after: Map<u64, VisibleContainer>,
)
    requires
        observer_changed || cached == contents_of(observed, before),
        forall|k: u64|
            observed.contains(k) && !changed_containers.contains(k) ==> (before.contains_key(k)
                <==> after.contains_key(k)) && (before.contains_key(k) ==> before[k]@
                == after[k]@),
    ensures
        (if observer_needs_update(observer_changed, observed, changed_containers) {
            contents_of(observed, after)
        } else {
            cached
        }) == contents_of(observed, after),
{
    if !observer_needs_update(observer_changed, observed, changed_containers) {
        lemma_union_over_unchanged(
            observed,
            changed_containers,
            container_views(before),
            container_views(after),
        );
    }
}

} // verus!
