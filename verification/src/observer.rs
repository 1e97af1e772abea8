//! Observers that see inside containers.
use std::collections::HashMap;
use std::collections::HashSet;
use vstd::prelude::*;

use crate::container::{container_views, contents_of, VisibleContainer};
use crate::entity_set::{
    copy_set, held_sets, lemma_union_over_unchanged, no_common_element, same_elements,
    union_of_held, union_over, HoldsEntities,
};
use crate::ClientVisible;

verus! {

broadcast use {vstd::std_specs::hash::group_hash_axioms, vstd::seq_lib::group_seq_properties};

/// An entity that can see entities inside of containers.
/// This can be given to a player's character or a long distanced camera.
/// Crate users must populate `containers` with the entities of [`crate::container::VisibleContainer`]s.
#[derive(Debug)]
pub struct VisibleObserver {
    /// Entities holding a `VisibleContainer` that this observer looks at.
    pub containers: HashSet<u64>,
    /// Cached union of all entities visible through these containers.
    pub(crate) visible_entities: HashSet<u64>,
}

impl VisibleObserver {
    /// The containers this observer looks at.
    pub closed spec fn observed(&self) -> Set<u64> {
        self.containers@
    }

    /// The cached set of entities visible through this observer's containers.
    pub closed spec fn visible(&self) -> Set<u64> {
        self.visible_entities@
    }

    /// What the two views above stand for.
    pub(crate) proof fn lemma_views(&self)
        ensures
            self.observed() == self.containers@,
            self.visible() == self.visible_entities@,
    {
    }

    /// Creates a new `VisibleObserver` with the given containers.
    pub fn new(containers: HashSet<u64>) -> (observer: Self)
        ensures
            observer.observed() == containers@,
            observer.visible() == Set::<u64>::empty(),
    {
        VisibleObserver { containers, visible_entities: HashSet::new() }
    }

    /// The containers this observer looks at, for changing them; the cache
    /// is left as it is.
    pub fn containers_mut(&mut self) -> (containers: &mut HashSet<u64>)
        ensures
            containers@ == old(self).observed(),
            final(self).observed() == final(containers)@,
            final(self).visible() == old(self).visible(),
    {
        &mut self.containers
    }

    /// Replaces the cache.
    pub(crate) fn replace_visible(&mut self, visible: HashSet<u64>)
        ensures
            final(self).observed() == old(self).observed(),
            final(self).visible() == visible@,
    {
        self.visible_entities = visible;
    }

    /// The cached set of entities visible through this observer's containers.
    pub fn visible_entities(&self) -> (visible: &HashSet<u64>)
        ensures
            visible@ == self.visible(),
    {
        &self.visible_entities
    }
}

impl Clone for VisibleObserver {
    fn clone(&self) -> (copy: Self)
        ensures
            copy.observed() == self.observed(),
            copy.visible() == self.visible(),
    {
        VisibleObserver {
            containers: copy_set(&self.containers),
            visible_entities: copy_set(&self.visible_entities),
        }
    }
}

impl Default for VisibleObserver {
    fn default() -> (observer: Self)
        ensures
            observer.observed() == Set::<u64>::empty(),
            observer.visible() == Set::<u64>::empty(),
    {
        VisibleObserver { containers: HashSet::new(), visible_entities: HashSet::new() }
    }
}

} // verus!

verus! {

impl HoldsEntities for VisibleObserver {
    open spec fn held(&self) -> Set<u64> {
        self.visible()
    }

    fn held_entities(&self) -> (held: &HashSet<u64>) {
        &self.visible_entities
    }
}

/// The cached views of the observers in `observers`.
pub open spec fn observer_views(observers: Map<u64, VisibleObserver>) -> Map<u64, Set<u64>> {
    held_sets(observers)
}

/// The entities seen through those of the `keys` that are observers.
pub open spec fn seen_through(keys: Set<u64>, observers: Map<u64, VisibleObserver>) -> Set<u64> {
    union_over(keys, observer_views(observers))
}

/// Whether a client's cache has to be recomputed: the client's component
/// changed, or one of its observers changed or went away.
pub open spec fn client_needs_update(
    client_changed: bool,
    observers: Set<u64>,
    changed_observers: Set<u64>,
) -> bool {
    client_changed || !observers.disjoint(changed_observers)
}

/// Refreshes the cache of one client, as `update_visible_observers` does for
/// each client once per update.
///
/// `client_changed` tells whether the client's component was changed since the
/// last update; `changed_observers` holds every observer entity that was changed
/// or lost its `VisibleObserver` since then; `observers` maps each observer
/// entity to its observer. The cache is replaced only where it has to be
/// recomputed and the result differs; the result says whether it was replaced.
pub fn update_visible_observers(
    client: &mut ClientVisible,
    client_changed: bool,
    changed_observers: &HashSet<u64>,
    observers: &HashMap<u64, VisibleObserver>,
) -> (replaced: bool)
    ensures
        final(client).observed_through() == old(client).observed_through(),
        final(client).previous() == old(client).previous(),
        final(client).visible() == if client_needs_update(
            client_changed,
            old(client).observed_through(),
            changed_observers@,
        ) {
            seen_through(old(client).observed_through(), observers@)
        } else {
            old(client).visible()
        },
        replaced == (client_needs_update(
            client_changed,
            old(client).observed_through(),
            changed_observers@,
        ) && seen_through(old(client).observed_through(), observers@) != old(client).visible()),
{
    proof {
        client.lemma_views();
    }
    let needs_update = client_changed || !no_common_element(&client.observers, changed_observers);
    if !needs_update {
        return false;
    }
    let new_visible = union_of_held(&client.observers, observers);
    if !same_elements(client.visible_entities(), &new_visible) {
        client.replace_visible(new_visible);
        true
    } else {
        false
    }
}

} // verus!

verus! {

/// Refreshing a client keeps its cache equal to the union of the caches of the
/// observers it sees through, provided every one of those observers that
/// changed, appeared or went away since the last refresh is among the changed
/// ones, and that the client is reported as changed unless its cache was exact
/// for its current observers.
pub proof fn lemma_client_cache_stays_exact(
    observed_through: Set<u64>,
    cached: Set<u64>,
    client_changed: bool,
    changed_observers: Set<u64>,
    before: Map<u64, VisibleObserver>,
    after: Map<u64, VisibleObserver>,
)
    requires
        client_changed || cached == seen_through(observed_through, before),
        forall|k: u64|
            observed_through.contains(k) && !changed_observers.contains(k) ==> (before.contains_key(k)
                <==> after.contains_key(k)) && (before.contains_key(k) ==> before[k].visible()
                == after[k].visible()),
    ensures
        (if client_needs_update(client_changed, observed_through, changed_observers) {
            seen_through(observed_through, after)
        } else {
            cached
        }) == seen_through(observed_through, after),
{
    if !client_needs_update(client_changed, observed_through, changed_observers) {
        lemma_union_over_unchanged(
            observed_through,
            changed_observers,
            observer_views(before),
            observer_views(after),
        );
    }
}

/// The entities held by a container that one of the `observed_through`
/// observers looks at.
pub open spec fn reached_through(
    observed_through: Set<u64>,
    observers: Map<u64, VisibleObserver>,
    containers: Map<u64, VisibleContainer>,
) -> Set<u64> {
    Set::new(
        |e: u64|
            exists|o: u64, k: u64|
                #![trigger observers[o].observed().contains(k), containers[k]]
                observed_through.contains(o) && observers.contains_key(o)
                    && observers[o].observed().contains(k) && containers.contains_key(k)
                    && containers[k]@.contains(e),
    )
}

/// When every observer's cache is exact, a client sees through its observers
/// exactly the entities held by a container that one of them looks at.
pub proof fn lemma_seen_through_reaches_containers(
    observed_through: Set<u64>,
    observers: Map<u64, VisibleObserver>,
    containers: Map<u64, VisibleContainer>,
)
    requires
        forall|o: u64|
            observed_through.contains(o) && observers.contains_key(o) ==> #[trigger] observers[o].visible()
                == contents_of(observers[o].observed(), containers),
    ensures
        seen_through(observed_through, observers) == reached_through(
            observed_through,
            observers,
            containers,
        ),
{
    let reached = reached_through(observed_through, observers, containers);
    let views = observer_views(observers);
    assert forall|e: u64| seen_through(observed_through, observers).contains(e) implies reached.contains(
        e,
    ) by {
        let o = choose|o: u64| observed_through.contains(o) && views.contains_key(o) && views[o].contains(e);
        assert(observers[o].visible() == contents_of(observers[o].observed(), containers));
        let cviews = container_views(containers);
        let k = choose|k: u64|
            observers[o].observed().contains(k) && cviews.contains_key(k) && cviews[k].contains(e);
        assert(observers[o].observed().contains(k) && containers[k]@.contains(e));
    }
    assert forall|e: u64| reached.contains(e) implies seen_through(observed_through, observers).contains(
        e,
    ) by {
        let (o, k) = choose|o: u64, k: u64|
            observed_through.contains(o) && observers.contains_key(o) && observers[o].observed().contains(
                k,
            ) && containers.contains_key(k) && containers[k]@.contains(e);
        assert(observers[o].visible() == contents_of(observers[o].observed(), containers));
        let cviews = container_views(containers);
        assert(cviews[k].contains(e));
        assert(contents_of(observers[o].observed(), containers).contains(e));
        assert(views[o].contains(e));
    }
    assert(seen_through(observed_through, observers) =~= reached);
}

} // verus!
