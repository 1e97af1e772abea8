//! Entity visibility with potentially visible sets and layers.
//!
//! Entities are related to [`container::VisibleContainer`]s, which
//! [`observer::VisibleObserver`]s look into; clients see through observers.
//! Entities are named by the `u64` that `Entity::to_bits` gives for them.
pub mod client_visibility;
pub mod container;
pub mod entity_set;
pub mod observer;
pub mod visibility_mask;

use std::collections::HashSet;
use vstd::prelude::*;

use bevy_replicon::server::visibility::client_visibility::ClientVisibility;

use crate::client_visibility::{
    apply_settings, hidden_entities, hidden_masks, is_entity_id,
    lemma_apply_settings_uniform, other_filters_kept,
    set_visible, settings_entities, settings_name_entities, VisibleBit,
};
use crate::container::{contents_of, VisibleContainer};
use crate::entity_set::copy_set;
use crate::observer::{
    lemma_seen_through_reaches_containers, reached_through, seen_through, VisibleObserver,
};

verus! {

broadcast use {vstd::std_specs::hash::group_hash_axioms, vstd::seq_lib::group_seq_properties};

/// Marks an entity as always visible to all clients.
#[derive(Debug)]
pub struct AlwaysVisible;

impl Default for AlwaysVisible {
    fn default() -> (marker: Self) {
        AlwaysVisible
    }
}

/// The steps of a visibility update, in the order in which they run.
#[derive(Debug, Hash, PartialEq, Eq, Structural, Clone, Copy)]
pub enum VisibilitySystems {
    /// First step in visibility updates. Empty by default.
    First,
    /// Step that hides all replicated entities but those a client may see,
    /// effectively making replication visibility whitelist only.
    Blacklisting,
    /// General visibility updates.
    Update,
    /// Final step in visibility updates. Empty by default.
    Last,
}

/// Contains what [`observer::VisibleObserver`]s a client can see through.
/// Crate users must populate `observers` with the entities of `VisibleObserver`s.
#[derive(Debug)]
pub struct ClientVisible {
    /// Entities holding a `VisibleObserver` that this client sees through.
    pub observers: HashSet<u64>,
    /// Cached union of all entities visible to this client.
    visible_entities: HashSet<u64>,
    /// The cached union as of the previous update, used to diff visibility changes.
    previous_visible_entities: HashSet<u64>,
}

impl ClientVisible {
    /// The observers this client sees through.
    pub closed spec fn observed_through(&self) -> Set<u64> {
        self.observers@
    }

    /// The cached set of entities visible to this client.
    pub closed spec fn visible(&self) -> Set<u64> {
        self.visible_entities@
    }

    /// The cached set as of the previous update.
    pub closed spec fn previous(&self) -> Set<u64> {
        self.previous_visible_entities@
    }

    /// What the views above stand for.
    pub(crate) proof fn lemma_views(&self)
        ensures
            self.observed_through() == self.observers@,
            self.visible() == self.visible_entities@,
            self.previous() == self.previous_visible_entities@,
    {
    }

    /// Creates a new `ClientVisible` with the given observers.
    pub fn new(observers: HashSet<u64>) -> (client: Self)
        ensures
            client.observed_through() == observers@,
            client.visible() == Set::<u64>::empty(),
            client.previous() == Set::<u64>::empty(),
    {
        ClientVisible {
            observers,
            visible_entities: HashSet::new(),
            previous_visible_entities: HashSet::new(),
        }
    }

    /// The cached set of entities visible to this client.
    pub fn visible_entities(&self) -> (visible: &HashSet<u64>)
        ensures
            visible@ == self.visible(),
    {
        &self.visible_entities
    }

    /// The observers this client sees through, for changing them; the caches
    /// are left as they are.
    pub fn observers_mut(&mut self) -> (observers: &mut HashSet<u64>)
        ensures
            observers@ == old(self).observed_through(),
            final(self).observed_through() == final(observers)@,
            final(self).visible() == old(self).visible(),
            final(self).previous() == old(self).previous(),
    {
        &mut self.observers
    }

    /// Replaces the cache.
    pub(crate) fn replace_visible(&mut self, visible: HashSet<u64>)
        ensures
            final(self).observed_through() == old(self).observed_through(),
            final(self).previous() == old(self).previous(),
            final(self).visible() == visible@,
    {
        self.visible_entities = visible;
    }
}

impl Default for ClientVisible {
    fn default() -> (client: Self)
        ensures
            client.observed_through() == Set::<u64>::empty(),
            client.visible() == Set::<u64>::empty(),
            client.previous() == Set::<u64>::empty(),
    {
        ClientVisible::new(HashSet::new())
    }
}

/// Records the current cache as the previous one, for the next update to diff against.
pub fn sync_client_visible(client: &mut ClientVisible)
    ensures
        final(client).observed_through() == old(client).observed_through(),
        final(client).visible() == old(client).visible(),
        final(client).previous() == old(client).visible(),
{
    client.previous_visible_entities = copy_set(&client.visible_entities);
}

} // verus!

verus! {

/// The settings for entities that become replicated: each is shown exactly
/// when it is always visible or in the client's cache.
pub open spec fn replicated_settings(entities: Seq<(u64, bool)>, visible: Set<u64>) -> Seq<
    (u64, bool),
> {
    entities.map_values(|p: (u64, bool)| (p.0, p.1 || visible.contains(p.0)))
}

/// The settings that show each of `entities`.
pub open spec fn shown_settings(entities: Seq<u64>) -> Seq<(u64, bool)> {
    entities.map_values(|e: u64| (e, true))
}

/// The settings for entities that lost `AlwaysVisible`: those still
/// replicated are shown exactly when they are in the client's cache.
pub open spec fn restored_settings(removed: Seq<u64>, replicated: Set<u64>, visible: Set<u64>) -> Seq<
    (u64, bool),
> {
    removed.filter_map(
        |e: u64|
            if replicated.contains(e) {
                Some((e, visible.contains(e)))
            } else {
                None
            },
    )
}

/// Whether every entry of `entities` is an entity identifier.
pub open spec fn all_entity_ids(entities: Seq<u64>) -> bool {
    forall|i: int| 0 <= i < entities.len() ==> is_entity_id(#[trigger] entities[i])
}

/// Whether every element of `entities` is an entity identifier.
pub open spec fn entity_id_set(entities: Set<u64>) -> bool {
    forall|e: u64| entities.contains(e) ==> is_entity_id(e)
}

/// A client that just joined sees each replicated entity exactly when it is
/// always visible or in its cache. `entities` lists the replicated entities,
/// each with whether it is always visible.
pub fn new_clients(
    visibility: &mut ClientVisibility,
    bit: &VisibleBit,
    client: &ClientVisible,
    entities: &Vec<(u64, bool)>,
)
    requires
        settings_name_entities(entities@),
    ensures
        hidden_entities(*final(visibility), *bit) == apply_settings(
            hidden_entities(*old(visibility), *bit),
            replicated_settings(entities@, client.visible()),
        ),
        other_filters_kept(hidden_masks(*old(visibility)), hidden_masks(*final(visibility)), bit.index()),
{
    show_listed(visibility, bit, client, entities);
}

/// Entities that just became replicated are shown to a client exactly when
/// they are always visible or in its cache. `entities` lists them, each with
/// whether it is always visible.
pub fn new_replicateds(
    visibility: &mut ClientVisibility,
    bit: &VisibleBit,
    client: &ClientVisible,
    entities: &Vec<(u64, bool)>,
)
    requires
        settings_name_entities(entities@),
    ensures
        hidden_entities(*final(visibility), *bit) == apply_settings(
            hidden_entities(*old(visibility), *bit),
            replicated_settings(entities@, client.visible()),
        ),
        other_filters_kept(hidden_masks(*old(visibility)), hidden_masks(*final(visibility)), bit.index()),
{
    show_listed(visibility, bit, client, entities);
}

/// Shows each listed entity exactly when it is always visible or in the
/// client's cache, in order.
fn show_listed(
    visibility: &mut ClientVisibility,
    bit: &VisibleBit,
    client: &ClientVisible,
    entities: &Vec<(u64, bool)>,
)
    requires
        settings_name_entities(entities@),
    ensures
        hidden_entities(*final(visibility), *bit) == apply_settings(
            hidden_entities(*old(visibility), *bit),
            replicated_settings(entities@, client.visible()),
        ),
        other_filters_kept(hidden_masks(*old(visibility)), hidden_masks(*final(visibility)), bit.index()),
{
    proof {
        client.lemma_views();
    }
    let ghost start = hidden_entities(*visibility, *bit);
    let ghost start_masks = hidden_masks(*visibility);
    let ghost settings = replicated_settings(entities@, client.visible());
    for i in 0..entities.len()
        invariant
            other_filters_kept(start_masks, hidden_masks(*visibility), bit.index()),
            settings_name_entities(entities@),
            settings == replicated_settings(entities@, client.visible()),
            client.visible() == client.visible_entities@,
            hidden_entities(*visibility, *bit) == apply_settings(start, settings.take(i as int)),
    {
        let (entity, always_visible) = entities[i];
        assert(is_entity_id(entities@[i as int].0));
        let is_visible = always_visible || client.visible_entities.contains(&entity);
        set_visible(visibility, bit, entity, is_visible);
        assert(settings.take(i + 1).drop_last() =~= settings.take(i as int));
    }
    assert(settings.take(settings.len() as int) =~= settings);
}

/// Entities that stopped being replicated are shown again, which clears what
/// this crate hid of them.
pub fn removed_replicateds(visibility: &mut ClientVisibility, bit: &VisibleBit, removed: &Vec<u64>)
    requires
        all_entity_ids(removed@),
    ensures
        hidden_entities(*final(visibility), *bit) == apply_settings(
            hidden_entities(*old(visibility), *bit),
            shown_settings(removed@),
        ),
        other_filters_kept(hidden_masks(*old(visibility)), hidden_masks(*final(visibility)), bit.index()),
{
    show_all(visibility, bit, removed);
}

/// Replicated entities that just became always visible are shown.
pub fn always_visible_added(visibility: &mut ClientVisibility, bit: &VisibleBit, entities: &Vec<u64>)
    requires
        all_entity_ids(entities@),
    ensures
        hidden_entities(*final(visibility), *bit) == apply_settings(
            hidden_entities(*old(visibility), *bit),
            shown_settings(entities@),
        ),
        other_filters_kept(hidden_masks(*old(visibility)), hidden_masks(*final(visibility)), bit.index()),
{
    show_all(visibility, bit, entities);
}

/// Shows each of `entities`, in order.
fn show_all(visibility: &mut ClientVisibility, bit: &VisibleBit, entities: &Vec<u64>)
    requires
        all_entity_ids(entities@),
    ensures
        hidden_entities(*final(visibility), *bit) == apply_settings(
            hidden_entities(*old(visibility), *bit),
            shown_settings(entities@),
        ),
        other_filters_kept(hidden_masks(*old(visibility)), hidden_masks(*final(visibility)), bit.index()),
{
    let ghost start = hidden_entities(*visibility, *bit);
    let ghost start_masks = hidden_masks(*visibility);
    let ghost settings = shown_settings(entities@);
    for i in 0..entities.len()
        invariant
            other_filters_kept(start_masks, hidden_masks(*visibility), bit.index()),
            all_entity_ids(entities@),
            settings == shown_settings(entities@),
            hidden_entities(*visibility, *bit) == apply_settings(start, settings.take(i as int)),
    {
        let entity = entities[i];
        assert(is_entity_id(entities@[i as int]));
        set_visible(visibility, bit, entity, true);
        assert(settings.take(i + 1).drop_last() =~= settings.take(i as int));
    }
    assert(settings.take(settings.len() as int) =~= settings);
}

/// Entities that lost `AlwaysVisible` and are still replicated are shown to a
/// client exactly when they are in its cache. `removed` lists the entities
/// that lost the marker; `replicated` holds those of them still replicated.
pub fn always_visible_removed(
    visibility: &mut ClientVisibility,
    bit: &VisibleBit,
    client: &ClientVisible,
    removed: &Vec<u64>,
    replicated: &HashSet<u64>,
)
    requires
        all_entity_ids(removed@),
    ensures
        hidden_entities(*final(visibility), *bit) == apply_settings(
            hidden_entities(*old(visibility), *bit),
            restored_settings(removed@, replicated@, client.visible()),
        ),
        other_filters_kept(hidden_masks(*old(visibility)), hidden_masks(*final(visibility)), bit.index()),
{
    proof {
        client.lemma_views();
    }
    let ghost start = hidden_entities(*visibility, *bit);
    let ghost start_masks = hidden_masks(*visibility);
    if removed.len() == 0 {
        assert(restored_settings(removed@, replicated@, client.visible()) =~= Seq::empty());
        return;
    }
    for i in 0..removed.len()
        invariant
            other_filters_kept(start_masks, hidden_masks(*visibility), bit.index()),
            all_entity_ids(removed@),
            client.visible() == client.visible_entities@,
            hidden_entities(*visibility, *bit) == apply_settings(
                start,
                restored_settings(removed@.take(i as int), replicated@, client.visible()),
            ),
    {
        let entity = removed[i];
        assert(removed@.take(i + 1).drop_last() =~= removed@.take(i as int));
        if replicated.contains(&entity) {
            assert(is_entity_id(removed@[i as int]));
            let is_visible = client.visible_entities.contains(&entity);
            set_visible(visibility, bit, entity, is_visible);
            let ghost before = restored_settings(removed@.take(i as int), replicated@, client.visible());
            assert(restored_settings(removed@.take(i + 1), replicated@, client.visible()) =~= before
                + seq![(entity, is_visible)]);
            assert((before + seq![(entity, is_visible)]).drop_last() =~= before);
        }
    }
    assert(removed@.take(removed@.len() as int) =~= removed@);
}

/// Shows the entities that entered the client's cache since the previous
/// update and hides those that left it, but for the always visible ones among
/// `always_visible`, which stay shown; every other entity keeps its state.
pub fn update_client_visible(
    visibility: &mut ClientVisibility,
    bit: &VisibleBit,
    client: &ClientVisible,
    always_visible: &HashSet<u64>,
)
    requires
        entity_id_set(client.visible()),
        entity_id_set(client.previous()),
    ensures
        hidden_entities(*final(visibility), *bit) == hidden_entities(*old(visibility), *bit).difference(
            client.visible().difference(client.previous()),
        ).union(client.previous().difference(client.visible()).difference(always_visible@)),
        other_filters_kept(hidden_masks(*old(visibility)), hidden_masks(*final(visibility)), bit.index()),
{
    proof {
        client.lemma_views();
    }
    let ghost start = hidden_entities(*visibility, *bit);
    let ghost start_masks = hidden_masks(*visibility);
    let ghost current = client.visible();
    let ghost previous = client.previous();
    for e in it: client.visible_entities.iter()
        invariant
            other_filters_kept(start_masks, hidden_masks(*visibility), bit.index()),
            it.seq().unref().to_set() == current,
            current == client.visible_entities@,
            previous == client.previous_visible_entities@,
            entity_id_set(current),
            hidden_entities(*visibility, *bit) == start.difference(
                it.seq().take(it.index()).unref().to_set().difference(previous),
            ),
            it.index() == it.seq().len() ==> hidden_entities(*visibility, *bit) == start.difference(
                current.difference(previous),
            ),
    {
        let ghost seen = it.seq().take(it.index()).unref().to_set();
        assert(it.seq().take(it.index() + 1).unref() =~= it.seq().take(it.index()).unref().push(
            *e,
        ));
        assert(current.contains(*e));
        if !client.previous_visible_entities.contains(e) {
            set_visible(visibility, bit, *e, true);
        }
        assert(hidden_entities(*visibility, *bit) =~= start.difference(
            seen.insert(*e).difference(previous),
        ));
        assert(it.seq().take(it.seq().len() as int) =~= it.seq());
    }
    let ghost middle = hidden_entities(*visibility, *bit);
    for e in it: client.previous_visible_entities.iter()
        invariant
            other_filters_kept(start_masks, hidden_masks(*visibility), bit.index()),
            it.seq().unref().to_set() == previous,
            current == client.visible_entities@,
            previous == client.previous_visible_entities@,
            entity_id_set(previous),
            hidden_entities(*visibility, *bit) == middle.union(
                it.seq().take(it.index()).unref().to_set().difference(current).difference(
                    always_visible@,
                ),
            ),
            it.index() == it.seq().len() ==> hidden_entities(*visibility, *bit) == middle.union(
                previous.difference(current).difference(always_visible@),
            ),
    {
        let ghost seen = it.seq().take(it.index()).unref().to_set();
        assert(it.seq().take(it.index() + 1).unref() =~= it.seq().take(it.index()).unref().push(
            *e,
        ));
        assert(previous.contains(*e));
        if !client.visible_entities.contains(e) && !always_visible.contains(e) {
            set_visible(visibility, bit, *e, false);
        }
        assert(hidden_entities(*visibility, *bit) =~= middle.union(
            seen.insert(*e).difference(current).difference(always_visible@),
        ));
        assert(it.seq().take(it.seq().len() as int) =~= it.seq());
    }
}

} // verus!

verus! {

/// Every replicated entity is hidden from a client exactly when it is neither
/// always visible nor in the client's cache: what a client is meant to see.
pub open spec fn view_is_exact(
    hidden: Set<u64>,
    replicated: Set<u64>,
    always_visible: Set<u64>,
    cache: Set<u64>,
) -> bool {
    forall|e: u64| #[trigger]
        replicated.contains(e) ==> (hidden.contains(e) <==> !(always_visible.contains(e)
            || cache.contains(e)))
}

/// A client that joins sees exactly the replicated entities that are always
/// visible or in its cache once `new_clients` has gone through every
/// replicated entity, each listed with whether it is always visible.
pub proof fn lemma_new_client_view(
    hidden: Set<u64>,
    entities: Seq<(u64, bool)>,
    replicated: Set<u64>,
    always_visible: Set<u64>,
    cache: Set<u64>,
)
    requires
        replicated.subset_of(settings_entities(entities)),
        forall|i: int| 0 <= i < entities.len() ==> #[trigger] entities[i].1 == always_visible.contains(
            entities[i].0,
        ),
    ensures
        view_is_exact(
            apply_settings(hidden, replicated_settings(entities, cache)),
            replicated,
            always_visible,
            cache,
        ),
{
    lemma_replicated_settings(hidden, entities, always_visible, cache);
}

/// The settings for listed entities show exactly those always visible or
/// cached, and name exactly the listed entities.
proof fn lemma_replicated_settings(
    hidden: Set<u64>,
    entities: Seq<(u64, bool)>,
    always_visible: Set<u64>,
    cache: Set<u64>,
)
    requires
        forall|i: int| 0 <= i < entities.len() ==> #[trigger] entities[i].1 == always_visible.contains(
            entities[i].0,
        ),
    ensures
        apply_settings(hidden, replicated_settings(entities, cache)) == hidden.difference(
            settings_entities(entities),
        ).union(settings_entities(entities).difference(always_visible.union(cache))),
{
    let settings = replicated_settings(entities, cache);
    let shown = always_visible.union(cache);
    assert forall|i: int| 0 <= i < settings.len() implies #[trigger] settings[i].1 == shown.contains(
        settings[i].0,
    ) by {
        assert(entities[i].1 == always_visible.contains(entities[i].0));
    }
    lemma_apply_settings_uniform(hidden, settings, shown);
    assert(settings_entities(settings) =~= settings_entities(entities)) by {
        assert forall|e: u64| settings_entities(settings).contains(e) implies settings_entities(
            entities,
        ).contains(e) by {
            let i = choose|i: int| 0 <= i < settings.len() && settings[i].0 == e;
            assert(entities[i].0 == e);
        }
        assert forall|e: u64| settings_entities(entities).contains(e) implies settings_entities(
            settings,
        ).contains(e) by {
            let i = choose|i: int| 0 <= i < entities.len() && entities[i].0 == e;
            assert(settings[i].0 == e);
        }
    }
}

/// `new_replicateds` keeps a client's view exact as entities become replicated,
/// each listed with whether it is always visible.
pub proof fn lemma_new_replicateds_view(
    hidden: Set<u64>,
    entities: Seq<(u64, bool)>,
    replicated: Set<u64>,
    always_visible: Set<u64>,
    cache: Set<u64>,
)
    requires
        view_is_exact(hidden, replicated, always_visible, cache),
        forall|i: int| 0 <= i < entities.len() ==> #[trigger] entities[i].1 == always_visible.contains(
            entities[i].0,
        ),
    ensures
        view_is_exact(
            apply_settings(hidden, replicated_settings(entities, cache)),
            replicated.union(settings_entities(entities)),
            always_visible,
            cache,
        ),
{
    lemma_replicated_settings(hidden, entities, always_visible, cache);
}

/// `removed_replicateds` keeps a client's view exact: the entities it shows
/// are no longer replicated.
pub proof fn lemma_removed_replicateds_view(
    hidden: Set<u64>,
    removed: Seq<u64>,
    replicated: Set<u64>,
    always_visible: Set<u64>,
    cache: Set<u64>,
)
    requires
        view_is_exact(hidden, replicated, always_visible, cache),
    ensures
        view_is_exact(
            apply_settings(hidden, shown_settings(removed)),
            replicated.difference(removed.to_set()),
            always_visible,
            cache,
        ),
{
    let settings = shown_settings(removed);
    lemma_apply_settings_uniform(hidden, settings, Set::full());
    assert forall|e: u64| settings_entities(settings).contains(e) implies removed.to_set().contains(
        e,
    ) by {
        let i = choose|i: int| 0 <= i < settings.len() && settings[i].0 == e;
        assert(removed[i] == e);
    }
}

/// `always_visible_added` keeps a client's view exact as replicated entities
/// become always visible.
pub proof fn lemma_always_visible_added_view(
    hidden: Set<u64>,
    entities: Seq<u64>,
    replicated: Set<u64>,
    always_visible: Set<u64>,
    cache: Set<u64>,
)
    requires
        view_is_exact(hidden, replicated, always_visible, cache),
    ensures
        view_is_exact(
            apply_settings(hidden, shown_settings(entities)),
            replicated,
            always_visible.union(entities.to_set()),
            cache,
        ),
{
    let settings = shown_settings(entities);
    lemma_apply_settings_uniform(hidden, settings, Set::full());
    assert forall|e: u64| entities.to_set().contains(e) implies settings_entities(settings).contains(
        e,
    ) by {
        let i = choose|i: int| 0 <= i < entities.len() && entities[i] == e;
        assert(settings[i].0 == e);
    }
}

/// `always_visible_removed` keeps a client's view exact as entities stop being
/// always visible, given the set of those of them that are still replicated.
pub proof fn lemma_always_visible_removed_view(
    hidden: Set<u64>,
    removed: Seq<u64>,
    still_replicated: Set<u64>,
    replicated: Set<u64>,
    always_visible: Set<u64>,
    cache: Set<u64>,
)
    requires
        view_is_exact(hidden, replicated, always_visible, cache),
        forall|i: int| 0 <= i < removed.len() ==> (still_replicated.contains(#[trigger] removed[i])
            <==> replicated.contains(removed[i])),
    ensures
        view_is_exact(
            apply_settings(hidden, restored_settings(removed, still_replicated, cache)),
            replicated,
            always_visible.difference(removed.to_set()),
            cache,
        ),
    decreases removed.len(),
{
    let settings = restored_settings(removed, still_replicated, cache);
    lemma_restored_settings(removed, still_replicated, cache);
    lemma_apply_settings_uniform(hidden, settings, cache);
    let after = apply_settings(hidden, settings);
    let named = settings_entities(settings);
    assert forall|e: u64| #[trigger] replicated.contains(e) implies (after.contains(e) <==> !(
    always_visible.difference(removed.to_set()).contains(e) || cache.contains(e))) by {
        if removed.to_set().contains(e) {
            let i = choose|i: int| 0 <= i < removed.len() && removed[i] == e;
            assert(still_replicated.contains(removed[i]));
            assert(named.contains(e));
        } else {
            assert(!removed.to_set().intersect(still_replicated).contains(e));
        }
    }
}

/// What `restored_settings` names, and the states it gives.
proof fn lemma_restored_settings(removed: Seq<u64>, still_replicated: Set<u64>, cache: Set<u64>)
    ensures
        settings_entities(restored_settings(removed, still_replicated, cache)) == removed.to_set().intersect(
            still_replicated,
        ),
        forall|i: int|
            0 <= i < restored_settings(removed, still_replicated, cache).len() ==> #[trigger] restored_settings(
                removed,
                still_replicated,
                cache,
            )[i].1 == cache.contains(restored_settings(removed, still_replicated, cache)[i].0),
    decreases removed.len(),
{
    if removed.len() > 0 {
        let rest = removed.drop_last();
        lemma_restored_settings(rest, still_replicated, cache);
        let before = restored_settings(rest, still_replicated, cache);
        let after = restored_settings(removed, still_replicated, cache);
        let x = removed.last();
        assert forall|e: u64| removed.to_set().contains(e) <==> (rest.to_set().contains(e) || e == x) by {
            if removed.to_set().contains(e) {
                let i = choose|i: int| 0 <= i < removed.len() && removed[i] == e;
                if i < removed.len() - 1 {
                    assert(rest[i] == e);
                }
            }
            if rest.to_set().contains(e) {
                let i = choose|i: int| 0 <= i < rest.len() && rest[i] == e;
                assert(removed[i] == e);
            }
            if e == x {
                assert(removed[removed.len() - 1] == e);
            }
        }
        if still_replicated.contains(x) {
            assert(after == before + seq![(x, cache.contains(x))]);
            assert forall|e: u64| settings_entities(after).contains(e) <==> (settings_entities(
                before,
            ).contains(e) || e == x) by {
                if settings_entities(after).contains(e) {
                    let i = choose|i: int| 0 <= i < after.len() && after[i].0 == e;
                    if i < before.len() {
                        assert(before[i].0 == e);
                    }
                }
                if settings_entities(before).contains(e) {
                    let i = choose|i: int| 0 <= i < before.len() && before[i].0 == e;
                    assert(after[i].0 == e);
                }
                if e == x {
                    assert(after[before.len() as int].0 == e);
                }
            }
        } else {
            assert(after == before);
        }
        assert(settings_entities(after) =~= removed.to_set().intersect(still_replicated));
    } else {
        assert(settings_entities(restored_settings(removed, still_replicated, cache)) =~= Set::empty());
        assert(removed.to_set() =~= Set::empty());
        assert(removed.to_set().intersect(still_replicated) =~= Set::empty());
    }
}

/// `update_client_visible` carries a client's exact view from the cache as of
/// the previous update to the current cache, given the replicated entities
/// that are always visible.
pub proof fn lemma_update_client_visible_view(
    hidden: Set<u64>,
    replicated: Set<u64>,
    always_visible: Set<u64>,
    previous: Set<u64>,
    current: Set<u64>,
)
    requires
        view_is_exact(hidden, replicated, always_visible, previous),
    ensures
        view_is_exact(
            hidden.difference(current.difference(previous)).union(
                previous.difference(current).difference(always_visible),
            ),
            replicated,
            always_visible,
            current,
        ),
{
}

/// After an update whose blacklisting steps left the view exact for the cache
/// recorded at the previous update, and whose refreshes left every observer's
/// cache exact and the client's cache equal to the union of its observers'
/// caches, the client is shown exactly the replicated entities that are always
/// visible or held by a container that one of its observers looks at.
pub proof fn lemma_update_shows_reached_entities(
    hidden: Set<u64>,
    replicated: Set<u64>,
    always_visible: Set<u64>,
    previous: Set<u64>,
    observed_through: Set<u64>,
    observers: Map<u64, VisibleObserver>,
    containers: Map<u64, VisibleContainer>,
)
    requires
        view_is_exact(hidden, replicated, always_visible, previous),
        forall|o: u64|
            observed_through.contains(o) && observers.contains_key(o) ==> #[trigger] observers[o].visible()
                == contents_of(observers[o].observed(), containers),
    ensures
        view_is_exact(
            hidden.difference(
                seen_through(observed_through, observers).difference(previous),
            ).union(
                previous.difference(seen_through(observed_through, observers)).difference(
                    always_visible,
                ),
            ),
            replicated,
            always_visible,
            reached_through(observed_through, observers, containers),
        ),
{
    let current = seen_through(observed_through, observers);
    lemma_seen_through_reaches_containers(observed_through, observers, containers);
    lemma_update_client_visible_view(hidden, replicated, always_visible, previous, current);
}

/// Once `sync_client_visible` has recorded the cache, `update_client_visible`
/// changes nothing until the cache changes.
pub proof fn lemma_update_after_sync_changes_nothing(
    hidden: Set<u64>,
    cache: Set<u64>,
    always_visible: Set<u64>,
)
    ensures
        hidden.difference(cache.difference(cache)).union(
            cache.difference(cache).difference(always_visible),
        ) == hidden,
{
    assert(hidden.difference(cache.difference(cache)).union(
        cache.difference(cache).difference(always_visible),
    ) =~= hidden);
}

} // verus!
