//! What this crate reads and writes of `bevy_replicon`'s per-client visibility.
//!
//! A client's [`ClientVisibility`] keeps, for every entity with hidden data,
//! a mask of the visibility filters that hide it. This crate owns one of those
//! filters, the [`VisibleBit`]; an entity is hidden from a client by this crate
//! exactly when that bit is set in the entity's mask.
use bevy::ecs::entity::Entity;
use bevy_replicon::server::visibility::client_visibility::ClientVisibility;
use bevy_replicon::server::visibility::filters_mask::FilterBit;
use vstd::prelude::*;

verus! {

/// `bevy_replicon`'s visibility component of a client, carried through opaquely.
#[verifier::external_type_specification]
#[verifier::external_body]
pub struct ExClientVisibility(ClientVisibility);

/// `bevy_replicon`'s index of a registered visibility filter, carried through opaquely.
#[verifier::external_type_specification]
#[verifier::external_body]
pub struct ExFilterBit(FilterBit);

/// The hidden masks that a `ClientVisibility` holds: for each entity (by its
/// `Entity::to_bits` identifier) that has hidden data, the mask of the filters
/// that hide it.
pub uninterp spec fn hidden_masks(visibility: ClientVisibility) -> Map<u64, u32>;

/// The index that a `FilterBit` dereferences to.
pub uninterp spec fn filter_bit_index(bit: FilterBit) -> u8;

/// Whether `id` is what `Entity::to_bits` can give: its low 32 bits, the
/// entity's index, are not all zero.
pub open spec fn is_entity_id(id: u64) -> bool {
    id % 0x1_0000_0000 != 0
}

/// The single-bit mask of filter `index`.
pub open spec fn filter_mask(index: u8) -> u32 {
    1u32 << index
}

/// The hidden masks after `ClientVisibility::set(entity, bit, visible)`, where
/// `mask` is the bit's single-bit mask.
pub open spec fn masks_after_set(masks: Map<u64, u32>, entity: u64, mask: u32, visible: bool) -> Map<
    u64,
    u32,
> {
    if visible {
        if masks.contains_key(entity) {
            let rest = masks[entity] & !mask;
            if rest == 0 {
                masks.remove(entity)
            } else {
                masks.insert(entity, rest)
            }
        } else {
            masks
        }
    } else {
        let before = if masks.contains_key(entity) {
            masks[entity]
        } else {
            0u32
        };
        masks.insert(entity, before | mask)
    }
}

/// Calls `ClientVisibility::set` on the entity whose identifier is `entity`.
///
/// Trusted: per `bevy_replicon`'s source, making an entity visible clears the
/// bit in its hidden mask and drops the mask once it is empty, and hiding it
/// sets the bit, adding a mask where there was none. What the call does to the
/// list of entities that lost visibility during the tick is left unsaid.
/// `Entity::from_bits` panics on an identifier whose index bits are zero, and
/// shifting by a filter index of 32 or more overflows: both are ruled out.
#[verifier::external_body]
fn set_visibility(visibility: &mut ClientVisibility, entity: u64, bit: FilterBit, visible: bool)
    requires
        is_entity_id(entity),
        filter_bit_index(bit) < 32,
    ensures
        hidden_masks(*final(visibility)) == masks_after_set(
            hidden_masks(*old(visibility)),
            entity,
            filter_mask(filter_bit_index(bit)),
            visible,
        ),
{
    visibility.set(Entity::from_bits(entity), bit, visible)
}

/// Dereferences a `FilterBit` to its index.
///
/// Trusted: `FilterBit` derives `Deref` to the `u8` it wraps.
#[verifier::external_body]
fn index_of_filter_bit(bit: FilterBit) -> (index: u8)
    ensures
        index == filter_bit_index(bit),
{
    *bit
}

/// The visibility filter bit that this crate registers with `bevy_replicon`.
#[derive(Debug)]
pub struct VisibleBit {
    bit: FilterBit,
}

impl VisibleBit {
    /// Filter bits are below 32: a filters mask has 32 bits.
    #[verifier::type_invariant]
    spec fn in_range(self) -> bool {
        filter_bit_index(self.bit) < 32
    }

    /// The filter bit held.
    pub closed spec fn filter_bit(self) -> FilterBit {
        self.bit
    }

    /// The index of the filter bit held.
    pub closed spec fn index(self) -> u8 {
        filter_bit_index(self.bit)
    }

    /// Wraps a registered filter bit; `None` for an index of 32 or more, which
    /// `bevy_replicon` never hands out.
    pub fn new(bit: FilterBit) -> (made: Option<VisibleBit>)
        ensures
            made is Some <==> filter_bit_index(bit) < 32,
            made matches Some(v) ==> v.filter_bit() == bit && v.index() == filter_bit_index(bit),
    {
        if index_of_filter_bit(bit) < 32 {
            Some(VisibleBit { bit })
        } else {
            None
        }
    }
}

/// The hidden entities after visibility `settings`, each an entity and
/// whether it is made visible, are applied in order to `hidden`.
pub open spec fn apply_settings(hidden: Set<u64>, settings: Seq<(u64, bool)>) -> Set<u64>
    decreases settings.len(),
{
    if settings.len() == 0 {
        hidden
    } else {
        let before = apply_settings(hidden, settings.drop_last());
        let (entity, visible) = settings.last();
        if visible {
            before.remove(entity)
        } else {
            before.insert(entity)
        }
    }
}

/// The entities that `settings` name.
pub open spec fn settings_entities(settings: Seq<(u64, bool)>) -> Set<u64> {
    Set::new(|e: u64| exists|i: int| 0 <= i < settings.len() && #[trigger] settings[i].0 == e)
}

/// Settings that show an entity exactly when it is in `shown` hide exactly
/// the named entities outside `shown`, and leave the others as they were.
pub proof fn lemma_apply_settings_uniform(hidden: Set<u64>, settings: Seq<(u64, bool)>, shown: Set<u64>)
    requires
        forall|i: int| 0 <= i < settings.len() ==> #[trigger] settings[i].1 == shown.contains(settings[i].0),
    ensures
        apply_settings(hidden, settings) == hidden.difference(settings_entities(settings)).union(
            settings_entities(settings).difference(shown),
        ),
    decreases settings.len(),
{
    let named = settings_entities(settings);
    if settings.len() == 0 {
        assert(named =~= Set::empty());
        assert(hidden.difference(named).union(named.difference(shown)) =~= hidden);
    } else {
        let rest = settings.drop_last();
        lemma_apply_settings_uniform(hidden, rest, shown);
        let (entity, visible) = settings.last();
        assert(settings[settings.len() - 1].1 == shown.contains(settings[settings.len() - 1].0));
        let rest_named = settings_entities(rest);
        assert forall|e: u64| named.contains(e) <==> (rest_named.contains(e) || e == entity) by {
            if named.contains(e) {
                let i = choose|i: int| 0 <= i < settings.len() && settings[i].0 == e;
                if i < settings.len() - 1 {
                    assert(rest[i].0 == e);
                }
            }
            if rest_named.contains(e) {
                let i = choose|i: int| 0 <= i < rest.len() && rest[i].0 == e;
                assert(settings[i].0 == e);
            }
            if e == entity {
                assert(settings[settings.len() - 1].0 == e);
            }
        }
        assert(apply_settings(hidden, settings) =~= hidden.difference(named).union(
            named.difference(shown),
        ));
    }
}

/// Whether every setting names an entity identifier.
pub open spec fn settings_name_entities(settings: Seq<(u64, bool)>) -> bool {
    forall|i: int| 0 <= i < settings.len() ==> is_entity_id(#[trigger] settings[i].0)
}

/// The entities whose masks have filter bit `index` set.
pub open spec fn hidden_in_masks(masks: Map<u64, u32>, index: u8) -> Set<u64> {
    Set::new(|e: u64| masks.contains_key(e) && masks[e] & filter_mask(index) != 0)
}

/// The entities that `bit` hides in `visibility`.
pub open spec fn hidden_entities(visibility: ClientVisibility, bit: VisibleBit) -> Set<u64> {
    hidden_in_masks(hidden_masks(visibility), bit.index())
}

proof fn lemma_masks_after_set(masks: Map<u64, u32>, entity: u64, index: u8, visible: bool)
    requires
        index < 32,
    ensures
        hidden_in_masks(masks_after_set(masks, entity, filter_mask(index), visible), index) == if visible {
            hidden_in_masks(masks, index).remove(entity)
        } else {
            hidden_in_masks(masks, index).insert(entity)
        },
{
    let mask = filter_mask(index);
    assert(mask != 0) by (bit_vector)
        requires
            index < 32,
            mask == 1u32 << index,
    ;
    assert forall|m: u32| #[trigger] (m & !mask) & mask == 0 by {
        assert((m & !mask) & mask == 0) by (bit_vector);
    }
    assert forall|m: u32| #[trigger] ((m | mask) & mask) != 0 by {
        assert(mask != 0 ==> (m | mask) & mask != 0) by (bit_vector);
    }
    let after = masks_after_set(masks, entity, mask, visible);
    let expected = if visible {
        hidden_in_masks(masks, index).remove(entity)
    } else {
        hidden_in_masks(masks, index).insert(entity)
    };
    assert(hidden_in_masks(after, index) =~= expected);
}

/// Every filter but the one at `index` hides the same entities in `after` as in `before`.
pub open spec fn other_filters_kept(before: Map<u64, u32>, after: Map<u64, u32>, index: u8) -> bool {
    forall|j: u8| j < 32 && j != index ==> #[trigger] hidden_in_masks(after, j) == hidden_in_masks(before, j)
}

proof fn lemma_other_filters_after_set(masks: Map<u64, u32>, entity: u64, index: u8, visible: bool)
    requires
        index < 32,
    ensures
        other_filters_kept(masks, masks_after_set(masks, entity, filter_mask(index), visible), index),
{
    let mask = filter_mask(index);
    let after = masks_after_set(masks, entity, mask, visible);
    assert forall|j: u8| j < 32 && j != index implies #[trigger] hidden_in_masks(after, j)
        == hidden_in_masks(masks, j) by {
        let other = filter_mask(j);
        assert(mask & other == 0) by (bit_vector)
            requires
                index < 32,
                j < 32,
                index != j,
                mask == 1u32 << index,
                other == 1u32 << j,
        ;
        assert forall|m: u32| #[trigger] ((m & !mask) & other) == m & other by {
            assert(mask & other == 0 ==> (m & !mask) & other == m & other) by (bit_vector);
        }
        assert forall|m: u32| #[trigger] ((m | mask) & other) == m & other by {
            assert(mask & other == 0 ==> (m | mask) & other == m & other) by (bit_vector);
        }
        assert((0u32 & other) == 0) by (bit_vector);
        assert(hidden_in_masks(after, j) =~= hidden_in_masks(masks, j));
    }
}

/// Sets whether `bit` hides `entity` from the client.
pub(crate) fn set_visible(visibility: &mut ClientVisibility, bit: &VisibleBit, entity: u64, visible: bool)
    requires
        is_entity_id(entity),
    ensures
        hidden_entities(*final(visibility), *bit) == if visible {
            hidden_entities(*old(visibility), *bit).remove(entity)
        } else {
            hidden_entities(*old(visibility), *bit).insert(entity)
        },
        other_filters_kept(hidden_masks(*old(visibility)), hidden_masks(*final(visibility)), bit.index()),
{
    proof {
        use_type_invariant(bit);
        lemma_masks_after_set(hidden_masks(*visibility), entity, bit.index(), visible);
        lemma_other_filters_after_set(hidden_masks(*visibility), entity, bit.index(), visible);
    }
    set_visibility(visibility, entity, bit.bit, visible);
}

} // verus!
