//! Visibility masks.
use vstd::prelude::*;

verus! {

/// A set of visibility layers, one per bit.
///
/// Not to be confused with `bevy_replicon`'s own visibility filters.
#[derive(PartialEq, Eq, Structural, PartialOrd, Ord, Clone, Copy, Debug)]
pub struct VisibilityMask(pub u32);

impl VisibilityMask {
    /// The mask that contains all layers.
    pub fn all() -> (mask: VisibilityMask)
        ensures
            mask.0 == 0xffff_ffff,
    {
        VisibilityMask(0xffff_ffff)
    }

    /// The mask that contains no layers.
    pub fn none() -> (mask: VisibilityMask)
        ensures
            mask.0 == 0,
    {
        VisibilityMask(0)
    }
}

impl core::ops::Deref for VisibilityMask {
    type Target = u32;

    fn deref(&self) -> (layers: &u32)
        ensures
            *layers == self.0,
    {
        &self.0
    }
}

} // verus!
