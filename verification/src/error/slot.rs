//! Slot-advancement failures raised by `process_slots` / `process_slot`.
use vstd::prelude::*;

use crate::primitives::Slot;

verus! {

/// Failures from slot advancement.
#[derive(Debug, Clone, Copy, PartialEq, Eq)]
#[non_exhaustive]
pub enum SlotError {
    /// `target` is not strictly after `current`, which is invalid for transition entry.
    NotAfter {
        /// Current state slot.
        current: Slot,
        /// Requested target slot.
        target: Slot,
    },

    /// Advancing this slot to its next value overflowed.
    NextSlotOverflow(Slot),
}

} // verus!
