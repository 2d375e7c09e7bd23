//! Block arrival timeliness and proposer-boost selection.
use vstd::prelude::*;

use crate::error::ForkChoiceError;
use crate::primitives::Root;
use crate::ssz::basic::zeros;

use super::helpers::{sat_sub, spec_current_slot, spec_seconds_to_ms};
use super::store::{BlockTimeliness, Store};

verus! {

/// Milliseconds into the current slot by the store's clock.
pub open spec fn spec_time_into_slot(store: Store) -> u64 {
    (spec_seconds_to_ms(sat_sub(store.time, store.genesis_time)) % 12000) as u64
}

/// The timeliness flags of a block at `block_slot` seen now.
pub open spec fn spec_timeliness(store: Store, block_slot: u64) -> BlockTimeliness {
    let current = spec_current_slot(store) == block_slot;
    BlockTimeliness {
        attestation_timely: current && spec_time_into_slot(store) < 3000,
        payload_attestation_timely: current && spec_time_into_slot(store) < 9000,
    }
}

impl Store {
    /// Record whether the block at `root` arrived before the slot's
    /// attestation and payload-attestation deadlines.
    pub fn record_block_timeliness(&mut self, root: Root) -> (r: Result<(), ForkChoiceError>)
        requires
            old(self).maps_wf(),
        ensures
            final(self).maps_wf(),
            !old(self).blocks@.contains_key(root) ==> r == Err::<(), ForkChoiceError>(
                ForkChoiceError::UnknownBlock(root),
            ) && *final(self) == *old(self),
            old(self).blocks@.contains_key(root) ==> r is Ok && final(self).block_timeliness@
                == old(self).block_timeliness@.insert(
                root,
                spec_timeliness(*old(self), old(self).blocks@[root].slot.0),
            ),
            *final(self) == (Store { block_timeliness: final(self).block_timeliness, ..*old(self) }),
    {
        let block_slot = match self.blocks.get(&root) {
            Some(b) => b.slot,
            None => return Err(ForkChoiceError::UnknownBlock(root)),
        };
        let time_into_slot = self.time_into_slot_ms();
        let is_current_slot = self.get_current_slot().0 == block_slot.0;
        let timeliness = BlockTimeliness {
            attestation_timely: is_current_slot && time_into_slot < super::helpers::get_attestation_due_ms(),
            payload_attestation_timely: is_current_slot && time_into_slot
                < super::helpers::get_payload_attestation_due_ms(),
        };
        self.block_timeliness.insert(root, timeliness);
        Ok(())
    }

    /// Whether `root` earns the proposer boost: it arrived before the
    /// attestation deadline, no block holds the boost yet, and its dependent
    /// root is the head's.
    pub open spec fn spec_earns_boost(self, head: Root, root: Root) -> bool {
        &&& self.block_timeliness@[root].attestation_timely
        &&& self.proposer_boost_root.0@ == zeros(32)
        &&& self.spec_dependent_root(root) == self.spec_dependent_root(head)
    }

    /// Give `root` the proposer boost when it is timely, no block holds the
    /// boost yet, and it shares its dependent root with the current `head`.
    pub fn update_proposer_boost_root(&mut self, head: Root, root: Root) -> (r: Result<(), ForkChoiceError>)
        requires
            old(self).wf(),
        ensures
            *final(self) == (Store { proposer_boost_root: final(self).proposer_boost_root, ..*old(self) }),
            r is Err ==> *final(self) == *old(self),
            !old(self).block_timeliness@.contains_key(root) ==> r == Err::<(), ForkChoiceError>(
                ForkChoiceError::UnknownBlock(root),
            ),
            old(self).block_timeliness@.contains_key(root) ==> match old(self).spec_dependent_root(root) {
                Err(e) => r == Err::<(), ForkChoiceError>(e),
                Ok(_) => match old(self).spec_dependent_root(head) {
                    Err(e) => r == Err::<(), ForkChoiceError>(e),
                    Ok(_) => r is Ok,
                },
            },
            r is Ok ==> final(self).proposer_boost_root == if old(self).spec_earns_boost(head, root) {
                root
            } else {
                old(self).proposer_boost_root
            },
    {
        let is_first_block = self.proposer_boost_root.is_zero();
        let is_timely = match self.block_timeliness.get(&root) {
            Some(t) => t.attestation_timely,
            None => return Err(ForkChoiceError::UnknownBlock(root)),
        };
        let dependent_root = self.get_dependent_root(root)?;
        let head_dependent_root = self.get_dependent_root(head)?;
        let is_same_dependent_root = dependent_root.equals(&head_dependent_root);
        proof {
            crate::primitives::byte_arrays::lemma_root_eq(dependent_root, head_dependent_root);
        }
        if is_timely && is_first_block && is_same_dependent_root {
            self.proposer_boost_root = root;
        }
        Ok(())
    }
}

} // verus!
