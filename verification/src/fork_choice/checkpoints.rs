//! Realized and unrealized justification bookkeeping.
use vstd::prelude::*;

use crate::containers::chain::Checkpoint;
use crate::error::ForkChoiceError;
use crate::primitives::Root;

use super::helpers::{spec_current_slot, spec_epoch_of};
use super::store::Store;

verus! {

/// `candidate` when it is from a later epoch than `current`, else `current`.
pub open spec fn later_checkpoint(current: Checkpoint, candidate: Checkpoint) -> Checkpoint {
    if candidate.epoch.0 > current.epoch.0 {
        candidate
    } else {
        current
    }
}

impl Store {
    /// Adopt `justified` and `finalized` where each is from a later epoch than
    /// the store's current one.
    pub fn update_checkpoints(&mut self, justified: Checkpoint, finalized: Checkpoint)
        ensures
            *final(self) == (Store {
                justified_checkpoint: later_checkpoint(old(self).justified_checkpoint, justified),
                finalized_checkpoint: later_checkpoint(old(self).finalized_checkpoint, finalized),
                ..*old(self)
            }),
    {
        if justified.epoch.0 > self.justified_checkpoint.epoch.0 {
            self.justified_checkpoint = justified;
        }
        if finalized.epoch.0 > self.finalized_checkpoint.epoch.0 {
            self.finalized_checkpoint = finalized;
        }
    }

    /// Adopt unrealized checkpoints where each is from a later epoch than the
    /// store's current unrealized one.
    pub fn update_unrealized_checkpoints(&mut self, unrealized_justified: Checkpoint, unrealized_finalized: Checkpoint)
        ensures
            *final(self) == (Store {
                unrealized_justified_checkpoint: later_checkpoint(
                    old(self).unrealized_justified_checkpoint,
                    unrealized_justified,
                ),
                unrealized_finalized_checkpoint: later_checkpoint(
                    old(self).unrealized_finalized_checkpoint,
                    unrealized_finalized,
                ),
                ..*old(self)
            }),
    {
        if unrealized_justified.epoch.0 > self.unrealized_justified_checkpoint.epoch.0 {
            self.unrealized_justified_checkpoint = unrealized_justified;
        }
        if unrealized_finalized.epoch.0 > self.unrealized_finalized_checkpoint.epoch.0 {
            self.unrealized_finalized_checkpoint = unrealized_finalized;
        }
    }
}

/// What pulling up the tip at `block_root` makes of `store`, given the
/// checkpoints its post-state reaches once justification is processed: the
/// pulled-up justified checkpoint is filed as the block's unrealized
/// justification, both are adopted as unrealized checkpoints where later,
/// and, for a block from an earlier epoch than the store's, as realized ones
/// too.
pub open spec fn spec_pulled_up(
    store: Store,
    block_root: Root,
    pulled_justified: Checkpoint,
    pulled_finalized: Checkpoint,
    after: Store,
) -> bool {
    let earlier = spec_epoch_of(store.blocks@[block_root].slot.0) < spec_epoch_of(spec_current_slot(store));
    &&& after.unrealized_justifications.wf()
    &&& after.unrealized_justifications@ == store.unrealized_justifications@.insert(block_root, pulled_justified)
    &&& after == (Store {
        unrealized_justifications: after.unrealized_justifications,
        unrealized_justified_checkpoint: later_checkpoint(store.unrealized_justified_checkpoint, pulled_justified),
        unrealized_finalized_checkpoint: later_checkpoint(store.unrealized_finalized_checkpoint, pulled_finalized),
        justified_checkpoint: if earlier {
            later_checkpoint(store.justified_checkpoint, pulled_justified)
        } else {
            store.justified_checkpoint
        },
        finalized_checkpoint: if earlier {
            later_checkpoint(store.finalized_checkpoint, pulled_finalized)
        } else {
            store.finalized_checkpoint
        },
        ..store
    })
}

impl Store {
    /// Pull up the tip at `block_root`, given the justified and finalized
    /// checkpoints of its post-state once justification and finalization are
    /// processed on it. The block and its state must be known.
    pub fn compute_pulled_up_tip(
        &mut self,
        block_root: Root,
        pulled_justified: Checkpoint,
        pulled_finalized: Checkpoint,
    ) -> (r: Result<(), ForkChoiceError>)
        requires
            old(self).maps_wf(),
        ensures
            !(old(self).block_states@.contains_key(block_root) && old(self).blocks@.contains_key(block_root)) ==> r
                == Err::<(), ForkChoiceError>(ForkChoiceError::UnknownBlock(block_root)) && *final(self) == *old(
                self,
            ),
            old(self).block_states@.contains_key(block_root) && old(self).blocks@.contains_key(block_root) ==> r is Ok
                && spec_pulled_up(*old(self), block_root, pulled_justified, pulled_finalized, *final(self)),
    {
        if !self.block_states.contains_key(&block_root) {
            return Err(ForkChoiceError::UnknownBlock(block_root));
        }
        let block_epoch = match self.blocks.get(&block_root) {
            Some(b) => b.slot.epoch(),
            None => return Err(ForkChoiceError::UnknownBlock(block_root)),
        };
        let current_epoch = self.get_current_store_epoch();
        self.unrealized_justifications.insert(block_root, pulled_justified);
        self.update_unrealized_checkpoints(pulled_justified, pulled_finalized);
        if block_epoch.0 < current_epoch.0 {
            self.update_checkpoints(pulled_justified, pulled_finalized);
        }
        Ok(())
    }
}

/// Checkpoint updates never move the justified or finalized epoch backwards.
pub proof fn lemma_later_checkpoint_monotonic(current: Checkpoint, candidate: Checkpoint)
    ensures
        later_checkpoint(current, candidate).epoch.0 >= current.epoch.0,
        later_checkpoint(current, candidate).epoch.0 >= candidate.epoch.0 || later_checkpoint(
            current,
            candidate,
        ) == current,
{
}

} // verus!
