//! Fast-confirmation accessors.
use vstd::prelude::*;

use crate::error::ForkChoiceError;
use crate::primitives::{Hash32, Root};

use super::store::{ForkChoiceNode, PayloadStatus, Store};

verus! {

impl Store {
    /// The fork-choice node a confirmed block root stands for: its pending node.
    pub fn get_node_for_root(&self, block_root: Root) -> (r: ForkChoiceNode)
        ensures
            r == (ForkChoiceNode { root: block_root, payload_status: PayloadStatus::Pending }),
    {
        ForkChoiceNode::pending(block_root)
    }

    /// The execution block hash that is safe given a confirmed beacon block:
    /// the parent hash its bid builds on.
    pub fn get_safe_execution_block_hash(&self, confirmed_root: Root) -> (r: Result<Hash32, ForkChoiceError>)
        requires
            self.blocks.wf(),
        ensures
            self.blocks@.contains_key(confirmed_root) ==> r == Ok::<Hash32, ForkChoiceError>(
                self.blocks@[confirmed_root].body.signed_execution_payload_bid.message.parent_block_hash,
            ),
            !self.blocks@.contains_key(confirmed_root) ==> r == Err::<Hash32, ForkChoiceError>(
                ForkChoiceError::UnknownBlock(confirmed_root),
            ),
    {
        match self.blocks.get(&confirmed_root) {
            Some(b) => Ok(b.body.signed_execution_payload_bid.message.parent_block_hash),
            None => Err(ForkChoiceError::UnknownBlock(confirmed_root)),
        }
    }
}

} // verus!
