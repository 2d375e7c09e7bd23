//! Fork choice: deciding which block is the head of the chain.
//!
//! The unit of choice is a [`ForkChoiceNode`], a block root paired with a
//! [`PayloadStatus`] of empty, full or pending. The [`Store`] holds one node's
//! local evidence: known blocks and post-states, latest votes, recorded
//! payload envelopes and payload-timeliness vote vectors.
use vstd::prelude::*;

pub mod keyed_map;
pub mod on_attestation;
pub mod on_block;
pub mod on_execution_payload_envelope;
pub mod on_payload_attestation_message;
pub mod anchor;
pub mod checkpoints;
pub mod fast_confirmation;
pub mod filter;
pub mod head;
pub mod helpers;
pub mod on_tick;
pub mod payload_status;
pub mod proposer_head;
pub mod store;
pub mod timeliness;
pub mod weight;


verus! {

} // verus!
