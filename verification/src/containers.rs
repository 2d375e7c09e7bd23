//! Consensus-spec data objects and their SSZ encodings.
//!
//! Fixed-size containers encode to the concatenation of their fields and
//! root to the merkle root of their field roots; each carries a proof that
//! decoding its encoding gives it back.
use vstd::prelude::*;

pub mod attestation;
pub mod attestation_ssz;
pub mod block;
pub mod block_ssz;
pub mod builder;
pub mod builder_ssz;
pub mod chain;
pub mod committees;
pub mod data_availability;
pub mod data_availability_ssz;
pub mod execution;
pub mod execution_ssz;
pub mod fixed_codecs;
pub mod matrix;
pub mod gossip;
pub mod registry;
pub mod sidecar_proofs;
pub mod state;
pub mod state_ssz;
pub mod sync;
pub mod sync_ssz;
pub mod validator;
pub mod withdrawal;
pub mod withdrawal_ssz;

verus! {

} // verus!
