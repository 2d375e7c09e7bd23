//! Verified core of an Ethereum consensus engine: typed primitives, SSZ
//! encoding and merkleization, consensus containers, fork choice, and the
//! data-availability and networking helpers around them.
use vstd::prelude::*;

pub mod constants;
pub mod containers;
pub mod crypto;
pub mod error;
pub mod fork_choice;
pub mod gossip;
pub mod networking;
pub mod primitives;
pub mod ssz;

verus! {



} // verus!
