//! Cryptographic primitives used by consensus processing.
use vstd::prelude::*;

pub mod bls;
pub mod kzg;

verus! {

} // verus!
