//! KZG commitments for data-availability sampling.
use vstd::prelude::*;

pub mod batch;
pub mod cells;
pub mod error;
pub mod field;
pub mod polynomial;
pub mod proofs;
pub mod recovery;
pub mod trusted_setup;

pub use error::{KzgError, SetupFileError};

verus! {

} // verus!
