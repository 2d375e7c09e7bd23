//! Indexed-access failures into the validator and builder registries.
use vstd::prelude::*;



verus! {

/// Failures from registry lookups.
#[derive(Debug, Clone, Copy, PartialEq, Eq)]
#[non_exhaustive]
pub enum RegistryError {
    /// Validator index out of range of the validator registry.
    ValidatorIndexOutOfRange(u64),

    /// Builder index out of range of the builder registry.
    BuilderIndexOutOfRange(u64),

    /// A sync-committee member's pubkey is not present in the validator registry.
    SyncCommitteeMemberNotFound,
}

} // verus!
