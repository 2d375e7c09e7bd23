//! Numeric newtypes of the consensus vocabulary and their arithmetic.
use vstd::prelude::*;

use crate::constants::SLOTS_PER_EPOCH_U64;

verus! {

/// A slot number: the fixed time window in which one block may be proposed.
#[derive(Clone, Copy, Debug, Default, PartialEq, Eq, Structural, PartialOrd, Ord, Hash)]
pub struct Slot(pub u64);

impl Slot {
    /// Wrap a raw `u64`.
    pub fn new(value: u64) -> (r: Self)
        ensures
            r.0 == value,
    {
        Slot(value)
    }

    /// The raw `u64`.
    pub fn as_u64(&self) -> (r: u64)
        ensures
            r == self.0,
    {
        self.0
    }
}

/// An epoch number: a fixed run of slots.
#[derive(Clone, Copy, Debug, Default, PartialEq, Eq, Structural, PartialOrd, Ord, Hash)]
pub struct Epoch(pub u64);

impl Epoch {
    /// Wrap a raw `u64`.
    pub fn new(value: u64) -> (r: Self)
        ensures
            r.0 == value,
    {
        Epoch(value)
    }

    /// The raw `u64`.
    pub fn as_u64(&self) -> (r: u64)
        ensures
            r == self.0,
    {
        self.0
    }
}

/// Index of a validator in the registry.
#[derive(Clone, Copy, Debug, Default, PartialEq, Eq, Structural, PartialOrd, Ord, Hash)]
pub struct ValidatorIndex(pub u64);

impl ValidatorIndex {
    /// Wrap a raw `u64`.
    pub fn new(value: u64) -> (r: Self)
        ensures
            r.0 == value,
    {
        ValidatorIndex(value)
    }

    /// The raw `u64`.
    pub fn as_u64(&self) -> (r: u64)
        ensures
            r == self.0,
    {
        self.0
    }
}

/// Index of a builder in the builder registry.
#[derive(Clone, Copy, Debug, Default, PartialEq, Eq, Structural, PartialOrd, Ord, Hash)]
pub struct BuilderIndex(pub u64);

impl BuilderIndex {
    /// Wrap a raw `u64`.
    pub fn new(value: u64) -> (r: Self)
        ensures
            r.0 == value,
    {
        BuilderIndex(value)
    }

    /// The raw `u64`.
    pub fn as_u64(&self) -> (r: u64)
        ensures
            r == self.0,
    {
        self.0
    }
}

/// Index of a committee within a slot.
#[derive(Clone, Copy, Debug, Default, PartialEq, Eq, Structural, PartialOrd, Ord, Hash)]
pub struct CommitteeIndex(pub u64);

impl CommitteeIndex {
    /// Wrap a raw `u64`.
    pub fn new(value: u64) -> (r: Self)
        ensures
            r.0 == value,
    {
        CommitteeIndex(value)
    }

    /// The raw `u64`.
    pub fn as_u64(&self) -> (r: u64)
        ensures
            r == self.0,
    {
        self.0
    }
}

/// Index of a data column.
#[derive(Clone, Copy, Debug, Default, PartialEq, Eq, Structural, PartialOrd, Ord, Hash)]
pub struct ColumnIndex(pub u64);

impl ColumnIndex {
    /// Wrap a raw `u64`.
    pub fn new(value: u64) -> (r: Self)
        ensures
            r.0 == value,
    {
        ColumnIndex(value)
    }

    /// The raw `u64`.
    pub fn as_u64(&self) -> (r: u64)
        ensures
            r == self.0,
    {
        self.0
    }
}

/// Index of a blob row.
#[derive(Clone, Copy, Debug, Default, PartialEq, Eq, Structural, PartialOrd, Ord, Hash)]
pub struct RowIndex(pub u64);

impl RowIndex {
    /// Wrap a raw `u64`.
    pub fn new(value: u64) -> (r: Self)
        ensures
            r.0 == value,
    {
        RowIndex(value)
    }

    /// The raw `u64`.
    pub fn as_u64(&self) -> (r: u64)
        ensures
            r == self.0,
    {
        self.0
    }
}

/// Index of a custody group.
#[derive(Clone, Copy, Debug, Default, PartialEq, Eq, Structural, PartialOrd, Ord, Hash)]
pub struct CustodyIndex(pub u64);

impl CustodyIndex {
    /// Wrap a raw `u64`.
    pub fn new(value: u64) -> (r: Self)
        ensures
            r.0 == value,
    {
        CustodyIndex(value)
    }

    /// The raw `u64`.
    pub fn as_u64(&self) -> (r: u64)
        ensures
            r == self.0,
    {
        self.0
    }
}

/// Identifier of a gossip subnet.
#[derive(Clone, Copy, Debug, Default, PartialEq, Eq, Structural, PartialOrd, Ord, Hash)]
pub struct SubnetId(pub u64);

impl SubnetId {
    /// Wrap a raw `u64`.
    pub fn new(value: u64) -> (r: Self)
        ensures
            r.0 == value,
    {
        SubnetId(value)
    }

    /// The raw `u64`.
    pub fn as_u64(&self) -> (r: u64)
        ensures
            r == self.0,
    {
        self.0
    }
}

/// Index of a cell within an extended blob.
#[derive(Clone, Copy, Debug, Default, PartialEq, Eq, Structural, PartialOrd, Ord, Hash)]
pub struct CellIndex(pub u64);

impl CellIndex {
    /// Wrap a raw `u64`.
    pub fn new(value: u64) -> (r: Self)
        ensures
            r.0 == value,
    {
        CellIndex(value)
    }

    /// The raw `u64`.
    pub fn as_u64(&self) -> (r: u64)
        ensures
            r == self.0,
    {
        self.0
    }
}

/// Index into a deduplicated commitment list.
#[derive(Clone, Copy, Debug, Default, PartialEq, Eq, Structural, PartialOrd, Ord, Hash)]
pub struct CommitmentIndex(pub u64);

impl CommitmentIndex {
    /// Wrap a raw `u64`.
    pub fn new(value: u64) -> (r: Self)
        ensures
            r.0 == value,
    {
        CommitmentIndex(value)
    }

    /// The raw `u64`.
    pub fn as_u64(&self) -> (r: u64)
        ensures
            r == self.0,
    {
        self.0
    }
}

/// Sequence number of a withdrawal.
#[derive(Clone, Copy, Debug, Default, PartialEq, Eq, Structural, PartialOrd, Ord, Hash)]
pub struct WithdrawalIndex(pub u64);

impl WithdrawalIndex {
    /// Wrap a raw `u64`.
    pub fn new(value: u64) -> (r: Self)
        ensures
            r.0 == value,
    {
        WithdrawalIndex(value)
    }

    /// The raw `u64`.
    pub fn as_u64(&self) -> (r: u64)
        ensures
            r == self.0,
    {
        self.0
    }
}

/// An amount of ether in gwei.
#[derive(Clone, Copy, Debug, Default, PartialEq, Eq, Structural, PartialOrd, Ord, Hash)]
pub struct Gwei(pub u64);

impl Gwei {
    /// Wrap a raw `u64`.
    pub fn new(value: u64) -> (r: Self)
        ensures
            r.0 == value,
    {
        Gwei(value)
    }

    /// The raw `u64`.
    pub fn as_u64(&self) -> (r: u64)
        ensures
            r == self.0,
    {
        self.0
    }
}

/// Per-validator participation flag bits.
#[derive(Clone, Copy, Debug, Default, PartialEq, Eq, Structural, PartialOrd, Ord, Hash)]
pub struct ParticipationFlags(pub u8);

impl Slot {
    /// The epoch this slot falls in.
    pub fn epoch(&self) -> (r: Epoch)
        ensures
            r.0 == self.0 / SLOTS_PER_EPOCH_U64,
    {
        Epoch(self.0 / SLOTS_PER_EPOCH_U64)
    }
}

impl Epoch {
    /// The first slot of this epoch, saturating at the largest slot.
    pub fn start_slot(&self) -> (r: Slot)
        ensures
            r.0 == crate::constants::spec_epoch_start_slot(self.0),
    {
        match self.0.checked_mul(SLOTS_PER_EPOCH_U64) {
            Some(v) => Slot(v),
            None => Slot(u64::MAX),
        }
    }

    /// `self - rhs`, saturating at zero.
    pub fn saturating_sub(&self, rhs: u64) -> (r: Epoch)
        ensures
            r.0 == (if self.0 >= rhs { (self.0 - rhs) as u64 } else { 0u64 }),
    {
        Epoch(self.0.saturating_sub(rhs))
    }

    /// `self + rhs`, saturating at the largest epoch.
    pub fn saturating_add(&self, rhs: u64) -> (r: Epoch)
        ensures
            r.0 == (if self.0 + rhs <= u64::MAX { (self.0 + rhs) as u64 } else { u64::MAX }),
    {
        Epoch(self.0.saturating_add(rhs))
    }
}

impl ValidatorIndex {
    /// The index as a `usize`, for registry lookups.
    pub fn as_usize(&self) -> (r: usize)
        requires
            self.0 <= usize::MAX,
        ensures
            r == self.0,
    {
        self.0 as usize
    }
}

impl Gwei {
    /// Zero gwei.
    pub fn zero() -> (r: Gwei)
        ensures
            r.0 == 0,
    {
        Gwei(0)
    }

    /// `self + rhs`, or `None` on overflow.
    pub fn checked_add(&self, rhs: Gwei) -> (r: Option<Gwei>)
        ensures
            self.0 + rhs.0 <= u64::MAX ==> r == Some(Gwei((self.0 + rhs.0) as u64)),
            self.0 + rhs.0 > u64::MAX ==> r is None,
    {
        match self.0.checked_add(rhs.0) {
            Some(v) => Some(Gwei(v)),
            None => None,
        }
    }
}

} // verus!
