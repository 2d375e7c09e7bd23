//! Registry queries over a beacon state: which validators are active and
//! how much stake they hold.
use vstd::prelude::*;

use crate::constants::{EFFECTIVE_BALANCE_INCREMENT, SLOTS_PER_EPOCH_U64};
use crate::containers::state::BeaconState;
use crate::containers::validator::Validator;
use crate::error::{TransitionArithmetic, TransitionError};
use crate::primitives::{Epoch, Gwei, ValidatorIndex};

verus! {

/// A validator is active from its activation epoch up to, not including,
/// its exit epoch.
pub open spec fn spec_is_active_validator(v: Validator, epoch: u64) -> bool {
    v.activation_epoch.0 <= epoch && epoch < v.exit_epoch.0
}

/// The indices of the active, unslashed validators of `validators` at
/// `epoch`, in registry order.
pub open spec fn spec_active_unslashed_indices(validators: Seq<Validator>, epoch: u64) -> Seq<ValidatorIndex>
    decreases validators.len(),
{
    if validators.len() == 0 {
        Seq::empty()
    } else {
        let prev = spec_active_unslashed_indices(validators.drop_last(), epoch);
        let v = validators.last();
        if spec_is_active_validator(v, epoch) && !v.slashed {
            prev.push(ValidatorIndex((validators.len() - 1) as u64))
        } else {
            prev
        }
    }
}

/// The indices of the validators of `validators` active at `epoch`, in
/// registry order.
pub open spec fn spec_active_indices(validators: Seq<Validator>, epoch: u64) -> Seq<ValidatorIndex>
    decreases validators.len(),
{
    if validators.len() == 0 {
        Seq::empty()
    } else {
        let prev = spec_active_indices(validators.drop_last(), epoch);
        if spec_is_active_validator(validators.last(), epoch) {
            prev.push(ValidatorIndex((validators.len() - 1) as u64))
        } else {
            prev
        }
    }
}

/// There are no more active validators than validators, and each active
/// index names a validator.
pub proof fn lemma_active_indices_bound(validators: Seq<Validator>, epoch: u64)
    ensures
        spec_active_indices(validators, epoch).len() <= validators.len(),
        forall|k: int|
            0 <= k < spec_active_indices(validators, epoch).len() ==> (#[trigger] spec_active_indices(
                validators,
                epoch,
            )[k]).0 < validators.len(),
    decreases validators.len(),
{
    if validators.len() > 0 {
        lemma_active_indices_bound(validators.drop_last(), epoch);
    }
}

/// The summed effective balance of the validators active at `epoch`.
pub open spec fn spec_active_balance_sum(validators: Seq<Validator>, epoch: u64) -> nat
    decreases validators.len(),
{
    if validators.len() == 0 {
        0
    } else {
        let v = validators.last();
        spec_active_balance_sum(validators.drop_last(), epoch) + if spec_is_active_validator(v, epoch) {
            v.effective_balance.0 as nat
        } else {
            0
        }
    }
}

/// The total active balance at `epoch`: the summed effective balance of the
/// active validators, at least one increment, or an overflow error when the
/// sum does not fit in a `u64`.
pub open spec fn spec_total_active_balance(validators: Seq<Validator>, epoch: u64) -> Result<Gwei, TransitionError> {
    let sum = spec_active_balance_sum(validators, epoch);
    if sum > u64::MAX {
        Err(TransitionError::ArithmeticOverflow(TransitionArithmetic::BalanceSum))
    } else if sum < EFFECTIVE_BALANCE_INCREMENT {
        Ok(Gwei(EFFECTIVE_BALANCE_INCREMENT))
    } else {
        Ok(Gwei(sum as u64))
    }
}

/// Partial sums never exceed the whole.
proof fn lemma_active_balance_prefix(validators: Seq<Validator>, epoch: u64, n: int)
    requires
        0 <= n <= validators.len(),
    ensures
        spec_active_balance_sum(validators.subrange(0, n), epoch) <= spec_active_balance_sum(validators, epoch),
    decreases validators.len() - n,
{
    if n < validators.len() {
        let next = validators.subrange(0, n + 1);
        assert(next.drop_last() =~= validators.subrange(0, n));
        lemma_active_balance_prefix(validators, epoch, n + 1);
    } else {
        assert(validators.subrange(0, n) =~= validators);
    }
}

impl BeaconState {
    /// The active, unslashed validators at `epoch`, in registry order.
    pub fn active_unslashed_validator_indices(&self, epoch: Epoch) -> (r: Vec<ValidatorIndex>)
        ensures
            r@ == spec_active_unslashed_indices(self.validators@, epoch.0),
    {
        let n = self.validators.items.len();
        let mut out: Vec<ValidatorIndex> = Vec::new();
        let mut i: usize = 0;
        proof {
            assert(self.validators@.subrange(0, 0) =~= Seq::<Validator>::empty());
        }
        while i < n
            invariant
                n == self.validators@.len(),
                i <= n,
                out@ == spec_active_unslashed_indices(self.validators@.subrange(0, i as int), epoch.0),
            decreases n - i,
        {
            let ghost next = self.validators@.subrange(0, i + 1);
            assert(next.drop_last() =~= self.validators@.subrange(0, i as int));
            let v = &self.validators.items[i];
            if v.activation_epoch.0 <= epoch.0 && epoch.0 < v.exit_epoch.0 && !v.slashed {
                out.push(ValidatorIndex(i as u64));
            }
            i = i + 1;
        }
        assert(self.validators@.subrange(0, n as int) =~= self.validators@);
        out
    }

    /// The validators active at `epoch`, slashed or not, in registry order.
    pub fn active_validator_indices(&self, epoch: Epoch) -> (r: Vec<ValidatorIndex>)
        ensures
            r@ == spec_active_indices(self.validators@, epoch.0),
    {
        let n = self.validators.items.len();
        let mut out: Vec<ValidatorIndex> = Vec::new();
        let mut i: usize = 0;
        proof {
            assert(self.validators@.subrange(0, 0) =~= Seq::<Validator>::empty());
        }
        while i < n
            invariant
                n == self.validators@.len(),
                i <= n,
                out@ == spec_active_indices(self.validators@.subrange(0, i as int), epoch.0),
            decreases n - i,
        {
            let ghost next = self.validators@.subrange(0, i + 1);
            assert(next.drop_last() =~= self.validators@.subrange(0, i as int));
            let v = &self.validators.items[i];
            if v.activation_epoch.0 <= epoch.0 && epoch.0 < v.exit_epoch.0 {
                out.push(ValidatorIndex(i as u64));
            }
            i = i + 1;
        }
        assert(self.validators@.subrange(0, n as int) =~= self.validators@);
        out
    }

    /// The total effective balance of the validators active in the state's
    /// current epoch, never below one balance increment.
    pub fn get_total_active_balance(&self) -> (r: Result<Gwei, TransitionError>)
        ensures
            r == spec_total_active_balance(self.validators@, self.slot.0 / SLOTS_PER_EPOCH_U64),
    {
        let epoch = self.get_current_epoch();
        let n = self.validators.items.len();
        let mut sum: u64 = 0;
        let mut i: usize = 0;
        proof {
            assert(self.validators@.subrange(0, 0) =~= Seq::<Validator>::empty());
        }
        while i < n
            invariant
                n == self.validators@.len(),
                i <= n,
                epoch.0 == self.slot.0 / SLOTS_PER_EPOCH_U64,
                sum == spec_active_balance_sum(self.validators@.subrange(0, i as int), epoch.0),
            decreases n - i,
        {
            let ghost next = self.validators@.subrange(0, i + 1);
            assert(next.drop_last() =~= self.validators@.subrange(0, i as int));
            let v = &self.validators.items[i];
            if v.activation_epoch.0 <= epoch.0 && epoch.0 < v.exit_epoch.0 {
                match sum.checked_add(v.effective_balance.0) {
                    Some(s) => {
                        sum = s;
                    },
                    None => {
                        proof {
                            lemma_active_balance_prefix(self.validators@, epoch.0, i + 1);
                        }
                        return Err(TransitionError::ArithmeticOverflow(TransitionArithmetic::BalanceSum));
                    },
                }
            }
            i = i + 1;
        }
        assert(self.validators@.subrange(0, n as int) =~= self.validators@);
        if sum < EFFECTIVE_BALANCE_INCREMENT {
            Ok(Gwei(EFFECTIVE_BALANCE_INCREMENT))
        } else {
            Ok(Gwei(sum))
        }
    }
}

} // verus!
