//! Pure gossip and validator-duty predicates.
use vstd::prelude::*;

use crate::constants::{
    spec_epoch_start_slot, ALTAIR_FORK_EPOCH, BELLATRIX_FORK_EPOCH, CAPELLA_FORK_EPOCH,
    DENEB_FORK_EPOCH, ELECTRA_FORK_EPOCH, FULU_FORK_EPOCH, GLOAS_FORK_EPOCH, MIN_SEED_LOOKAHEAD,
    SLOTS_PER_EPOCH_U64, SLOTS_PER_HISTORICAL_ROOT,
};
use crate::containers::gossip::ProposerPreferences;
use crate::containers::state::BeaconState;
use crate::fork_choice::helpers::{sat_add, sat_sub};
use crate::primitives::{Epoch, Root, Slot, ValidatorIndex, Version};

verus! {

/// Leading byte of the fork version active at `epoch`; the other three bytes
/// are zero on this network.
pub open spec fn spec_fork_version_byte(epoch: u64) -> u8 {
    if epoch >= GLOAS_FORK_EPOCH {
        7
    } else if epoch >= FULU_FORK_EPOCH {
        6
    } else if epoch >= ELECTRA_FORK_EPOCH {
        5
    } else if epoch >= DENEB_FORK_EPOCH {
        4
    } else if epoch >= CAPELLA_FORK_EPOCH {
        3
    } else if epoch >= BELLATRIX_FORK_EPOCH {
        2
    } else if epoch >= ALTAIR_FORK_EPOCH {
        1
    } else {
        0
    }
}

/// Return the configured fork version for an epoch.
pub fn compute_fork_version(epoch: Epoch) -> (r: Version)
    ensures
        r.0@ == seq![spec_fork_version_byte(epoch.0), 0u8, 0u8, 0u8],
{
    let e = epoch.0;
    let b: u8 = if e >= GLOAS_FORK_EPOCH {
        7
    } else if e >= FULU_FORK_EPOCH {
        6
    } else if e >= ELECTRA_FORK_EPOCH {
        5
    } else if e >= DENEB_FORK_EPOCH {
        4
    } else if e >= CAPELLA_FORK_EPOCH {
        3
    } else if e >= BELLATRIX_FORK_EPOCH {
        2
    } else if e >= ALTAIR_FORK_EPOCH {
        1
    } else {
        0
    };
    let r = Version([b, 0, 0, 0]);
    assert(r.0@ =~= seq![spec_fork_version_byte(epoch.0), 0u8, 0u8, 0u8]);
    r
}

/// The largest step a gas limit may take away from its parent's limit.
pub open spec fn spec_max_gas_limit_difference(parent: u64) -> u64 {
    let q = parent / 1024;
    if q >= 1 { (q - 1) as u64 } else { 0 }
}

/// The gas limit the next block must carry when moving from `parent` toward
/// `target`: the target itself when reachable in one step, otherwise the
/// nearest reachable bound.
pub open spec fn spec_expected_gas_limit(parent: u64, target: u64) -> u64 {
    let d = spec_max_gas_limit_difference(parent);
    let lo = sat_sub(parent, d);
    let hi = sat_add(parent, d);
    if lo <= target && target <= hi {
        target
    } else if target > hi {
        hi
    } else {
        lo
    }
}

/// Check whether a gas limit follows the parent limit toward the target.
pub fn is_gas_limit_target_compatible(parent_gas_limit: u64, gas_limit: u64, target_gas_limit: u64) -> (r: bool)
    ensures
        r == (gas_limit == spec_expected_gas_limit(parent_gas_limit, target_gas_limit)),
{
    let q = parent_gas_limit / 1024;
    let max_gas_limit_difference: u64 = if q >= 1 { q - 1 } else { 0 };
    let min_gas_limit = parent_gas_limit.saturating_sub(max_gas_limit_difference);
    let max_gas_limit = parent_gas_limit.saturating_add(max_gas_limit_difference);
    if min_gas_limit <= target_gas_limit && target_gas_limit <= max_gas_limit {
        return gas_limit == target_gas_limit;
    }
    if target_gas_limit > max_gas_limit {
        return gas_limit == max_gas_limit;
    }
    gas_limit == min_gas_limit
}

/// Slots after `current` among the first `n` lookahead entries that name
/// `validator`, where entry `k` stands for slot `start + k` (saturating).
pub open spec fn spec_upcoming_proposal_slots(
    start: u64,
    current: u64,
    lookahead: Seq<ValidatorIndex>,
    validator: ValidatorIndex,
    n: nat,
) -> Seq<Slot>
    decreases n,
{
    if n == 0 {
        Seq::empty()
    } else {
        let k = (n - 1) as nat;
        let prefix = spec_upcoming_proposal_slots(start, current, lookahead, validator, k);
        let slot = sat_add(start, k as u64);
        if slot > current && lookahead[k as int] == validator {
            prefix.push(Slot(slot))
        } else {
            prefix
        }
    }
}

/// Position in the proposer lookahead that stands for `slot`, seen from a
/// state at `current_slot`.
pub open spec fn spec_lookahead_index(current_slot: u64, slot: u64) -> int {
    let current_epoch = current_slot / SLOTS_PER_EPOCH_U64;
    let epoch = slot / SLOTS_PER_EPOCH_U64;
    (epoch - current_epoch) * SLOTS_PER_EPOCH_U64 + slot % SLOTS_PER_EPOCH_U64
}

/// Whether `preferences` name the proposer that `state`'s lookahead holds for
/// a slot strictly after the state's slot and at most `MIN_SEED_LOOKAHEAD`
/// epochs ahead.
pub open spec fn spec_is_valid_proposal_slot(state: BeaconState, preferences: ProposerPreferences) -> bool {
    let slot = preferences.proposal_slot.0;
    let current_epoch = state.slot.0 / SLOTS_PER_EPOCH_U64;
    let epoch = slot / SLOTS_PER_EPOCH_U64;
    let index = spec_lookahead_index(state.slot.0, slot);
    &&& slot > state.slot.0
    &&& epoch <= current_epoch + MIN_SEED_LOOKAHEAD
    &&& index < state.proposer_lookahead@.len()
    &&& state.proposer_lookahead@[index] == preferences.validator_index
}

impl BeaconState {
    /// The epoch of the state's slot.
    pub fn get_current_epoch(&self) -> (r: Epoch)
        ensures
            r.0 == self.slot.0 / SLOTS_PER_EPOCH_U64,
    {
        self.slot.epoch()
    }

    /// The recorded block root for `slot` in the historical ring buffer.
    pub fn block_root_at_slot(&self, slot: Slot) -> (r: Root)
        requires
            self.wf(),
        ensures
            r == self.block_roots@[(slot.0 % SLOTS_PER_HISTORICAL_ROOT) as int],
    {
        let index = (slot.0 % SLOTS_PER_HISTORICAL_ROOT) as usize;
        self.block_roots.items[index]
    }

    /// Return future proposal slots in the proposer lookahead.
    pub fn get_upcoming_proposal_slots(&self, validator_index: ValidatorIndex) -> (r: Vec<Slot>)
        ensures
            r@ == spec_upcoming_proposal_slots(
                spec_epoch_start_slot(self.slot.0 / SLOTS_PER_EPOCH_U64),
                self.slot.0,
                self.proposer_lookahead@,
                validator_index,
                self.proposer_lookahead@.len(),
            ),
    {
        let start = self.get_current_epoch().start_slot();
        let mut out: Vec<Slot> = Vec::new();
        let n = self.proposer_lookahead.items.len();
        let mut offset: usize = 0;
        while offset < n
            invariant
                n == self.proposer_lookahead@.len(),
                offset <= n,
                start.0 == spec_epoch_start_slot(self.slot.0 / SLOTS_PER_EPOCH_U64),
                out@ == spec_upcoming_proposal_slots(
                    start.0,
                    self.slot.0,
                    self.proposer_lookahead@,
                    validator_index,
                    offset as nat,
                ),
            decreases n - offset,
        {
            let slot = start.0.saturating_add(offset as u64);
            let proposer = self.proposer_lookahead.items[offset];
            if slot > self.slot.0 && proposer == validator_index {
                out.push(Slot(slot));
            }
            offset = offset + 1;
        }
        out
    }

    /// Check whether preferences name the expected proposer for their slot.
    pub fn is_valid_proposal_slot(&self, preferences: &ProposerPreferences) -> (r: bool)
        ensures
            r == spec_is_valid_proposal_slot(*self, *preferences),
    {
        if preferences.proposal_slot.0 <= self.slot.0 {
            return false;
        }
        let current_epoch = self.get_current_epoch();
        let proposal_epoch = preferences.proposal_slot.epoch();
        if proposal_epoch.0 < current_epoch.0 {
            proof {
                assert(self.slot.0 / SLOTS_PER_EPOCH_U64 <= preferences.proposal_slot.0 / SLOTS_PER_EPOCH_U64)
                    by (nonlinear_arith)
                    requires
                        self.slot.0 < preferences.proposal_slot.0,
                ;
            }
            return false;
        }
        if proposal_epoch.0 > current_epoch.0.saturating_add(MIN_SEED_LOOKAHEAD) {
            return false;
        }
        let epoch_offset = proposal_epoch.0 - current_epoch.0;
        let slot_offset = preferences.proposal_slot.0 % SLOTS_PER_EPOCH_U64;
        let index = epoch_offset * SLOTS_PER_EPOCH_U64 + slot_offset;
        if index >= self.proposer_lookahead.items.len() as u64 {
            return false;
        }
        self.proposer_lookahead.items[index as usize] == preferences.validator_index
    }

    /// Return the dependent block root for the proposer lookahead at `epoch`.
    pub fn get_proposer_dependent_root(&self, epoch: Epoch) -> (r: Root)
        requires
            self.wf(),
        ensures
            epoch.0 <= MIN_SEED_LOOKAHEAD ==> r == self.block_roots@[0],
            epoch.0 > MIN_SEED_LOOKAHEAD ==> r == self.block_roots@[
                (sat_sub(spec_epoch_start_slot((epoch.0 - MIN_SEED_LOOKAHEAD) as u64), 1) % SLOTS_PER_HISTORICAL_ROOT) as int
            ],
    {
        if epoch.0 <= MIN_SEED_LOOKAHEAD {
            return self.block_root_at_slot(Slot(0));
        }
        let lookahead_epoch = epoch.saturating_sub(MIN_SEED_LOOKAHEAD);
        let start = lookahead_epoch.start_slot();
        let slot = Slot(start.0.saturating_sub(1));
        self.block_root_at_slot(slot)
    }
}

/// Lookahead entry `k` stands for slot `k` after the start of the state's
/// epoch: a proposal slot is valid exactly when it is after the state's
/// slot, at most `MIN_SEED_LOOKAHEAD` epochs ahead, and the entry at its
/// distance from that epoch start names the validator.
pub proof fn lemma_proposal_slot_reads_its_own_entry(state: BeaconState, preferences: ProposerPreferences)
    ensures
        spec_is_valid_proposal_slot(state, preferences) <==> ({
            let slot = preferences.proposal_slot.0;
            let start = (state.slot.0 / SLOTS_PER_EPOCH_U64) * SLOTS_PER_EPOCH_U64;
            &&& slot > state.slot.0
            &&& slot / SLOTS_PER_EPOCH_U64 <= state.slot.0 / SLOTS_PER_EPOCH_U64 + MIN_SEED_LOOKAHEAD
            &&& slot - start < state.proposer_lookahead@.len()
            &&& state.proposer_lookahead@[slot - start] == preferences.validator_index
        }),
{
    let slot = preferences.proposal_slot.0 as int;
    let cur = (state.slot.0 / SLOTS_PER_EPOCH_U64) as int;
    let ep = (slot / 32) as int;
    assert(slot == 32 * ep + slot % 32) by (nonlinear_arith)
        requires
            ep == slot / 32,
            slot >= 0,
    ;
    assert((ep - cur) * 32 + slot % 32 == slot - cur * 32) by (nonlinear_arith)
        requires
            slot == 32 * ep + slot % 32,
    ;
}

/// A slot is among the upcoming proposal slots exactly when it is after the
/// current slot, falls among the `n` slots from `start`, and the entry
/// standing for it names the validator.
pub proof fn lemma_upcoming_slot_membership(
    start: u64,
    current: u64,
    lookahead: Seq<ValidatorIndex>,
    validator: ValidatorIndex,
    n: nat,
    x: u64,
)
    requires
        n <= lookahead.len(),
        start + n <= u64::MAX + 1,
    ensures
        spec_upcoming_proposal_slots(start, current, lookahead, validator, n).contains(Slot(x)) <==> (x > current
            && start <= x && x < start + n && lookahead[x - start] == validator),
    decreases n,
{
    if n > 0 {
        let k = (n - 1) as nat;
        lemma_upcoming_slot_membership(start, current, lookahead, validator, k, x);
        let prefix = spec_upcoming_proposal_slots(start, current, lookahead, validator, k);
        let s = spec_upcoming_proposal_slots(start, current, lookahead, validator, n);
        let slot = sat_add(start, k as u64);
        assert(slot == start + k);
        if slot > current && lookahead[k as int] == validator {
            assert(s == prefix.push(Slot(slot)));
            if s.contains(Slot(x)) {
                let i = choose|i: int| 0 <= i < s.len() && s[i] == Slot(x);
                if i < prefix.len() {
                    assert(prefix[i] == Slot(x));
                }
            }
            if prefix.contains(Slot(x)) {
                let i = choose|i: int| 0 <= i < prefix.len() && prefix[i] == Slot(x);
                assert(s[i] == Slot(x));
            }
            if x == slot {
                assert(s[s.len() - 1] == Slot(x));
            }
        }
    }
}

/// A proposal slot at most `MIN_SEED_LOOKAHEAD` epochs ahead is valid for a
/// validator exactly when it is one of that validator's upcoming proposal
/// slots.
pub proof fn lemma_valid_proposal_slot_is_upcoming(state: BeaconState, preferences: ProposerPreferences)
    requires
        (state.slot.0 / SLOTS_PER_EPOCH_U64) * SLOTS_PER_EPOCH_U64 + state.proposer_lookahead@.len() <= u64::MAX + 1,
    ensures
        spec_is_valid_proposal_slot(state, preferences) <==> (preferences.proposal_slot.0 / SLOTS_PER_EPOCH_U64
            <= state.slot.0 / SLOTS_PER_EPOCH_U64 + MIN_SEED_LOOKAHEAD && spec_upcoming_proposal_slots(
            spec_epoch_start_slot(state.slot.0 / SLOTS_PER_EPOCH_U64),
            state.slot.0,
            state.proposer_lookahead@,
            preferences.validator_index,
            state.proposer_lookahead@.len(),
        ).contains(preferences.proposal_slot)),
{
    let cur = state.slot.0 / SLOTS_PER_EPOCH_U64;
    assert(cur * 32 <= state.slot.0) by (nonlinear_arith)
        requires
            cur == state.slot.0 / 32,
    ;
    let start = spec_epoch_start_slot(cur);
    assert(start == cur * 32);
    lemma_proposal_slot_reads_its_own_entry(state, preferences);
    lemma_upcoming_slot_membership(
        start,
        state.slot.0,
        state.proposer_lookahead@,
        preferences.validator_index,
        state.proposer_lookahead@.len(),
        preferences.proposal_slot.0,
    );
}

} // verus!
