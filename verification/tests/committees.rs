use moonglass_core::containers::committees::domain_beacon_attester;
use moonglass_core::containers::state::BeaconState;
use moonglass_core::containers::validator::Validator;
use moonglass_core::primitives::{CommitteeIndex, Epoch, Gwei, Slot, ValidatorIndex};

fn state_with_validators(count: usize, slashed: &[usize]) -> BeaconState {
    let mut state = BeaconState::default();
    for i in 0..count {
        let mut v = Validator::default();
        v.effective_balance = Gwei(32_000_000_000);
        v.activation_epoch = Epoch(0);
        v.exit_epoch = if i == count - 1 { Epoch(1) } else { Epoch(u64::MAX) };
        v.slashed = slashed.contains(&i);
        state.validators.items.push(v);
    }
    state
}

#[test]
fn committees_of_an_epoch_partition_the_active_set() {
    let state = state_with_validators(50, &[]);
    let epoch = Epoch(0);
    assert_eq!(state.committee_count_per_slot(epoch), 1);
    let mut seen: Vec<u64> = Vec::new();
    for slot in 0..32u64 {
        let committee = state.beacon_committee(Slot(slot), CommitteeIndex(0));
        seen.extend(committee.iter().map(|v| v.0));
    }
    seen.sort();
    let expected: Vec<u64> = (0..50).collect();
    assert_eq!(seen, expected);
}

#[test]
fn committee_count_grows_with_the_active_set() {
    let state = state_with_validators(32 * 128 * 3 + 1, &[]);
    assert_eq!(state.committee_count_per_slot(Epoch(0)), 3);
}

#[test]
fn active_indices_follow_activation_and_exit() {
    let state = state_with_validators(4, &[1]);
    let active: Vec<u64> = state.active_validator_indices(Epoch(0)).iter().map(|v| v.0).collect();
    assert_eq!(active, vec![0, 1, 2, 3]);
    let later: Vec<u64> = state.active_validator_indices(Epoch(1)).iter().map(|v| v.0).collect();
    assert_eq!(later, vec![0, 1, 2]);
    let unslashed: Vec<ValidatorIndex> = state.active_unslashed_validator_indices(Epoch(0));
    assert_eq!(unslashed, vec![ValidatorIndex(0), ValidatorIndex(2), ValidatorIndex(3)]);
}

#[test]
fn total_active_balance_counts_active_stake() {
    let state = state_with_validators(4, &[1]);
    assert_eq!(state.get_total_active_balance().unwrap(), Gwei(4 * 32_000_000_000));
}

#[test]
fn seeds_differ_by_epoch_and_domain() {
    let state = state_with_validators(1, &[]);
    let a = state.get_seed(Epoch(0), domain_beacon_attester());
    let b = state.get_seed(Epoch(1), domain_beacon_attester());
    assert_ne!(a, b);
    assert_eq!(a, state.get_seed(Epoch(0), domain_beacon_attester()));
}
