use moonglass_core::containers::attestation::{Attestation, AttestationData};
use moonglass_core::containers::chain::Checkpoint;
use moonglass_core::error::ForkChoiceError;
use moonglass_core::fork_choice::keyed_map::KeyedMap;
use moonglass_core::fork_choice::store::{LatestMessage, Store};
use moonglass_core::primitives::{BLSSignature, CommitteeIndex, Epoch, Root, Slot, ValidatorIndex};
use moonglass_core::ssz::{Bitlist, Bitvector};

fn empty_store() -> Store {
    Store {
        time: 0,
        genesis_time: 0,
        justified_checkpoint: Checkpoint::default(),
        finalized_checkpoint: Checkpoint::default(),
        unrealized_justified_checkpoint: Checkpoint::default(),
        unrealized_finalized_checkpoint: Checkpoint::default(),
        proposer_boost_root: Root([0u8; 32]),
        equivocating_indices: KeyedMap::new(),
        blocks: KeyedMap::new(),
        block_states: KeyedMap::new(),
        block_timeliness: KeyedMap::new(),
        checkpoint_states: KeyedMap::new(),
        latest_messages: KeyedMap::new(),
        unrealized_justifications: KeyedMap::new(),
        payloads: KeyedMap::new(),
        queued_payload_envelopes: KeyedMap::new(),
        data_column_sidecars: KeyedMap::new(),
        payload_timeliness_vote: KeyedMap::new(),
        payload_data_availability_vote: KeyedMap::new(),
    }
}

fn attestation(slot: u64, index: u64, head: u8, target_epoch: u64) -> Attestation {
    Attestation {
        aggregation_bits: Bitlist { bits: Vec::new() },
        data: AttestationData {
            slot: Slot(slot),
            index: CommitteeIndex(index),
            beacon_block_root: Root([head; 32]),
            source: Checkpoint::default(),
            target: Checkpoint { epoch: Epoch(target_epoch), root: Root([head; 32]) },
        },
        signature: BLSSignature::default(),
        committee_bits: Bitvector { bits: vec![false; 64] },
    }
}

#[test]
fn newer_votes_replace_older_ones() {
    let mut store = empty_store();
    let voters = [ValidatorIndex(1), ValidatorIndex(2)];
    store.update_latest_messages(&voters, &attestation(3, 0, 0xaa, 0));
    store.update_latest_messages(&[ValidatorIndex(1)], &attestation(5, 1, 0xbb, 0));
    let one = *store.latest_messages.get(&ValidatorIndex(1)).unwrap();
    assert_eq!(one.slot, Slot(5));
    assert_eq!(one.root, Root([0xbb; 32]));
    assert!(one.payload_present);
    let two = *store.latest_messages.get(&ValidatorIndex(2)).unwrap();
    assert_eq!(two.slot, Slot(3));
}

#[test]
fn votes_from_the_same_or_an_earlier_slot_are_ignored() {
    let mut store = empty_store();
    store.update_latest_messages(&[ValidatorIndex(1)], &attestation(5, 0, 0xaa, 0));
    store.update_latest_messages(&[ValidatorIndex(1)], &attestation(5, 0, 0xbb, 0));
    store.update_latest_messages(&[ValidatorIndex(1)], &attestation(4, 0, 0xcc, 0));
    let one: LatestMessage = *store.latest_messages.get(&ValidatorIndex(1)).unwrap();
    assert_eq!(one.root, Root([0xaa; 32]));
}

#[test]
fn equivocators_get_no_latest_message() {
    let mut store = empty_store();
    store.equivocating_indices.insert(ValidatorIndex(7), ());
    store.update_latest_messages(&[ValidatorIndex(7)], &attestation(5, 0, 0xaa, 0));
    assert!(store.latest_messages.get(&ValidatorIndex(7)).is_none());
}

#[test]
fn target_epoch_must_be_current_or_previous() {
    let mut store = empty_store();
    // Slot 70 is in epoch 2.
    store.time = 70 * 12;
    assert!(store.validate_target_epoch_against_current_time(&attestation(64, 0, 1, 2)).is_ok());
    assert!(store.validate_target_epoch_against_current_time(&attestation(40, 0, 1, 1)).is_ok());
    assert!(matches!(
        store.validate_target_epoch_against_current_time(&attestation(10, 0, 1, 0)),
        Err(ForkChoiceError::AttestationFromFutureEpoch)
    ));
    assert!(matches!(
        store.validate_target_epoch_against_current_time(&attestation(100, 0, 1, 3)),
        Err(ForkChoiceError::AttestationFromFutureEpoch)
    ));
}

#[test]
fn attestation_checks_reject_mismatched_target_epoch() {
    let store = empty_store();
    assert!(matches!(
        store.validate_on_attestation(&attestation(40, 0, 1, 0), true),
        Err(ForkChoiceError::AttestationLmdFfgMismatch)
    ));
    assert!(matches!(
        store.validate_on_attestation(&attestation(1, 0, 1, 0), true),
        Err(ForkChoiceError::UnknownBlock(_))
    ));
}
