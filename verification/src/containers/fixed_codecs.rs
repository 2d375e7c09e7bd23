//! The SSZ codec interface for the fixed-size containers: each encodes to
//! its fields back to back and roots to the merkle root of its fields' roots.
use vstd::prelude::*;

use crate::ssz::codec::SszCodec;
use crate::ssz::{DeserializeError, Node};

use crate::containers::attestation::{
    AttestationData, lemma_attestation_data_ssz_len, lemma_attestation_data_ssz_roundtrip,
    SingleAttestation, lemma_single_attestation_ssz_len, lemma_single_attestation_ssz_roundtrip,
    ProposerSlashing, lemma_proposer_slashing_ssz_len, lemma_proposer_slashing_ssz_roundtrip,
};
use crate::containers::block::{
    BeaconBlockHeader, lemma_beacon_block_header_ssz_len, lemma_beacon_block_header_ssz_roundtrip,
    SignedBeaconBlockHeader, lemma_signed_beacon_block_header_ssz_len, lemma_signed_beacon_block_header_ssz_roundtrip,
};
use crate::containers::builder::{
    Builder, lemma_builder_ssz_len, lemma_builder_ssz_roundtrip,
    BuilderPendingWithdrawal, lemma_builder_pending_withdrawal_ssz_len, lemma_builder_pending_withdrawal_ssz_roundtrip,
    BuilderPendingPayment, lemma_builder_pending_payment_ssz_len, lemma_builder_pending_payment_ssz_roundtrip,
    PayloadAttestationData, lemma_payload_attestation_data_ssz_len, lemma_payload_attestation_data_ssz_roundtrip,
    PayloadAttestation, lemma_payload_attestation_ssz_len, lemma_payload_attestation_ssz_roundtrip,
    PayloadAttestationMessage, lemma_payload_attestation_message_ssz_len, lemma_payload_attestation_message_ssz_roundtrip,
};
use crate::containers::chain::{
    BlobParameters, lemma_blob_parameters_ssz_len, lemma_blob_parameters_ssz_roundtrip,
    Fork, lemma_fork_ssz_len, lemma_fork_ssz_roundtrip,
    ForkData, lemma_fork_data_ssz_len, lemma_fork_data_ssz_roundtrip,
    Checkpoint, lemma_checkpoint_ssz_len, lemma_checkpoint_ssz_roundtrip,
    HistoricalSummary, lemma_historical_summary_ssz_len, lemma_historical_summary_ssz_roundtrip,
    Eth1Data, lemma_eth1_data_ssz_len, lemma_eth1_data_ssz_roundtrip,
    SigningData, lemma_signing_data_ssz_len, lemma_signing_data_ssz_roundtrip,
};
use crate::containers::data_availability::{
    MatrixEntry, lemma_matrix_entry_ssz_len, lemma_matrix_entry_ssz_roundtrip,
    PartialDataColumnGroupID, lemma_partial_data_column_group_id_ssz_len, lemma_partial_data_column_group_id_ssz_roundtrip,
};
use crate::containers::execution::{
    PowBlock, lemma_pow_block_ssz_len, lemma_pow_block_ssz_roundtrip,
};
use crate::containers::gossip::{
    ProposerPreferences, lemma_proposer_preferences_ssz_len, lemma_proposer_preferences_ssz_roundtrip,
    SignedProposerPreferences, lemma_signed_proposer_preferences_ssz_len, lemma_signed_proposer_preferences_ssz_roundtrip,
};
use crate::containers::sync::{
    SyncAggregate, lemma_sync_aggregate_ssz_len, lemma_sync_aggregate_ssz_roundtrip,
    SyncCommitteeMessage, lemma_sync_committee_message_ssz_len, lemma_sync_committee_message_ssz_roundtrip,
    SyncCommitteeContribution, lemma_sync_committee_contribution_ssz_len, lemma_sync_committee_contribution_ssz_roundtrip,
    ContributionAndProof, lemma_contribution_and_proof_ssz_len, lemma_contribution_and_proof_ssz_roundtrip,
    SignedContributionAndProof, lemma_signed_contribution_and_proof_ssz_len, lemma_signed_contribution_and_proof_ssz_roundtrip,
    SyncAggregatorSelectionData, lemma_sync_aggregator_selection_data_ssz_len, lemma_sync_aggregator_selection_data_ssz_roundtrip,
};
use crate::containers::validator::{
    Validator, lemma_validator_ssz_len, lemma_validator_ssz_roundtrip,
    PendingDeposit, lemma_pending_deposit_ssz_len, lemma_pending_deposit_ssz_roundtrip,
    PendingPartialWithdrawal, lemma_pending_partial_withdrawal_ssz_len, lemma_pending_partial_withdrawal_ssz_roundtrip,
    PendingConsolidation, lemma_pending_consolidation_ssz_len, lemma_pending_consolidation_ssz_roundtrip,
};
use crate::containers::withdrawal::{
    Withdrawal, lemma_withdrawal_ssz_len, lemma_withdrawal_ssz_roundtrip,
    BLSToExecutionChange, lemma_bls_to_execution_change_ssz_len, lemma_bls_to_execution_change_ssz_roundtrip,
    SignedBLSToExecutionChange, lemma_signed_bls_to_execution_change_ssz_len, lemma_signed_bls_to_execution_change_ssz_roundtrip,
    VoluntaryExit, lemma_voluntary_exit_ssz_len, lemma_voluntary_exit_ssz_roundtrip,
    SignedVoluntaryExit, lemma_signed_voluntary_exit_ssz_len, lemma_signed_voluntary_exit_ssz_roundtrip,
    DepositMessage, lemma_deposit_message_ssz_len, lemma_deposit_message_ssz_roundtrip,
    DepositData, lemma_deposit_data_ssz_len, lemma_deposit_data_ssz_roundtrip,
    DepositRequest, lemma_deposit_request_ssz_len, lemma_deposit_request_ssz_roundtrip,
    WithdrawalRequest, lemma_withdrawal_request_ssz_len, lemma_withdrawal_request_ssz_roundtrip,
    ConsolidationRequest, lemma_consolidation_request_ssz_len, lemma_consolidation_request_ssz_roundtrip,
    BuilderDepositRequest, lemma_builder_deposit_request_ssz_len, lemma_builder_deposit_request_ssz_roundtrip,
    BuilderExitRequest, lemma_builder_exit_request_ssz_len, lemma_builder_exit_request_ssz_roundtrip,
};

verus! {

impl SszCodec for AttestationData {
    open spec fn spec_fixed_size() -> Option<nat> {
        Some(128)
    }

    open spec fn spec_packed() -> bool {
        false
    }

    open spec fn spec_wf(&self) -> bool {
        true
    }

    open spec fn spec_encoding(&self) -> Seq<u8> {
        self.spec_ssz()
    }

    open spec fn spec_tree_root(&self) -> Seq<u8> {
        self.spec_root()
    }

    proof fn lemma_layout() {
    }

    proof fn lemma_shape(x: &Self) {
        lemma_attestation_data_ssz_len(*x);
    }

    fn ssz_fixed_size() -> (r: Option<usize>) {
        Some(128)
    }

    fn ssz_packed() -> (r: bool) {
        false
    }

    fn ssz_encode(&self, buffer: &mut Vec<u8>) {
        let _ = self.serialize(buffer);
    }

    fn ssz_decode(bytes: &[u8]) -> (r: Result<Self, DeserializeError>) {
        proof {
            if exists|v: Self| v.spec_wf() && #[trigger] v.spec_encoding() == bytes@ {
                let v = choose|v: Self| v.spec_wf() && #[trigger] v.spec_encoding() == bytes@;
                lemma_attestation_data_ssz_roundtrip(v);
            }
        }
        Self::deserialize(bytes)
    }

    fn ssz_root(&self) -> (r: Node) {
        match self.hash_tree_root() {
            Ok(n) => n,
            Err(_) => Node([0u8; 32]),
        }
    }
}

impl SszCodec for SingleAttestation {
    open spec fn spec_fixed_size() -> Option<nat> {
        Some(240)
    }

    open spec fn spec_packed() -> bool {
        false
    }

    open spec fn spec_wf(&self) -> bool {
        true
    }

    open spec fn spec_encoding(&self) -> Seq<u8> {
        self.spec_ssz()
    }

    open spec fn spec_tree_root(&self) -> Seq<u8> {
        self.spec_root()
    }

    proof fn lemma_layout() {
    }

    proof fn lemma_shape(x: &Self) {
        lemma_single_attestation_ssz_len(*x);
    }

    fn ssz_fixed_size() -> (r: Option<usize>) {
        Some(240)
    }

    fn ssz_packed() -> (r: bool) {
        false
    }

    fn ssz_encode(&self, buffer: &mut Vec<u8>) {
        let _ = self.serialize(buffer);
    }

    fn ssz_decode(bytes: &[u8]) -> (r: Result<Self, DeserializeError>) {
        proof {
            if exists|v: Self| v.spec_wf() && #[trigger] v.spec_encoding() == bytes@ {
                let v = choose|v: Self| v.spec_wf() && #[trigger] v.spec_encoding() == bytes@;
                lemma_single_attestation_ssz_roundtrip(v);
            }
        }
        Self::deserialize(bytes)
    }

    fn ssz_root(&self) -> (r: Node) {
        match self.hash_tree_root() {
            Ok(n) => n,
            Err(_) => Node([0u8; 32]),
        }
    }
}

impl SszCodec for ProposerSlashing {
    open spec fn spec_fixed_size() -> Option<nat> {
        Some(416)
    }

    open spec fn spec_packed() -> bool {
        false
    }

    open spec fn spec_wf(&self) -> bool {
        true
    }

    open spec fn spec_encoding(&self) -> Seq<u8> {
        self.spec_ssz()
    }

    open spec fn spec_tree_root(&self) -> Seq<u8> {
        self.spec_root()
    }

    proof fn lemma_layout() {
    }

    proof fn lemma_shape(x: &Self) {
        lemma_proposer_slashing_ssz_len(*x);
    }

    fn ssz_fixed_size() -> (r: Option<usize>) {
        Some(416)
    }

    fn ssz_packed() -> (r: bool) {
        false
    }

    fn ssz_encode(&self, buffer: &mut Vec<u8>) {
        let _ = self.serialize(buffer);
    }

    fn ssz_decode(bytes: &[u8]) -> (r: Result<Self, DeserializeError>) {
        proof {
            if exists|v: Self| v.spec_wf() && #[trigger] v.spec_encoding() == bytes@ {
                let v = choose|v: Self| v.spec_wf() && #[trigger] v.spec_encoding() == bytes@;
                lemma_proposer_slashing_ssz_roundtrip(v);
            }
        }
        Self::deserialize(bytes)
    }

    fn ssz_root(&self) -> (r: Node) {
        match self.hash_tree_root() {
            Ok(n) => n,
            Err(_) => Node([0u8; 32]),
        }
    }
}

impl SszCodec for BeaconBlockHeader {
    open spec fn spec_fixed_size() -> Option<nat> {
        Some(112)
    }

    open spec fn spec_packed() -> bool {
        false
    }

    open spec fn spec_wf(&self) -> bool {
        true
    }

    open spec fn spec_encoding(&self) -> Seq<u8> {
        self.spec_ssz()
    }

    open spec fn spec_tree_root(&self) -> Seq<u8> {
        self.spec_root()
    }

    proof fn lemma_layout() {
    }

    proof fn lemma_shape(x: &Self) {
        lemma_beacon_block_header_ssz_len(*x);
    }

    fn ssz_fixed_size() -> (r: Option<usize>) {
        Some(112)
    }

    fn ssz_packed() -> (r: bool) {
        false
    }

    fn ssz_encode(&self, buffer: &mut Vec<u8>) {
        let _ = self.serialize(buffer);
    }

    fn ssz_decode(bytes: &[u8]) -> (r: Result<Self, DeserializeError>) {
        proof {
            if exists|v: Self| v.spec_wf() && #[trigger] v.spec_encoding() == bytes@ {
                let v = choose|v: Self| v.spec_wf() && #[trigger] v.spec_encoding() == bytes@;
                lemma_beacon_block_header_ssz_roundtrip(v);
            }
        }
        Self::deserialize(bytes)
    }

    fn ssz_root(&self) -> (r: Node) {
        match self.hash_tree_root() {
            Ok(n) => n,
            Err(_) => Node([0u8; 32]),
        }
    }
}

impl SszCodec for SignedBeaconBlockHeader {
    open spec fn spec_fixed_size() -> Option<nat> {
        Some(208)
    }

    open spec fn spec_packed() -> bool {
        false
    }

    open spec fn spec_wf(&self) -> bool {
        true
    }

    open spec fn spec_encoding(&self) -> Seq<u8> {
        self.spec_ssz()
    }

    open spec fn spec_tree_root(&self) -> Seq<u8> {
        self.spec_root()
    }

    proof fn lemma_layout() {
    }

    proof fn lemma_shape(x: &Self) {
        lemma_signed_beacon_block_header_ssz_len(*x);
    }

    fn ssz_fixed_size() -> (r: Option<usize>) {
        Some(208)
    }

    fn ssz_packed() -> (r: bool) {
        false
    }

    fn ssz_encode(&self, buffer: &mut Vec<u8>) {
        let _ = self.serialize(buffer);
    }

    fn ssz_decode(bytes: &[u8]) -> (r: Result<Self, DeserializeError>) {
        proof {
            if exists|v: Self| v.spec_wf() && #[trigger] v.spec_encoding() == bytes@ {
                let v = choose|v: Self| v.spec_wf() && #[trigger] v.spec_encoding() == bytes@;
                lemma_signed_beacon_block_header_ssz_roundtrip(v);
            }
        }
        Self::deserialize(bytes)
    }

    fn ssz_root(&self) -> (r: Node) {
        match self.hash_tree_root() {
            Ok(n) => n,
            Err(_) => Node([0u8; 32]),
        }
    }
}

impl SszCodec for Builder {
    open spec fn spec_fixed_size() -> Option<nat> {
        Some(93)
    }

    open spec fn spec_packed() -> bool {
        false
    }

    open spec fn spec_wf(&self) -> bool {
        true
    }

    open spec fn spec_encoding(&self) -> Seq<u8> {
        self.spec_ssz()
    }

    open spec fn spec_tree_root(&self) -> Seq<u8> {
        self.spec_root()
    }

    proof fn lemma_layout() {
    }

    proof fn lemma_shape(x: &Self) {
        lemma_builder_ssz_len(*x);
    }

    fn ssz_fixed_size() -> (r: Option<usize>) {
        Some(93)
    }

    fn ssz_packed() -> (r: bool) {
        false
    }

    fn ssz_encode(&self, buffer: &mut Vec<u8>) {
        let _ = self.serialize(buffer);
    }

    fn ssz_decode(bytes: &[u8]) -> (r: Result<Self, DeserializeError>) {
        proof {
            if exists|v: Self| v.spec_wf() && #[trigger] v.spec_encoding() == bytes@ {
                let v = choose|v: Self| v.spec_wf() && #[trigger] v.spec_encoding() == bytes@;
                lemma_builder_ssz_roundtrip(v);
            }
        }
        Self::deserialize(bytes)
    }

    fn ssz_root(&self) -> (r: Node) {
        match self.hash_tree_root() {
            Ok(n) => n,
            Err(_) => Node([0u8; 32]),
        }
    }
}

impl SszCodec for BuilderPendingWithdrawal {
    open spec fn spec_fixed_size() -> Option<nat> {
        Some(36)
    }

    open spec fn spec_packed() -> bool {
        false
    }

    open spec fn spec_wf(&self) -> bool {
        true
    }

    open spec fn spec_encoding(&self) -> Seq<u8> {
        self.spec_ssz()
    }

    open spec fn spec_tree_root(&self) -> Seq<u8> {
        self.spec_root()
    }

    proof fn lemma_layout() {
    }

    proof fn lemma_shape(x: &Self) {
        lemma_builder_pending_withdrawal_ssz_len(*x);
    }

    fn ssz_fixed_size() -> (r: Option<usize>) {
        Some(36)
    }

    fn ssz_packed() -> (r: bool) {
        false
    }

    fn ssz_encode(&self, buffer: &mut Vec<u8>) {
        let _ = self.serialize(buffer);
    }

    fn ssz_decode(bytes: &[u8]) -> (r: Result<Self, DeserializeError>) {
        proof {
            if exists|v: Self| v.spec_wf() && #[trigger] v.spec_encoding() == bytes@ {
                let v = choose|v: Self| v.spec_wf() && #[trigger] v.spec_encoding() == bytes@;
                lemma_builder_pending_withdrawal_ssz_roundtrip(v);
            }
        }
        Self::deserialize(bytes)
    }

    fn ssz_root(&self) -> (r: Node) {
        match self.hash_tree_root() {
            Ok(n) => n,
            Err(_) => Node([0u8; 32]),
        }
    }
}

impl SszCodec for BuilderPendingPayment {
    open spec fn spec_fixed_size() -> Option<nat> {
        Some(52)
    }

    open spec fn spec_packed() -> bool {
        false
    }

    open spec fn spec_wf(&self) -> bool {
        true
    }

    open spec fn spec_encoding(&self) -> Seq<u8> {
        self.spec_ssz()
    }

    open spec fn spec_tree_root(&self) -> Seq<u8> {
        self.spec_root()
    }

    proof fn lemma_layout() {
    }

    proof fn lemma_shape(x: &Self) {
        lemma_builder_pending_payment_ssz_len(*x);
    }

    fn ssz_fixed_size() -> (r: Option<usize>) {
        Some(52)
    }

    fn ssz_packed() -> (r: bool) {
        false
    }

    fn ssz_encode(&self, buffer: &mut Vec<u8>) {
        let _ = self.serialize(buffer);
    }

    fn ssz_decode(bytes: &[u8]) -> (r: Result<Self, DeserializeError>) {
        proof {
            if exists|v: Self| v.spec_wf() && #[trigger] v.spec_encoding() == bytes@ {
                let v = choose|v: Self| v.spec_wf() && #[trigger] v.spec_encoding() == bytes@;
                lemma_builder_pending_payment_ssz_roundtrip(v);
            }
        }
        Self::deserialize(bytes)
    }

    fn ssz_root(&self) -> (r: Node) {
        match self.hash_tree_root() {
            Ok(n) => n,
            Err(_) => Node([0u8; 32]),
        }
    }
}

impl SszCodec for PayloadAttestationData {
    open spec fn spec_fixed_size() -> Option<nat> {
        Some(42)
    }

    open spec fn spec_packed() -> bool {
        false
    }

    open spec fn spec_wf(&self) -> bool {
        true
    }

    open spec fn spec_encoding(&self) -> Seq<u8> {
        self.spec_ssz()
    }

    open spec fn spec_tree_root(&self) -> Seq<u8> {
        self.spec_root()
    }

    proof fn lemma_layout() {
    }

    proof fn lemma_shape(x: &Self) {
        lemma_payload_attestation_data_ssz_len(*x);
    }

    fn ssz_fixed_size() -> (r: Option<usize>) {
        Some(42)
    }

    fn ssz_packed() -> (r: bool) {
        false
    }

    fn ssz_encode(&self, buffer: &mut Vec<u8>) {
        let _ = self.serialize(buffer);
    }

    fn ssz_decode(bytes: &[u8]) -> (r: Result<Self, DeserializeError>) {
        proof {
            if exists|v: Self| v.spec_wf() && #[trigger] v.spec_encoding() == bytes@ {
                let v = choose|v: Self| v.spec_wf() && #[trigger] v.spec_encoding() == bytes@;
                lemma_payload_attestation_data_ssz_roundtrip(v);
            }
        }
        Self::deserialize(bytes)
    }

    fn ssz_root(&self) -> (r: Node) {
        match self.hash_tree_root() {
            Ok(n) => n,
            Err(_) => Node([0u8; 32]),
        }
    }
}

impl SszCodec for PayloadAttestation {
    open spec fn spec_fixed_size() -> Option<nat> {
        Some(202)
    }

    open spec fn spec_packed() -> bool {
        false
    }

    open spec fn spec_wf(&self) -> bool {
        true
    }

    open spec fn spec_encoding(&self) -> Seq<u8> {
        self.spec_ssz()
    }

    open spec fn spec_tree_root(&self) -> Seq<u8> {
        self.spec_root()
    }

    proof fn lemma_layout() {
    }

    proof fn lemma_shape(x: &Self) {
        lemma_payload_attestation_ssz_len(*x);
    }

    fn ssz_fixed_size() -> (r: Option<usize>) {
        Some(202)
    }

    fn ssz_packed() -> (r: bool) {
        false
    }

    fn ssz_encode(&self, buffer: &mut Vec<u8>) {
        let _ = self.serialize(buffer);
    }

    fn ssz_decode(bytes: &[u8]) -> (r: Result<Self, DeserializeError>) {
        proof {
            if exists|v: Self| v.spec_wf() && #[trigger] v.spec_encoding() == bytes@ {
                let v = choose|v: Self| v.spec_wf() && #[trigger] v.spec_encoding() == bytes@;
                lemma_payload_attestation_ssz_roundtrip(v);
            }
        }
        Self::deserialize(bytes)
    }

    fn ssz_root(&self) -> (r: Node) {
        match self.hash_tree_root() {
            Ok(n) => n,
            Err(_) => Node([0u8; 32]),
        }
    }
}

impl SszCodec for PayloadAttestationMessage {
    open spec fn spec_fixed_size() -> Option<nat> {
        Some(146)
    }

    open spec fn spec_packed() -> bool {
        false
    }

    open spec fn spec_wf(&self) -> bool {
        true
    }

    open spec fn spec_encoding(&self) -> Seq<u8> {
        self.spec_ssz()
    }

    open spec fn spec_tree_root(&self) -> Seq<u8> {
        self.spec_root()
    }

    proof fn lemma_layout() {
    }

    proof fn lemma_shape(x: &Self) {
        lemma_payload_attestation_message_ssz_len(*x);
    }

    fn ssz_fixed_size() -> (r: Option<usize>) {
        Some(146)
    }

    fn ssz_packed() -> (r: bool) {
        false
    }

    fn ssz_encode(&self, buffer: &mut Vec<u8>) {
        let _ = self.serialize(buffer);
    }

    fn ssz_decode(bytes: &[u8]) -> (r: Result<Self, DeserializeError>) {
        proof {
            if exists|v: Self| v.spec_wf() && #[trigger] v.spec_encoding() == bytes@ {
                let v = choose|v: Self| v.spec_wf() && #[trigger] v.spec_encoding() == bytes@;
                lemma_payload_attestation_message_ssz_roundtrip(v);
            }
        }
        Self::deserialize(bytes)
    }

    fn ssz_root(&self) -> (r: Node) {
        match self.hash_tree_root() {
            Ok(n) => n,
            Err(_) => Node([0u8; 32]),
        }
    }
}

impl SszCodec for BlobParameters {
    open spec fn spec_fixed_size() -> Option<nat> {
        Some(16)
    }

    open spec fn spec_packed() -> bool {
        false
    }

    open spec fn spec_wf(&self) -> bool {
        true
    }

    open spec fn spec_encoding(&self) -> Seq<u8> {
        self.spec_ssz()
    }

    open spec fn spec_tree_root(&self) -> Seq<u8> {
        self.spec_root()
    }

    proof fn lemma_layout() {
    }

    proof fn lemma_shape(x: &Self) {
        lemma_blob_parameters_ssz_len(*x);
    }

    fn ssz_fixed_size() -> (r: Option<usize>) {
        Some(16)
    }

    fn ssz_packed() -> (r: bool) {
        false
    }

    fn ssz_encode(&self, buffer: &mut Vec<u8>) {
        let _ = self.serialize(buffer);
    }

    fn ssz_decode(bytes: &[u8]) -> (r: Result<Self, DeserializeError>) {
        proof {
            if exists|v: Self| v.spec_wf() && #[trigger] v.spec_encoding() == bytes@ {
                let v = choose|v: Self| v.spec_wf() && #[trigger] v.spec_encoding() == bytes@;
                lemma_blob_parameters_ssz_roundtrip(v);
            }
        }
        Self::deserialize(bytes)
    }

    fn ssz_root(&self) -> (r: Node) {
        match self.hash_tree_root() {
            Ok(n) => n,
            Err(_) => Node([0u8; 32]),
        }
    }
}

impl SszCodec for Fork {
    open spec fn spec_fixed_size() -> Option<nat> {
        Some(16)
    }

    open spec fn spec_packed() -> bool {
        false
    }

    open spec fn spec_wf(&self) -> bool {
        true
    }

    open spec fn spec_encoding(&self) -> Seq<u8> {
        self.spec_ssz()
    }

    open spec fn spec_tree_root(&self) -> Seq<u8> {
        self.spec_root()
    }

    proof fn lemma_layout() {
    }

    proof fn lemma_shape(x: &Self) {
        lemma_fork_ssz_len(*x);
    }

    fn ssz_fixed_size() -> (r: Option<usize>) {
        Some(16)
    }

    fn ssz_packed() -> (r: bool) {
        false
    }

    fn ssz_encode(&self, buffer: &mut Vec<u8>) {
        let _ = self.serialize(buffer);
    }

    fn ssz_decode(bytes: &[u8]) -> (r: Result<Self, DeserializeError>) {
        proof {
            if exists|v: Self| v.spec_wf() && #[trigger] v.spec_encoding() == bytes@ {
                let v = choose|v: Self| v.spec_wf() && #[trigger] v.spec_encoding() == bytes@;
                lemma_fork_ssz_roundtrip(v);
            }
        }
        Self::deserialize(bytes)
    }

    fn ssz_root(&self) -> (r: Node) {
        match self.hash_tree_root() {
            Ok(n) => n,
            Err(_) => Node([0u8; 32]),
        }
    }
}

impl SszCodec for ForkData {
    open spec fn spec_fixed_size() -> Option<nat> {
        Some(36)
    }

    open spec fn spec_packed() -> bool {
        false
    }

    open spec fn spec_wf(&self) -> bool {
        true
    }

    open spec fn spec_encoding(&self) -> Seq<u8> {
        self.spec_ssz()
    }

    open spec fn spec_tree_root(&self) -> Seq<u8> {
        self.spec_root()
    }

    proof fn lemma_layout() {
    }

    proof fn lemma_shape(x: &Self) {
        lemma_fork_data_ssz_len(*x);
    }

    fn ssz_fixed_size() -> (r: Option<usize>) {
        Some(36)
    }

    fn ssz_packed() -> (r: bool) {
        false
    }

    fn ssz_encode(&self, buffer: &mut Vec<u8>) {
        let _ = self.serialize(buffer);
    }

    fn ssz_decode(bytes: &[u8]) -> (r: Result<Self, DeserializeError>) {
        proof {
            if exists|v: Self| v.spec_wf() && #[trigger] v.spec_encoding() == bytes@ {
                let v = choose|v: Self| v.spec_wf() && #[trigger] v.spec_encoding() == bytes@;
                lemma_fork_data_ssz_roundtrip(v);
            }
        }
        Self::deserialize(bytes)
    }

    fn ssz_root(&self) -> (r: Node) {
        match self.hash_tree_root() {
            Ok(n) => n,
            Err(_) => Node([0u8; 32]),
        }
    }
}

impl SszCodec for Checkpoint {
    open spec fn spec_fixed_size() -> Option<nat> {
        Some(40)
    }

    open spec fn spec_packed() -> bool {
        false
    }

    open spec fn spec_wf(&self) -> bool {
        true
    }

    open spec fn spec_encoding(&self) -> Seq<u8> {
        self.spec_ssz()
    }

    open spec fn spec_tree_root(&self) -> Seq<u8> {
        self.spec_root()
    }

    proof fn lemma_layout() {
    }

    proof fn lemma_shape(x: &Self) {
        lemma_checkpoint_ssz_len(*x);
    }

    fn ssz_fixed_size() -> (r: Option<usize>) {
        Some(40)
    }

    fn ssz_packed() -> (r: bool) {
        false
    }

    fn ssz_encode(&self, buffer: &mut Vec<u8>) {
        let _ = self.serialize(buffer);
    }

    fn ssz_decode(bytes: &[u8]) -> (r: Result<Self, DeserializeError>) {
        proof {
            if exists|v: Self| v.spec_wf() && #[trigger] v.spec_encoding() == bytes@ {
                let v = choose|v: Self| v.spec_wf() && #[trigger] v.spec_encoding() == bytes@;
                lemma_checkpoint_ssz_roundtrip(v);
            }
        }
        Self::deserialize(bytes)
    }

    fn ssz_root(&self) -> (r: Node) {
        match self.hash_tree_root() {
            Ok(n) => n,
            Err(_) => Node([0u8; 32]),
        }
    }
}

impl SszCodec for HistoricalSummary {
    open spec fn spec_fixed_size() -> Option<nat> {
        Some(64)
    }

    open spec fn spec_packed() -> bool {
        false
    }

    open spec fn spec_wf(&self) -> bool {
        true
    }

    open spec fn spec_encoding(&self) -> Seq<u8> {
        self.spec_ssz()
    }

    open spec fn spec_tree_root(&self) -> Seq<u8> {
        self.spec_root()
    }

    proof fn lemma_layout() {
    }

    proof fn lemma_shape(x: &Self) {
        lemma_historical_summary_ssz_len(*x);
    }

    fn ssz_fixed_size() -> (r: Option<usize>) {
        Some(64)
    }

    fn ssz_packed() -> (r: bool) {
        false
    }

    fn ssz_encode(&self, buffer: &mut Vec<u8>) {
        let _ = self.serialize(buffer);
    }

    fn ssz_decode(bytes: &[u8]) -> (r: Result<Self, DeserializeError>) {
        proof {
            if exists|v: Self| v.spec_wf() && #[trigger] v.spec_encoding() == bytes@ {
                let v = choose|v: Self| v.spec_wf() && #[trigger] v.spec_encoding() == bytes@;
                lemma_historical_summary_ssz_roundtrip(v);
            }
        }
        Self::deserialize(bytes)
    }

    fn ssz_root(&self) -> (r: Node) {
        match self.hash_tree_root() {
            Ok(n) => n,
            Err(_) => Node([0u8; 32]),
        }
    }
}

impl SszCodec for Eth1Data {
    open spec fn spec_fixed_size() -> Option<nat> {
        Some(72)
    }

    open spec fn spec_packed() -> bool {
        false
    }

    open spec fn spec_wf(&self) -> bool {
        true
    }

    open spec fn spec_encoding(&self) -> Seq<u8> {
        self.spec_ssz()
    }

    open spec fn spec_tree_root(&self) -> Seq<u8> {
        self.spec_root()
    }

    proof fn lemma_layout() {
    }

    proof fn lemma_shape(x: &Self) {
        lemma_eth1_data_ssz_len(*x);
    }

    fn ssz_fixed_size() -> (r: Option<usize>) {
        Some(72)
    }

    fn ssz_packed() -> (r: bool) {
        false
    }

    fn ssz_encode(&self, buffer: &mut Vec<u8>) {
        let _ = self.serialize(buffer);
    }

    fn ssz_decode(bytes: &[u8]) -> (r: Result<Self, DeserializeError>) {
        proof {
            if exists|v: Self| v.spec_wf() && #[trigger] v.spec_encoding() == bytes@ {
                let v = choose|v: Self| v.spec_wf() && #[trigger] v.spec_encoding() == bytes@;
                lemma_eth1_data_ssz_roundtrip(v);
            }
        }
        Self::deserialize(bytes)
    }

    fn ssz_root(&self) -> (r: Node) {
        match self.hash_tree_root() {
            Ok(n) => n,
            Err(_) => Node([0u8; 32]),
        }
    }
}

impl SszCodec for SigningData {
    open spec fn spec_fixed_size() -> Option<nat> {
        Some(64)
    }

    open spec fn spec_packed() -> bool {
        false
    }

    open spec fn spec_wf(&self) -> bool {
        true
    }

    open spec fn spec_encoding(&self) -> Seq<u8> {
        self.spec_ssz()
    }

    open spec fn spec_tree_root(&self) -> Seq<u8> {
        self.spec_root()
    }

    proof fn lemma_layout() {
    }

    proof fn lemma_shape(x: &Self) {
        lemma_signing_data_ssz_len(*x);
    }

    fn ssz_fixed_size() -> (r: Option<usize>) {
        Some(64)
    }

    fn ssz_packed() -> (r: bool) {
        false
    }

    fn ssz_encode(&self, buffer: &mut Vec<u8>) {
        let _ = self.serialize(buffer);
    }

    fn ssz_decode(bytes: &[u8]) -> (r: Result<Self, DeserializeError>) {
        proof {
            if exists|v: Self| v.spec_wf() && #[trigger] v.spec_encoding() == bytes@ {
                let v = choose|v: Self| v.spec_wf() && #[trigger] v.spec_encoding() == bytes@;
                lemma_signing_data_ssz_roundtrip(v);
            }
        }
        Self::deserialize(bytes)
    }

    fn ssz_root(&self) -> (r: Node) {
        match self.hash_tree_root() {
            Ok(n) => n,
            Err(_) => Node([0u8; 32]),
        }
    }
}

impl SszCodec for MatrixEntry {
    open spec fn spec_fixed_size() -> Option<nat> {
        Some(2112)
    }

    open spec fn spec_packed() -> bool {
        false
    }

    open spec fn spec_wf(&self) -> bool {
        true
    }

    open spec fn spec_encoding(&self) -> Seq<u8> {
        self.spec_ssz()
    }

    open spec fn spec_tree_root(&self) -> Seq<u8> {
        self.spec_root()
    }

    proof fn lemma_layout() {
    }

    proof fn lemma_shape(x: &Self) {
        lemma_matrix_entry_ssz_len(*x);
    }

    fn ssz_fixed_size() -> (r: Option<usize>) {
        Some(2112)
    }

    fn ssz_packed() -> (r: bool) {
        false
    }

    fn ssz_encode(&self, buffer: &mut Vec<u8>) {
        let _ = self.serialize(buffer);
    }

    fn ssz_decode(bytes: &[u8]) -> (r: Result<Self, DeserializeError>) {
        proof {
            if exists|v: Self| v.spec_wf() && #[trigger] v.spec_encoding() == bytes@ {
                let v = choose|v: Self| v.spec_wf() && #[trigger] v.spec_encoding() == bytes@;
                lemma_matrix_entry_ssz_roundtrip(v);
            }
        }
        Self::deserialize(bytes)
    }

    fn ssz_root(&self) -> (r: Node) {
        match self.hash_tree_root() {
            Ok(n) => n,
            Err(_) => Node([0u8; 32]),
        }
    }
}

impl SszCodec for PartialDataColumnGroupID {
    open spec fn spec_fixed_size() -> Option<nat> {
        Some(40)
    }

    open spec fn spec_packed() -> bool {
        false
    }

    open spec fn spec_wf(&self) -> bool {
        true
    }

    open spec fn spec_encoding(&self) -> Seq<u8> {
        self.spec_ssz()
    }

    open spec fn spec_tree_root(&self) -> Seq<u8> {
        self.spec_root()
    }

    proof fn lemma_layout() {
    }

    proof fn lemma_shape(x: &Self) {
        lemma_partial_data_column_group_id_ssz_len(*x);
    }

    fn ssz_fixed_size() -> (r: Option<usize>) {
        Some(40)
    }

    fn ssz_packed() -> (r: bool) {
        false
    }

    fn ssz_encode(&self, buffer: &mut Vec<u8>) {
        let _ = self.serialize(buffer);
    }

    fn ssz_decode(bytes: &[u8]) -> (r: Result<Self, DeserializeError>) {
        proof {
            if exists|v: Self| v.spec_wf() && #[trigger] v.spec_encoding() == bytes@ {
                let v = choose|v: Self| v.spec_wf() && #[trigger] v.spec_encoding() == bytes@;
                lemma_partial_data_column_group_id_ssz_roundtrip(v);
            }
        }
        Self::deserialize(bytes)
    }

    fn ssz_root(&self) -> (r: Node) {
        match self.hash_tree_root() {
            Ok(n) => n,
            Err(_) => Node([0u8; 32]),
        }
    }
}

impl SszCodec for PowBlock {
    open spec fn spec_fixed_size() -> Option<nat> {
        Some(96)
    }

    open spec fn spec_packed() -> bool {
        false
    }

    open spec fn spec_wf(&self) -> bool {
        true
    }

    open spec fn spec_encoding(&self) -> Seq<u8> {
        self.spec_ssz()
    }

    open spec fn spec_tree_root(&self) -> Seq<u8> {
        self.spec_root()
    }

    proof fn lemma_layout() {
    }

    proof fn lemma_shape(x: &Self) {
        lemma_pow_block_ssz_len(*x);
    }

    fn ssz_fixed_size() -> (r: Option<usize>) {
        Some(96)
    }

    fn ssz_packed() -> (r: bool) {
        false
    }

    fn ssz_encode(&self, buffer: &mut Vec<u8>) {
        let _ = self.serialize(buffer);
    }

    fn ssz_decode(bytes: &[u8]) -> (r: Result<Self, DeserializeError>) {
        proof {
            if exists|v: Self| v.spec_wf() && #[trigger] v.spec_encoding() == bytes@ {
                let v = choose|v: Self| v.spec_wf() && #[trigger] v.spec_encoding() == bytes@;
                lemma_pow_block_ssz_roundtrip(v);
            }
        }
        Self::deserialize(bytes)
    }

    fn ssz_root(&self) -> (r: Node) {
        match self.hash_tree_root() {
            Ok(n) => n,
            Err(_) => Node([0u8; 32]),
        }
    }
}

impl SszCodec for ProposerPreferences {
    open spec fn spec_fixed_size() -> Option<nat> {
        Some(76)
    }

    open spec fn spec_packed() -> bool {
        false
    }

    open spec fn spec_wf(&self) -> bool {
        true
    }

    open spec fn spec_encoding(&self) -> Seq<u8> {
        self.spec_ssz()
    }

    open spec fn spec_tree_root(&self) -> Seq<u8> {
        self.spec_root()
    }

    proof fn lemma_layout() {
    }

    proof fn lemma_shape(x: &Self) {
        lemma_proposer_preferences_ssz_len(*x);
    }

    fn ssz_fixed_size() -> (r: Option<usize>) {
        Some(76)
    }

    fn ssz_packed() -> (r: bool) {
        false
    }

    fn ssz_encode(&self, buffer: &mut Vec<u8>) {
        let _ = self.serialize(buffer);
    }

    fn ssz_decode(bytes: &[u8]) -> (r: Result<Self, DeserializeError>) {
        proof {
            if exists|v: Self| v.spec_wf() && #[trigger] v.spec_encoding() == bytes@ {
                let v = choose|v: Self| v.spec_wf() && #[trigger] v.spec_encoding() == bytes@;
                lemma_proposer_preferences_ssz_roundtrip(v);
            }
        }
        Self::deserialize(bytes)
    }

    fn ssz_root(&self) -> (r: Node) {
        match self.hash_tree_root() {
            Ok(n) => n,
            Err(_) => Node([0u8; 32]),
        }
    }
}

impl SszCodec for SignedProposerPreferences {
    open spec fn spec_fixed_size() -> Option<nat> {
        Some(172)
    }

    open spec fn spec_packed() -> bool {
        false
    }

    open spec fn spec_wf(&self) -> bool {
        true
    }

    open spec fn spec_encoding(&self) -> Seq<u8> {
        self.spec_ssz()
    }

    open spec fn spec_tree_root(&self) -> Seq<u8> {
        self.spec_root()
    }

    proof fn lemma_layout() {
    }

    proof fn lemma_shape(x: &Self) {
        lemma_signed_proposer_preferences_ssz_len(*x);
    }

    fn ssz_fixed_size() -> (r: Option<usize>) {
        Some(172)
    }

    fn ssz_packed() -> (r: bool) {
        false
    }

    fn ssz_encode(&self, buffer: &mut Vec<u8>) {
        let _ = self.serialize(buffer);
    }

    fn ssz_decode(bytes: &[u8]) -> (r: Result<Self, DeserializeError>) {
        proof {
            if exists|v: Self| v.spec_wf() && #[trigger] v.spec_encoding() == bytes@ {
                let v = choose|v: Self| v.spec_wf() && #[trigger] v.spec_encoding() == bytes@;
                lemma_signed_proposer_preferences_ssz_roundtrip(v);
            }
        }
        Self::deserialize(bytes)
    }

    fn ssz_root(&self) -> (r: Node) {
        match self.hash_tree_root() {
            Ok(n) => n,
            Err(_) => Node([0u8; 32]),
        }
    }
}

impl SszCodec for SyncAggregate {
    open spec fn spec_fixed_size() -> Option<nat> {
        Some(160)
    }

    open spec fn spec_packed() -> bool {
        false
    }

    open spec fn spec_wf(&self) -> bool {
        true
    }

    open spec fn spec_encoding(&self) -> Seq<u8> {
        self.spec_ssz()
    }

    open spec fn spec_tree_root(&self) -> Seq<u8> {
        self.spec_root()
    }

    proof fn lemma_layout() {
    }

    proof fn lemma_shape(x: &Self) {
        lemma_sync_aggregate_ssz_len(*x);
    }

    fn ssz_fixed_size() -> (r: Option<usize>) {
        Some(160)
    }

    fn ssz_packed() -> (r: bool) {
        false
    }

    fn ssz_encode(&self, buffer: &mut Vec<u8>) {
        let _ = self.serialize(buffer);
    }

    fn ssz_decode(bytes: &[u8]) -> (r: Result<Self, DeserializeError>) {
        proof {
            if exists|v: Self| v.spec_wf() && #[trigger] v.spec_encoding() == bytes@ {
                let v = choose|v: Self| v.spec_wf() && #[trigger] v.spec_encoding() == bytes@;
                lemma_sync_aggregate_ssz_roundtrip(v);
            }
        }
        Self::deserialize(bytes)
    }

    fn ssz_root(&self) -> (r: Node) {
        match self.hash_tree_root() {
            Ok(n) => n,
            Err(_) => Node([0u8; 32]),
        }
    }
}

impl SszCodec for SyncCommitteeMessage {
    open spec fn spec_fixed_size() -> Option<nat> {
        Some(144)
    }

    open spec fn spec_packed() -> bool {
        false
    }

    open spec fn spec_wf(&self) -> bool {
        true
    }

    open spec fn spec_encoding(&self) -> Seq<u8> {
        self.spec_ssz()
    }

    open spec fn spec_tree_root(&self) -> Seq<u8> {
        self.spec_root()
    }

    proof fn lemma_layout() {
    }

    proof fn lemma_shape(x: &Self) {
        lemma_sync_committee_message_ssz_len(*x);
    }

    fn ssz_fixed_size() -> (r: Option<usize>) {
        Some(144)
    }

    fn ssz_packed() -> (r: bool) {
        false
    }

    fn ssz_encode(&self, buffer: &mut Vec<u8>) {
        let _ = self.serialize(buffer);
    }

    fn ssz_decode(bytes: &[u8]) -> (r: Result<Self, DeserializeError>) {
        proof {
            if exists|v: Self| v.spec_wf() && #[trigger] v.spec_encoding() == bytes@ {
                let v = choose|v: Self| v.spec_wf() && #[trigger] v.spec_encoding() == bytes@;
                lemma_sync_committee_message_ssz_roundtrip(v);
            }
        }
        Self::deserialize(bytes)
    }

    fn ssz_root(&self) -> (r: Node) {
        match self.hash_tree_root() {
            Ok(n) => n,
            Err(_) => Node([0u8; 32]),
        }
    }
}

impl SszCodec for SyncCommitteeContribution {
    open spec fn spec_fixed_size() -> Option<nat> {
        Some(160)
    }

    open spec fn spec_packed() -> bool {
        false
    }

    open spec fn spec_wf(&self) -> bool {
        true
    }

    open spec fn spec_encoding(&self) -> Seq<u8> {
        self.spec_ssz()
    }

    open spec fn spec_tree_root(&self) -> Seq<u8> {
        self.spec_root()
    }

    proof fn lemma_layout() {
    }

    proof fn lemma_shape(x: &Self) {
        lemma_sync_committee_contribution_ssz_len(*x);
    }

    fn ssz_fixed_size() -> (r: Option<usize>) {
        Some(160)
    }

    fn ssz_packed() -> (r: bool) {
        false
    }

    fn ssz_encode(&self, buffer: &mut Vec<u8>) {
        let _ = self.serialize(buffer);
    }

    fn ssz_decode(bytes: &[u8]) -> (r: Result<Self, DeserializeError>) {
        proof {
            if exists|v: Self| v.spec_wf() && #[trigger] v.spec_encoding() == bytes@ {
                let v = choose|v: Self| v.spec_wf() && #[trigger] v.spec_encoding() == bytes@;
                lemma_sync_committee_contribution_ssz_roundtrip(v);
            }
        }
        Self::deserialize(bytes)
    }

    fn ssz_root(&self) -> (r: Node) {
        match self.hash_tree_root() {
            Ok(n) => n,
            Err(_) => Node([0u8; 32]),
        }
    }
}

impl SszCodec for ContributionAndProof {
    open spec fn spec_fixed_size() -> Option<nat> {
        Some(264)
    }

    open spec fn spec_packed() -> bool {
        false
    }

    open spec fn spec_wf(&self) -> bool {
        true
    }

    open spec fn spec_encoding(&self) -> Seq<u8> {
        self.spec_ssz()
    }

    open spec fn spec_tree_root(&self) -> Seq<u8> {
        self.spec_root()
    }

    proof fn lemma_layout() {
    }

    proof fn lemma_shape(x: &Self) {
        lemma_contribution_and_proof_ssz_len(*x);
    }

    fn ssz_fixed_size() -> (r: Option<usize>) {
        Some(264)
    }

    fn ssz_packed() -> (r: bool) {
        false
    }

    fn ssz_encode(&self, buffer: &mut Vec<u8>) {
        let _ = self.serialize(buffer);
    }

    fn ssz_decode(bytes: &[u8]) -> (r: Result<Self, DeserializeError>) {
        proof {
            if exists|v: Self| v.spec_wf() && #[trigger] v.spec_encoding() == bytes@ {
                let v = choose|v: Self| v.spec_wf() && #[trigger] v.spec_encoding() == bytes@;
                lemma_contribution_and_proof_ssz_roundtrip(v);
            }
        }
        Self::deserialize(bytes)
    }

    fn ssz_root(&self) -> (r: Node) {
        match self.hash_tree_root() {
            Ok(n) => n,
            Err(_) => Node([0u8; 32]),
        }
    }
}

impl SszCodec for SignedContributionAndProof {
    open spec fn spec_fixed_size() -> Option<nat> {
        Some(360)
    }

    open spec fn spec_packed() -> bool {
        false
    }

    open spec fn spec_wf(&self) -> bool {
        true
    }

    open spec fn spec_encoding(&self) -> Seq<u8> {
        self.spec_ssz()
    }

    open spec fn spec_tree_root(&self) -> Seq<u8> {
        self.spec_root()
    }

    proof fn lemma_layout() {
    }

    proof fn lemma_shape(x: &Self) {
        lemma_signed_contribution_and_proof_ssz_len(*x);
    }

    fn ssz_fixed_size() -> (r: Option<usize>) {
        Some(360)
    }

    fn ssz_packed() -> (r: bool) {
        false
    }

    fn ssz_encode(&self, buffer: &mut Vec<u8>) {
        let _ = self.serialize(buffer);
    }

    fn ssz_decode(bytes: &[u8]) -> (r: Result<Self, DeserializeError>) {
        proof {
            if exists|v: Self| v.spec_wf() && #[trigger] v.spec_encoding() == bytes@ {
                let v = choose|v: Self| v.spec_wf() && #[trigger] v.spec_encoding() == bytes@;
                lemma_signed_contribution_and_proof_ssz_roundtrip(v);
            }
        }
        Self::deserialize(bytes)
    }

    fn ssz_root(&self) -> (r: Node) {
        match self.hash_tree_root() {
            Ok(n) => n,
            Err(_) => Node([0u8; 32]),
        }
    }
}

impl SszCodec for SyncAggregatorSelectionData {
    open spec fn spec_fixed_size() -> Option<nat> {
        Some(16)
    }

    open spec fn spec_packed() -> bool {
        false
    }

    open spec fn spec_wf(&self) -> bool {
        true
    }

    open spec fn spec_encoding(&self) -> Seq<u8> {
        self.spec_ssz()
    }

    open spec fn spec_tree_root(&self) -> Seq<u8> {
        self.spec_root()
    }

    proof fn lemma_layout() {
    }

    proof fn lemma_shape(x: &Self) {
        lemma_sync_aggregator_selection_data_ssz_len(*x);
    }

    fn ssz_fixed_size() -> (r: Option<usize>) {
        Some(16)
    }

    fn ssz_packed() -> (r: bool) {
        false
    }

    fn ssz_encode(&self, buffer: &mut Vec<u8>) {
        let _ = self.serialize(buffer);
    }

    fn ssz_decode(bytes: &[u8]) -> (r: Result<Self, DeserializeError>) {
        proof {
            if exists|v: Self| v.spec_wf() && #[trigger] v.spec_encoding() == bytes@ {
                let v = choose|v: Self| v.spec_wf() && #[trigger] v.spec_encoding() == bytes@;
                lemma_sync_aggregator_selection_data_ssz_roundtrip(v);
            }
        }
        Self::deserialize(bytes)
    }

    fn ssz_root(&self) -> (r: Node) {
        match self.hash_tree_root() {
            Ok(n) => n,
            Err(_) => Node([0u8; 32]),
        }
    }
}

impl SszCodec for Validator {
    open spec fn spec_fixed_size() -> Option<nat> {
        Some(121)
    }

    open spec fn spec_packed() -> bool {
        false
    }

    open spec fn spec_wf(&self) -> bool {
        true
    }

    open spec fn spec_encoding(&self) -> Seq<u8> {
        self.spec_ssz()
    }

    open spec fn spec_tree_root(&self) -> Seq<u8> {
        self.spec_root()
    }

    proof fn lemma_layout() {
    }

    proof fn lemma_shape(x: &Self) {
        lemma_validator_ssz_len(*x);
    }

    fn ssz_fixed_size() -> (r: Option<usize>) {
        Some(121)
    }

    fn ssz_packed() -> (r: bool) {
        false
    }

    fn ssz_encode(&self, buffer: &mut Vec<u8>) {
        let _ = self.serialize(buffer);
    }

    fn ssz_decode(bytes: &[u8]) -> (r: Result<Self, DeserializeError>) {
        proof {
            if exists|v: Self| v.spec_wf() && #[trigger] v.spec_encoding() == bytes@ {
                let v = choose|v: Self| v.spec_wf() && #[trigger] v.spec_encoding() == bytes@;
                lemma_validator_ssz_roundtrip(v);
            }
        }
        Self::deserialize(bytes)
    }

    fn ssz_root(&self) -> (r: Node) {
        match self.hash_tree_root() {
            Ok(n) => n,
            Err(_) => Node([0u8; 32]),
        }
    }
}

impl SszCodec for PendingDeposit {
    open spec fn spec_fixed_size() -> Option<nat> {
        Some(192)
    }

    open spec fn spec_packed() -> bool {
        false
    }

    open spec fn spec_wf(&self) -> bool {
        true
    }

    open spec fn spec_encoding(&self) -> Seq<u8> {
        self.spec_ssz()
    }

    open spec fn spec_tree_root(&self) -> Seq<u8> {
        self.spec_root()
    }

    proof fn lemma_layout() {
    }

    proof fn lemma_shape(x: &Self) {
        lemma_pending_deposit_ssz_len(*x);
    }

    fn ssz_fixed_size() -> (r: Option<usize>) {
        Some(192)
    }

    fn ssz_packed() -> (r: bool) {
        false
    }

    fn ssz_encode(&self, buffer: &mut Vec<u8>) {
        let _ = self.serialize(buffer);
    }

    fn ssz_decode(bytes: &[u8]) -> (r: Result<Self, DeserializeError>) {
        proof {
            if exists|v: Self| v.spec_wf() && #[trigger] v.spec_encoding() == bytes@ {
                let v = choose|v: Self| v.spec_wf() && #[trigger] v.spec_encoding() == bytes@;
                lemma_pending_deposit_ssz_roundtrip(v);
            }
        }
        Self::deserialize(bytes)
    }

    fn ssz_root(&self) -> (r: Node) {
        match self.hash_tree_root() {
            Ok(n) => n,
            Err(_) => Node([0u8; 32]),
        }
    }
}

impl SszCodec for PendingPartialWithdrawal {
    open spec fn spec_fixed_size() -> Option<nat> {
        Some(24)
    }

    open spec fn spec_packed() -> bool {
        false
    }

    open spec fn spec_wf(&self) -> bool {
        true
    }

    open spec fn spec_encoding(&self) -> Seq<u8> {
        self.spec_ssz()
    }

    open spec fn spec_tree_root(&self) -> Seq<u8> {
        self.spec_root()
    }

    proof fn lemma_layout() {
    }

    proof fn lemma_shape(x: &Self) {
        lemma_pending_partial_withdrawal_ssz_len(*x);
    }

    fn ssz_fixed_size() -> (r: Option<usize>) {
        Some(24)
    }

    fn ssz_packed() -> (r: bool) {
        false
    }

    fn ssz_encode(&self, buffer: &mut Vec<u8>) {
        let _ = self.serialize(buffer);
    }

    fn ssz_decode(bytes: &[u8]) -> (r: Result<Self, DeserializeError>) {
        proof {
            if exists|v: Self| v.spec_wf() && #[trigger] v.spec_encoding() == bytes@ {
                let v = choose|v: Self| v.spec_wf() && #[trigger] v.spec_encoding() == bytes@;
                lemma_pending_partial_withdrawal_ssz_roundtrip(v);
            }
        }
        Self::deserialize(bytes)
    }

    fn ssz_root(&self) -> (r: Node) {
        match self.hash_tree_root() {
            Ok(n) => n,
            Err(_) => Node([0u8; 32]),
        }
    }
}

impl SszCodec for PendingConsolidation {
    open spec fn spec_fixed_size() -> Option<nat> {
        Some(16)
    }

    open spec fn spec_packed() -> bool {
        false
    }

    open spec fn spec_wf(&self) -> bool {
        true
    }

    open spec fn spec_encoding(&self) -> Seq<u8> {
        self.spec_ssz()
    }

    open spec fn spec_tree_root(&self) -> Seq<u8> {
        self.spec_root()
    }

    proof fn lemma_layout() {
    }

    proof fn lemma_shape(x: &Self) {
        lemma_pending_consolidation_ssz_len(*x);
    }

    fn ssz_fixed_size() -> (r: Option<usize>) {
        Some(16)
    }

    fn ssz_packed() -> (r: bool) {
        false
    }

    fn ssz_encode(&self, buffer: &mut Vec<u8>) {
        let _ = self.serialize(buffer);
    }

    fn ssz_decode(bytes: &[u8]) -> (r: Result<Self, DeserializeError>) {
        proof {
            if exists|v: Self| v.spec_wf() && #[trigger] v.spec_encoding() == bytes@ {
                let v = choose|v: Self| v.spec_wf() && #[trigger] v.spec_encoding() == bytes@;
                lemma_pending_consolidation_ssz_roundtrip(v);
            }
        }
        Self::deserialize(bytes)
    }

    fn ssz_root(&self) -> (r: Node) {
        match self.hash_tree_root() {
            Ok(n) => n,
            Err(_) => Node([0u8; 32]),
        }
    }
}

impl SszCodec for Withdrawal {
    open spec fn spec_fixed_size() -> Option<nat> {
        Some(44)
    }

    open spec fn spec_packed() -> bool {
        false
    }

    open spec fn spec_wf(&self) -> bool {
        true
    }

    open spec fn spec_encoding(&self) -> Seq<u8> {
        self.spec_ssz()
    }

    open spec fn spec_tree_root(&self) -> Seq<u8> {
        self.spec_root()
    }

    proof fn lemma_layout() {
    }

    proof fn lemma_shape(x: &Self) {
        lemma_withdrawal_ssz_len(*x);
    }

    fn ssz_fixed_size() -> (r: Option<usize>) {
        Some(44)
    }

    fn ssz_packed() -> (r: bool) {
        false
    }

    fn ssz_encode(&self, buffer: &mut Vec<u8>) {
        let _ = self.serialize(buffer);
    }

    fn ssz_decode(bytes: &[u8]) -> (r: Result<Self, DeserializeError>) {
        proof {
            if exists|v: Self| v.spec_wf() && #[trigger] v.spec_encoding() == bytes@ {
                let v = choose|v: Self| v.spec_wf() && #[trigger] v.spec_encoding() == bytes@;
                lemma_withdrawal_ssz_roundtrip(v);
            }
        }
        Self::deserialize(bytes)
    }

    fn ssz_root(&self) -> (r: Node) {
        match self.hash_tree_root() {
            Ok(n) => n,
            Err(_) => Node([0u8; 32]),
        }
    }
}

impl SszCodec for BLSToExecutionChange {
    open spec fn spec_fixed_size() -> Option<nat> {
        Some(76)
    }

    open spec fn spec_packed() -> bool {
        false
    }

    open spec fn spec_wf(&self) -> bool {
        true
    }

    open spec fn spec_encoding(&self) -> Seq<u8> {
        self.spec_ssz()
    }

    open spec fn spec_tree_root(&self) -> Seq<u8> {
        self.spec_root()
    }

    proof fn lemma_layout() {
    }

    proof fn lemma_shape(x: &Self) {
        lemma_bls_to_execution_change_ssz_len(*x);
    }

    fn ssz_fixed_size() -> (r: Option<usize>) {
        Some(76)
    }

    fn ssz_packed() -> (r: bool) {
        false
    }

    fn ssz_encode(&self, buffer: &mut Vec<u8>) {
        let _ = self.serialize(buffer);
    }

    fn ssz_decode(bytes: &[u8]) -> (r: Result<Self, DeserializeError>) {
        proof {
            if exists|v: Self| v.spec_wf() && #[trigger] v.spec_encoding() == bytes@ {
                let v = choose|v: Self| v.spec_wf() && #[trigger] v.spec_encoding() == bytes@;
                lemma_bls_to_execution_change_ssz_roundtrip(v);
            }
        }
        Self::deserialize(bytes)
    }

    fn ssz_root(&self) -> (r: Node) {
        match self.hash_tree_root() {
            Ok(n) => n,
            Err(_) => Node([0u8; 32]),
        }
    }
}

impl SszCodec for SignedBLSToExecutionChange {
    open spec fn spec_fixed_size() -> Option<nat> {
        Some(172)
    }

    open spec fn spec_packed() -> bool {
        false
    }

    open spec fn spec_wf(&self) -> bool {
        true
    }

    open spec fn spec_encoding(&self) -> Seq<u8> {
        self.spec_ssz()
    }

    open spec fn spec_tree_root(&self) -> Seq<u8> {
        self.spec_root()
    }

    proof fn lemma_layout() {
    }

    proof fn lemma_shape(x: &Self) {
        lemma_signed_bls_to_execution_change_ssz_len(*x);
    }

    fn ssz_fixed_size() -> (r: Option<usize>) {
        Some(172)
    }

    fn ssz_packed() -> (r: bool) {
        false
    }

    fn ssz_encode(&self, buffer: &mut Vec<u8>) {
        let _ = self.serialize(buffer);
    }

    fn ssz_decode(bytes: &[u8]) -> (r: Result<Self, DeserializeError>) {
        proof {
            if exists|v: Self| v.spec_wf() && #[trigger] v.spec_encoding() == bytes@ {
                let v = choose|v: Self| v.spec_wf() && #[trigger] v.spec_encoding() == bytes@;
                lemma_signed_bls_to_execution_change_ssz_roundtrip(v);
            }
        }
        Self::deserialize(bytes)
    }

    fn ssz_root(&self) -> (r: Node) {
        match self.hash_tree_root() {
            Ok(n) => n,
            Err(_) => Node([0u8; 32]),
        }
    }
}

impl SszCodec for VoluntaryExit {
    open spec fn spec_fixed_size() -> Option<nat> {
        Some(16)
    }

    open spec fn spec_packed() -> bool {
        false
    }

    open spec fn spec_wf(&self) -> bool {
        true
    }

    open spec fn spec_encoding(&self) -> Seq<u8> {
        self.spec_ssz()
    }

    open spec fn spec_tree_root(&self) -> Seq<u8> {
        self.spec_root()
    }

    proof fn lemma_layout() {
    }

    proof fn lemma_shape(x: &Self) {
        lemma_voluntary_exit_ssz_len(*x);
    }

    fn ssz_fixed_size() -> (r: Option<usize>) {
        Some(16)
    }

    fn ssz_packed() -> (r: bool) {
        false
    }

    fn ssz_encode(&self, buffer: &mut Vec<u8>) {
        let _ = self.serialize(buffer);
    }

    fn ssz_decode(bytes: &[u8]) -> (r: Result<Self, DeserializeError>) {
        proof {
            if exists|v: Self| v.spec_wf() && #[trigger] v.spec_encoding() == bytes@ {
                let v = choose|v: Self| v.spec_wf() && #[trigger] v.spec_encoding() == bytes@;
                lemma_voluntary_exit_ssz_roundtrip(v);
            }
        }
        Self::deserialize(bytes)
    }

    fn ssz_root(&self) -> (r: Node) {
        match self.hash_tree_root() {
            Ok(n) => n,
            Err(_) => Node([0u8; 32]),
        }
    }
}

impl SszCodec for SignedVoluntaryExit {
    open spec fn spec_fixed_size() -> Option<nat> {
        Some(112)
    }

    open spec fn spec_packed() -> bool {
        false
    }

    open spec fn spec_wf(&self) -> bool {
        true
    }

    open spec fn spec_encoding(&self) -> Seq<u8> {
        self.spec_ssz()
    }

    open spec fn spec_tree_root(&self) -> Seq<u8> {
        self.spec_root()
    }

    proof fn lemma_layout() {
    }

    proof fn lemma_shape(x: &Self) {
        lemma_signed_voluntary_exit_ssz_len(*x);
    }

    fn ssz_fixed_size() -> (r: Option<usize>) {
        Some(112)
    }

    fn ssz_packed() -> (r: bool) {
        false
    }

    fn ssz_encode(&self, buffer: &mut Vec<u8>) {
        let _ = self.serialize(buffer);
    }

    fn ssz_decode(bytes: &[u8]) -> (r: Result<Self, DeserializeError>) {
        proof {
            if exists|v: Self| v.spec_wf() && #[trigger] v.spec_encoding() == bytes@ {
                let v = choose|v: Self| v.spec_wf() && #[trigger] v.spec_encoding() == bytes@;
                lemma_signed_voluntary_exit_ssz_roundtrip(v);
            }
        }
        Self::deserialize(bytes)
    }

    fn ssz_root(&self) -> (r: Node) {
        match self.hash_tree_root() {
            Ok(n) => n,
            Err(_) => Node([0u8; 32]),
        }
    }
}

impl SszCodec for DepositMessage {
    open spec fn spec_fixed_size() -> Option<nat> {
        Some(88)
    }

    open spec fn spec_packed() -> bool {
        false
    }

    open spec fn spec_wf(&self) -> bool {
        true
    }

    open spec fn spec_encoding(&self) -> Seq<u8> {
        self.spec_ssz()
    }

    open spec fn spec_tree_root(&self) -> Seq<u8> {
        self.spec_root()
    }

    proof fn lemma_layout() {
    }

    proof fn lemma_shape(x: &Self) {
        lemma_deposit_message_ssz_len(*x);
    }

    fn ssz_fixed_size() -> (r: Option<usize>) {
        Some(88)
    }

    fn ssz_packed() -> (r: bool) {
        false
    }

    fn ssz_encode(&self, buffer: &mut Vec<u8>) {
        let _ = self.serialize(buffer);
    }

    fn ssz_decode(bytes: &[u8]) -> (r: Result<Self, DeserializeError>) {
        proof {
            if exists|v: Self| v.spec_wf() && #[trigger] v.spec_encoding() == bytes@ {
                let v = choose|v: Self| v.spec_wf() && #[trigger] v.spec_encoding() == bytes@;
                lemma_deposit_message_ssz_roundtrip(v);
            }
        }
        Self::deserialize(bytes)
    }

    fn ssz_root(&self) -> (r: Node) {
        match self.hash_tree_root() {
            Ok(n) => n,
            Err(_) => Node([0u8; 32]),
        }
    }
}

impl SszCodec for DepositData {
    open spec fn spec_fixed_size() -> Option<nat> {
        Some(184)
    }

    open spec fn spec_packed() -> bool {
        false
    }

    open spec fn spec_wf(&self) -> bool {
        true
    }

    open spec fn spec_encoding(&self) -> Seq<u8> {
        self.spec_ssz()
    }

    open spec fn spec_tree_root(&self) -> Seq<u8> {
        self.spec_root()
    }

    proof fn lemma_layout() {
    }

    proof fn lemma_shape(x: &Self) {
        lemma_deposit_data_ssz_len(*x);
    }

    fn ssz_fixed_size() -> (r: Option<usize>) {
        Some(184)
    }

    fn ssz_packed() -> (r: bool) {
        false
    }

    fn ssz_encode(&self, buffer: &mut Vec<u8>) {
        let _ = self.serialize(buffer);
    }

    fn ssz_decode(bytes: &[u8]) -> (r: Result<Self, DeserializeError>) {
        proof {
            if exists|v: Self| v.spec_wf() && #[trigger] v.spec_encoding() == bytes@ {
                let v = choose|v: Self| v.spec_wf() && #[trigger] v.spec_encoding() == bytes@;
                lemma_deposit_data_ssz_roundtrip(v);
            }
        }
        Self::deserialize(bytes)
    }

    fn ssz_root(&self) -> (r: Node) {
        match self.hash_tree_root() {
            Ok(n) => n,
            Err(_) => Node([0u8; 32]),
        }
    }
}

impl SszCodec for DepositRequest {
    open spec fn spec_fixed_size() -> Option<nat> {
        Some(192)
    }

    open spec fn spec_packed() -> bool {
        false
    }

    open spec fn spec_wf(&self) -> bool {
        true
    }

    open spec fn spec_encoding(&self) -> Seq<u8> {
        self.spec_ssz()
    }

    open spec fn spec_tree_root(&self) -> Seq<u8> {
        self.spec_root()
    }

    proof fn lemma_layout() {
    }

    proof fn lemma_shape(x: &Self) {
        lemma_deposit_request_ssz_len(*x);
    }

    fn ssz_fixed_size() -> (r: Option<usize>) {
        Some(192)
    }

    fn ssz_packed() -> (r: bool) {
        false
    }

    fn ssz_encode(&self, buffer: &mut Vec<u8>) {
        let _ = self.serialize(buffer);
    }

    fn ssz_decode(bytes: &[u8]) -> (r: Result<Self, DeserializeError>) {
        proof {
            if exists|v: Self| v.spec_wf() && #[trigger] v.spec_encoding() == bytes@ {
                let v = choose|v: Self| v.spec_wf() && #[trigger] v.spec_encoding() == bytes@;
                lemma_deposit_request_ssz_roundtrip(v);
            }
        }
        Self::deserialize(bytes)
    }

    fn ssz_root(&self) -> (r: Node) {
        match self.hash_tree_root() {
            Ok(n) => n,
            Err(_) => Node([0u8; 32]),
        }
    }
}

impl SszCodec for WithdrawalRequest {
    open spec fn spec_fixed_size() -> Option<nat> {
        Some(76)
    }

    open spec fn spec_packed() -> bool {
        false
    }

    open spec fn spec_wf(&self) -> bool {
        true
    }

    open spec fn spec_encoding(&self) -> Seq<u8> {
        self.spec_ssz()
    }

    open spec fn spec_tree_root(&self) -> Seq<u8> {
        self.spec_root()
    }

    proof fn lemma_layout() {
    }

    proof fn lemma_shape(x: &Self) {
        lemma_withdrawal_request_ssz_len(*x);
    }

    fn ssz_fixed_size() -> (r: Option<usize>) {
        Some(76)
    }

    fn ssz_packed() -> (r: bool) {
        false
    }

    fn ssz_encode(&self, buffer: &mut Vec<u8>) {
        let _ = self.serialize(buffer);
    }

    fn ssz_decode(bytes: &[u8]) -> (r: Result<Self, DeserializeError>) {
        proof {
            if exists|v: Self| v.spec_wf() && #[trigger] v.spec_encoding() == bytes@ {
                let v = choose|v: Self| v.spec_wf() && #[trigger] v.spec_encoding() == bytes@;
                lemma_withdrawal_request_ssz_roundtrip(v);
            }
        }
        Self::deserialize(bytes)
    }

    fn ssz_root(&self) -> (r: Node) {
        match self.hash_tree_root() {
            Ok(n) => n,
            Err(_) => Node([0u8; 32]),
        }
    }
}

impl SszCodec for ConsolidationRequest {
    open spec fn spec_fixed_size() -> Option<nat> {
        Some(116)
    }

    open spec fn spec_packed() -> bool {
        false
    }

    open spec fn spec_wf(&self) -> bool {
        true
    }

    open spec fn spec_encoding(&self) -> Seq<u8> {
        self.spec_ssz()
    }

    open spec fn spec_tree_root(&self) -> Seq<u8> {
        self.spec_root()
    }

    proof fn lemma_layout() {
    }

    proof fn lemma_shape(x: &Self) {
        lemma_consolidation_request_ssz_len(*x);
    }

    fn ssz_fixed_size() -> (r: Option<usize>) {
        Some(116)
    }

    fn ssz_packed() -> (r: bool) {
        false
    }

    fn ssz_encode(&self, buffer: &mut Vec<u8>) {
        let _ = self.serialize(buffer);
    }

    fn ssz_decode(bytes: &[u8]) -> (r: Result<Self, DeserializeError>) {
        proof {
            if exists|v: Self| v.spec_wf() && #[trigger] v.spec_encoding() == bytes@ {
                let v = choose|v: Self| v.spec_wf() && #[trigger] v.spec_encoding() == bytes@;
                lemma_consolidation_request_ssz_roundtrip(v);
            }
        }
        Self::deserialize(bytes)
    }

    fn ssz_root(&self) -> (r: Node) {
        match self.hash_tree_root() {
            Ok(n) => n,
            Err(_) => Node([0u8; 32]),
        }
    }
}

impl SszCodec for BuilderDepositRequest {
    open spec fn spec_fixed_size() -> Option<nat> {
        Some(184)
    }

    open spec fn spec_packed() -> bool {
        false
    }

    open spec fn spec_wf(&self) -> bool {
        true
    }

    open spec fn spec_encoding(&self) -> Seq<u8> {
        self.spec_ssz()
    }

    open spec fn spec_tree_root(&self) -> Seq<u8> {
        self.spec_root()
    }

    proof fn lemma_layout() {
    }

    proof fn lemma_shape(x: &Self) {
        lemma_builder_deposit_request_ssz_len(*x);
    }

    fn ssz_fixed_size() -> (r: Option<usize>) {
        Some(184)
    }

    fn ssz_packed() -> (r: bool) {
        false
    }

    fn ssz_encode(&self, buffer: &mut Vec<u8>) {
        let _ = self.serialize(buffer);
    }

    fn ssz_decode(bytes: &[u8]) -> (r: Result<Self, DeserializeError>) {
        proof {
            if exists|v: Self| v.spec_wf() && #[trigger] v.spec_encoding() == bytes@ {
                let v = choose|v: Self| v.spec_wf() && #[trigger] v.spec_encoding() == bytes@;
                lemma_builder_deposit_request_ssz_roundtrip(v);
            }
        }
        Self::deserialize(bytes)
    }

    fn ssz_root(&self) -> (r: Node) {
        match self.hash_tree_root() {
            Ok(n) => n,
            Err(_) => Node([0u8; 32]),
        }
    }
}

impl SszCodec for BuilderExitRequest {
    open spec fn spec_fixed_size() -> Option<nat> {
        Some(68)
    }

    open spec fn spec_packed() -> bool {
        false
    }

    open spec fn spec_wf(&self) -> bool {
        true
    }

    open spec fn spec_encoding(&self) -> Seq<u8> {
        self.spec_ssz()
    }

    open spec fn spec_tree_root(&self) -> Seq<u8> {
        self.spec_root()
    }

    proof fn lemma_layout() {
    }

    proof fn lemma_shape(x: &Self) {
        lemma_builder_exit_request_ssz_len(*x);
    }

    fn ssz_fixed_size() -> (r: Option<usize>) {
        Some(68)
    }

    fn ssz_packed() -> (r: bool) {
        false
    }

    fn ssz_encode(&self, buffer: &mut Vec<u8>) {
        let _ = self.serialize(buffer);
    }

    fn ssz_decode(bytes: &[u8]) -> (r: Result<Self, DeserializeError>) {
        proof {
            if exists|v: Self| v.spec_wf() && #[trigger] v.spec_encoding() == bytes@ {
                let v = choose|v: Self| v.spec_wf() && #[trigger] v.spec_encoding() == bytes@;
                lemma_builder_exit_request_ssz_roundtrip(v);
            }
        }
        Self::deserialize(bytes)
    }

    fn ssz_root(&self) -> (r: Node) {
        match self.hash_tree_root() {
            Ok(n) => n,
            Err(_) => Node([0u8; 32]),
        }
    }
}

} // verus!
