//! The fork-choice [`Store`], the data a node keeps in order to choose a head.
//!
//! The store is one node's private notebook: the blocks it has heard about and
//! the states they produce, who voted for what, which validators equivocated,
//! which payloads have arrived, and a clock. Handlers fold new information into
//! it and head selection reads it back out.
use vstd::prelude::*;

use crate::constants::PTC_SIZE;
use crate::containers::block::BeaconBlock;
use crate::containers::chain::Checkpoint;
use crate::containers::data_availability::DataColumnSidecar;
use crate::containers::execution::{ExecutionPayloadEnvelope, SignedExecutionPayloadEnvelope};
use crate::containers::state::BeaconState;
use crate::error::StoreInvariant;
use crate::primitives::byte_arrays::lemma_root_eq;
use crate::primitives::{Root, Slot, ValidatorIndex};

use super::keyed_map::{lemma_map_of_contains, lemma_map_of_index, KeyedMap};

verus! {

/// The most recent vote accepted from a single validator.
#[derive(Debug, Clone, Copy)]
pub struct LatestMessage {
    /// Slot the attestation was for.
    pub slot: Slot,
    /// Attested block root.
    pub root: Root,
    /// Branch bit from `AttestationData::index`; read as empty/full only when
    /// the voted block is older than `slot`.
    pub payload_present: bool,
}

/// Which payload branch a block sits on in the fork-choice tree.
#[derive(Debug, Clone, Copy, PartialEq, Eq, Structural, Hash)]
pub enum PayloadStatus {
    /// The branch that carries the chain forward without this block's payload.
    Empty,
    /// The branch that carries the chain forward on top of this block's payload.
    Full,
    /// Not yet decided between empty and full.
    Pending,
}

/// The payload branch a vote cast at `vote_slot` supports for a block at `block_slot`.
pub open spec fn spec_supported_payload_status(vote_slot: Slot, payload_present: bool, block_slot: Slot) -> PayloadStatus {
    if block_slot.0 < vote_slot.0 {
        if payload_present {
            PayloadStatus::Full
        } else {
            PayloadStatus::Empty
        }
    } else {
        PayloadStatus::Pending
    }
}

impl LatestMessage {
    /// The payload branch this vote supports for a block at `block_slot`: full
    /// or empty for an older block, pending for a block at the vote's own slot.
    pub fn supported_payload_status(&self, block_slot: Slot) -> (r: PayloadStatus)
        ensures
            r == spec_supported_payload_status(self.slot, self.payload_present, block_slot),
    {
        if block_slot.0 < self.slot.0 {
            if self.payload_present {
                PayloadStatus::Full
            } else {
                PayloadStatus::Empty
            }
        } else {
            PayloadStatus::Pending
        }
    }
}

/// The ordinary tie-break rank: pending (2) beats full (1) beats empty (0).
pub open spec fn spec_ordinary_rank(s: PayloadStatus) -> u8 {
    match s {
        PayloadStatus::Empty => 0,
        PayloadStatus::Full => 1,
        PayloadStatus::Pending => 2,
    }
}

impl PayloadStatus {
    /// Is this an empty-or-full decision rather than still pending?
    pub fn is_payload_decision(self) -> (r: bool)
        ensures
            r == (self != PayloadStatus::Pending),
    {
        match self {
            PayloadStatus::Empty | PayloadStatus::Full => true,
            PayloadStatus::Pending => false,
        }
    }

    /// Tie-break rank for an ordinary node: pending (2) beats full (1) beats empty (0).
    pub fn ordinary_tiebreaker_rank(self) -> (r: u8)
        ensures
            r == spec_ordinary_rank(self),
    {
        match self {
            PayloadStatus::Empty => 0,
            PayloadStatus::Full => 1,
            PayloadStatus::Pending => 2,
        }
    }
}

/// One position in the fork-choice tree: a block together with its payload branch.
#[derive(Debug, Clone, Copy, PartialEq, Eq, Hash)]
pub struct ForkChoiceNode {
    /// Block root identifying the node.
    pub root: Root,
    /// Payload status associated with the block at this node.
    pub payload_status: PayloadStatus,
}

/// Two nodes compare equal exactly when they are the same value.
pub proof fn lemma_node_eq(a: ForkChoiceNode, b: ForkChoiceNode)
    ensures
        (a.root.0@ == b.root.0@ && a.payload_status == b.payload_status) <==> (a == b),
{
    lemma_root_eq(a.root, b.root);
}

impl ForkChoiceNode {
    /// Whether two nodes are the same value.
    pub fn equals(&self, other: &ForkChoiceNode) -> (r: bool)
        ensures
            r == (*self == *other),
    {
        proof {
            lemma_node_eq(*self, *other);
        }
        self.root.equals(&other.root) && self.payload_status == other.payload_status
    }

    /// A node pairing `root` with `payload_status`.
    pub fn new(root: Root, payload_status: PayloadStatus) -> (r: Self)
        ensures
            r == (ForkChoiceNode { root, payload_status }),
    {
        ForkChoiceNode { root, payload_status }
    }

    /// The block's pending node, its empty-versus-full branch not yet decided.
    pub fn pending(root: Root) -> (r: Self)
        ensures
            r == (ForkChoiceNode { root, payload_status: PayloadStatus::Pending }),
    {
        Self::new(root, PayloadStatus::Pending)
    }

    /// The block's empty-branch node.
    pub fn empty(root: Root) -> (r: Self)
        ensures
            r == (ForkChoiceNode { root, payload_status: PayloadStatus::Empty }),
    {
        Self::new(root, PayloadStatus::Empty)
    }

    /// The block's full-branch node.
    pub fn full(root: Root) -> (r: Self)
        ensures
            r == (ForkChoiceNode { root, payload_status: PayloadStatus::Full }),
    {
        Self::new(root, PayloadStatus::Full)
    }

    /// Is this node an empty-or-full payload decision rather than still pending?
    pub fn is_payload_decision(self) -> (r: bool)
        ensures
            r == (self.payload_status != PayloadStatus::Pending),
    {
        self.payload_status.is_payload_decision()
    }
}

/// Whether a freshly imported block beat each of its slot's two deadlines.
#[derive(Debug, Clone, Copy, PartialEq, Eq)]
pub struct BlockTimeliness {
    /// Seen before the slot's attestation deadline.
    pub attestation_timely: bool,
    /// Seen before the slot's later payload-attestation deadline.
    pub payload_attestation_timely: bool,
}

/// Everything one node needs to run fork choice.
#[derive(Debug, Clone)]
pub struct Store {
    /// The store's own clock, in seconds.
    pub time: u64,
    /// Genesis time in seconds, the point the store's slots are counted from.
    pub genesis_time: u64,
    /// Current justified checkpoint.
    pub justified_checkpoint: Checkpoint,
    /// Current finalized checkpoint.
    pub finalized_checkpoint: Checkpoint,
    /// Unrealized justified checkpoint, ahead of the realized one.
    pub unrealized_justified_checkpoint: Checkpoint,
    /// Unrealized finalized checkpoint, ahead of the realized one.
    pub unrealized_finalized_checkpoint: Checkpoint,
    /// Root that receives the proposer boost weight.
    pub proposer_boost_root: Root,
    /// Validators whose conflicting attestations invalidate their weight.
    pub equivocating_indices: KeyedMap<ValidatorIndex, ()>,
    /// All blocks known to the store, keyed by block root.
    pub blocks: KeyedMap<Root, BeaconBlock>,
    /// Post-state for each block in `blocks`.
    pub block_states: KeyedMap<Root, BeaconState>,
    /// Timeliness flags for each block, set when the block is imported.
    pub block_timeliness: KeyedMap<Root, BlockTimeliness>,
    /// Cached beacon state for each checkpoint.
    pub checkpoint_states: KeyedMap<Checkpoint, BeaconState>,
    /// Latest attestation message from each validator.
    pub latest_messages: KeyedMap<ValidatorIndex, LatestMessage>,
    /// Unrealized justification checkpoint for each block root.
    pub unrealized_justifications: KeyedMap<Root, Checkpoint>,
    /// Execution payloads recorded after the envelope checks.
    pub payloads: KeyedMap<Root, ExecutionPayloadEnvelope>,
    /// Signed payload envelopes waiting for data-column sidecars.
    pub queued_payload_envelopes: KeyedMap<Root, SignedExecutionPayloadEnvelope>,
    /// Data-column sidecars recorded for each block root.
    pub data_column_sidecars: KeyedMap<Root, Vec<DataColumnSidecar>>,
    /// Payload timeliness votes per block root, indexed by committee position.
    pub payload_timeliness_vote: KeyedMap<Root, Vec<Option<bool>>>,
    /// Payload data-availability votes per block root, indexed by committee position.
    pub payload_data_availability_vote: KeyedMap<Root, Vec<Option<bool>>>,
}

/// Every block whose parent is known sits in a later slot than that parent.
pub open spec fn blocks_ordered(blocks: Map<Root, BeaconBlock>) -> bool {
    forall|r: Root|
        #![trigger blocks[r]]
        blocks.contains_key(r) && blocks.contains_key(blocks[r].parent_root) ==> blocks[blocks[r].parent_root].slot.0
            < blocks[r].slot.0
}

/// The store's structural invariants, as `check_invariants` checks them.
pub open spec fn spec_invariants_hold(store: Store) -> bool {
    &&& forall|r: Root|
        store.blocks@.contains_key(r) ==> #[trigger] store.block_states@.contains_key(r)
            && store.block_timeliness@.contains_key(r)
    &&& forall|r: Root|
        #[trigger] store.payload_timeliness_vote@.contains_key(r) ==> store.payload_timeliness_vote@[r]@.len()
            == PTC_SIZE
    &&& forall|r: Root|
        #[trigger] store.payload_data_availability_vote@.contains_key(r)
            ==> store.payload_data_availability_vote@[r]@.len() == PTC_SIZE
    &&& blocks_ordered(store.blocks@)
}

impl Store {
    /// Every map holds each key at most once.
    pub open spec fn maps_wf(&self) -> bool {
        &&& self.equivocating_indices.wf()
        &&& self.blocks.wf()
        &&& self.block_states.wf()
        &&& self.block_timeliness.wf()
        &&& self.checkpoint_states.wf()
        &&& self.latest_messages.wf()
        &&& self.unrealized_justifications.wf()
        &&& self.payloads.wf()
        &&& self.queued_payload_envelopes.wf()
        &&& self.data_column_sidecars.wf()
        &&& self.payload_timeliness_vote.wf()
        &&& self.payload_data_availability_vote.wf()
    }

    /// The store is well formed: its maps hold each key once and its blocks
    /// are ordered after their parents.
    pub open spec fn wf(&self) -> bool {
        self.maps_wf() && blocks_ordered(self.blocks@)
    }

    /// Check the store's structural invariants.
    ///
    /// Every block has a post-state and timeliness flags, every payload vote
    /// vector has `PTC_SIZE` entries, and every block whose parent is in the
    /// store sits in a later slot than that parent.
    pub fn check_invariants(&self) -> (r: Result<(), StoreInvariant>)
        requires
            self.maps_wf(),
        ensures
            r is Ok <==> spec_invariants_hold(*self),
            r matches Err(StoreInvariant::MissingBlockState(root)) ==> self.blocks@.contains_key(root)
                && !self.block_states@.contains_key(root),
            r matches Err(StoreInvariant::MissingTimeliness(root)) ==> self.blocks@.contains_key(root)
                && !self.block_timeliness@.contains_key(root),
            r matches Err(StoreInvariant::TimelinessVotesNotPtcSize(root))
                ==> self.payload_timeliness_vote@.contains_key(root)
                && self.payload_timeliness_vote@[root]@.len() != PTC_SIZE,
            r matches Err(StoreInvariant::DataAvailabilityVotesNotPtcSize(root))
                ==> self.payload_data_availability_vote@.contains_key(root)
                && self.payload_data_availability_vote@[root]@.len() != PTC_SIZE,
            r matches Err(StoreInvariant::BlockNotAfterParent(root)) ==> self.blocks@.contains_key(root)
                && self.blocks@.contains_key(self.blocks@[root].parent_root)
                && self.blocks@[self.blocks@[root].parent_root].slot.0 >= self.blocks@[root].slot.0,
    {
        let n = self.blocks.len();
        let mut i: usize = 0;
        while i < n
            invariant
                self.maps_wf(),
                n == self.blocks.entries@.len(),
                i <= n,
                forall|j: int|
                    0 <= j < i ==> #[trigger] self.block_states@.contains_key(self.blocks.entries@[j].0)
                        && self.block_timeliness@.contains_key(self.blocks.entries@[j].0),
            decreases n - i,
        {
            let root = self.blocks.key_at(i);
            proof {
                lemma_map_of_index(self.blocks.entries@, i as int);
            }
            if !self.block_states.contains_key(&root) {
                return Err(StoreInvariant::MissingBlockState(root));
            }
            if !self.block_timeliness.contains_key(&root) {
                return Err(StoreInvariant::MissingTimeliness(root));
            }
            i = i + 1;
        }
        assert forall|r: Root| self.blocks@.contains_key(r) implies #[trigger] self.block_states@.contains_key(r)
            && self.block_timeliness@.contains_key(r) by {
            lemma_map_of_contains(self.blocks.entries@, r);
        }
        let n = self.payload_timeliness_vote.len();
        let mut i: usize = 0;
        while i < n
            invariant
                self.maps_wf(),
                n == self.payload_timeliness_vote.entries@.len(),
                i <= n,
                forall|j: int|
                    0 <= j < i ==> (#[trigger] self.payload_timeliness_vote.entries@[j]).1@.len() == PTC_SIZE,
            decreases n - i,
        {
            let votes = self.payload_timeliness_vote.value_at(i);
            if votes.len() as u64 != PTC_SIZE {
                let root = self.payload_timeliness_vote.key_at(i);
                proof {
                    lemma_map_of_index(self.payload_timeliness_vote.entries@, i as int);
                    assert(self.payload_timeliness_vote@.contains_key(root));
                    assert(self.payload_timeliness_vote@[root]@.len() != PTC_SIZE);
                }
                return Err(StoreInvariant::TimelinessVotesNotPtcSize(root));
            }
            i = i + 1;
        }
        assert forall|r: Root| #[trigger] self.payload_timeliness_vote@.contains_key(r)
            implies self.payload_timeliness_vote@[r]@.len() == PTC_SIZE by {
            lemma_map_of_contains(self.payload_timeliness_vote.entries@, r);
            let j = choose|j: int| 0 <= j < self.payload_timeliness_vote.entries@.len()
                && self.payload_timeliness_vote.entries@[j].0 == r;
            lemma_map_of_index(self.payload_timeliness_vote.entries@, j);
        }
        let n = self.payload_data_availability_vote.len();
        let mut i: usize = 0;
        while i < n
            invariant
                self.maps_wf(),
                n == self.payload_data_availability_vote.entries@.len(),
                i <= n,
                forall|j: int|
                    0 <= j < i ==> (#[trigger] self.payload_data_availability_vote.entries@[j]).1@.len()
                        == PTC_SIZE,
            decreases n - i,
        {
            let votes = self.payload_data_availability_vote.value_at(i);
            if votes.len() as u64 != PTC_SIZE {
                let root = self.payload_data_availability_vote.key_at(i);
                proof {
                    lemma_map_of_index(self.payload_data_availability_vote.entries@, i as int);
                    assert(self.payload_data_availability_vote@.contains_key(root));
                    assert(self.payload_data_availability_vote@[root]@.len() != PTC_SIZE);
                }
                return Err(StoreInvariant::DataAvailabilityVotesNotPtcSize(root));
            }
            i = i + 1;
        }
        assert forall|r: Root| #[trigger] self.payload_data_availability_vote@.contains_key(r)
            implies self.payload_data_availability_vote@[r]@.len() == PTC_SIZE by {
            lemma_map_of_contains(self.payload_data_availability_vote.entries@, r);
            let j = choose|j: int| 0 <= j < self.payload_data_availability_vote.entries@.len()
                && self.payload_data_availability_vote.entries@[j].0 == r;
            lemma_map_of_index(self.payload_data_availability_vote.entries@, j);
        }
        let n = self.blocks.len();
        let mut i: usize = 0;
        while i < n
            invariant
                self.maps_wf(),
                n == self.blocks.entries@.len(),
                i <= n,
                forall|j: int|
                    0 <= j < i ==> {
                        let b = #[trigger] self.blocks.entries@[j].1;
                        self.blocks@.contains_key(b.parent_root) ==> self.blocks@[b.parent_root].slot.0
                            < b.slot.0
                    },
            decreases n - i,
        {
            let block = self.blocks.value_at(i);
            proof {
                lemma_map_of_index(self.blocks.entries@, i as int);
            }
            match self.blocks.get(&block.parent_root) {
                Some(parent) => {
                    if parent.slot.0 >= block.slot.0 {
                        let root = self.blocks.key_at(i);
                        return Err(StoreInvariant::BlockNotAfterParent(root));
                    }
                },
                None => {},
            }
            i = i + 1;
        }
        assert forall|r: Root|
            #![trigger self.blocks@[r]]
            self.blocks@.contains_key(r) && self.blocks@.contains_key(self.blocks@[r].parent_root)
                implies self.blocks@[self.blocks@[r].parent_root].slot.0 < self.blocks@[r].slot.0 by {
            lemma_map_of_contains(self.blocks.entries@, r);
            let j = choose|j: int| 0 <= j < self.blocks.entries@.len() && self.blocks.entries@[j].0 == r;
            lemma_map_of_index(self.blocks.entries@, j);
        }
        Ok(())
    }
}

} // verus!
