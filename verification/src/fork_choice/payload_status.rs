//! Rules that resolve a node's empty/full/pending payload status: which branch
//! a child extends, what the payload-timeliness votes say, and how the payload
//! branch breaks ties between equally weighted nodes.
use vstd::prelude::*;

use crate::constants::{DATA_AVAILABILITY_TIMELY_THRESHOLD, PAYLOAD_TIMELY_THRESHOLD};
use crate::containers::block::BeaconBlock;
use crate::error::ForkChoiceError;
use crate::primitives::Root;
use crate::ssz::basic::bytes_equal;

use super::helpers::{is_next_slot, spec_current_slot};
use super::store::{spec_ordinary_rank, ForkChoiceNode, PayloadStatus, Store};

verus! {

/// The payload branch `child` extends: full when its bid builds on the hash
/// its parent's bid promised, otherwise empty.
pub open spec fn spec_parent_payload_status(blocks: Map<Root, BeaconBlock>, child: BeaconBlock) -> Result<
    PayloadStatus,
    ForkChoiceError,
> {
    if !blocks.contains_key(child.parent_root) {
        Err(ForkChoiceError::UnknownParent(child.parent_root))
    } else if child.body.signed_execution_payload_bid.message.parent_block_hash.0@
        == blocks[child.parent_root].body.signed_execution_payload_bid.message.block_hash.0@ {
        Ok(PayloadStatus::Full)
    } else {
        Ok(PayloadStatus::Empty)
    }
}

/// How many votes in `votes` equal `Some(expected)`.
pub open spec fn count_matching(votes: Seq<Option<bool>>, expected: bool) -> nat
    decreases votes.len(),
{
    if votes.len() == 0 {
        0
    } else {
        count_matching(votes.drop_last(), expected) + (if votes.last() == Some(expected) {
            1nat
        } else {
            0nat
        })
    }
}

/// Whether more than `threshold` votes equal `Some(expected)`.
pub open spec fn spec_votes_clear(votes: Seq<Option<bool>>, expected: bool, threshold: u64) -> bool {
    count_matching(votes, expected) > threshold
}

/// The verdict on `expected` for a block: without a recorded payload only
/// `false` is supported; with one, the votes must clear the threshold.
pub open spec fn spec_vote_verdict(verified: bool, votes: Seq<Option<bool>>, expected: bool, threshold: u64) -> bool {
    if !verified {
        !expected
    } else {
        spec_votes_clear(votes, expected, threshold)
    }
}

/// What the payload-timeliness votes say about `root`.
pub open spec fn spec_payload_timeliness(store: Store, root: Root, timely: bool) -> Result<bool, ForkChoiceError> {
    if !store.payload_timeliness_vote@.contains_key(root) {
        Err(ForkChoiceError::UnknownBlock(root))
    } else {
        Ok(
            spec_vote_verdict(
                store.payloads@.contains_key(root),
                store.payload_timeliness_vote@[root]@,
                timely,
                PAYLOAD_TIMELY_THRESHOLD,
            ),
        )
    }
}

/// What the data-availability votes say about `root`.
pub open spec fn spec_payload_data_availability(store: Store, root: Root, available: bool) -> Result<
    bool,
    ForkChoiceError,
> {
    if !store.payload_data_availability_vote@.contains_key(root) {
        Err(ForkChoiceError::UnknownBlock(root))
    } else {
        Ok(
            spec_vote_verdict(
                store.payloads@.contains_key(root),
                store.payload_data_availability_vote@[root]@,
                available,
                DATA_AVAILABILITY_TIMELY_THRESHOLD,
            ),
        )
    }
}

/// Whether `node` is an empty-or-full decision about the previous slot's block.
pub open spec fn spec_previous_slot_decision(store: Store, node: ForkChoiceNode) -> Result<bool, ForkChoiceError> {
    if !store.blocks@.contains_key(node.root) {
        Err(ForkChoiceError::UnknownBlock(node.root))
    } else {
        Ok(store.blocks@[node.root].slot.0 + 1 == spec_current_slot(store) && node.payload_status
            != PayloadStatus::Pending)
    }
}

/// Whether the proposer should extend the previous slot's payload at `root`.
pub open spec fn spec_should_extend_payload(store: Store, root: Root) -> Result<bool, ForkChoiceError> {
    if !store.blocks@.contains_key(root) {
        Err(ForkChoiceError::UnknownBlock(root))
    } else if store.blocks@[root].slot.0 + 1 != spec_current_slot(store) {
        Err(ForkChoiceError::NotPreviousSlot(root))
    } else if !store.payloads@.contains_key(root) {
        Ok(false)
    } else {
        match spec_payload_timeliness(store, root, true) {
            Err(e) => Err(e),
            Ok(timely) => match spec_payload_data_availability(store, root, true) {
                Err(e) => Err(e),
                Ok(available) => if timely && available {
                    Ok(true)
                } else if store.proposer_boost_root.0@ == crate::ssz::basic::zeros(32) {
                    Ok(true)
                } else if !store.blocks@.contains_key(store.proposer_boost_root) {
                    Err(ForkChoiceError::UnknownBlock(store.proposer_boost_root))
                } else if store.blocks@[store.proposer_boost_root].parent_root != root {
                    Ok(true)
                } else {
                    match spec_parent_payload_status(store.blocks@, store.blocks@[store.proposer_boost_root]) {
                        Err(e) => Err(e),
                        Ok(s) => Ok(s == PayloadStatus::Full),
                    }
                },
            },
        }
    }
}

/// The payload-branch tie-break rank of `node`.
pub open spec fn spec_tiebreaker(store: Store, node: ForkChoiceNode) -> Result<u8, ForkChoiceError> {
    match spec_previous_slot_decision(store, node) {
        Err(e) => Err(e),
        Ok(previous) => if previous {
            match node.payload_status {
                PayloadStatus::Empty => Ok(1u8),
                PayloadStatus::Full => match spec_should_extend_payload(store, node.root) {
                    Err(e) => Err(e),
                    Ok(extend) => Ok(
                        if extend {
                            2u8
                        } else {
                            0u8
                        },
                    ),
                },
                PayloadStatus::Pending => Ok(2u8),
            }
        } else {
            Ok(spec_ordinary_rank(node.payload_status))
        },
    }
}

/// Whether the next block should build on the full branch of `head`.
pub open spec fn spec_should_build_on_full(store: Store, head: ForkChoiceNode) -> Result<bool, ForkChoiceError> {
    if head.payload_status == PayloadStatus::Pending {
        Err(ForkChoiceError::BuildOnPendingNode(head.root))
    } else if !store.blocks@.contains_key(head.root) {
        Err(ForkChoiceError::UnknownBlock(head.root))
    } else if store.blocks@[head.root].slot.0 + 1 != spec_current_slot(store) {
        Ok(head.payload_status == PayloadStatus::Full)
    } else if head.payload_status == PayloadStatus::Empty {
        Ok(false)
    } else {
        match spec_payload_timeliness(store, head.root, false) {
            Err(e) => Err(e),
            Ok(late) => if late {
                Ok(false)
            } else {
                match spec_payload_data_availability(store, head.root, false) {
                    Err(e) => Err(e),
                    Ok(unavailable) => Ok(!unavailable),
                }
            },
        }
    }
}

impl Store {
    /// Which payload branch `child_block` extends: full when its bid builds on
    /// the block hash its parent's bid promised, otherwise empty.
    pub fn get_parent_payload_status(&self, child_block: &BeaconBlock) -> (r: Result<PayloadStatus, ForkChoiceError>)
        requires
            self.blocks.wf(),
        ensures
            r == spec_parent_payload_status(self.blocks@, *child_block),
    {
        let parent_root = child_block.parent_root;
        let parent_block = match self.blocks.get(&parent_root) {
            Some(b) => b,
            None => return Err(ForkChoiceError::UnknownParent(parent_root)),
        };
        let child_bid = &child_block.body.signed_execution_payload_bid.message;
        let parent_bid = &parent_block.body.signed_execution_payload_bid.message;
        if bytes_equal(&child_bid.parent_block_hash.0, &parent_bid.block_hash.0) {
            Ok(PayloadStatus::Full)
        } else {
            Ok(PayloadStatus::Empty)
        }
    }

    /// Whether `block` extends its parent's full branch.
    pub fn is_parent_node_full(&self, block: &BeaconBlock) -> (r: Result<bool, ForkChoiceError>)
        requires
            self.blocks.wf(),
        ensures
            match spec_parent_payload_status(self.blocks@, *block) {
                Ok(s) => r == Ok::<bool, ForkChoiceError>(s == PayloadStatus::Full),
                Err(e) => r == Err::<bool, ForkChoiceError>(e),
            },
    {
        Ok(self.get_parent_payload_status(block)? == PayloadStatus::Full)
    }

    /// Whether the payload for `root` has been recorded.
    pub fn is_payload_verified(&self, root: Root) -> (r: bool)
        requires
            self.payloads.wf(),
        ensures
            r == self.payloads@.contains_key(root),
    {
        self.payloads.contains_key(&root)
    }

    /// The verdict of `votes` on `expected` for `root`.
    pub fn payload_vote_verdict(&self, root: Root, votes: &[Option<bool>], expected: bool, threshold: u64) -> (r: bool)
        requires
            self.payloads.wf(),
        ensures
            r == spec_vote_verdict(self.payloads@.contains_key(root), votes@, expected, threshold),
    {
        if !self.is_payload_verified(root) {
            return !expected;
        }
        votes_clear_threshold(votes, expected, threshold)
    }

    /// Whether the payload-timeliness votes support `timely` for `root`.
    pub fn payload_timeliness(&self, root: Root, timely: bool) -> (r: Result<bool, ForkChoiceError>)
        requires
            self.maps_wf(),
        ensures
            r == spec_payload_timeliness(*self, root, timely),
    {
        let votes = match self.payload_timeliness_vote.get(&root) {
            Some(v) => v,
            None => return Err(ForkChoiceError::UnknownBlock(root)),
        };
        Ok(self.payload_vote_verdict(root, votes.as_slice(), timely, PAYLOAD_TIMELY_THRESHOLD))
    }

    /// Whether the data-availability votes support `available` for `root`.
    pub fn payload_data_availability(&self, root: Root, available: bool) -> (r: Result<bool, ForkChoiceError>)
        requires
            self.maps_wf(),
        ensures
            r == spec_payload_data_availability(*self, root, available),
    {
        let votes = match self.payload_data_availability_vote.get(&root) {
            Some(v) => v,
            None => return Err(ForkChoiceError::UnknownBlock(root)),
        };
        Ok(self.payload_vote_verdict(root, votes.as_slice(), available, DATA_AVAILABILITY_TIMELY_THRESHOLD))
    }

    /// Whether `node` is an empty-or-full decision about the previous slot's block.
    pub fn is_previous_slot_payload_decision(&self, node: ForkChoiceNode) -> (r: Result<bool, ForkChoiceError>)
        requires
            self.blocks.wf(),
        ensures
            r == spec_previous_slot_decision(*self, node),
    {
        let block_slot = match self.blocks.get(&node.root) {
            Some(b) => b.slot,
            None => return Err(ForkChoiceError::UnknownBlock(node.root)),
        };
        let is_previous_slot = is_next_slot(block_slot, self.get_current_slot());
        Ok(is_previous_slot && node.is_payload_decision())
    }

    /// Whether the proposer should extend the previous slot's payload at `root`.
    pub fn should_extend_payload(&self, root: Root) -> (r: Result<bool, ForkChoiceError>)
        requires
            self.maps_wf(),
        ensures
            r == spec_should_extend_payload(*self, root),
    {
        let block_slot = match self.blocks.get(&root) {
            Some(b) => b.slot,
            None => return Err(ForkChoiceError::UnknownBlock(root)),
        };
        if !is_next_slot(block_slot, self.get_current_slot()) {
            return Err(ForkChoiceError::NotPreviousSlot(root));
        }
        if !self.is_payload_verified(root) {
            return Ok(false);
        }
        let payload_is_timely = self.payload_timeliness(root, true)?;
        let payload_data_is_available = self.payload_data_availability(root, true)?;
        if payload_is_timely && payload_data_is_available {
            return Ok(true);
        }
        let proposer_root = self.proposer_boost_root;
        if proposer_root.is_zero() {
            return Ok(true);
        }
        let proposer_block = match self.blocks.get(&proposer_root) {
            Some(b) => b,
            None => return Err(ForkChoiceError::UnknownBlock(proposer_root)),
        };
        if !proposer_block.parent_root.equals(&root) {
            return Ok(true);
        }
        self.is_parent_node_full(proposer_block)
    }

    /// The payload-branch tie-break rank of `node`: for a previous-slot
    /// decision, empty ranks 1 and full ranks 2 when the payload should be
    /// extended, else 0; otherwise the ordinary rank.
    pub fn get_payload_status_tiebreaker(&self, node: ForkChoiceNode) -> (r: Result<u8, ForkChoiceError>)
        requires
            self.maps_wf(),
        ensures
            r == spec_tiebreaker(*self, node),
    {
        if self.is_previous_slot_payload_decision(node)? {
            match node.payload_status {
                PayloadStatus::Empty => Ok(1),
                PayloadStatus::Full => {
                    if self.should_extend_payload(node.root)? {
                        Ok(2)
                    } else {
                        Ok(0)
                    }
                },
                PayloadStatus::Pending => Ok(2),
            }
        } else {
            Ok(node.payload_status.ordinary_tiebreaker_rank())
        }
    }

    /// Whether the next block should build on the full branch of `head`.
    pub fn should_build_on_full(&self, head: ForkChoiceNode) -> (r: Result<bool, ForkChoiceError>)
        requires
            self.maps_wf(),
        ensures
            r == spec_should_build_on_full(*self, head),
    {
        if head.payload_status == PayloadStatus::Pending {
            return Err(ForkChoiceError::BuildOnPendingNode(head.root));
        }
        let head_block_slot = match self.blocks.get(&head.root) {
            Some(b) => b.slot,
            None => return Err(ForkChoiceError::UnknownBlock(head.root)),
        };
        if !is_next_slot(head_block_slot, self.get_current_slot()) {
            return Ok(head.payload_status == PayloadStatus::Full);
        }
        if head.payload_status == PayloadStatus::Empty {
            return Ok(false);
        }
        if self.payload_timeliness(head.root, false)? {
            return Ok(false);
        }
        if self.payload_data_availability(head.root, false)? {
            return Ok(false);
        }
        Ok(true)
    }
}

/// Whether more than `threshold` of `votes` equal `Some(expected)`.
pub fn votes_clear_threshold(votes: &[Option<bool>], expected: bool, threshold: u64) -> (r: bool)
    ensures
        r == spec_votes_clear(votes@, expected, threshold),
{
    let n = votes.len();
    let mut count: u64 = 0;
    let mut i: usize = 0;
    while i < n
        invariant
            n == votes@.len(),
            i <= n,
            count == count_matching(votes@.subrange(0, i as int), expected),
            count <= i,
        decreases n - i,
    {
        assert(votes@.subrange(0, i + 1).drop_last() =~= votes@.subrange(0, i as int));
        let matches = match votes[i] {
            Some(v) => v == expected,
            None => false,
        };
        if matches {
            count = count + 1;
        }
        i = i + 1;
    }
    assert(votes@.subrange(0, n as int) =~= votes@);
    count > threshold
}

/// Between the two resolved branches of the previous slot's block, the
/// empty branch ranks 1, and the full branch outranks it exactly when the
/// payload should be extended.
pub proof fn lemma_full_outranks_empty_exactly_when_extending(store: Store, root: Root)
    requires
        store.blocks@.contains_key(root),
        store.blocks@[root].slot.0 + 1 == spec_current_slot(store),
        spec_should_extend_payload(store, root) is Ok,
    ensures
        spec_tiebreaker(store, ForkChoiceNode { root, payload_status: PayloadStatus::Empty }) == Ok::<
            u8,
            ForkChoiceError,
        >(1u8),
        spec_tiebreaker(store, ForkChoiceNode { root, payload_status: PayloadStatus::Full }) matches Ok(full) && (
        full > 1 <==> spec_should_extend_payload(store, root) == Ok::<bool, ForkChoiceError>(true)),
{
}

/// Away from the previous slot's decision, ties go to the pending node,
/// then the full branch, then the empty one: they rank 2, 1 and 0; a
/// pending node ranks 2 in every slot.
pub proof fn lemma_ordinary_tiebreak_order(store: Store, root: Root)
    requires
        store.blocks@.contains_key(root),
    ensures
        spec_tiebreaker(store, ForkChoiceNode { root, payload_status: PayloadStatus::Pending }) == Ok::<
            u8,
            ForkChoiceError,
        >(2u8),
        store.blocks@[root].slot.0 + 1 != spec_current_slot(store) ==> {
            &&& spec_tiebreaker(store, ForkChoiceNode { root, payload_status: PayloadStatus::Full }) == Ok::<
                u8,
                ForkChoiceError,
            >(1u8)
            &&& spec_tiebreaker(store, ForkChoiceNode { root, payload_status: PayloadStatus::Empty }) == Ok::<
                u8,
                ForkChoiceError,
            >(0u8)
        },
{
}

/// The full branch of the previous slot's block is extended unless the
/// evidence is against it: with no recorded payload it is not; when the
/// committee vouched that the payload was timely and its data available it
/// is; and otherwise it is declined only when this slot's boosted block is
/// a child of the block that built on its empty branch.
pub proof fn lemma_extend_payload_rules(store: Store, root: Root)
    requires
        store.blocks@.contains_key(root),
        store.blocks@[root].slot.0 + 1 == spec_current_slot(store),
    ensures
        !store.payloads@.contains_key(root) ==> spec_should_extend_payload(store, root) == Ok::<
            bool,
            ForkChoiceError,
        >(false),
        store.payloads@.contains_key(root) && spec_payload_timeliness(store, root, true) == Ok::<
            bool,
            ForkChoiceError,
        >(true) && spec_payload_data_availability(store, root, true) == Ok::<bool, ForkChoiceError>(true)
            ==> spec_should_extend_payload(store, root) == Ok::<bool, ForkChoiceError>(true),
        store.payloads@.contains_key(root) && spec_should_extend_payload(store, root) == Ok::<
            bool,
            ForkChoiceError,
        >(false) ==> {
            &&& store.proposer_boost_root.0@ != crate::ssz::basic::zeros(32)
            &&& store.blocks@.contains_key(store.proposer_boost_root)
            &&& store.blocks@[store.proposer_boost_root].parent_root == root
            &&& spec_parent_payload_status(store.blocks@, store.blocks@[store.proposer_boost_root]) == Ok::<
                PayloadStatus,
                ForkChoiceError,
            >(PayloadStatus::Empty)
        },
{
    if store.payloads@.contains_key(root) && spec_should_extend_payload(store, root) == Ok::<bool, ForkChoiceError>(
        false,
    ) {
        let boost = store.proposer_boost_root;
        if store.blocks@.contains_key(boost) && store.blocks@[boost].parent_root == root {
            lemma_parent_status_is_resolved(store.blocks@, store.blocks@[boost]);
        }
    }
}

/// A parent's payload status, when known, is a resolved branch.
proof fn lemma_parent_status_is_resolved(blocks: Map<Root, BeaconBlock>, child: BeaconBlock)
    ensures
        spec_parent_payload_status(blocks, child) matches Ok(s) ==> s != PayloadStatus::Pending,
{
}

} // verus!
