//! Head selection: expand payload branches and walk to the heaviest leaf.
//!
//! A pending node opens into its empty branch, and into its full branch once
//! the block's payload is recorded. A resolved node opens into the child
//! blocks whose bid extends that branch.
use vstd::prelude::*;

use crate::containers::block::BeaconBlock;
use crate::error::ForkChoiceError;
use crate::primitives::byte_arrays::lemma_root_eq;
use crate::primitives::{Gwei, Root};

use super::filter::{
    lemma_filter_tree_from_store, spec_deref_blocks, spec_filter_tree, spec_from_store,
};
use super::keyed_map::{lemma_map_of_index, map_of, unique_keys, KeyedMap};
use super::payload_status::{spec_parent_payload_status, spec_tiebreaker};
use super::store::{ForkChoiceNode, PayloadStatus, Store};
use super::weight::{spec_boost_fits, spec_get_weight, spec_states_wf};

verus! {

/// Every entry is the stored block under its root.
pub open spec fn spec_entries_from_store(store: Store, entries: Seq<(Root, &BeaconBlock)>) -> bool {
    forall|i: int|
        0 <= i < entries.len() ==> store.blocks@.contains_key(#[trigger] entries[i].0) && *entries[i].1
            == store.blocks@[entries[i].0]
}

/// The pending nodes of the first `n` entries that extend the branch `node`.
pub open spec fn spec_block_children(
    store: Store,
    entries: Seq<(Root, &BeaconBlock)>,
    node: ForkChoiceNode,
    n: nat,
) -> Result<Seq<ForkChoiceNode>, ForkChoiceError>
    decreases n,
{
    if n == 0 {
        Ok(Seq::empty())
    } else {
        match spec_block_children(store, entries, node, (n - 1) as nat) {
            Err(e) => Err(e),
            Ok(kids) => {
                let root = entries[n - 1].0;
                let block = *entries[n - 1].1;
                if block.parent_root != node.root {
                    Ok(kids)
                } else {
                    match spec_parent_payload_status(store.blocks@, block) {
                        Err(e) => Err(e),
                        Ok(status) => if status != node.payload_status {
                            Ok(kids)
                        } else {
                            Ok(kids.push(ForkChoiceNode { root, payload_status: PayloadStatus::Pending }))
                        },
                    }
                }
            },
        }
    }
}

/// The nodes reachable from `node` in one step: a pending node's empty
/// branch and, once its payload is recorded, its full branch; a resolved
/// node's child blocks that extend its branch.
pub open spec fn spec_node_children(store: Store, entries: Seq<(Root, &BeaconBlock)>, node: ForkChoiceNode) -> Result<
    Seq<ForkChoiceNode>,
    ForkChoiceError,
> {
    if node.payload_status == PayloadStatus::Pending {
        let empty = ForkChoiceNode { root: node.root, payload_status: PayloadStatus::Empty };
        let full = ForkChoiceNode { root: node.root, payload_status: PayloadStatus::Full };
        Ok(
            if store.payloads@.contains_key(node.root) {
                seq![empty, full]
            } else {
                seq![empty]
            },
        )
    } else {
        spec_block_children(store, entries, node, entries.len())
    }
}

/// `a` follows `b` in byte order, comparing from position `i` on.
pub open spec fn spec_lex_gt(a: Seq<u8>, b: Seq<u8>, i: nat) -> bool
    decreases a.len() - i,
{
    if i >= a.len() || i >= b.len() {
        false
    } else if a[i as int] != b[i as int] {
        a[i as int] > b[i as int]
    } else {
        spec_lex_gt(a, b, i + 1)
    }
}

/// `a` follows `b` in the byte order of roots.
pub open spec fn spec_root_gt(a: Root, b: Root) -> bool {
    spec_lex_gt(a.0@, b.0@, 0)
}

/// `a` ranks above `b`: by weight, then by root, then by tie-break rank.
pub open spec fn spec_key_gt(a: (Gwei, Root, u8), b: (Gwei, Root, u8)) -> bool {
    a.0.0 > b.0.0 || (a.0.0 == b.0.0 && (spec_root_gt(a.1, b.1) || (a.1 == b.1 && a.2 > b.2)))
}

/// The key that ranks `node` during the head walk.
pub open spec fn spec_head_key(store: Store, node: ForkChoiceNode) -> Result<(Gwei, Root, u8), ForkChoiceError> {
    match spec_get_weight(store, node) {
        Err(e) => Err(e),
        Ok(w) => match spec_tiebreaker(store, node) {
            Err(e) => Err(e),
            Ok(t) => Ok((w, node.root, t)),
        },
    }
}

/// The first child with the largest key among the first `n` children,
/// ranked left to right, with its key.
pub open spec fn spec_select(store: Store, children: Seq<ForkChoiceNode>, n: nat) -> Result<
    Option<(ForkChoiceNode, (Gwei, Root, u8))>,
    ForkChoiceError,
>
    decreases n,
{
    if n == 0 {
        Ok(None)
    } else {
        match spec_select(store, children, (n - 1) as nat) {
            Err(e) => Err(e),
            Ok(best) => match spec_head_key(store, children[n - 1]) {
                Err(e) => Err(e),
                Ok(key) => match best {
                    None => Ok(Some((children[n - 1], key))),
                    Some((b, bk)) => if spec_key_gt(key, bk) {
                        Ok(Some((children[n - 1], key)))
                    } else {
                        Ok(Some((b, bk)))
                    },
                },
            },
        }
    }
}

/// A measure that each step of the head walk lowers.
pub open spec fn spec_head_measure(store: Store, node: ForkChoiceNode) -> nat {
    (2 * (u64::MAX - store.blocks@[node.root].slot.0) + if node.payload_status == PayloadStatus::Pending {
        1int
    } else {
        0int
    }) as nat
}

/// The head reached by walking from `node`: step to the heaviest child until
/// a node has none.
pub open spec fn spec_head_from(store: Store, entries: Seq<(Root, &BeaconBlock)>, node: ForkChoiceNode) -> Result<
    ForkChoiceNode,
    ForkChoiceError,
>
    decreases spec_head_measure(store, node),
    when store.wf() && store.blocks@.contains_key(node.root) && spec_entries_from_store(store, entries)
{
    match spec_node_children(store, entries, node) {
        Err(e) => Err(e),
        Ok(kids) => match spec_select(store, kids, kids.len()) {
            Err(e) => Err(e),
            Ok(None) => Ok(node),
            Ok(Some((next, _))) => {
                proof {
                    lemma_children_descend(store, entries, node);
                    lemma_select_member(store, kids, kids.len());
                }
                spec_head_from(store, entries, next)
            },
        },
    }
}

/// Block children are stored blocks below `node`.
pub proof fn lemma_block_children_descend(
    store: Store,
    entries: Seq<(Root, &BeaconBlock)>,
    node: ForkChoiceNode,
    n: nat,
)
    requires
        store.wf(),
        store.blocks@.contains_key(node.root),
        node.payload_status != PayloadStatus::Pending,
        spec_entries_from_store(store, entries),
        n <= entries.len(),
    ensures
        spec_block_children(store, entries, node, n) matches Ok(kids) ==> forall|i: int|
            0 <= i < kids.len() ==> store.blocks@.contains_key(#[trigger] kids[i].root) && spec_head_measure(
                store,
                kids[i],
            ) < spec_head_measure(store, node),
    decreases n,
{
    if n > 0 {
        lemma_block_children_descend(store, entries, node, (n - 1) as nat);
        let root = entries[n - 1].0;
        assert(store.blocks@.contains_key(entries[n - 1].0));
    }
}

/// Every child of `node` is a stored block lower in the walk's measure.
pub proof fn lemma_children_descend(store: Store, entries: Seq<(Root, &BeaconBlock)>, node: ForkChoiceNode)
    requires
        store.wf(),
        store.blocks@.contains_key(node.root),
        spec_entries_from_store(store, entries),
    ensures
        spec_node_children(store, entries, node) matches Ok(kids) ==> forall|i: int|
            0 <= i < kids.len() ==> store.blocks@.contains_key(#[trigger] kids[i].root) && spec_head_measure(
                store,
                kids[i],
            ) < spec_head_measure(store, node),
{
    if node.payload_status != PayloadStatus::Pending {
        lemma_block_children_descend(store, entries, node, entries.len());
    }
}

/// The selected child is one of the children.
pub proof fn lemma_select_member(store: Store, children: Seq<ForkChoiceNode>, n: nat)
    requires
        n <= children.len(),
    ensures
        spec_select(store, children, n) matches Ok(Some((c, _))) ==> exists|i: int|
            0 <= i < n && #[trigger] children[i] == c,
    decreases n,
{
    if n > 0 {
        lemma_select_member(store, children, (n - 1) as nat);
        assert(children[n - 1] == children[n - 1]);
    }
}

/// The entries of a well-formed map of stored blocks are the stored blocks.
proof fn lemma_entries_from_store(store: Store, entries: Seq<(Root, &BeaconBlock)>)
    requires
        unique_keys(entries),
        spec_from_store(store, spec_deref_blocks(map_of(entries))),
    ensures
        spec_entries_from_store(store, entries),
{
    assert forall|i: int| 0 <= i < entries.len() implies store.blocks@.contains_key(#[trigger] entries[i].0)
        && *entries[i].1 == store.blocks@[entries[i].0] by {
        lemma_map_of_index(entries, i);
        let k = entries[i].0;
        assert(spec_deref_blocks(map_of(entries)).contains_key(k));
    }
}

/// Whether root `a` follows root `b` in byte order.
fn root_gt(a: &Root, b: &Root) -> (r: bool)
    ensures
        r == spec_root_gt(*a, *b),
{
    let mut i: usize = 0;
    while i < 32
        invariant
            i <= 32,
            a.0@.len() == 32,
            b.0@.len() == 32,
            spec_lex_gt(a.0@, b.0@, 0) == spec_lex_gt(a.0@, b.0@, i as nat),
        decreases 32 - i,
    {
        if a.0[i] != b.0[i] {
            return a.0[i] > b.0[i];
        }
        i = i + 1;
    }
    false
}

/// Whether key `a` ranks above key `b`.
fn key_gt(a: &(Gwei, Root, u8), b: &(Gwei, Root, u8)) -> (r: bool)
    ensures
        r == spec_key_gt(*a, *b),
{
    if a.0.0 != b.0.0 {
        return a.0.0 > b.0.0;
    }
    if root_gt(&a.1, &b.1) {
        return true;
    }
    a.1.equals(&b.1) && a.2 > b.2
}

/// A viable leaf of the fork-choice tree with its current score.
#[derive(Debug, Clone, Copy, PartialEq, Eq)]
pub struct WeightedForkChoiceNode {
    /// Beacon block root for the viable node.
    pub root: Root,
    /// Payload branch represented by this node.
    pub payload_status: PayloadStatus,
    /// Current fork-choice score for this node.
    pub weight: Gwei,
}

/// What the head walk may give on `store`: an unknown justified block, the
/// filter's error, or the walk from the justified block as a pending node
/// over the filtered tree's blocks, in some order.
pub open spec fn spec_head_outcome(store: Store, r: Result<ForkChoiceNode, ForkChoiceError>) -> bool {
    &&& !store.blocks@.contains_key(store.justified_checkpoint.root) ==> r == Err::<
        ForkChoiceNode,
        ForkChoiceError,
    >(ForkChoiceError::UnknownBlock(store.justified_checkpoint.root))
    &&& store.blocks@.contains_key(store.justified_checkpoint.root) ==> match spec_filter_tree(
        store,
        store.justified_checkpoint.root,
    ) {
        Err(e) => r == Err::<ForkChoiceNode, ForkChoiceError>(e),
        Ok((_, m)) => exists|entries: Seq<(Root, &BeaconBlock)>|
            unique_keys(entries) && spec_deref_blocks(map_of(entries)) == m && r == spec_head_from(
                store,
                entries,
                ForkChoiceNode { root: store.justified_checkpoint.root, payload_status: PayloadStatus::Pending },
            ),
    }
}

impl Store {
    /// Expand `node` into the nodes reachable from it in one step.
    pub fn get_node_children(&self, blocks: &KeyedMap<Root, &BeaconBlock>, node: ForkChoiceNode) -> (r: Result<
        Vec<ForkChoiceNode>,
        ForkChoiceError,
    >)
        requires
            self.wf(),
        ensures
            match spec_node_children(*self, blocks.entries@, node) {
                Ok(kids) => r matches Ok(v) && v@ == kids,
                Err(e) => r == Err::<Vec<ForkChoiceNode>, ForkChoiceError>(e),
            },
    {
        if node.payload_status == PayloadStatus::Pending {
            let mut child_nodes: Vec<ForkChoiceNode> = Vec::new();
            child_nodes.push(ForkChoiceNode::empty(node.root));
            if self.is_payload_verified(node.root) {
                child_nodes.push(ForkChoiceNode::full(node.root));
            }
            return Ok(child_nodes);
        }
        let mut child_nodes: Vec<ForkChoiceNode> = Vec::new();
        let n = blocks.len();
        let mut i: usize = 0;
        while i < n
            invariant
                self.wf(),
                n == blocks.entries@.len(),
                i <= n,
                node.payload_status != PayloadStatus::Pending,
                spec_block_children(*self, blocks.entries@, node, i as nat) == Ok::<
                    Seq<ForkChoiceNode>,
                    ForkChoiceError,
                >(child_nodes@),
            decreases n - i,
        {
            let root = blocks.key_at(i);
            let block: &BeaconBlock = *blocks.value_at(i);
            if !block.parent_root.equals(&node.root) {
                i = i + 1;
                continue;
            }
            let parent_status = match self.get_parent_payload_status(block) {
                Ok(s) => s,
                Err(e) => {
                    proof {
                        lemma_block_children_error_sticks(*self, blocks.entries@, node, (i + 1) as nat, n as nat);
                    }
                    return Err(e);
                },
            };
            if node.payload_status != parent_status {
                i = i + 1;
                continue;
            }
            child_nodes.push(ForkChoiceNode::pending(root));
            i = i + 1;
        }
        Ok(child_nodes)
    }

    /// The key that ranks `node` during the head walk: its weight, then its
    /// root, then its payload-status tie-break rank.
    pub fn head_selection_key(&self, node: ForkChoiceNode) -> (r: Result<(Gwei, Root, u8), ForkChoiceError>)
        requires
            self.wf(),
            spec_states_wf(*self),
            spec_boost_fits(*self),
        ensures
            r == spec_head_key(*self, node),
    {
        let weight = self.get_weight(node)?;
        let rank = self.get_payload_status_tiebreaker(node)?;
        Ok((weight, node.root, rank))
    }

    /// Pick the first child with the largest `head_selection_key`, or `None`
    /// when `children` is empty.
    pub fn select_heaviest_child(&self, children: &[ForkChoiceNode]) -> (r: Result<
        Option<ForkChoiceNode>,
        ForkChoiceError,
    >)
        requires
            self.wf(),
            spec_states_wf(*self),
            spec_boost_fits(*self),
        ensures
            match spec_select(*self, children@, children@.len()) {
                Err(e) => r == Err::<Option<ForkChoiceNode>, ForkChoiceError>(e),
                Ok(None) => r == Ok::<Option<ForkChoiceNode>, ForkChoiceError>(None),
                Ok(Some((c, _))) => r == Ok::<Option<ForkChoiceNode>, ForkChoiceError>(Some(c)),
            },
    {
        let mut heaviest: Option<(ForkChoiceNode, (Gwei, Root, u8))> = None;
        let mut i: usize = 0;
        while i < children.len()
            invariant
                self.wf(),
                spec_states_wf(*self),
                spec_boost_fits(*self),
                i <= children@.len(),
                spec_select(*self, children@, i as nat) == Ok::<
                    Option<(ForkChoiceNode, (Gwei, Root, u8))>,
                    ForkChoiceError,
                >(heaviest),
            decreases children@.len() - i,
        {
            let child = children[i];
            let key = match self.head_selection_key(child) {
                Ok(k) => k,
                Err(e) => {
                    proof {
                        lemma_select_error_sticks(*self, children@, (i + 1) as nat, children@.len());
                    }
                    return Err(e);
                },
            };
            let replace = match &heaviest {
                None => true,
                Some((_, current)) => key_gt(&key, current),
            };
            if replace {
                heaviest = Some((child, key));
            }
            i = i + 1;
        }
        match heaviest {
            None => Ok(None),
            Some((c, _)) => Ok(Some(c)),
        }
    }

    /// Walk from the justified checkpoint down to the head: start at the
    /// justified root as a pending node and step to the heaviest child until
    /// a node has none. Only blocks that survive the viability filter are in
    /// play; the filtered tree keeps no particular order, so which error is
    /// reported when several children fail depends on its order.
    pub fn get_head(&self) -> (r: Result<ForkChoiceNode, ForkChoiceError>)
        requires
            self.wf(),
            spec_states_wf(*self),
            spec_boost_fits(*self),
        ensures
            spec_head_outcome(*self, r),
    {
        let blocks = self.get_filtered_block_tree()?;
        let start = ForkChoiceNode::pending(self.justified_checkpoint.root);
        let ghost entries = blocks.entries@;
        proof {
            lemma_filter_tree_from_store(*self, self.justified_checkpoint.root);
            lemma_entries_from_store(*self, entries);
        }
        let mut head = start;
        loop
            invariant
                self.wf(),
                spec_states_wf(*self),
                spec_boost_fits(*self),
                entries == blocks.entries@,
                unique_keys(entries),
                spec_entries_from_store(*self, entries),
                self.blocks@.contains_key(self.justified_checkpoint.root),
                start == (ForkChoiceNode {
                    root: self.justified_checkpoint.root,
                    payload_status: PayloadStatus::Pending,
                }),
                spec_filter_tree(*self, self.justified_checkpoint.root) matches Ok((_, m)) && spec_deref_blocks(
                    map_of(entries),
                ) == m,
                self.blocks@.contains_key(head.root),
                spec_head_from(*self, entries, start) == spec_head_from(*self, entries, head),
            decreases spec_head_measure(*self, head),
        {
            let children = self.get_node_children(&blocks, head)?;
            proof {
                lemma_children_descend(*self, entries, head);
                lemma_select_member(*self, children@, children@.len());
            }
            match self.select_heaviest_child(children.as_slice())? {
                Some(next) => {
                    head = next;
                },
                None => {
                    return Ok(head);
                },
            }
        }
    }
}

/// List every viable leaf node below `start` together with its weight, in
/// the order of a depth-first walk that takes later children first.
pub open spec fn spec_viable_leaves(store: Store, entries: Seq<(Root, &BeaconBlock)>, node: ForkChoiceNode) -> Result<
    Seq<WeightedForkChoiceNode>,
    ForkChoiceError,
>
    decreases spec_head_measure(store, node), 1nat, 0nat,
    when store.wf() && store.blocks@.contains_key(node.root) && spec_entries_from_store(store, entries)
{
    match spec_node_children(store, entries, node) {
        Err(e) => Err(e),
        Ok(kids) => if kids.len() == 0 {
            match spec_get_weight(store, node) {
                Err(e) => Err(e),
                Ok(weight) => Ok(
                    seq![WeightedForkChoiceNode { root: node.root, payload_status: node.payload_status, weight }],
                ),
            }
        } else {
            proof {
                lemma_children_descend(store, entries, node);
            }
            spec_viable_leaves_of(store, entries, node, kids, kids.len())
        },
    }
}

/// The viable leaves below the last `n` of `kids`, children of `parent`,
/// taking the last child first.
pub open spec fn spec_viable_leaves_of(
    store: Store,
    entries: Seq<(Root, &BeaconBlock)>,
    parent: ForkChoiceNode,
    kids: Seq<ForkChoiceNode>,
    n: nat,
) -> Result<Seq<WeightedForkChoiceNode>, ForkChoiceError>
    decreases spec_head_measure(store, parent), 0nat, n,
    when store.wf() && store.blocks@.contains_key(parent.root) && spec_entries_from_store(store, entries) && n
        <= kids.len() && (forall|i: int|
        0 <= i < kids.len() ==> store.blocks@.contains_key(#[trigger] kids[i].root) && spec_head_measure(
            store,
            kids[i],
        ) < spec_head_measure(store, parent))
{
    if n == 0 {
        Ok(Seq::empty())
    } else {
        match spec_viable_leaves_of(store, entries, parent, kids, (n - 1) as nat) {
            Err(e) => Err(e),
            Ok(found) => match spec_viable_leaves(store, entries, kids[kids.len() - n]) {
                Err(e) => Err(e),
                Ok(more) => Ok(found + more),
            },
        }
    }
}

/// List every viable leaf node together with its current weight, walking
/// the same filtered tree and branch expansion as head selection.
pub fn get_viable_for_head_nodes(store: &Store) -> (r: Result<Vec<WeightedForkChoiceNode>, ForkChoiceError>)
    requires
        store.wf(),
        spec_states_wf(*store),
        spec_boost_fits(*store),
    ensures
        !store.blocks@.contains_key(store.justified_checkpoint.root) ==> r == Err::<
            Vec<WeightedForkChoiceNode>,
            ForkChoiceError,
        >(ForkChoiceError::UnknownBlock(store.justified_checkpoint.root)),
        store.blocks@.contains_key(store.justified_checkpoint.root) ==> match spec_filter_tree(
            *store,
            store.justified_checkpoint.root,
        ) {
            Err(e) => r == Err::<Vec<WeightedForkChoiceNode>, ForkChoiceError>(e),
            Ok((_, m)) => exists|entries: Seq<(Root, &BeaconBlock)>|
                unique_keys(entries) && spec_deref_blocks(map_of(entries)) == m && match spec_viable_leaves(
                    *store,
                    entries,
                    ForkChoiceNode { root: store.justified_checkpoint.root, payload_status: PayloadStatus::Pending },
                ) {
                    Ok(leaves) => r matches Ok(v) && v@ == leaves,
                    Err(e) => r == Err::<Vec<WeightedForkChoiceNode>, ForkChoiceError>(e),
                },
        },
{
    let blocks = store.get_filtered_block_tree()?;
    let start = ForkChoiceNode::pending(store.justified_checkpoint.root);
    proof {
        lemma_filter_tree_from_store(*store, store.justified_checkpoint.root);
        lemma_entries_from_store(*store, blocks.entries@);
    }
    let mut out: Vec<WeightedForkChoiceNode> = Vec::new();
    collect_viable_leaves(store, &blocks, start, &mut out)?;
    proof {
        if let Ok(leaves) = spec_viable_leaves(*store, blocks.entries@, start) {
            assert(Seq::<WeightedForkChoiceNode>::empty() + leaves =~= leaves);
        }
    }
    Ok(out)
}

/// Append the viable leaves below `node` to `out`.
fn collect_viable_leaves(
    store: &Store,
    blocks: &KeyedMap<Root, &BeaconBlock>,
    node: ForkChoiceNode,
    out: &mut Vec<WeightedForkChoiceNode>,
) -> (r: Result<(), ForkChoiceError>)
    requires
        store.wf(),
        spec_states_wf(*store),
        spec_boost_fits(*store),
        store.blocks@.contains_key(node.root),
        spec_entries_from_store(*store, blocks.entries@),
    ensures
        match spec_viable_leaves(*store, blocks.entries@, node) {
            Ok(leaves) => r is Ok && final(out)@ == old(out)@ + leaves,
            Err(e) => r == Err::<(), ForkChoiceError>(e),
        },
    decreases spec_head_measure(*store, node), 1nat, 0nat,
{
    let children = store.get_node_children(blocks, node)?;
    if children.len() == 0 {
        let weight = store.get_weight(node)?;
        out.push(WeightedForkChoiceNode { root: node.root, payload_status: node.payload_status, weight });
        return Ok(());
    }
    proof {
        lemma_children_descend(*store, blocks.entries@, node);
    }
    let ghost start = out@;
    let n = children.len();
    let mut k: usize = 0;
    while k < n
        invariant
            store.wf(),
            spec_states_wf(*store),
            spec_boost_fits(*store),
            store.blocks@.contains_key(node.root),
            spec_entries_from_store(*store, blocks.entries@),
            n == children@.len(),
            n > 0,
            k <= n,
            spec_node_children(*store, blocks.entries@, node) == Ok::<Seq<ForkChoiceNode>, ForkChoiceError>(
                children@,
            ),
            forall|i: int|
                0 <= i < children@.len() ==> store.blocks@.contains_key(#[trigger] children@[i].root)
                    && spec_head_measure(*store, children@[i]) < spec_head_measure(*store, node),
            spec_viable_leaves_of(*store, blocks.entries@, node, children@, k as nat) matches Ok(found) && out@
                == start + found,
        decreases n - k,
    {
        let child = children[n - 1 - k];
        let ghost before = out@;
        match collect_viable_leaves(store, blocks, child, out) {
            Ok(()) => {},
            Err(e) => {
                proof {
                    lemma_leaves_of_error_sticks(*store, blocks.entries@, node, children@, (k + 1) as nat, n as nat);
                }
                return Err(e);
            },
        }
        proof {
            let found = spec_viable_leaves_of(*store, blocks.entries@, node, children@, k as nat)->Ok_0;
            let more = spec_viable_leaves(*store, blocks.entries@, child)->Ok_0;
            assert(out@ =~= start + (found + more));
        }
        k = k + 1;
    }
    Ok(())
}

/// Once a walk over some of the children fails, walking more fails the same way.
proof fn lemma_leaves_of_error_sticks(
    store: Store,
    entries: Seq<(Root, &BeaconBlock)>,
    parent: ForkChoiceNode,
    kids: Seq<ForkChoiceNode>,
    k: nat,
    m: nat,
)
    requires
        store.wf(),
        store.blocks@.contains_key(parent.root),
        spec_entries_from_store(store, entries),
        k <= m <= kids.len(),
        forall|i: int|
            0 <= i < kids.len() ==> store.blocks@.contains_key(#[trigger] kids[i].root) && spec_head_measure(
                store,
                kids[i],
            ) < spec_head_measure(store, parent),
        spec_viable_leaves_of(store, entries, parent, kids, k) is Err,
    ensures
        spec_viable_leaves_of(store, entries, parent, kids, m) == spec_viable_leaves_of(store, entries, parent, kids, k),
    decreases m - k,
{
    if k < m {
        lemma_leaves_of_error_sticks(store, entries, parent, kids, k, (m - 1) as nat);
    }
}

/// Once gathering children from some entries fails, gathering from more fails the same way.
proof fn lemma_block_children_error_sticks(
    store: Store,
    entries: Seq<(Root, &BeaconBlock)>,
    node: ForkChoiceNode,
    k: nat,
    m: nat,
)
    requires
        k <= m,
        spec_block_children(store, entries, node, k) is Err,
    ensures
        spec_block_children(store, entries, node, m) == spec_block_children(store, entries, node, k),
    decreases m - k,
{
    if k < m {
        lemma_block_children_error_sticks(store, entries, node, k, (m - 1) as nat);
    }
}

/// Once ranking some children fails, ranking more fails the same way.
proof fn lemma_select_error_sticks(store: Store, children: Seq<ForkChoiceNode>, k: nat, m: nat)
    requires
        k <= m,
        spec_select(store, children, k) is Err,
    ensures
        spec_select(store, children, m) == spec_select(store, children, k),
    decreases m - k,
{
    if k < m {
        lemma_select_error_sticks(store, children, k, (m - 1) as nat);
    }
}


/// Ranking a non-empty list of children never yields no child.
proof fn lemma_select_some(store: Store, children: Seq<ForkChoiceNode>, n: nat)
    requires
        n > 0,
    ensures
        spec_select(store, children, n) != Ok::<Option<(ForkChoiceNode, (Gwei, Root, u8))>, ForkChoiceError>(None),
{
}

/// Byte order on equal-length byte strings is transitive.
proof fn lemma_lex_gt_transitive(a: Seq<u8>, b: Seq<u8>, c: Seq<u8>, i: nat)
    requires
        a.len() == b.len() == c.len(),
        spec_lex_gt(a, b, i),
        spec_lex_gt(b, c, i),
    ensures
        spec_lex_gt(a, c, i),
    decreases a.len() - i,
{
    if i < a.len() && a[i as int] == b[i as int] && b[i as int] == c[i as int] {
        lemma_lex_gt_transitive(a, b, c, i + 1);
    }
}

/// Byte order is irreflexive.
proof fn lemma_lex_gt_irreflexive(a: Seq<u8>, i: nat)
    ensures
        !spec_lex_gt(a, a, i),
    decreases a.len() - i,
{
    if i < a.len() {
        lemma_lex_gt_irreflexive(a, i + 1);
    }
}

/// The ranking of head-selection keys is transitive.
proof fn lemma_key_gt_transitive(a: (Gwei, Root, u8), b: (Gwei, Root, u8), c: (Gwei, Root, u8))
    requires
        spec_key_gt(a, b),
        spec_key_gt(b, c),
    ensures
        spec_key_gt(a, c),
{
    lemma_root_eq(a.1, b.1);
    lemma_root_eq(b.1, c.1);
    lemma_root_eq(a.1, c.1);
    if spec_root_gt(a.1, b.1) && spec_root_gt(b.1, c.1) {
        lemma_lex_gt_transitive(a.1.0@, b.1.0@, c.1.0@, 0);
    }
    if a.1 == b.1 && spec_root_gt(b.1, c.1) {
        assert(spec_root_gt(a.1, c.1));
    }
    if spec_root_gt(a.1, b.1) && b.1 == c.1 {
        assert(spec_root_gt(a.1, c.1));
    }
}

/// A key never ranks above itself.
proof fn lemma_key_gt_irreflexive(a: (Gwei, Root, u8))
    ensures
        !spec_key_gt(a, a),
{
    lemma_lex_gt_irreflexive(a.1.0@, 0);
}

/// The chosen child has the largest key: it is one of the children, its key
/// is its head-selection key, and no child's key ranks above it.
pub proof fn lemma_select_heaviest(store: Store, children: Seq<ForkChoiceNode>, n: nat)
    requires
        n <= children.len(),
    ensures
        spec_select(store, children, n) matches Ok(Some((c, kc))) ==> {
            &&& spec_head_key(store, c) == Ok::<(Gwei, Root, u8), ForkChoiceError>(kc)
            &&& forall|i: int|
                0 <= i < n ==> ((#[trigger] spec_head_key(store, children[i])) matches Ok(k) && !spec_key_gt(k, kc))
        },
    decreases n,
{
    if n > 0 {
        lemma_select_heaviest(store, children, (n - 1) as nat);
        match spec_select(store, children, (n - 1) as nat) {
            Ok(best) => match spec_head_key(store, children[n - 1]) {
                Ok(key) => {
                    lemma_key_gt_irreflexive(key);
                    match best {
                        None => {
                            lemma_select_none(store, children, (n - 1) as nat);
                        },
                        Some((b, bk)) => {
                            lemma_key_gt_irreflexive(bk);
                            if spec_key_gt(key, bk) {
                                assert forall|i: int| 0 <= i < n implies ((#[trigger] spec_head_key(
                                    store,
                                    children[i],
                                )) matches Ok(k) && !spec_key_gt(k, key)) by {
                                    if i < n - 1 {
                                        let k = spec_head_key(store, children[i])->Ok_0;
                                        if spec_key_gt(k, key) {
                                            lemma_key_gt_transitive(k, key, bk);
                                        }
                                    }
                                }
                            }
                        },
                    }
                },
                Err(_) => {},
            },
            Err(_) => {},
        }
    }
}

/// The chosen child is the first with the largest key: no earlier child has
/// the same key.
pub proof fn lemma_select_first(store: Store, children: Seq<ForkChoiceNode>, n: nat)
    requires
        n <= children.len(),
    ensures
        spec_select(store, children, n) matches Ok(Some((c, kc))) ==> exists|i: int|
            0 <= i < n && #[trigger] children[i] == c && (forall|j: int|
                0 <= j < i ==> #[trigger] spec_head_key(store, children[j]) != Ok::<
                    (Gwei, Root, u8),
                    ForkChoiceError,
                >(kc)),
    decreases n,
{
    if n > 0 {
        let m = (n - 1) as nat;
        lemma_select_first(store, children, m);
        lemma_select_heaviest(store, children, m);
        match spec_select(store, children, m) {
            Ok(best) => match spec_head_key(store, children[n - 1]) {
                Ok(key) => match best {
                    None => {
                        lemma_select_none(store, children, m);
                        assert(children[m as int] == children[m as int]);
                    },
                    Some((b, bk)) => {
                        if spec_key_gt(key, bk) {
                            assert(children[m as int] == children[m as int]);
                            assert forall|j: int| 0 <= j < m implies #[trigger] spec_head_key(
                                store,
                                children[j],
                            ) != Ok::<(Gwei, Root, u8), ForkChoiceError>(key) by {
                                assert(spec_head_key(store, children[j]) matches Ok(k) && !spec_key_gt(k, bk));
                            }
                        }
                    },
                },
                Err(_) => {},
            },
            Err(_) => {},
        }
    }
}

/// Ranking no children, or only failing ones, yields no child only when
/// there are none.
proof fn lemma_select_none(store: Store, children: Seq<ForkChoiceNode>, n: nat)
    ensures
        spec_select(store, children, n) == Ok::<Option<(ForkChoiceNode, (Gwei, Root, u8))>, ForkChoiceError>(None)
            ==> n == 0,
{
    if n > 0 {
        lemma_select_some(store, children, n);
    }
}

/// The head walk ends at a leaf: the node it returns has no children.
pub proof fn lemma_head_is_leaf(store: Store, entries: Seq<(Root, &BeaconBlock)>, node: ForkChoiceNode)
    requires
        store.wf(),
        store.blocks@.contains_key(node.root),
        spec_entries_from_store(store, entries),
    ensures
        spec_head_from(store, entries, node) matches Ok(head) ==> spec_node_children(store, entries, head)
            == Ok::<Seq<ForkChoiceNode>, ForkChoiceError>(Seq::empty()),
    decreases spec_head_measure(store, node),
{
    if let Ok(kids) = spec_node_children(store, entries, node) {
        lemma_children_descend(store, entries, node);
        lemma_select_member(store, kids, kids.len());
        match spec_select(store, kids, kids.len()) {
            Ok(None) => {
                lemma_select_none(store, kids, kids.len());
                assert(kids =~= Seq::<ForkChoiceNode>::empty());
            },
            Ok(Some((next, _))) => {
                lemma_head_is_leaf(store, entries, next);
            },
            Err(_) => {},
        }
    }
}

/// Each step of the head walk moves to the child with the largest key: if
/// the walk from `node` steps to `next`, no child of `node` outranks it.
pub proof fn lemma_head_step_is_heaviest(store: Store, entries: Seq<(Root, &BeaconBlock)>, node: ForkChoiceNode)
    requires
        store.wf(),
        store.blocks@.contains_key(node.root),
        spec_entries_from_store(store, entries),
    ensures
        spec_node_children(store, entries, node) matches Ok(kids) ==> (spec_select(store, kids, kids.len()) matches Ok(
            Some((next, key)),
        ) ==> {
            &&& spec_head_from(store, entries, node) == spec_head_from(store, entries, next)
            &&& spec_head_key(store, next) == Ok::<(Gwei, Root, u8), ForkChoiceError>(key)
            &&& forall|i: int|
                0 <= i < kids.len() ==> ((#[trigger] spec_head_key(store, kids[i])) matches Ok(k)
                    && !spec_key_gt(k, key))
        }),
{
    if let Ok(kids) = spec_node_children(store, entries, node) {
        lemma_children_descend(store, entries, node);
        lemma_select_member(store, kids, kids.len());
        lemma_select_heaviest(store, kids, kids.len());
    }
}


} // verus!
