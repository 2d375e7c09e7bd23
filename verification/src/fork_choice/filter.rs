//! Pruning the block tree down to the branches worth scoring.
//!
//! A block is kept (it is "viable") when any child is viable, or when it is
//! a tip whose voting source and finalized checkpoint agree with the
//! store's own. Head selection scores only what survives.
use vstd::prelude::*;

use crate::constants::GENESIS_EPOCH;
use crate::containers::block::BeaconBlock;
use crate::error::ForkChoiceError;
use crate::primitives::Root;

use super::helpers::{sat_add, spec_current_slot, spec_epoch_of, spec_get_ancestor, spec_voting_source};
use super::keyed_map::{lemma_map_of_index, KeyedMap};
use super::store::{ForkChoiceNode, PayloadStatus, Store};
use crate::constants::spec_epoch_start_slot;
use crate::primitives::Slot;

verus! {

/// The roots of the entries whose block's parent is `parent`, in entry order.
pub open spec fn spec_child_roots(entries: Seq<(Root, BeaconBlock)>, parent: Root) -> Seq<Root>
    decreases entries.len(),
{
    if entries.len() == 0 {
        Seq::empty()
    } else {
        let prev = spec_child_roots(entries.drop_last(), parent);
        if entries.last().1.parent_root == parent {
            prev.push(entries.last().0)
        } else {
            prev
        }
    }
}

/// The blocks a map of block references refers to.
pub open spec fn spec_deref_blocks(m: Map<Root, &BeaconBlock>) -> Map<Root, BeaconBlock> {
    m.map_values(|b: &BeaconBlock| *b)
}

/// How far a stored block's slot lies below the largest slot.
pub open spec fn spec_slot_room(store: Store, root: Root) -> nat {
    (u64::MAX - store.blocks@[root].slot.0) as nat
}

/// Whether a tip is viable: its voting source is the store's justified
/// epoch or recent, and its chain holds the store's finalized checkpoint.
pub open spec fn spec_leaf_viable(store: Store, root: Root) -> Result<bool, ForkChoiceError> {
    match spec_voting_source(store, root) {
        Err(e) => Err(e),
        Ok(source) => match spec_get_ancestor(
            store.blocks@,
            ForkChoiceNode { root, payload_status: PayloadStatus::Pending },
            Slot(spec_epoch_start_slot(store.finalized_checkpoint.epoch.0)),
        ) {
            Err(e) => Err(e),
            Ok(finalized_block) => {
                let current_epoch = spec_epoch_of(spec_current_slot(store));
                let correct_justified = store.justified_checkpoint.epoch.0 == GENESIS_EPOCH
                    || source.epoch == store.justified_checkpoint.epoch || sat_add(source.epoch.0, 2)
                    >= current_epoch;
                let correct_finalized = store.finalized_checkpoint.epoch.0 == GENESIS_EPOCH
                    || store.finalized_checkpoint.root == finalized_block.root;
                Ok(correct_justified && correct_finalized)
            },
        },
    }
}

/// Every root of `kids` is a stored block whose parent is `parent`.
pub open spec fn spec_all_children(store: Store, parent: Root, kids: Seq<Root>) -> bool {
    forall|i: int|
        0 <= i < kids.len() ==> store.blocks@.contains_key(#[trigger] kids[i]) && store.blocks@[kids[i]].parent_root
            == parent
}

/// Filtering the subtree at `root`: whether `root` is viable, and the
/// viable blocks of the subtree by root.
pub open spec fn spec_filter_tree(store: Store, root: Root) -> Result<(bool, Map<Root, BeaconBlock>), ForkChoiceError>
    decreases spec_slot_room(store, root), store.blocks.entries@.len() + 1,
    when store.wf() && store.blocks@.contains_key(root)
{
    let block = store.blocks@[root];
    let kids = spec_child_roots(store.blocks.entries@, root);
    if kids.len() == 0 {
        match spec_leaf_viable(store, root) {
            Err(e) => Err(e),
            Ok(viable) => Ok(
                (viable, if viable {
                    Map::<Root, BeaconBlock>::empty().insert(root, block)
                } else {
                    Map::<Root, BeaconBlock>::empty()
                }),
            ),
        }
    } else {
        proof {
            lemma_child_roots(store, root, store.blocks.entries@.len() as nat);
        }
        match spec_filter_children(store, root, kids) {
            Err(e) => Err(e),
            Ok((any, m)) => Ok(
                (any, if any {
                    m.insert(root, block)
                } else {
                    m
                }),
            ),
        }
    }
}

/// Filtering the subtrees of `kids`, children of `parent`, left to right:
/// whether any is viable, and all their viable blocks.
pub open spec fn spec_filter_children(store: Store, parent: Root, kids: Seq<Root>) -> Result<
    (bool, Map<Root, BeaconBlock>),
    ForkChoiceError,
>
    decreases spec_slot_room(store, parent), kids.len(),
    when store.wf() && store.blocks@.contains_key(parent) && spec_all_children(store, parent, kids)
{
    if kids.len() == 0 {
        Ok((false, Map::empty()))
    } else {
        let rest = kids.drop_last();
        proof {
            lemma_all_children_drop_last(store, parent, kids);
        }
        match spec_filter_children(store, parent, rest) {
            Err(e) => Err(e),
            Ok((any, m)) => {
                let last = kids.last();
                match spec_filter_tree(store, last) {
                    Err(e) => Err(e),
                    Ok((viable, m2)) => Ok((any || viable, m.union_prefer_right(m2))),
                }
            },
        }
    }
}

/// Dropping the last of a list of children leaves children.
pub proof fn lemma_all_children_drop_last(store: Store, parent: Root, kids: Seq<Root>)
    requires
        kids.len() > 0,
        spec_all_children(store, parent, kids),
    ensures
        spec_all_children(store, parent, kids.drop_last()),
        store.blocks@.contains_key(kids.last()),
        store.blocks@[kids.last()].parent_root == parent,
{
    let rest = kids.drop_last();
    assert forall|i: int| 0 <= i < rest.len() implies store.blocks@.contains_key(#[trigger] rest[i])
        && store.blocks@[rest[i]].parent_root == parent by {
        assert(rest[i] == kids[i]);
    }
    assert(store.blocks@.contains_key(kids[kids.len() - 1]));
}

/// The child roots found among the first `n` entries are stored children
/// of `parent`, and there are at most `n` of them.
pub proof fn lemma_child_roots(store: Store, parent: Root, n: nat)
    requires
        store.wf(),
        n <= store.blocks.entries@.len(),
    ensures
        spec_child_roots(store.blocks.entries@.subrange(0, n as int), parent).len() <= n,
        n == store.blocks.entries@.len() ==> spec_child_roots(store.blocks.entries@, parent).len() <= n,
        n == store.blocks.entries@.len() ==> spec_all_children(
            store,
            parent,
            spec_child_roots(store.blocks.entries@, parent),
        ),
        spec_all_children(store, parent, spec_child_roots(store.blocks.entries@.subrange(0, n as int), parent)),
    decreases n,
{
    let entries = store.blocks.entries@;
    let pre = entries.subrange(0, n as int);
    if n > 0 {
        lemma_child_roots(store, parent, (n - 1) as nat);
        assert(pre.drop_last() =~= entries.subrange(0, n - 1));
        lemma_map_of_index(entries, n - 1);
        let kids = spec_child_roots(pre, parent);
        let prev = spec_child_roots(entries.subrange(0, n - 1), parent);
        assert forall|i: int| 0 <= i < kids.len() implies store.blocks@.contains_key(#[trigger] kids[i])
            && store.blocks@[kids[i]].parent_root == parent by {
            if i < prev.len() {
                assert(kids[i] == prev[i]);
            }
        }
    }
    assert(n == entries.len() ==> pre =~= entries);
}

/// Every block of `m` is the stored block under its root.
pub open spec fn spec_from_store(store: Store, m: Map<Root, BeaconBlock>) -> bool {
    forall|k: Root| #[trigger] m.contains_key(k) ==> store.blocks@.contains_key(k) && m[k] == store.blocks@[k]
}

/// The filtered subtree holds only stored blocks.
pub proof fn lemma_filter_tree_from_store(store: Store, root: Root)
    requires
        store.wf(),
        store.blocks@.contains_key(root),
    ensures
        spec_filter_tree(store, root) matches Ok((_, m)) ==> spec_from_store(store, m),
    decreases spec_slot_room(store, root), store.blocks.entries@.len() + 1,
{
    let kids = spec_child_roots(store.blocks.entries@, root);
    lemma_child_roots(store, root, store.blocks.entries@.len() as nat);
    if kids.len() > 0 {
        lemma_filter_children_from_store(store, root, kids);
    }
}

/// The filtered subtrees of children hold only stored blocks.
pub proof fn lemma_filter_children_from_store(store: Store, parent: Root, kids: Seq<Root>)
    requires
        store.wf(),
        store.blocks@.contains_key(parent),
        spec_all_children(store, parent, kids),
    ensures
        spec_filter_children(store, parent, kids) matches Ok((_, m)) ==> spec_from_store(store, m),
    decreases spec_slot_room(store, parent), kids.len(),
{
    if kids.len() > 0 {
        lemma_all_children_drop_last(store, parent, kids);
        lemma_filter_children_from_store(store, parent, kids.drop_last());
        assert(store.blocks@[kids.last()].slot.0 > store.blocks@[parent].slot.0);
        lemma_filter_tree_from_store(store, kids.last());
    }
}

/// Once filtering a prefix of the children fails, filtering all of them
/// fails the same way.
proof fn lemma_filter_children_error_sticks(store: Store, parent: Root, kids: Seq<Root>, j: nat)
    requires
        store.wf(),
        store.blocks@.contains_key(parent),
        spec_all_children(store, parent, kids),
        j <= kids.len(),
        spec_filter_children(store, parent, kids.subrange(0, j as int)) is Err,
    ensures
        spec_filter_children(store, parent, kids) == spec_filter_children(store, parent, kids.subrange(0, j as int)),
    decreases kids.len() - j,
{
    if j < kids.len() {
        let next = kids.subrange(0, j + 1 as int);
        assert(next.drop_last() =~= kids.subrange(0, j as int));
        assert(spec_all_children(store, parent, next)) by {
            assert forall|t: int| 0 <= t < next.len() implies store.blocks@.contains_key(#[trigger] next[t])
                && store.blocks@[next[t]].parent_root == parent by {
                assert(next[t] == kids[t]);
            }
        }
        lemma_filter_children_error_sticks(store, parent, kids, j + 1);
    } else {
        assert(kids.subrange(0, j as int) =~= kids);
    }
}

impl Store {
    /// The roots of the stored blocks whose parent is `parent`, in entry order.
    fn child_roots(&self, parent: Root) -> (r: Vec<Root>)
        ensures
            r@ == spec_child_roots(self.blocks.entries@, parent),
    {
        let n = self.blocks.len();
        let mut out: Vec<Root> = Vec::new();
        let mut i: usize = 0;
        proof {
            assert(self.blocks.entries@.subrange(0, 0) =~= Seq::<(Root, BeaconBlock)>::empty());
        }
        while i < n
            invariant
                n == self.blocks.entries@.len(),
                i <= n,
                out@ == spec_child_roots(self.blocks.entries@.subrange(0, i as int), parent),
            decreases n - i,
        {
            let ghost pre = self.blocks.entries@.subrange(0, i + 1);
            assert(pre.drop_last() =~= self.blocks.entries@.subrange(0, i as int));
            let entry = &self.blocks.entries[i];
            if entry.1.parent_root.equals(&parent) {
                out.push(entry.0);
            }
            i = i + 1;
        }
        assert(self.blocks.entries@.subrange(0, n as int) =~= self.blocks.entries@);
        out
    }

    /// Build the set of blocks fork choice is allowed to consider: the viable
    /// blocks below the store's justified checkpoint.
    pub fn get_filtered_block_tree<'a>(&'a self) -> (r: Result<KeyedMap<Root, &'a BeaconBlock>, ForkChoiceError>)
        requires
            self.wf(),
        ensures
            !self.blocks@.contains_key(self.justified_checkpoint.root) ==> r == Err::<
                KeyedMap<Root, &'a BeaconBlock>,
                ForkChoiceError,
            >(ForkChoiceError::UnknownBlock(self.justified_checkpoint.root)),
            self.blocks@.contains_key(self.justified_checkpoint.root) ==> match spec_filter_tree(
                *self,
                self.justified_checkpoint.root,
            ) {
                Ok((_, m)) => r matches Ok(blocks) && spec_deref_blocks(blocks@) == m && blocks.wf(),
                Err(e) => r == Err::<KeyedMap<Root, &'a BeaconBlock>, ForkChoiceError>(e),
            },
    {
        let base = self.justified_checkpoint.root;
        let mut blocks: KeyedMap<Root, &'a BeaconBlock> = KeyedMap::new();
        let ghost empty = spec_deref_blocks(blocks@);
        proof {
            assert(empty =~= Map::<Root, BeaconBlock>::empty());
        }
        self.filter_block_tree(base, &mut blocks)?;
        proof {
            if self.blocks@.contains_key(base) {
                if let Ok((_, m)) = spec_filter_tree(*self, base) {
                    assert(empty.union_prefer_right(m) =~= m);
                }
            }
        }
        Ok(blocks)
    }

    /// Recursively decide whether `block_root`, or anything below it, is
    /// viable, adding the viable blocks of its subtree to `blocks`.
    pub fn filter_block_tree<'a>(&'a self, block_root: Root, blocks: &mut KeyedMap<Root, &'a BeaconBlock>) -> (r: Result<
        bool,
        ForkChoiceError,
    >)
        requires
            self.wf(),
            old(blocks).wf(),
        ensures
            final(blocks).wf(),
            !self.blocks@.contains_key(block_root) ==> r == Err::<bool, ForkChoiceError>(
                ForkChoiceError::UnknownBlock(block_root),
            ),
            self.blocks@.contains_key(block_root) ==> match spec_filter_tree(*self, block_root) {
                Ok((viable, m)) => r == Ok::<bool, ForkChoiceError>(viable) && spec_deref_blocks(final(blocks)@)
                    == spec_deref_blocks(old(blocks)@).union_prefer_right(m),
                Err(e) => r == Err::<bool, ForkChoiceError>(e),
            },
        decreases (if self.blocks@.contains_key(block_root) {
            spec_slot_room(*self, block_root)
        } else {
            0
        }), self.blocks.entries@.len() + 1,
    {
        let block = match self.blocks.get(&block_root) {
            Some(b) => b,
            None => return Err(ForkChoiceError::UnknownBlock(block_root)),
        };
        let children = self.child_roots(block_root);
        let ghost start = spec_deref_blocks(blocks@);
        if children.len() == 0 {
            let current_epoch = self.get_current_store_epoch();
            let voting_source = self.get_voting_source(block_root)?;
            let finalized_checkpoint_block = self.get_checkpoint_block(
                block_root,
                self.finalized_checkpoint.epoch,
            )?;
            let correct_justified = self.justified_checkpoint.epoch.0 == GENESIS_EPOCH
                || voting_source.epoch.0 == self.justified_checkpoint.epoch.0
                || voting_source.epoch.saturating_add(2).0 >= current_epoch.0;
            let correct_finalized = self.finalized_checkpoint.epoch.0 == GENESIS_EPOCH
                || self.finalized_checkpoint.root.equals(&finalized_checkpoint_block);
            let viable = correct_justified && correct_finalized;
            if viable {
                blocks.insert(block_root, block);
                proof {
                    assert(spec_deref_blocks(blocks@) =~= start.union_prefer_right(
                        Map::<Root, BeaconBlock>::empty().insert(block_root, *block),
                    ));
                }
            } else {
                proof {
                    assert(start.union_prefer_right(Map::<Root, BeaconBlock>::empty()) =~= start);
                }
            }
            return Ok(viable);
        }
        proof {
            lemma_child_roots(*self, block_root, self.blocks.entries@.len() as nat);
            assert(children@.subrange(0, 0) =~= Seq::<Root>::empty());
        }
        let mut any_child_viable = false;
        let ghost mut found: Map<Root, BeaconBlock> = Map::empty();
        let mut i: usize = 0;
        while i < children.len()
            invariant
                self.wf(),
                self.blocks@.contains_key(block_root),
                i <= children@.len(),
                children@ == spec_child_roots(self.blocks.entries@, block_root),
                spec_all_children(*self, block_root, children@),
                blocks.wf(),
                spec_filter_children(*self, block_root, children@.subrange(0, i as int)) == Ok::<
                    (bool, Map<Root, BeaconBlock>),
                    ForkChoiceError,
                >((any_child_viable, found)),
                spec_deref_blocks(blocks@) == start.union_prefer_right(found),
            decreases children@.len() - i,
        {
            let child = children[i];
            let ghost pre = children@.subrange(0, i + 1);
            proof {
                assert(pre.drop_last() =~= children@.subrange(0, i as int));
                assert(pre.last() == child);
                assert(spec_all_children(*self, block_root, pre)) by {
                    assert forall|t: int| 0 <= t < pre.len() implies self.blocks@.contains_key(#[trigger] pre[t])
                        && self.blocks@[pre[t]].parent_root == block_root by {
                        assert(pre[t] == children@[t]);
                    }
                }
                assert(self.blocks@.contains_key(children@[i as int]));
            }
            let viable = match self.filter_block_tree(child, blocks) {
                Ok(v) => v,
                Err(e) => {
                    proof {
                        lemma_filter_children_error_sticks(*self, block_root, children@, (i + 1) as nat);
                    }
                    return Err(e);
                },
            };
            if viable {
                any_child_viable = true;
            }
            proof {
                let m2 = spec_filter_tree(*self, child)->Ok_0.1;
                assert(spec_deref_blocks(blocks@) =~= start.union_prefer_right(found.union_prefer_right(m2)));
                found = found.union_prefer_right(m2);
            }
            i = i + 1;
        }
        proof {
            assert(children@.subrange(0, children@.len() as int) =~= children@);
        }
        if any_child_viable {
            let ghost before = blocks@;
            blocks.insert(block_root, block);
            proof {
                assert(spec_deref_blocks(blocks@) =~= spec_deref_blocks(before).insert(block_root, *block));
                assert(spec_deref_blocks(blocks@) =~= start.union_prefer_right(found.insert(block_root, *block)));
            }
        }
        Ok(any_child_viable)
    }
}

} // verus!
