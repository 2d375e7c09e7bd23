//! Advancing the store's clock.
use vstd::prelude::*;

use crate::constants::{SLOTS_PER_EPOCH_U64, SLOT_DURATION_MS};
use crate::error::ForkChoiceError;
use crate::primitives::Root;
use crate::ssz::basic::zeros;

use super::checkpoints::later_checkpoint;
use super::helpers::{
    compute_slots_since_epoch_start, sat_add, sat_mul, sat_sub, spec_current_slot,
    spec_seconds_to_ms, spec_slot_at_time,
};
use super::store::Store;

verus! {

/// The store after one clock step to `time`: the boost is cleared when the
/// slot advances, and unrealized checkpoints are realized when the new slot
/// starts an epoch.
pub open spec fn spec_tick_per_slot(store: Store, time: u64, zero_root: Root) -> Store {
    let previous = spec_current_slot(store);
    let current = spec_slot_at_time(store.genesis_time, time);
    let advanced = current > previous;
    let at_epoch_start = advanced && current % SLOTS_PER_EPOCH_U64 == 0;
    Store {
        time,
        proposer_boost_root: if advanced {
            zero_root
        } else {
            store.proposer_boost_root
        },
        justified_checkpoint: if at_epoch_start {
            later_checkpoint(store.justified_checkpoint, store.unrealized_justified_checkpoint)
        } else {
            store.justified_checkpoint
        },
        finalized_checkpoint: if at_epoch_start {
            later_checkpoint(store.finalized_checkpoint, store.unrealized_finalized_checkpoint)
        } else {
            store.finalized_checkpoint
        },
        ..store
    }
}

/// `slot_at_time` does not decrease as time advances.
pub proof fn lemma_slot_at_time_monotonic(genesis: u64, t1: u64, t2: u64)
    requires
        t1 <= t2,
    ensures
        spec_slot_at_time(genesis, t1) <= spec_slot_at_time(genesis, t2),
{
    let a = spec_seconds_to_ms(sat_sub(t1, genesis));
    let b = spec_seconds_to_ms(sat_sub(t2, genesis));
    assert(sat_sub(t1, genesis) <= sat_sub(t2, genesis));
    assert(a <= b) by (nonlinear_arith)
        requires
            sat_sub(t1, genesis) <= sat_sub(t2, genesis),
            a == sat_mul(sat_sub(t1, genesis), 1000),
            b == sat_mul(sat_sub(t2, genesis), 1000),
    ;
    assert(a / 12000 <= b / 12000) by (nonlinear_arith)
        requires
            a <= b,
    ;
}

/// Some slot in `(from, to]` starts an epoch.
pub open spec fn spec_crosses_epoch_start(from: u64, to: u64) -> bool {
    exists|s: int| from < s <= to && #[trigger] (s % SLOTS_PER_EPOCH_U64 as int) == 0
}

/// The slot of a slot's start time is that slot, for every slot the clock can reach.
pub proof fn lemma_slot_of_start_time(genesis: u64, next: u64, bound: u64)
    requires
        next <= spec_slot_at_time(genesis, bound),
    ensures
        spec_slot_at_time(genesis, sat_add(genesis, (sat_mul(next, SLOT_DURATION_MS) / 1000) as u64)) == next,
{
    let m = spec_seconds_to_ms(sat_sub(bound, genesis));
    assert(m / 12000 * 12000 <= m) by (nonlinear_arith);
    assert(next * 12000 <= u64::MAX) by (nonlinear_arith)
        requires
            next <= m / 12000,
            m <= u64::MAX,
            m / 12000 * 12000 <= m,
    ;
    assert(sat_mul(next, SLOT_DURATION_MS) == next * 12000);
    assert((next * 12000) / 1000 == next * 12) by (nonlinear_arith);
    let t = sat_add(genesis, (next * 12) as u64);
    assert(m <= sat_sub(bound, genesis) * 1000);
    assert(next * 12 <= sat_sub(bound, genesis)) by (nonlinear_arith)
        requires
            next * 12000 <= m,
            m <= sat_sub(bound, genesis) * 1000,
    ;
    assert(genesis + next * 12 <= u64::MAX);
    assert(sat_sub(t, genesis) == next * 12);
    assert(next * 12 * 1000 == next * 12000) by (nonlinear_arith);
    assert(spec_seconds_to_ms(sat_sub(t, genesis)) == next * 12000);
    assert((next * 12000) / 12000 == next) by (nonlinear_arith);
}

/// A slot after the first that the clock can reach starts no later than
/// the clock.
pub proof fn lemma_slot_start_time_bound(genesis: u64, next: u64, bound: u64)
    requires
        1 <= next <= spec_slot_at_time(genesis, bound),
    ensures
        sat_add(genesis, (sat_mul(next, SLOT_DURATION_MS) / 1000) as u64) <= bound,
{
    let m = spec_seconds_to_ms(sat_sub(bound, genesis));
    assert(m / 12000 * 12000 <= m) by (nonlinear_arith);
    assert(next * 12000 <= m) by (nonlinear_arith)
        requires
            next <= m / 12000,
            m / 12000 * 12000 <= m,
    ;
    assert(m <= sat_sub(bound, genesis) * 1000);
    assert(next * 12 <= sat_sub(bound, genesis)) by (nonlinear_arith)
        requires
            next * 12000 <= m,
            m <= sat_sub(bound, genesis) * 1000,
    ;
    assert(sat_mul(next, SLOT_DURATION_MS) == next * 12000);
    assert((next * 12000) / 1000 == next * 12) by (nonlinear_arith);
}

impl Store {
    /// Advance the store's clock to `time`, stepping through every slot
    /// boundary on the way. Fails when `time` is before the store's clock.
    pub fn on_tick(&mut self, time: u64) -> (r: Result<(), ForkChoiceError>)
        ensures
            time < old(self).time ==> r == Err::<(), ForkChoiceError>(
                ForkChoiceError::TickWentBackwards { from: old(self).time, to: time },
            ) && *final(self) == *old(self),
            time >= old(self).time ==> r is Ok && final(self).time == time,
            *final(self) == (Store {
                time: final(self).time,
                proposer_boost_root: final(self).proposer_boost_root,
                justified_checkpoint: final(self).justified_checkpoint,
                finalized_checkpoint: final(self).finalized_checkpoint,
                ..*old(self)
            }),
            time >= old(self).time ==> spec_current_slot(*final(self)) == spec_slot_at_time(
                old(self).genesis_time,
                time,
            ),
            final(self).justified_checkpoint == if spec_crosses_epoch_start(
                spec_current_slot(*old(self)),
                spec_current_slot(*final(self)),
            ) {
                later_checkpoint(old(self).justified_checkpoint, old(self).unrealized_justified_checkpoint)
            } else {
                old(self).justified_checkpoint
            },
            final(self).finalized_checkpoint == if spec_crosses_epoch_start(
                spec_current_slot(*old(self)),
                spec_current_slot(*final(self)),
            ) {
                later_checkpoint(old(self).finalized_checkpoint, old(self).unrealized_finalized_checkpoint)
            } else {
                old(self).finalized_checkpoint
            },
            spec_current_slot(*final(self)) > spec_current_slot(*old(self)) ==> final(self).proposer_boost_root.0@
                == zeros(32),
            spec_current_slot(*final(self)) <= spec_current_slot(*old(self)) ==> final(self).proposer_boost_root
                == old(self).proposer_boost_root,
    {
        if time < self.time {
            return Err(ForkChoiceError::TickWentBackwards { from: self.time, to: time });
        }
        let tick_slot = self.slot_at_time(time);
        let ghost start = *self;
        proof {
            lemma_slot_at_time_monotonic(self.genesis_time, self.time, time);
        }
        while self.get_slots_since_genesis() < tick_slot
            invariant
                *self == (Store {
                    time: self.time,
                    proposer_boost_root: self.proposer_boost_root,
                    justified_checkpoint: self.justified_checkpoint,
                    finalized_checkpoint: self.finalized_checkpoint,
                    ..start
                }),
                tick_slot == spec_slot_at_time(start.genesis_time, time),
                spec_current_slot(start) <= spec_current_slot(*self),
                spec_current_slot(start) <= tick_slot,
                spec_current_slot(*self) <= tick_slot,
                time >= start.time,
                self.time <= time,
                tick_slot <= spec_current_slot(start) ==> *self == start,
                self.justified_checkpoint == if spec_crosses_epoch_start(
                    spec_current_slot(start),
                    spec_current_slot(*self),
                ) {
                    later_checkpoint(start.justified_checkpoint, start.unrealized_justified_checkpoint)
                } else {
                    start.justified_checkpoint
                },
                self.finalized_checkpoint == if spec_crosses_epoch_start(
                    spec_current_slot(start),
                    spec_current_slot(*self),
                ) {
                    later_checkpoint(start.finalized_checkpoint, start.unrealized_finalized_checkpoint)
                } else {
                    start.finalized_checkpoint
                },
                spec_current_slot(*self) > spec_current_slot(start) ==> self.proposer_boost_root.0@ == zeros(32),
                spec_current_slot(*self) <= spec_current_slot(start) ==> self.proposer_boost_root
                    == start.proposer_boost_root,
            decreases tick_slot - spec_current_slot(*self),
        {
            let current = self.get_current_slot();
            let next_slot = current.0 + 1;
            let previous_time = self.slot_start_time(next_slot);
            let ghost before = *self;
            proof {
                lemma_slot_of_start_time(self.genesis_time, next_slot, time);
                lemma_slot_start_time_bound(self.genesis_time, next_slot, time);
            }
            self.on_tick_per_slot(previous_time);
            proof {
                let from = spec_current_slot(start);
                let c = spec_current_slot(before);
                assert(spec_current_slot(*self) == c + 1);
                if spec_crosses_epoch_start(from, c) {
                    let w = choose|s: int| from < s <= c && #[trigger] (s % SLOTS_PER_EPOCH_U64 as int) == 0;
                    assert(from < w <= c + 1 && (w % SLOTS_PER_EPOCH_U64 as int) == 0);
                }
                if (c + 1) % (SLOTS_PER_EPOCH_U64 as int) == 0 {
                    let w = (c + 1) as int;
                    assert(from < w <= c + 1 && (w % SLOTS_PER_EPOCH_U64 as int) == 0);
                }
                if spec_crosses_epoch_start(from, (c + 1) as u64) && !spec_crosses_epoch_start(from, c) {
                    let w = choose|s: int| from < s <= c + 1 && #[trigger] (s % SLOTS_PER_EPOCH_U64 as int) == 0;
                    assert(w == c + 1);
                }
            }
        }
        let ghost before = *self;
        self.on_tick_per_slot(time);
        proof {
            assert(spec_current_slot(before) == tick_slot);
            assert(spec_current_slot(*self) == tick_slot);
        }
        Ok(())
    }

    /// Set the clock to `time`, clearing the proposer boost when the slot
    /// advances and realizing unrealized checkpoints at an epoch's first slot.
    pub fn on_tick_per_slot(&mut self, time: u64)
        ensures
            *final(self) == spec_tick_per_slot(*old(self), time, final(self).proposer_boost_root),
            spec_slot_at_time(old(self).genesis_time, time) > spec_current_slot(*old(self))
                ==> final(self).proposer_boost_root.0@ == zeros(32),
            spec_slot_at_time(old(self).genesis_time, time) <= spec_current_slot(*old(self))
                ==> final(self).proposer_boost_root == old(self).proposer_boost_root,
    {
        let previous_slot = self.get_current_slot();
        self.time = time;
        let current = self.get_current_slot();
        let advanced_slot = current.0 > previous_slot.0;
        if advanced_slot {
            self.proposer_boost_root = Root::zero();
        }
        if advanced_slot && compute_slots_since_epoch_start(current) == 0 {
            let justified = self.unrealized_justified_checkpoint;
            let finalized = self.unrealized_finalized_checkpoint;
            self.update_checkpoints(justified, finalized);
        }
    }
}

} // verus!
