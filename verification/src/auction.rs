//! The bid auction engine: per-slot auction state, candidate-block and
//! competing-bid events, the bid-decision policy and the timing-gated
//! submission decision.

use vstd::prelude::*;
use crate::types::{Bid, BidError, CandidateBlock, Status, status_transition_allowed};
use crate::status_map::{StatusMap, dm_contents, dm_contains_key, dm_get, dm_insert, dm_new};

verus! {

/// The submission window opens this many milliseconds into the slot.
pub const SUBMIT_WINDOW_OPEN_MS: u64 = 10_000;

/// The submission window closes this many milliseconds into the slot.
pub const SUBMIT_WINDOW_CLOSE_MS: u64 = 12_000;

/// A bid may only be dispatched between ten and twelve seconds into the
/// slot: late enough to have seen the best block, early enough to meet the
/// proposer's deadline.
pub open spec fn in_submission_window(now: u64, slot_start_time: u64) -> bool {
    slot_start_time + SUBMIT_WINDOW_OPEN_MS <= now <= slot_start_time + SUBMIT_WINDOW_CLOSE_MS
}

/// Runtime check of [`in_submission_window`]; `now` and `slot_start_time`
/// are wall-clock milliseconds handed in by the clock collaborator.
pub fn submission_window_contains(now: u64, slot_start_time: u64) -> (r: bool)
    ensures
        r == in_submission_window(now, slot_start_time),
{
    now >= slot_start_time && now - slot_start_time >= SUBMIT_WINDOW_OPEN_MS && now
        - slot_start_time <= SUBMIT_WINDOW_CLOSE_MS
}

/// The value the bid-decision policy proposes for a candidate, before the
/// window gate: a token increment while this builder already leads, the
/// floored midpoint while a profitable competing bid leads, nothing while
/// the candidate is unprofitable.
pub open spec fn spec_calculate_bid(max_bid: Bid, candidate_value: u128) -> Option<u128> {
    if max_bid.is_ours {
        if max_bid.value < u128::MAX {
            Some((max_bid.value + 1) as u128)
        } else {
            None
        }
    } else if candidate_value > max_bid.value {
        Some(((candidate_value + max_bid.value) / 2) as u128)
    } else {
        None
    }
}

/// The dispatch decision: inside the window, with a candidate at hand, and
/// only for a value that strictly raises the best known bid.
pub open spec fn spec_submit(max_bid: Bid, best_block: Option<CandidateBlock>, slot_start_time: u64, now: u64) -> Option<u128> {
    if !in_submission_window(now, slot_start_time) {
        None
    } else {
        match best_block {
            Option::None => None,
            Option::Some(b) => match spec_calculate_bid(max_bid, b.value) {
                Option::None => None,
                Option::Some(v) => if v > max_bid.value {
                    Some(v)
                } else {
                    None
                },
            },
        }
    }
}

/// Outside the submission window no dispatch decision is ever made,
/// whatever the auction state.
pub proof fn lemma_window_gates_dispatch(
    max_bid: Bid,
    best_block: Option<CandidateBlock>,
    slot_start_time: u64,
    now: u64,
)
    requires
        !in_submission_window(now, slot_start_time),
    ensures
        spec_submit(max_bid, best_block, slot_start_time, now) is None,
{
}

/// Inside the submission window, a candidate whose decided value strictly
/// raises the best known bid is dispatched at exactly that value; a decided
/// value that does not raise the bid is suppressed, keeping per-relay
/// submissions non-decreasing.
pub proof fn lemma_profitable_bid_dispatches(
    max_bid: Bid,
    b: CandidateBlock,
    v: u128,
    slot_start_time: u64,
    now: u64,
)
    requires
        in_submission_window(now, slot_start_time),
        spec_calculate_bid(max_bid, b.value) == Some(v),
    ensures
        v > max_bid.value ==> spec_submit(max_bid, Some(b), slot_start_time, now) == Some(v),
        v <= max_bid.value ==> spec_submit(max_bid, Some(b), slot_start_time, now) is None,
{
}

/// A decision of the engine to dispatch a bid of `value` wei committing to
/// the block identified by `block_hash`.
#[derive(Debug, Clone, PartialEq, Eq)]
pub struct BidDecision {
    pub block_hash: Vec<u8>,
    pub value: u128,
}

/// Owns the per-slot auction state: the best known bid, the slot clock
/// anchor, the best candidate block, and the status of every candidate seen
/// this slot, keyed by block hash.
pub struct Executor {
    pub max_bid: Bid,
    /// Wall-clock milliseconds at which the current slot started.
    pub slot_start_time: u64,
    pub best_block: Option<CandidateBlock>,
    pub blocks: StatusMap,
}

impl Executor {
    /// Whether a block of this hash was already seen this slot.
    pub open spec fn seen(self, hash: Seq<u8>) -> bool {
        dm_contents(self.blocks).dom().contains(hash)
    }

    /// A fresh engine for a slot starting at `slot_start_time`, with no
    /// candidate, no recorded block and no known competing bid.
    pub fn new(slot_start_time: u64) -> (e: Executor)
        ensures
            e.max_bid == (Bid { value: 0, is_ours: false }),
            e.slot_start_time == slot_start_time,
            e.best_block is None,
            dm_contents(e.blocks) == (Map::<Seq<u8>, Status>::empty()),
    {
        Executor {
            max_bid: Bid { value: 0, is_ours: false },
            slot_start_time,
            best_block: None,
            blocks: dm_new(),
        }
    }

    /// The bid-decision policy of the engine. The exact midpoint formula is
    /// an interchangeable auction strategy, pinned here so that callers and
    /// tests can rely on it.
    pub fn calculate_bid(&self, block: &CandidateBlock) -> (r: Result<u128, BidError>)
        requires
            self.max_bid.is_ours ==> self.max_bid.value < u128::MAX,
        ensures
            r matches Ok(v) ==> spec_calculate_bid(self.max_bid, block.value) == Some(v),
            r is Err <==> spec_calculate_bid(self.max_bid, block.value) is None,
            r matches Err(e) ==> e == BidError::Unprofitable,
    {
        if self.max_bid.is_ours {
            return Ok(self.max_bid.value + 1);
        }
        if block.value > self.max_bid.value {
            let d = block.value - self.max_bid.value;
            let mid = self.max_bid.value + d / 2;
            proof {
                let c = block.value as int;
                let m = self.max_bid.value as int;
                vstd::arithmetic::div_mod::lemma_fundamental_div_mod(c - m, 2);
                vstd::arithmetic::div_mod::lemma_fundamental_div_mod_converse(
                    c + m,
                    2,
                    m + (c - m) / 2,
                    (c - m) % 2,
                );
            }
            Ok(mid)
        } else {
            Err(BidError::Unprofitable)
        }
    }

    /// Decides whether to dispatch now, and if so adopts the decided value
    /// as the best known bid, marked as this builder's own. Dispatching is
    /// the caller's part; every decided value strictly raises the bid this
    /// engine will ever decide again, so per-relay submissions are
    /// non-decreasing in value.
    pub fn submit(&mut self, now: u64) -> (r: Option<BidDecision>)
        ensures
            ({
                let decision = spec_submit(
                    old(self).max_bid,
                    old(self).best_block,
                    old(self).slot_start_time,
                    now,
                );
                &&& (r is Some) == (decision is Some)
                &&& (r matches Some(d) ==> (decision == Some(d.value) && d.value
                    > old(self).max_bid.value && (old(self).best_block matches Some(b)
                    && d.block_hash@ == b.hash@)))
                &&& (decision matches Some(v) ==> final(self).max_bid == (Bid {
                    value: v,
                    is_ours: true,
                }))
                &&& (decision is None ==> final(self).max_bid == old(self).max_bid)
            }),
            final(self).slot_start_time == old(self).slot_start_time,
            final(self).best_block == old(self).best_block,
            dm_contents(final(self).blocks) == dm_contents(old(self).blocks),
    {
        if !submission_window_contains(now, self.slot_start_time) {
            return None;
        }
        if self.max_bid.value == u128::MAX {
            return None;
        }
        let block_hash: Vec<u8>;
        let value: u128;
        match &self.best_block {
            None => {
                return None;
            },
            Some(b) => {
                match self.calculate_bid(b) {
                    Err(_) => {
                        return None;
                    },
                    Ok(v) => {
                        if v <= self.max_bid.value {
                            return None;
                        }
                        value = v;
                        block_hash = crate::types::copy_bytes(&b.hash);
                    },
                }
            },
        }
        self.max_bid = Bid { value, is_ours: true };
        Some(BidDecision { block_hash, value })
    }

    /// Accepts a candidate block. A hash already seen this slot is a no-op:
    /// a block is evaluated and dispatched at most once. A fresh block is
    /// recorded, adopted as the best candidate when it outvalues the current
    /// one, and the submission decision is re-evaluated.
    pub fn on_new_block(&mut self, block: CandidateBlock, now: u64) -> (r: Option<BidDecision>)
        ensures
            old(self).seen(block.hash@) ==> {
                &&& r is None
                &&& final(self).max_bid == old(self).max_bid
                &&& final(self).best_block == old(self).best_block
                &&& dm_contents(final(self).blocks) == dm_contents(old(self).blocks)
            },
            !old(self).seen(block.hash@) ==> {
                let adopted = if old(self).best_block matches Some(b) && b.value >= block.value {
                    old(self).best_block
                } else {
                    Some(block)
                };
                let decision = spec_submit(
                    old(self).max_bid,
                    adopted,
                    old(self).slot_start_time,
                    now,
                );
                &&& dm_contents(final(self).blocks) == dm_contents(old(self).blocks).insert(
                    block.hash@,
                    Status::NeverSent,
                )
                &&& final(self).best_block == adopted
                &&& (r is Some) == (decision is Some)
                &&& (r matches Some(d) ==> (decision == Some(d.value) && d.value
                    > old(self).max_bid.value && (adopted matches Some(b) && d.block_hash@
                    == b.hash@)))
                &&& (decision matches Some(v) ==> final(self).max_bid == (Bid {
                    value: v,
                    is_ours: true,
                }))
                &&& (decision is None ==> final(self).max_bid == old(self).max_bid)
            },
            final(self).slot_start_time == old(self).slot_start_time,
            final(self).seen(block.hash@),
    {
        if dm_contains_key(&self.blocks, &block.hash) {
            return None;
        }
        let key = crate::types::copy_bytes(&block.hash);
        dm_insert(&mut self.blocks, key, Status::NeverSent);
        let replace = match &self.best_block {
            None => true,
            Some(b) => b.value < block.value,
        };
        if replace {
            self.best_block = Some(block);
        }
        self.submit(now)
    }

    /// Accepts an observed competing bid. A bid that does not beat the best
    /// known one is ignored; a higher one is adopted and the submission
    /// decision is re-evaluated against it.
    pub fn on_new_bid(&mut self, observed: Bid, now: u64) -> (r: Option<BidDecision>)
        ensures
            observed.value <= old(self).max_bid.value ==> {
                &&& r is None
                &&& final(self).max_bid == old(self).max_bid
            },
            observed.value > old(self).max_bid.value ==> {
                let decision = spec_submit(
                    observed,
                    old(self).best_block,
                    old(self).slot_start_time,
                    now,
                );
                &&& (r is Some) == (decision is Some)
                &&& (r matches Some(d) ==> (decision == Some(d.value) && d.value
                    > observed.value && (old(self).best_block matches Some(b) && d.block_hash@
                    == b.hash@)))
                &&& (decision matches Some(v) ==> final(self).max_bid == (Bid {
                    value: v,
                    is_ours: true,
                }))
                &&& (decision is None ==> final(self).max_bid == observed)
            },
            final(self).slot_start_time == old(self).slot_start_time,
            final(self).best_block == old(self).best_block,
            dm_contents(final(self).blocks) == dm_contents(old(self).blocks),
    {
        if observed.value <= self.max_bid.value {
            return None;
        }
        self.max_bid = observed;
        self.submit(now)
    }

    /// Records relay or signer feedback for one candidate block. Feedback
    /// may only move a recorded candidate forward along its lifecycle:
    /// `NeverSent` to `Sealed` (or straight to `Error` when construction or
    /// signing failed), `Sealed` to a relay verdict or `Error`, a verdict to
    /// `Error`; a terminal verdict never returns to `NeverSent`.
    pub fn set_status(&mut self, block_hash: &Vec<u8>, status: Status)
        requires
            old(self).seen(block_hash@),
            status_transition_allowed(
                dm_contents(old(self).blocks)[block_hash@],
                status,
            ),
        ensures
            dm_contents(final(self).blocks) == dm_contents(old(self).blocks).insert(
                block_hash@,
                status,
            ),
            final(self).max_bid == old(self).max_bid,
            final(self).best_block == old(self).best_block,
            final(self).slot_start_time == old(self).slot_start_time,
    {
        let key = crate::types::copy_bytes(block_hash);
        dm_insert(&mut self.blocks, key, status);
    }

    /// The recorded status of a block hash, if the block was seen this slot.
    pub fn status_of(&self, block_hash: &Vec<u8>) -> (r: Option<Status>)
        ensures
            r == (if self.seen(block_hash@) {
                Some(dm_contents(self.blocks)[block_hash@])
            } else {
                Option::<Status>::None
            }),
    {
        dm_get(&self.blocks, block_hash)
    }
}

} // verus!
