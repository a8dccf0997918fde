//! The slot coordinator: owns the current slot, the ready-relay set and the
//! builder's identity; turns slot transitions into recomputed readiness and
//! candidate blocks into per-relay submission plans.
//!
//! The relay fetches, the BLS signer and the HTTP dispatch are collaborator
//! work of the caller; every decision about what is built and sent is here.

use vstd::prelude::*;
use crate::relay_endpoint::RelayEndpoint;
use crate::resolver::{ReadyRelay, resolve, spec_resolve};
use crate::types::{BidTrace, CandidateBlock, ExecutionPayload, PayloadAttributes, RelayError,
    SendBlockStatus, SignedBidSubmission, Validator, Withdrawal, WithdrawalMevBoost, copy_bytes,
    is_bls_public_key, is_bls_signature};

verus! {

/// A submission could not be assembled from its parts.
#[derive(Debug, Clone, Copy, PartialEq, Eq)]
pub enum BidAssemblyError {
    /// A hash, key, address or signature does not have its protocol width,
    /// or a list of the block exceeds a wire-format cap.
    MalformedField,
}

/// How the execution payload of a submission is derived from a candidate
/// block: every field carried over, transactions and withdrawals by
/// contents.
pub open spec fn payload_matches_block(p: ExecutionPayload, b: CandidateBlock) -> bool {
    &&& p.parent_hash@ == b.parent_hash@
    &&& p.fee_recipient@ == b.fee_recipient@
    &&& p.state_root@ == b.state_root@
    &&& p.receipts_root@ == b.receipts_root@
    &&& p.logs_bloom@ == b.logs_bloom@
    &&& p.prev_randao@ == b.prev_randao@
    &&& p.block_number == b.block_number
    &&& p.gas_limit == b.gas_limit
    &&& p.gas_used == b.gas_used
    &&& p.timestamp == b.timestamp
    &&& p.extra_data@ == b.extra_data@
    &&& p.base_fee_per_gas == b.base_fee_per_gas
    &&& p.block_hash@ == b.hash@
    &&& p.transactions@.len() == b.transactions@.len()
    &&& (forall|i: int|
        0 <= i < p.transactions@.len() ==> (#[trigger] p.transactions@[i])@ == (
        #[trigger] b.transactions@[i])@)
    &&& p.withdrawals@.len() == b.withdrawals@.len()
    &&& (forall|i: int|
        0 <= i < p.withdrawals@.len() ==> {
            let pw = #[trigger] p.withdrawals@[i];
            let bw = #[trigger] b.withdrawals@[i];
            pw.index == bw.index && pw.validator_index == bw.validator_index && pw.address@
                == bw.address@ && pw.amount == bw.amount
        })
}

/// How the signable commitment of a submission is derived (the bid trace):
/// slot and builder identity from the coordinator, proposer identity from
/// the matched registration, the rest from the block and the decided value.
pub open spec fn trace_matches(
    t: BidTrace,
    slot: u64,
    builder_public_key: Seq<u8>,
    v: Validator,
    b: CandidateBlock,
    value: u128,
) -> bool {
    &&& t.slot == slot
    &&& t.parent_hash@ == b.parent_hash@
    &&& t.block_hash@ == b.hash@
    &&& t.builder_public_key@ == builder_public_key
    &&& t.proposer_public_key@ == v.entry.message.pubkey@
    &&& t.proposer_fee_recipient@ == v.entry.message.fee_recipient@
    &&& t.gas_limit == b.gas_limit
    &&& t.gas_used == b.gas_used
    &&& t.value == value
}

/// One planned submission of the fan-out: which relay it goes to and the
/// commitment it signs; the execution payload is shared across the plan.
pub struct PlannedSubmission {
    pub relay_index: usize,
    pub message: BidTrace,
}

/// Owns the current slot, the ready-relay set computed for it, and the
/// builder's identity. The ready set is replaced wholesale on each slot
/// transition and never mutated in place.
pub struct Coordinator {
    pub all_endpoints: Vec<RelayEndpoint>,
    pub last_slot: u64,
    pub ready_relays: Vec<ReadyRelay>,
    /// The builder's BLS public key, 48 bytes.
    pub builder_public_key: Vec<u8>,
    /// Opaque handle to the builder's BLS secret key, owned exclusively
    /// here and handed to the signing collaborator, never process-global.
    pub secret_key: Vec<u8>,
}

impl Coordinator {
    /// Whether a payload-attributes signal would advance the slot.
    pub fn slot_advances(&self, slot: u64) -> (r: bool)
        ensures
            r == (slot > self.last_slot),
    {
        slot > self.last_slot
    }

    /// Recomputes the ready-relay set for a slot from the fetched validator
    /// feeds, `responses[i]` belonging to `all_endpoints[i]`.
    pub fn get_ready_relays(
        &self,
        responses: Vec<Result<Vec<Validator>, RelayError>>,
        slot: u64,
    ) -> (r: Vec<ReadyRelay>)
        ensures
            r@ == spec_resolve(responses@, slot),
    {
        resolve(responses, slot)
    }

    /// Accepts a slot-transition signal. The coordinator only ever advances
    /// to a strictly greater slot: a notification for the last-seen slot or
    /// an earlier one leaves every part of the state unchanged, so a re-org
    /// re-notification of the same slot is deliberately inert. On an
    /// advance, the last slot and the ready-relay set are replaced, the
    /// latter resolved from the handed-in validator feeds.
    pub fn on_payload_attributes(
        &mut self,
        pa: &PayloadAttributes,
        responses: Vec<Result<Vec<Validator>, RelayError>>,
    )
        ensures
            pa.slot <= old(self).last_slot ==> {
                &&& final(self).last_slot == old(self).last_slot
                &&& final(self).ready_relays == old(self).ready_relays
                &&& final(self).all_endpoints == old(self).all_endpoints
                &&& final(self).builder_public_key == old(self).builder_public_key
                &&& final(self).secret_key == old(self).secret_key
            },
            pa.slot > old(self).last_slot ==> {
                &&& final(self).last_slot == pa.slot
                &&& final(self).ready_relays@ == spec_resolve(responses@, pa.slot)
                &&& final(self).all_endpoints == old(self).all_endpoints
                &&& final(self).builder_public_key == old(self).builder_public_key
                &&& final(self).secret_key == old(self).secret_key
            },
    {
        if pa.slot <= self.last_slot {
            return ;
        }
        self.last_slot = pa.slot;
        self.ready_relays = self.get_ready_relays(responses, pa.slot);
    }

    /// Builds the signable commitment of one submission for one ready
    /// relay, per the protocol's field derivation.
    pub fn build_bid_trace(
        &self,
        relay: &ReadyRelay,
        block: &CandidateBlock,
        value: u128,
    ) -> (r: Result<BidTrace, BidAssemblyError>)
        ensures
            r is Ok <==> block.wf() && relay.validator.wf() && is_bls_public_key(
                self.builder_public_key@,
            ),
            r matches Ok(t) ==> trace_matches(
                t,
                self.last_slot,
                self.builder_public_key@,
                relay.validator,
                *block,
                value,
            ) && t.wf(),
    {
        if !crate::types::block_is_wf(block) || !crate::types::validator_is_wf(&relay.validator)
            || self.builder_public_key.len() != crate::types::BLS_PUBLIC_KEY_BYTES_LEN {
            return Err(BidAssemblyError::MalformedField);
        }
        Ok(
            BidTrace {
                slot: self.last_slot,
                parent_hash: copy_bytes(&block.parent_hash),
                block_hash: copy_bytes(&block.hash),
                builder_public_key: copy_bytes(&self.builder_public_key),
                proposer_public_key: copy_bytes(&relay.validator.entry.message.pubkey),
                proposer_fee_recipient: copy_bytes(&relay.validator.entry.message.fee_recipient),
                gas_limit: block.gas_limit,
                gas_used: block.gas_used,
                value,
            },
        )
    }

    /// Derives the wire-format execution payload from a candidate block;
    /// it is the same for every relay and is computed once per block.
    pub fn build_execution_payload(block: &CandidateBlock) -> (r: Result<
        ExecutionPayload,
        BidAssemblyError,
    >)
        ensures
            r is Ok <==> block.wf(),
            r matches Ok(p) ==> payload_matches_block(p, *block) && p.wf(),
    {
        if !crate::types::block_is_wf(block) {
            return Err(BidAssemblyError::MalformedField);
        }
        let mut transactions: Vec<Vec<u8>> = Vec::new();
        let mut i: usize = 0;
        while i < block.transactions.len()
            invariant
                0 <= i <= block.transactions@.len(),
                transactions@.len() == i,
                forall|t: int|
                    0 <= t < i ==> (#[trigger] transactions@[t])@ == (
                    #[trigger] block.transactions@[t])@,
            decreases block.transactions@.len() - i,
        {
            transactions.push(copy_bytes(&block.transactions[i]));
            i = i + 1;
        }
        let mut withdrawals: Vec<WithdrawalMevBoost> = Vec::new();
        let mut j: usize = 0;
        while j < block.withdrawals.len()
            invariant
                0 <= j <= block.withdrawals@.len(),
                withdrawals@.len() == j,
                forall|t: int|
                    0 <= t < j ==> {
                        let pw = #[trigger] withdrawals@[t];
                        let bw = #[trigger] block.withdrawals@[t];
                        pw.index == bw.index && pw.validator_index == bw.validator_index
                            && pw.address@ == bw.address@ && pw.amount == bw.amount
                    },
            decreases block.withdrawals@.len() - j,
        {
            let w = &block.withdrawals[j];
            let w_copy = Withdrawal {
                index: w.index,
                validator_index: w.validator_index,
                address: copy_bytes(&w.address),
                amount: w.amount,
            };
            withdrawals.push(WithdrawalMevBoost::from(w_copy));
            j = j + 1;
        }
        proof {
            assert forall|t: int| 0 <= t < transactions@.len() implies (
            #[trigger] transactions@[t])@.len() <= crate::types::MAX_BYTES_PER_TRANSACTION by {
                assert(transactions@[t]@ == block.transactions@[t]@);
                assert(block.transactions@[t]@.len() <= crate::types::MAX_BYTES_PER_TRANSACTION);
            }
            assert forall|t: int| 0 <= t < withdrawals@.len() implies (
            #[trigger] withdrawals@[t]).wf() by {
                assert(block.withdrawals@[t].wf());
            }
        }
        Ok(
            ExecutionPayload {
                parent_hash: copy_bytes(&block.parent_hash),
                fee_recipient: copy_bytes(&block.fee_recipient),
                state_root: copy_bytes(&block.state_root),
                receipts_root: copy_bytes(&block.receipts_root),
                logs_bloom: copy_bytes(&block.logs_bloom),
                prev_randao: copy_bytes(&block.prev_randao),
                block_number: block.block_number,
                gas_limit: block.gas_limit,
                gas_used: block.gas_used,
                timestamp: block.timestamp,
                extra_data: copy_bytes(&block.extra_data),
                base_fee_per_gas: block.base_fee_per_gas,
                block_hash: copy_bytes(&block.hash),
                transactions,
                withdrawals,
            },
        )
    }

    /// Assembles the full signed submission for one ready relay from the
    /// decided value and the signature the signing collaborator produced
    /// over the bid trace.
    pub fn create_bid(
        &self,
        relay: &ReadyRelay,
        block: &CandidateBlock,
        value: u128,
        signature: Vec<u8>,
    ) -> (r: Result<SignedBidSubmission, BidAssemblyError>)
        ensures
            r is Ok <==> block.wf() && relay.validator.wf() && is_bls_public_key(
                self.builder_public_key@,
            ) && is_bls_signature(signature@),
            r matches Ok(sub) ==> trace_matches(
                sub.message,
                self.last_slot,
                self.builder_public_key@,
                relay.validator,
                *block,
                value,
            ) && payload_matches_block(sub.execution_payload, *block) && sub.signature@
                == signature@ && sub.wf(),
    {
        if signature.len() != crate::types::BLS_SIGNATURE_BYTES_LEN {
            return Err(BidAssemblyError::MalformedField);
        }
        let message = match self.build_bid_trace(relay, block, value) {
            Ok(t) => t,
            Err(e) => {
                return Err(e);
            },
        };
        let execution_payload = match Self::build_execution_payload(block) {
            Ok(p) => p,
            Err(e) => {
                return Err(e);
            },
        };
        Ok(SignedBidSubmission { message, execution_payload, signature })
    }

    /// Plans the fan-out of one decided bid: one commitment per currently
    /// ready relay, in ready-set order, each derived per the protocol from
    /// the same block and value.
    pub fn plan_submissions(&self, block: &CandidateBlock, value: u128) -> (r: Result<
        Vec<PlannedSubmission>,
        BidAssemblyError,
    >)
        ensures
            r is Ok <==> block.wf() && is_bls_public_key(self.builder_public_key@) && (forall|
                i: int,
            |
                0 <= i < self.ready_relays@.len() ==> (#[trigger] self.ready_relays@[i]).validator.wf()),
            r matches Ok(plan) ==> plan@.len() == self.ready_relays@.len() && (forall|i: int|
                0 <= i < plan@.len() ==> {
                    let p = #[trigger] plan@[i];
                    p.relay_index == self.ready_relays@[i].index && trace_matches(
                        p.message,
                        self.last_slot,
                        self.builder_public_key@,
                        self.ready_relays@[i].validator,
                        *block,
                        value,
                    )
                }),
    {
        if !crate::types::block_is_wf(block) || self.builder_public_key.len()
            != crate::types::BLS_PUBLIC_KEY_BYTES_LEN {
            return Err(BidAssemblyError::MalformedField);
        }
        let mut plan: Vec<PlannedSubmission> = Vec::new();
        let n = self.ready_relays.len();
        let mut i: usize = 0;
        while i < n
            invariant
                0 <= i <= n == self.ready_relays@.len(),
                plan@.len() == i,
                block.wf(),
                is_bls_public_key(self.builder_public_key@),
                forall|t: int|
                    0 <= t < i ==> {
                        let p = #[trigger] plan@[t];
                        p.relay_index == self.ready_relays@[t].index && trace_matches(
                            p.message,
                            self.last_slot,
                            self.builder_public_key@,
                            self.ready_relays@[t].validator,
                            *block,
                            value,
                        ) && (#[trigger] self.ready_relays@[t]).validator.wf()
                    },
                forall|t: int|
                    0 <= t < i ==> (#[trigger] self.ready_relays@[t]).validator.wf(),
            decreases n - i,
        {
            let relay = &self.ready_relays[i];
            let message = match self.build_bid_trace(relay, block, value) {
                Ok(t) => t,
                Err(e) => {
                    return Err(e);
                },
            };
            plan.push(PlannedSubmission { relay_index: relay.index, message });
            i = i + 1;
        }
        Ok(plan)
    }
}

/// What one relay's dispatch outcome counts as: acceptance, a well-formed
/// rejection, or a transport-level failure. A rejection is a final relay
/// decision and is never retried; a failure is isolated to its relay.
pub open spec fn spec_outcome_counts(rs: Seq<Result<SendBlockStatus, RelayError>>) -> (int, int, int)
    decreases rs.len(),
{
    if rs.len() == 0 {
        (0, 0, 0)
    } else {
        let (s, j, f) = spec_outcome_counts(rs.drop_last());
        match rs.last() {
            Ok(st) => if 200 <= st.code < 300 {
                (s + 1, j, f)
            } else {
                (s, j + 1, f)
            },
            Err(_) => (s, j, f + 1),
        }
    }
}

/// The tally of one fan-out: how many relays accepted, rejected, or could
/// not be reached. Every relay is accounted exactly once.
#[derive(Debug, Clone, Copy, PartialEq, Eq)]
pub struct DispatchReport {
    pub successes: usize,
    pub rejections: usize,
    pub failures: usize,
}

/// Tallies the per-relay outcomes of one fan-out. No outcome aborts the
/// batch: each relay's result is counted independently.
pub fn summarize_dispatch(results: &Vec<Result<SendBlockStatus, RelayError>>) -> (r:
    DispatchReport)
    ensures
        ({
            let (s, j, f) = spec_outcome_counts(results@);
            r.successes == s && r.rejections == j && r.failures == f
        }),
        r.successes + r.rejections + r.failures == results@.len(),
{
    proof {
        lemma_outcome_counts_total(results@);
    }
    let mut successes: usize = 0;
    let mut rejections: usize = 0;
    let mut failures: usize = 0;
    let n = results.len();
    let mut i: usize = 0;
    while i < n
        invariant
            0 <= i <= n == results@.len(),
            ({
                let (s, j, f) = spec_outcome_counts(results@.subrange(0, i as int));
                successes == s && rejections == j && failures == f
            }),
            successes + rejections + failures == i,
        decreases n - i,
    {
        proof {
            assert(results@.subrange(0, i + 1).drop_last() =~= results@.subrange(0, i as int));
            assert(results@.subrange(0, i + 1).last() == results@[i as int]);
        }
        match &results[i] {
            Ok(st) => {
                if 200 <= st.code && st.code < 300 {
                    successes = successes + 1;
                } else {
                    rejections = rejections + 1;
                }
            },
            Err(_) => {
                failures = failures + 1;
            },
        }
        i = i + 1;
    }
    proof {
        assert(results@.subrange(0, n as int) =~= results@);
    }
    DispatchReport { successes, rejections, failures }
}

/// Every relay of a fan-out is accounted exactly once: the three outcome
/// counts always sum to the number of relays addressed, whatever each
/// relay answered.
pub proof fn lemma_outcome_counts_total(rs: Seq<Result<SendBlockStatus, RelayError>>)
    ensures
        ({
            let (s, j, f) = spec_outcome_counts(rs);
            s >= 0 && j >= 0 && f >= 0 && s + j + f == rs.len()
        }),
    decreases rs.len(),
{
    if rs.len() > 0 {
        lemma_outcome_counts_total(rs.drop_last());
    }
}

/// Whether an address stands in a compliance blacklist.
pub open spec fn spec_blacklisted(blacklist: Seq<Vec<u8>>, addr: Seq<u8>) -> bool {
    exists|i: int| 0 <= i < blacklist.len() && (#[trigger] blacklist[i])@ == addr
}

/// The compliance policy hook invoked before `post_block`: a submission may
/// go out only when neither its fee recipient nor any withdrawal address
/// stands in the relay's blacklist.
pub fn submission_allowed(blacklist: &Vec<Vec<u8>>, payload: &ExecutionPayload) -> (r: bool)
    ensures
        r == (!spec_blacklisted(blacklist@, payload.fee_recipient@) && (forall|i: int|
            0 <= i < payload.withdrawals@.len() ==> !spec_blacklisted(
                blacklist@,
                (#[trigger] payload.withdrawals@[i]).address@,
            ))),
{
    if contains_bytes(blacklist, &payload.fee_recipient) {
        return false;
    }
    let n = payload.withdrawals.len();
    let mut i: usize = 0;
    while i < n
        invariant
            0 <= i <= n == payload.withdrawals@.len(),
            !spec_blacklisted(blacklist@, payload.fee_recipient@),
            forall|t: int|
                0 <= t < i ==> !spec_blacklisted(
                    blacklist@,
                    (#[trigger] payload.withdrawals@[t]).address@,
                ),
        decreases n - i,
    {
        if contains_bytes(blacklist, &payload.withdrawals[i].address) {
            return false;
        }
        i = i + 1;
    }
    true
}

/// Membership of a byte string in a list of byte strings, by contents.
fn contains_bytes(list: &Vec<Vec<u8>>, needle: &Vec<u8>) -> (r: bool)
    ensures
        r == spec_blacklisted(list@, needle@),
{
    let n = list.len();
    let mut i: usize = 0;
    while i < n
        invariant
            0 <= i <= n == list@.len(),
            forall|t: int| 0 <= t < i ==> (#[trigger] list@[t])@ != needle@,
        decreases n - i,
    {
        if crate::types::eq_bytes(&list[i], needle) {
            return true;
        }
        i = i + 1;
    }
    false
}

} // verus!
