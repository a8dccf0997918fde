//! Core data model of the bidding and submission engine.
//!
//! Hashes, addresses, BLS public keys and BLS signatures are carried as plain
//! byte vectors of a fixed width; amounts of the native asset are carried as
//! `u128` wei values. Numbers that the relay wire format transmits as decimal
//! strings are plain unsigned integers here.

use vstd::prelude::*;

verus! {

/// Width in bytes of a block or state hash.
pub const HASH_BYTES_LEN: usize = 32;

/// Width in bytes of an execution-layer address.
pub const ADDRESS_BYTES_LEN: usize = 20;

/// Width in bytes of a BLS public key.
pub const BLS_PUBLIC_KEY_BYTES_LEN: usize = 48;

/// Width in bytes of a BLS signature.
pub const BLS_SIGNATURE_BYTES_LEN: usize = 96;

/// Width in bytes of the logs bloom filter of a block.
pub const BYTES_PER_LOGS_BLOOM: usize = 256;

/// Upper bound on the extra-data field of a block.
pub const MAX_EXTRA_DATA_BYTES: usize = 32;

/// Upper bound on the byte length of a single encoded transaction.
pub const MAX_BYTES_PER_TRANSACTION: usize = 1_073_741_824;

/// Upper bound on the number of transactions of one payload.
pub const MAX_TRANSACTIONS_PER_PAYLOAD: usize = 1_048_576;

/// Upper bound on the number of withdrawals of one payload.
pub const MAX_WITHDRAWALS_PER_PAYLOAD: usize = 16;

pub open spec fn is_hash32(s: Seq<u8>) -> bool {
    s.len() == HASH_BYTES_LEN
}

pub open spec fn is_address(s: Seq<u8>) -> bool {
    s.len() == ADDRESS_BYTES_LEN
}

pub open spec fn is_bls_public_key(s: Seq<u8>) -> bool {
    s.len() == BLS_PUBLIC_KEY_BYTES_LEN
}

pub open spec fn is_bls_signature(s: Seq<u8>) -> bool {
    s.len() == BLS_SIGNATURE_BYTES_LEN
}

pub open spec fn is_logs_bloom(s: Seq<u8>) -> bool {
    s.len() == BYTES_PER_LOGS_BLOOM
}

/// Compares two byte vectors for element-wise equality.
pub fn eq_bytes(a: &Vec<u8>, b: &Vec<u8>) -> (r: bool)
    ensures
        r == (a@ == b@),
{
    let r = a == b;
    proof {
        if r {
            assert(a@.len() == b@.len());
            assert(forall|i: int| 0 <= i < a@.len() ==> a@[i] == b@[i]);
            assert(a@ =~= b@);
        }
    }
    r
}

/// Copies a byte vector.
pub fn copy_bytes(v: &Vec<u8>) -> (r: Vec<u8>)
    ensures
        r@ == v@,
{
    let mut r: Vec<u8> = Vec::new();
    let mut i: usize = 0;
    while i < v.len()
        invariant
            i <= v@.len(),
            r@ == v@.subrange(0, i as int),
        decreases v@.len() - i,
    {
        r.push(v[i]);
        proof {
            assert(r@ =~= v@.subrange(0, i + 1 as int));
        }
        i = i + 1;
    }
    proof {
        assert(r@ =~= v@);
    }
    r
}

/// The message of one relay-supplied validator registration.
#[derive(Debug, Clone)]
pub struct EntryMessage {
    pub fee_recipient: Vec<u8>,
    pub gas_limit: u64,
    pub timestamp: u64,
    pub pubkey: Vec<u8>,
}

impl EntryMessage {
    pub open spec fn wf(self) -> bool {
        &&& is_address(self.fee_recipient@)
        &&& is_bls_public_key(self.pubkey@)
    }
}

/// A validator registration message wrapped in its BLS signature.
#[derive(Debug, Clone)]
pub struct Entry {
    pub message: EntryMessage,
    pub signature: String,
}

impl Entry {
    pub open spec fn wf(self) -> bool {
        self.message.wf()
    }
}

/// One element of a relay's validator-registration feed: the slot the
/// validator proposes in, its index, and its registration entry.
#[derive(Debug, Clone)]
pub struct Validator {
    pub slot: u64,
    pub validator_index: u64,
    pub entry: Entry,
}

impl Validator {
    pub open spec fn wf(self) -> bool {
        self.entry.wf()
    }
}

/// The structured acceptance or rejection answer of a relay to a block
/// submission. A well-formed negative answer is not a transport error.
#[derive(Debug, Clone, PartialEq, Eq)]
pub struct SendBlockStatus {
    pub code: u64,
    pub message: String,
}

impl SendBlockStatus {
    /// True when the relay accepted the submission.
    pub fn is_accepted(&self) -> (r: bool)
        ensures
            r == (200 <= self.code < 300),
    {
        200 <= self.code && self.code < 300
    }
}

/// A relay call that failed before a structured answer was obtained.
#[derive(Debug, Clone, Copy, PartialEq, Eq)]
pub enum RelayError {
    /// Network failure or timeout.
    Transport,
    /// The relay answered, but the body could not be decoded.
    Decode,
}

/// Why a candidate block yields no bid.
#[derive(Debug, Clone, Copy, PartialEq, Eq)]
pub enum BidError {
    /// The candidate's realized value does not beat the best known bid.
    Unprofitable,
}

/// The cause recorded when a submission attempt fails.
#[derive(Debug, Clone, Copy, PartialEq, Eq)]
pub enum SubmitErrorKind {
    Transport,
    Decode,
    Signing,
}

/// Lifecycle of one candidate block inside the auction engine.
#[derive(Debug, Clone, Copy, PartialEq, Eq)]
pub enum Status {
    NeverSent,
    Sealed,
    Winning,
    Losing,
    Error(SubmitErrorKind),
}

/// The candidate lifecycle machine: `NeverSent` to `Sealed` on successful
/// local construction (or straight to `Error` when construction or signing
/// failed), `Sealed` to a relay verdict or `Error`, a verdict to `Error`
/// on a later failure. Nothing ever moves back towards `NeverSent`, and an
/// `Error` is final.
pub open spec fn status_transition_allowed(from: Status, to: Status) -> bool {
    match from {
        Status::NeverSent => to == Status::Sealed || to matches Status::Error(_),
        Status::Sealed => to == Status::Winning || to == Status::Losing || to matches Status::Error(
            _,
        ),
        Status::Winning => to matches Status::Error(_),
        Status::Losing => to matches Status::Error(_),
        Status::Error(_) => false,
    }
}

/// Runtime check of [`status_transition_allowed`], for callers that learn a
/// candidate's current status at run time.
pub fn status_transition_is_allowed(from: &Status, to: &Status) -> (r: bool)
    ensures
        r == status_transition_allowed(*from, *to),
{
    match from {
        Status::NeverSent => matches!(to, Status::Sealed | Status::Error(_)),
        Status::Sealed => matches!(to, Status::Winning | Status::Losing | Status::Error(_)),
        Status::Winning => matches!(to, Status::Error(_)),
        Status::Losing => matches!(to, Status::Error(_)),
        Status::Error(_) => false,
    }
}

/// The best known competing bid: its value in wei and whether it was placed
/// by this builder.
#[derive(Debug, Clone, Copy, PartialEq, Eq)]
pub struct Bid {
    pub value: u128,
    pub is_ours: bool,
}

/// The slot-transition signal from the consensus layer.
#[derive(Debug, Clone)]
pub struct PayloadAttributes {
    pub timestamp: u64,
    pub random: Vec<u8>,
    pub suggested_fee_receiptient: Vec<u8>,
    pub withdrawals: Vec<Withdrawal>,
    pub slot: u64,
    pub head_hash: Vec<u8>,
    pub gas_limit: u64,
}

/// A consensus-layer withdrawal as the execution layer records it.
#[derive(Debug, Clone, PartialEq, Eq)]
pub struct Withdrawal {
    pub index: u64,
    pub validator_index: u64,
    pub address: Vec<u8>,
    pub amount: u64,
}

impl Withdrawal {
    pub open spec fn wf(self) -> bool {
        is_address(self.address@)
    }
}

/// A withdrawal in the field layout the relay wire format expects.
#[derive(Debug, Clone, PartialEq, Eq)]
pub struct WithdrawalMevBoost {
    pub index: u64,
    pub validator_index: u64,
    pub address: Vec<u8>,
    pub amount: u64,
}

impl WithdrawalMevBoost {
    pub open spec fn wf(self) -> bool {
        is_address(self.address@)
    }
}

impl From<Withdrawal> for WithdrawalMevBoost {
    fn from(w: Withdrawal) -> (r: WithdrawalMevBoost) {
        WithdrawalMevBoost {
            index: w.index,
            validator_index: w.validator_index,
            address: w.address,
            amount: w.amount,
        }
    }
}

impl vstd::std_specs::convert::FromSpecImpl<Withdrawal> for WithdrawalMevBoost {
    open spec fn obeys_from_spec() -> bool {
        true
    }

    open spec fn from_spec(w: Withdrawal) -> WithdrawalMevBoost {
        WithdrawalMevBoost {
            index: w.index,
            validator_index: w.validator_index,
            address: w.address,
            amount: w.amount,
        }
    }
}

/// An executed candidate block plus its realized value, in plain fields.
/// Transactions are carried as already-encoded raw transaction bytes; the
/// block hash is computed by the execution collaborator that built the block.
#[derive(Debug, Clone)]
pub struct CandidateBlock {
    pub hash: Vec<u8>,
    pub parent_hash: Vec<u8>,
    pub fee_recipient: Vec<u8>,
    pub state_root: Vec<u8>,
    pub receipts_root: Vec<u8>,
    pub logs_bloom: Vec<u8>,
    pub prev_randao: Vec<u8>,
    pub block_number: u64,
    pub gas_limit: u64,
    pub gas_used: u64,
    pub timestamp: u64,
    pub extra_data: Vec<u8>,
    pub base_fee_per_gas: u64,
    pub transactions: Vec<Vec<u8>>,
    pub withdrawals: Vec<Withdrawal>,
    /// Realized value of the block for the proposer, in wei.
    pub value: u128,
}

impl CandidateBlock {
    pub open spec fn wf(self) -> bool {
        &&& is_hash32(self.hash@)
        &&& is_hash32(self.parent_hash@)
        &&& is_address(self.fee_recipient@)
        &&& is_hash32(self.state_root@)
        &&& is_hash32(self.receipts_root@)
        &&& is_logs_bloom(self.logs_bloom@)
        &&& is_hash32(self.prev_randao@)
        &&& self.extra_data@.len() <= MAX_EXTRA_DATA_BYTES
        &&& self.transactions@.len() <= MAX_TRANSACTIONS_PER_PAYLOAD
        &&& forall|i: int|
            0 <= i < self.transactions@.len() ==> #[trigger] self.transactions@[i]@.len()
                <= MAX_BYTES_PER_TRANSACTION
        &&& self.withdrawals@.len() <= MAX_WITHDRAWALS_PER_PAYLOAD
        &&& forall|i: int| 0 <= i < self.withdrawals@.len() ==> #[trigger] self.withdrawals@[i].wf()
    }
}

/// The signable commitment of one submission attempt.
#[derive(Debug, Clone)]
pub struct BidTrace {
    pub slot: u64,
    pub parent_hash: Vec<u8>,
    pub block_hash: Vec<u8>,
    pub builder_public_key: Vec<u8>,
    pub proposer_public_key: Vec<u8>,
    pub proposer_fee_recipient: Vec<u8>,
    pub gas_limit: u64,
    pub gas_used: u64,
    pub value: u128,
}

impl BidTrace {
    pub open spec fn wf(self) -> bool {
        &&& is_hash32(self.parent_hash@)
        &&& is_hash32(self.block_hash@)
        &&& is_bls_public_key(self.builder_public_key@)
        &&& is_bls_public_key(self.proposer_public_key@)
        &&& is_address(self.proposer_fee_recipient@)
    }
}

/// The full block body in the relay wire layout.
#[derive(Debug, Clone)]
pub struct ExecutionPayload {
    pub parent_hash: Vec<u8>,
    pub fee_recipient: Vec<u8>,
    pub state_root: Vec<u8>,
    pub receipts_root: Vec<u8>,
    pub logs_bloom: Vec<u8>,
    pub prev_randao: Vec<u8>,
    pub block_number: u64,
    pub gas_limit: u64,
    pub gas_used: u64,
    pub timestamp: u64,
    pub extra_data: Vec<u8>,
    pub base_fee_per_gas: u64,
    pub block_hash: Vec<u8>,
    pub transactions: Vec<Vec<u8>>,
    pub withdrawals: Vec<WithdrawalMevBoost>,
}

impl ExecutionPayload {
    pub open spec fn wf(self) -> bool {
        &&& is_hash32(self.parent_hash@)
        &&& is_address(self.fee_recipient@)
        &&& is_hash32(self.state_root@)
        &&& is_hash32(self.receipts_root@)
        &&& is_logs_bloom(self.logs_bloom@)
        &&& is_hash32(self.prev_randao@)
        &&& self.extra_data@.len() <= MAX_EXTRA_DATA_BYTES
        &&& is_hash32(self.block_hash@)
        &&& self.transactions@.len() <= MAX_TRANSACTIONS_PER_PAYLOAD
        &&& forall|i: int|
            0 <= i < self.transactions@.len() ==> #[trigger] self.transactions@[i]@.len()
                <= MAX_BYTES_PER_TRANSACTION
        &&& self.withdrawals@.len() <= MAX_WITHDRAWALS_PER_PAYLOAD
        &&& forall|i: int| 0 <= i < self.withdrawals@.len() ==> #[trigger] self.withdrawals@[i].wf()
    }
}

/// The unit actually transmitted to a relay: the signed commitment and the
/// payload it commits to.
#[derive(Debug, Clone)]
pub struct SignedBidSubmission {
    pub message: BidTrace,
    pub execution_payload: ExecutionPayload,
    pub signature: Vec<u8>,
}

impl SignedBidSubmission {
    pub open spec fn wf(self) -> bool {
        &&& self.message.wf()
        &&& self.execution_payload.wf()
        &&& is_bls_signature(self.signature@)
    }
}

/// Bookkeeping record of one candidate payload on its way to the relays.
#[derive(Debug, Clone)]
pub struct PayloadWithMetadata {
    pub block_hash: Vec<u8>,
    pub value: u128,
    pub status: Status,
}

impl PayloadWithMetadata {
    /// Records a new lifecycle status for this payload, which must move it
    /// forward along the candidate lifecycle machine. Returns whether the
    /// new status is `Sealed`, the moment at which the collaborator-owned
    /// post-seal bookkeeping (compensating mempool transactions) is owed.
    pub fn set_status(&mut self, status: Status) -> (needs_post_seal: bool)
        requires
            status_transition_allowed(old(self).status, status),
        ensures
            final(self).block_hash == old(self).block_hash,
            final(self).value == old(self).value,
            final(self).status == status,
            needs_post_seal == (status == Status::Sealed),
    {
        let needs_post_seal = match status {
            Status::Sealed => true,
            _ => false,
        };
        self.status = status;
        needs_post_seal
    }
}


/// Runtime check of [`Validator::wf`].
pub fn validator_is_wf(v: &Validator) -> (r: bool)
    ensures
        r == v.wf(),
{
    v.entry.message.fee_recipient.len() == ADDRESS_BYTES_LEN && v.entry.message.pubkey.len()
        == BLS_PUBLIC_KEY_BYTES_LEN
}

/// Runtime check of [`CandidateBlock::wf`].
pub fn block_is_wf(b: &CandidateBlock) -> (r: bool)
    ensures
        r == b.wf(),
{
    if !(b.hash.len() == HASH_BYTES_LEN && b.parent_hash.len() == HASH_BYTES_LEN
        && b.fee_recipient.len() == ADDRESS_BYTES_LEN && b.state_root.len() == HASH_BYTES_LEN
        && b.receipts_root.len() == HASH_BYTES_LEN && b.logs_bloom.len() == BYTES_PER_LOGS_BLOOM
        && b.prev_randao.len() == HASH_BYTES_LEN && b.extra_data.len() <= MAX_EXTRA_DATA_BYTES
        && b.transactions.len() <= MAX_TRANSACTIONS_PER_PAYLOAD && b.withdrawals.len()
        <= MAX_WITHDRAWALS_PER_PAYLOAD) {
        return false;
    }
    let n = b.transactions.len();
    let mut i: usize = 0;
    while i < n
        invariant
            0 <= i <= n == b.transactions@.len(),
            forall|t: int|
                0 <= t < i ==> (#[trigger] b.transactions@[t])@.len()
                    <= MAX_BYTES_PER_TRANSACTION,
        decreases n - i,
    {
        if b.transactions[i].len() > MAX_BYTES_PER_TRANSACTION {
            proof {
                assert((b.transactions@[i as int])@.len() > MAX_BYTES_PER_TRANSACTION);
            }
            return false;
        }
        i = i + 1;
    }
    let m = b.withdrawals.len();
    let mut j: usize = 0;
    while j < m
        invariant
            0 <= j <= m == b.withdrawals@.len(),
            forall|t: int| 0 <= t < j ==> (#[trigger] b.withdrawals@[t]).wf(),
        decreases m - j,
    {
        if b.withdrawals[j].address.len() != ADDRESS_BYTES_LEN {
            proof {
                assert(!(b.withdrawals@[j as int]).wf());
            }
            return false;
        }
        j = j + 1;
    }
    true
}

} // verus!
