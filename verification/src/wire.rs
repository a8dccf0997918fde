//! The relay wire format of a block submission: the JSON body POSTed to a
//! relay, with every numeric field a decimal string and every byte-string
//! field `0x`-prefixed lowercase hex.
//!
//! The crate emits and parses this format itself, byte by byte; the spec
//! functions below pin the exact byte string of every value, and parsing is
//! proved to invert emission.

use vstd::prelude::*;
use vstd::string::StringSliceAdditionalSpecFns;
use crate::decimal::{dec_digits, lemma_dec_digits_shape, lemma_num_of_dec_digits, parse_dec_u128,
    parse_dec_u64, push_dec_u128, push_dec_u64};
use crate::hexbytes::{hex_decode, hex_encode, lemma_hex_decode_encode, lemma_hex_lower_digits,
    lemma_hex_lower_len, spec_hex_lower, valid_hex};
use crate::types::{BidTrace, ExecutionPayload, SignedBidSubmission, WithdrawalMevBoost,
    ADDRESS_BYTES_LEN, BLS_PUBLIC_KEY_BYTES_LEN, BLS_SIGNATURE_BYTES_LEN, BYTES_PER_LOGS_BLOOM,
    HASH_BYTES_LEN, MAX_BYTES_PER_TRANSACTION, MAX_EXTRA_DATA_BYTES, MAX_TRANSACTIONS_PER_PAYLOAD,
    MAX_WITHDRAWALS_PER_PAYLOAD};

verus! {

/// Parsing a wire body failed; the body is not the canonical wire form of
/// any well-formed submission.
#[derive(Debug, Clone, Copy, PartialEq, Eq)]
pub enum WireError {
    /// The body is not the canonical wire grammar, or a field is out of
    /// range or of the wrong width.
    Malformed,
    /// A submission was read but bytes follow its closing brace.
    TrailingData,
}

/// Appends a literal to the wire buffer.
fn push_lit(out: &mut Vec<u8>, s: &str)
    ensures
        final(out)@ == old(out)@ + s.spec_bytes(),
{
    let bs = s.as_bytes();
    let mut i: usize = 0;
    while i < bs.len()
        invariant
            i <= bs@.len(),
            bs@ == s.spec_bytes(),
            out@ == old(out)@ + s.spec_bytes().subrange(0, i as int),
        decreases bs@.len() - i,
    {
        out.push(bs[i]);
        proof {
            assert(out@ =~= old(out)@ + s.spec_bytes().subrange(0, i + 1 as int));
        }
        i = i + 1;
    }
    proof {
        assert(s.spec_bytes().subrange(0, s.spec_bytes().len() as int) =~= s.spec_bytes());
    }
}

/// Appends the lowercase hex digits of `data`.
fn push_hex(out: &mut Vec<u8>, data: &Vec<u8>)
    ensures
        final(out)@ == old(out)@ + spec_hex_lower(data@),
{
    let h = hex_encode(data.as_slice());
    let mut i: usize = 0;
    while i < h.len()
        invariant
            i <= h@.len(),
            h@ == spec_hex_lower(data@),
            out@ == old(out)@ + h@.subrange(0, i as int),
        decreases h@.len() - i,
    {
        out.push(h[i]);
        proof {
            assert(out@ =~= old(out)@ + h@.subrange(0, i + 1 as int));
        }
        i = i + 1;
    }
    proof {
        assert(h@.subrange(0, h@.len() as int) =~= h@);
    }
}

/// The wire bytes of a bid trace object through its proposer public key.
#[verifier::opaque]
pub open spec fn spec_wire_trace_head(t: BidTrace) -> Seq<u8> {
    ("{\"slot\":\"").spec_bytes() + dec_digits(t.slot as nat) + (
    "\",\"parent_hash\":\"0x").spec_bytes() + spec_hex_lower(t.parent_hash@) + (
    "\",\"block_hash\":\"0x").spec_bytes() + spec_hex_lower(t.block_hash@) + (
    "\",\"builder_pubkey\":\"0x").spec_bytes() + spec_hex_lower(t.builder_public_key@) + (
    "\",\"proposer_pubkey\":\"0x").spec_bytes() + spec_hex_lower(t.proposer_public_key@)
}

/// The wire bytes of one bid trace object.
pub open spec fn spec_wire_trace(t: BidTrace) -> Seq<u8> {
    spec_wire_trace_head(t) + spec_wire_trace_tail(t)
}

/// The wire bytes of a bid trace object from its proposer fee recipient on.
#[verifier::opaque]
pub open spec fn spec_wire_trace_tail(t: BidTrace) -> Seq<u8> {
    ("\",\"proposer_fee_recipient\":\"0x").spec_bytes() + spec_hex_lower(
        t.proposer_fee_recipient@,
    ) + ("\",\"gas_limit\":\"").spec_bytes() + dec_digits(t.gas_limit as nat) + (
    "\",\"gas_used\":\"").spec_bytes() + dec_digits(t.gas_used as nat) + (
    "\",\"value\":\"").spec_bytes() + dec_digits(t.value as nat) + ("\"}").spec_bytes()
}

/// The wire bytes of one withdrawal object.
pub open spec fn spec_wire_withdrawal(w: WithdrawalMevBoost) -> Seq<u8> {
    ("{\"index\":\"").spec_bytes() + dec_digits(w.index as nat) + ("\",\"validator_index\":\"").spec_bytes()
        + dec_digits(w.validator_index as nat) + ("\",\"address\":\"0x").spec_bytes() + spec_hex_lower(
        w.address@,
    ) + ("\",\"amount\":\"").spec_bytes() + dec_digits(w.amount as nat) + ("\"}").spec_bytes()
}

/// The wire bytes of the transaction items after the first of a non-empty
/// list: each preceded by a comma.
pub open spec fn spec_wire_tx_more(txs: Seq<Vec<u8>>) -> Seq<u8>
    decreases txs.len(),
{
    if txs.len() == 0 {
        Seq::empty()
    } else {
        (",\"0x").spec_bytes() + spec_hex_lower(txs.first()@) + ("\"").spec_bytes() + spec_wire_tx_more(
            txs.drop_first(),
        )
    }
}

/// The wire bytes of a transaction list, brackets included.
pub open spec fn spec_wire_tx_list(txs: Seq<Vec<u8>>) -> Seq<u8> {
    if txs.len() == 0 {
        ("[]").spec_bytes()
    } else {
        ("[\"0x").spec_bytes() + spec_hex_lower(txs.first()@) + ("\"").spec_bytes() + spec_wire_tx_more(
            txs.drop_first(),
        ) + ("]").spec_bytes()
    }
}

/// The wire bytes of the withdrawal items after the first of a non-empty
/// list: each preceded by a comma.
pub open spec fn spec_wire_wd_more(ws: Seq<WithdrawalMevBoost>) -> Seq<u8>
    decreases ws.len(),
{
    if ws.len() == 0 {
        Seq::empty()
    } else {
        (",").spec_bytes() + spec_wire_withdrawal(ws.first()) + spec_wire_wd_more(ws.drop_first())
    }
}

/// The wire bytes of a withdrawal list, brackets included.
pub open spec fn spec_wire_wd_list(ws: Seq<WithdrawalMevBoost>) -> Seq<u8> {
    if ws.len() == 0 {
        ("[]").spec_bytes()
    } else {
        ("[").spec_bytes() + spec_wire_withdrawal(ws.first()) + spec_wire_wd_more(ws.drop_first())
            + ("]").spec_bytes()
    }
}

/// The wire bytes of an execution payload object through its prev-randao
/// field.
#[verifier::opaque]
pub open spec fn spec_wire_payload_front(p: ExecutionPayload) -> Seq<u8> {
    ("{\"parent_hash\":\"0x").spec_bytes() + spec_hex_lower(p.parent_hash@) + (
    "\",\"fee_recipient\":\"0x").spec_bytes() + spec_hex_lower(p.fee_recipient@) + (
    "\",\"state_root\":\"0x").spec_bytes() + spec_hex_lower(p.state_root@) + (
    "\",\"receipts_root\":\"0x").spec_bytes() + spec_hex_lower(p.receipts_root@) + (
    "\",\"logs_bloom\":\"0x").spec_bytes() + spec_hex_lower(p.logs_bloom@) + (
    "\",\"prev_randao\":\"0x").spec_bytes() + spec_hex_lower(p.prev_randao@)
}

/// The wire bytes of an execution payload object from its block number
/// through its block hash.
#[verifier::opaque]
pub open spec fn spec_wire_payload_mid(p: ExecutionPayload) -> Seq<u8> {
    ("\",\"block_number\":\"").spec_bytes() + dec_digits(p.block_number as nat) + (
    "\",\"gas_limit\":\"").spec_bytes() + dec_digits(p.gas_limit as nat) + (
    "\",\"gas_used\":\"").spec_bytes() + dec_digits(p.gas_used as nat) + (
    "\",\"timestamp\":\"").spec_bytes() + dec_digits(p.timestamp as nat) + (
    "\",\"extra_data\":\"0x").spec_bytes() + spec_hex_lower(p.extra_data@) + (
    "\",\"base_fee_per_gas\":\"").spec_bytes() + dec_digits(p.base_fee_per_gas as nat) + (
    "\",\"block_hash\":\"0x").spec_bytes() + spec_hex_lower(p.block_hash@)
}

/// The wire bytes of an execution payload object up to and including its
/// block hash field.
pub open spec fn spec_wire_payload_head(p: ExecutionPayload) -> Seq<u8> {
    spec_wire_payload_front(p) + spec_wire_payload_mid(p)
}

/// The wire bytes of one execution payload object.
#[verifier::opaque]
pub open spec fn spec_wire_payload(p: ExecutionPayload) -> Seq<u8> {
    spec_wire_payload_head(p) + ("\",\"transactions\":").spec_bytes() + spec_wire_tx_list(
        p.transactions@,
    ) + (",\"withdrawals\":").spec_bytes() + spec_wire_wd_list(p.withdrawals@) + ("}").spec_bytes()
}

/// The wire bytes of a whole signed bid submission.
pub open spec fn spec_wire_submission(sub: SignedBidSubmission) -> Seq<u8> {
    ("{\"message\":").spec_bytes() + spec_wire_trace(sub.message) + (",\"execution_payload\":").spec_bytes()
        + spec_wire_payload(sub.execution_payload) + (",\"signature\":\"0x").spec_bytes()
        + spec_hex_lower(sub.signature@) + ("\"}").spec_bytes()
}

/// Emits the wire bytes of a bid trace.
fn push_trace(out: &mut Vec<u8>, t: &BidTrace)
    ensures
        final(out)@ == old(out)@ + spec_wire_trace(*t),
{
    proof {
        reveal_strlit("{\"slot\":\"");
        reveal_strlit("\",\"parent_hash\":\"0x");
        reveal_strlit("\",\"block_hash\":\"0x");
        reveal_strlit("\",\"builder_pubkey\":\"0x");
        reveal_strlit("\",\"proposer_pubkey\":\"0x");
        reveal_strlit("\",\"proposer_fee_recipient\":\"0x");
        reveal_strlit("\",\"gas_limit\":\"");
        reveal_strlit("\",\"gas_used\":\"");
        reveal_strlit("\",\"value\":\"");
        reveal_strlit("\"}");
    }
    push_lit(out, "{\"slot\":\"");
    push_dec_u64(out, t.slot);
    push_lit(out, "\",\"parent_hash\":\"0x");
    push_hex(out, &t.parent_hash);
    push_lit(out, "\",\"block_hash\":\"0x");
    push_hex(out, &t.block_hash);
    push_lit(out, "\",\"builder_pubkey\":\"0x");
    push_hex(out, &t.builder_public_key);
    push_lit(out, "\",\"proposer_pubkey\":\"0x");
    push_hex(out, &t.proposer_public_key);
    push_lit(out, "\",\"proposer_fee_recipient\":\"0x");
    push_hex(out, &t.proposer_fee_recipient);
    push_lit(out, "\",\"gas_limit\":\"");
    push_dec_u64(out, t.gas_limit);
    push_lit(out, "\",\"gas_used\":\"");
    push_dec_u64(out, t.gas_used);
    push_lit(out, "\",\"value\":\"");
    push_dec_u128(out, t.value);
    push_lit(out, "\"}");
    proof {
        reveal(spec_wire_trace_head);
        reveal(spec_wire_trace_tail);
        assert(out@ =~= old(out)@ + spec_wire_trace(*t));
    }
}

/// Emits the wire bytes of one withdrawal.
fn push_withdrawal(out: &mut Vec<u8>, w: &WithdrawalMevBoost)
    ensures
        final(out)@ == old(out)@ + spec_wire_withdrawal(*w),
{
    proof {
        reveal_strlit("{\"index\":\"");
        reveal_strlit("\",\"validator_index\":\"");
        reveal_strlit("\",\"address\":\"0x");
        reveal_strlit("\",\"amount\":\"");
        reveal_strlit("\"}");
    }
    push_lit(out, "{\"index\":\"");
    push_dec_u64(out, w.index);
    push_lit(out, "\",\"validator_index\":\"");
    push_dec_u64(out, w.validator_index);
    push_lit(out, "\",\"address\":\"0x");
    push_hex(out, &w.address);
    push_lit(out, "\",\"amount\":\"");
    push_dec_u64(out, w.amount);
    push_lit(out, "\"}");
    proof {
        assert(out@ =~= old(out)@ + spec_wire_withdrawal(*w));
    }
}

/// Appending one transaction to the tail items appends its wire bytes.
proof fn lemma_tx_more_push(s: Seq<Vec<u8>>, x: Vec<u8>)
    ensures
        spec_wire_tx_more(s.push(x)) == spec_wire_tx_more(s) + (",\"0x").spec_bytes() + spec_hex_lower(
            x@,
        ) + ("\"").spec_bytes(),
    decreases s.len(),
{
    if s.len() == 0 {
        assert(s.push(x).drop_first() =~= Seq::<Vec<u8>>::empty());
        assert(s.push(x).first() == x);
        assert(spec_wire_tx_more(Seq::<Vec<u8>>::empty()) == Seq::<u8>::empty());
        assert(spec_wire_tx_more(s) == Seq::<u8>::empty());
        assert(spec_wire_tx_more(s.push(x)) == (",\"0x").spec_bytes() + spec_hex_lower(x@) + ("\"").spec_bytes() + Seq::<u8>::empty());
        assert(spec_wire_tx_more(s.push(x)) =~= spec_wire_tx_more(s) + (",\"0x").spec_bytes()
            + spec_hex_lower(x@) + ("\"").spec_bytes());
    } else {
        assert(s.push(x).first() == s.first());
        assert(s.push(x).drop_first() =~= s.drop_first().push(x));
        lemma_tx_more_push(s.drop_first(), x);
        assert(spec_wire_tx_more(s.push(x)) == (",\"0x").spec_bytes() + spec_hex_lower(s.first()@)
            + ("\"").spec_bytes() + spec_wire_tx_more(s.drop_first().push(x)));
        assert(spec_wire_tx_more(s) == (",\"0x").spec_bytes() + spec_hex_lower(s.first()@) + ("\"").spec_bytes() + spec_wire_tx_more(s.drop_first()));
        assert(spec_wire_tx_more(s.push(x)) =~= spec_wire_tx_more(s) + (",\"0x").spec_bytes()
            + spec_hex_lower(x@) + ("\"").spec_bytes());
    }
}

/// Appending one withdrawal to the tail items appends its wire bytes.
proof fn lemma_wd_more_push(s: Seq<WithdrawalMevBoost>, x: WithdrawalMevBoost)
    ensures
        spec_wire_wd_more(s.push(x)) == spec_wire_wd_more(s) + (",").spec_bytes()
            + spec_wire_withdrawal(x),
    decreases s.len(),
{
    if s.len() == 0 {
        assert(s.push(x).drop_first() =~= Seq::<WithdrawalMevBoost>::empty());
        assert(s.push(x).first() == x);
        assert(spec_wire_wd_more(Seq::<WithdrawalMevBoost>::empty()) == Seq::<u8>::empty());
        assert(spec_wire_wd_more(s) == Seq::<u8>::empty());
        assert(spec_wire_wd_more(s.push(x)) == (",").spec_bytes() + spec_wire_withdrawal(x)
            + Seq::<u8>::empty());
        assert(spec_wire_wd_more(s.push(x)) =~= spec_wire_wd_more(s) + (",").spec_bytes()
            + spec_wire_withdrawal(x));
    } else {
        assert(s.push(x).first() == s.first());
        assert(s.push(x).drop_first() =~= s.drop_first().push(x));
        lemma_wd_more_push(s.drop_first(), x);
        assert(spec_wire_wd_more(s.push(x)) == (",").spec_bytes() + spec_wire_withdrawal(s.first())
            + spec_wire_wd_more(s.drop_first().push(x)));
        assert(spec_wire_wd_more(s) == (",").spec_bytes() + spec_wire_withdrawal(s.first())
            + spec_wire_wd_more(s.drop_first()));
        assert(spec_wire_wd_more(s.push(x)) =~= spec_wire_wd_more(s) + (",").spec_bytes()
            + spec_wire_withdrawal(x));
    }
}

/// Emits the wire bytes of a transaction list.
#[verifier::loop_isolation(false)]
fn push_tx_list(out: &mut Vec<u8>, txs: &Vec<Vec<u8>>)
    ensures
        final(out)@ == old(out)@ + spec_wire_tx_list(txs@),
{
    proof {
        reveal_strlit("[]");
        reveal_strlit("[\"0x");
        reveal_strlit(",\"0x");
        reveal_strlit("\"");
        reveal_strlit("]");
    }
    if txs.len() == 0 {
        push_lit(out, "[]");
        return ;
    }
    push_lit(out, "[\"0x");
    push_hex(out, &txs[0]);
    push_lit(out, "\"");
    let ghost start = out@;
    let mut i: usize = 1;
    while i < txs.len()
        invariant
            1 <= i <= txs@.len(),
            out@ == start + spec_wire_tx_more(txs@.subrange(1, i as int)),
            start == old(out)@ + ("[\"0x").spec_bytes() + spec_hex_lower(txs@[0]@) + ("\"").spec_bytes(),
        decreases txs@.len() - i,
    {
        push_lit(out, ",\"0x");
        push_hex(out, &txs[i]);
        push_lit(out, "\"");
        proof {
            lemma_tx_more_push(txs@.subrange(1, i as int), txs@[i as int]);
            assert(txs@.subrange(1, i + 1 as int) =~= txs@.subrange(1, i as int).push(
                txs@[i as int],
            ));
            assert(out@ =~= start + spec_wire_tx_more(txs@.subrange(1, i + 1 as int)));
        }
        i = i + 1;
    }
    push_lit(out, "]");
    proof {
        assert(txs@.subrange(1, txs@.len() as int) =~= txs@.drop_first());
        assert(out@ =~= old(out)@ + spec_wire_tx_list(txs@));
    }
}

/// Emits the wire bytes of a withdrawal list.
#[verifier::loop_isolation(false)]
fn push_wd_list(out: &mut Vec<u8>, ws: &Vec<WithdrawalMevBoost>)
    ensures
        final(out)@ == old(out)@ + spec_wire_wd_list(ws@),
{
    if ws.len() == 0 {
        push_lit(out, "[]");
        return ;
    }
    push_lit(out, "[");
    push_withdrawal(out, &ws[0]);
    let ghost start = out@;
    let mut i: usize = 1;
    while i < ws.len()
        invariant
            1 <= i <= ws@.len(),
            out@ == start + spec_wire_wd_more(ws@.subrange(1, i as int)),
            start == old(out)@ + ("[").spec_bytes() + spec_wire_withdrawal(ws@[0]),
        decreases ws@.len() - i,
    {
        push_lit(out, ",");
        push_withdrawal(out, &ws[i]);
        proof {
            lemma_wd_more_push(ws@.subrange(1, i as int), ws@[i as int]);
            assert(ws@.subrange(1, i + 1 as int) =~= ws@.subrange(1, i as int).push(
                ws@[i as int],
            ));
            assert(out@ =~= start + spec_wire_wd_more(ws@.subrange(1, i + 1 as int)));
        }
        i = i + 1;
    }
    push_lit(out, "]");
    proof {
        assert(ws@.subrange(1, ws@.len() as int) =~= ws@.drop_first());
        assert(out@ =~= old(out)@ + spec_wire_wd_list(ws@));
    }
}

/// Emits the wire bytes of an execution payload.
#[verifier::rlimit(100)]
fn push_payload(out: &mut Vec<u8>, p: &ExecutionPayload)
    ensures
        final(out)@ == old(out)@ + spec_wire_payload(*p),
{
    proof {
        reveal_strlit("{\"parent_hash\":\"0x");
        reveal_strlit("\",\"fee_recipient\":\"0x");
        reveal_strlit("\",\"state_root\":\"0x");
        reveal_strlit("\",\"receipts_root\":\"0x");
        reveal_strlit("\",\"logs_bloom\":\"0x");
        reveal_strlit("\",\"prev_randao\":\"0x");
        reveal_strlit("\",\"block_number\":\"");
        reveal_strlit("\",\"gas_limit\":\"");
        reveal_strlit("\",\"gas_used\":\"");
        reveal_strlit("\",\"timestamp\":\"");
        reveal_strlit("\",\"extra_data\":\"0x");
        reveal_strlit("\",\"base_fee_per_gas\":\"");
        reveal_strlit("\",\"block_hash\":\"0x");
        reveal_strlit("\",\"transactions\":");
        reveal_strlit(",\"withdrawals\":");
        reveal_strlit("}");
    }
    push_lit(out, "{\"parent_hash\":\"0x");
    push_hex(out, &p.parent_hash);
    push_lit(out, "\",\"fee_recipient\":\"0x");
    push_hex(out, &p.fee_recipient);
    push_lit(out, "\",\"state_root\":\"0x");
    push_hex(out, &p.state_root);
    push_lit(out, "\",\"receipts_root\":\"0x");
    push_hex(out, &p.receipts_root);
    push_lit(out, "\",\"logs_bloom\":\"0x");
    push_hex(out, &p.logs_bloom);
    push_lit(out, "\",\"prev_randao\":\"0x");
    push_hex(out, &p.prev_randao);
    push_lit(out, "\",\"block_number\":\"");
    push_dec_u64(out, p.block_number);
    push_lit(out, "\",\"gas_limit\":\"");
    push_dec_u64(out, p.gas_limit);
    push_lit(out, "\",\"gas_used\":\"");
    push_dec_u64(out, p.gas_used);
    push_lit(out, "\",\"timestamp\":\"");
    push_dec_u64(out, p.timestamp);
    push_lit(out, "\",\"extra_data\":\"0x");
    push_hex(out, &p.extra_data);
    push_lit(out, "\",\"base_fee_per_gas\":\"");
    push_dec_u64(out, p.base_fee_per_gas);
    push_lit(out, "\",\"block_hash\":\"0x");
    push_hex(out, &p.block_hash);
    proof {
        reveal(spec_wire_payload_front);
        reveal(spec_wire_payload_mid);
        assert(out@ =~= old(out)@ + spec_wire_payload_head(*p));
    }
    push_lit(out, "\",\"transactions\":");
    push_tx_list(out, &p.transactions);
    push_lit(out, ",\"withdrawals\":");
    push_wd_list(out, &p.withdrawals);
    push_lit(out, "}");
    proof {
        reveal(spec_wire_payload);
        assert(out@ =~= old(out)@ + spec_wire_payload(*p));
    }
}

/// Serializes a signed bid submission to its wire JSON.
pub fn serialize_signed_bid_submission(sub: &SignedBidSubmission) -> (r: Vec<u8>)
    ensures
        r@ == spec_wire_submission(*sub),
{
    proof {
        reveal_strlit("{\"message\":");
        reveal_strlit(",\"execution_payload\":");
        reveal_strlit(",\"signature\":\"0x");
        reveal_strlit("\"}");
    }
    let mut out: Vec<u8> = Vec::new();
    push_lit(&mut out, "{\"message\":");
    push_trace(&mut out, &sub.message);
    push_lit(&mut out, ",\"execution_payload\":");
    push_payload(&mut out, &sub.execution_payload);
    push_lit(&mut out, ",\"signature\":\"0x");
    push_hex(&mut out, &sub.signature);
    push_lit(&mut out, "\"}");
    proof {
        assert(out@ =~= spec_wire_submission(*sub));
    }
    out
}

/// Byte equality of a span of `s` against a literal: matches exactly when
/// the literal's bytes stand at `p`.
fn eat_lit(s: &[u8], p: usize, l: &str) -> (r: Option<usize>)
    requires
        p <= s@.len(),
    ensures
        r matches Some(q) ==> q == p + l.spec_bytes().len() && q <= s@.len() && s@.subrange(
            p as int,
            q as int,
        ) == l.spec_bytes(),
        r is None ==> !(p + l.spec_bytes().len() <= s@.len() && s@.subrange(
            p as int,
            p + l.spec_bytes().len(),
        ) == l.spec_bytes()),
{
    let bs = l.as_bytes();
    let n = s.len();
    if n - p < bs.len() {
        return None;
    }
    let mut i: usize = 0;
    while i < bs.len()
        invariant
            0 <= i <= bs@.len(),
            p + bs@.len() <= n == s@.len(),
            bs@ == l.spec_bytes(),
            forall|t: int| 0 <= t < i ==> s@[p + t] == bs@[t],
        decreases bs@.len() - i,
    {
        if s[p + i] != bs[i] {
            proof {
                assert(s@.subrange(p as int, p + bs@.len()) != l.spec_bytes()) by {
                    assert(s@.subrange(p as int, p + bs@.len())[i as int] == s@[p + i]);
                }
            }
            return None;
        }
        i = i + 1;
    }
    proof {
        assert(s@.subrange(p as int, p + bs@.len()) =~= l.spec_bytes());
    }
    Some(p + bs.len())
}

/// The position of the first quote at or after `p`.
fn scan_quote(s: &[u8], p: usize) -> (r: Option<usize>)
    requires
        p <= s@.len(),
    ensures
        r matches Some(q) ==> p <= q < s@.len() && s@[q as int] == 34 && (forall|t: int|
            p <= t < q ==> s@[t] != 34),
        r is None ==> forall|t: int| p <= t < s@.len() ==> s@[t] != 34,
{
    let mut i: usize = p;
    while i < s.len()
        invariant
            p <= i <= s@.len(),
            forall|t: int| p <= t < i ==> s@[t] != 34,
        decreases s@.len() - i,
    {
        if s[i] == 34 {
            return Some(i);
        }
        i = i + 1;
    }
    None
}

/// Copies the span `[lo, hi)` of `s`.
fn copy_span(s: &[u8], lo: usize, hi: usize) -> (r: Vec<u8>)
    requires
        lo <= hi <= s@.len(),
    ensures
        r@ == s@.subrange(lo as int, hi as int),
{
    let mut r: Vec<u8> = Vec::new();
    let mut i: usize = lo;
    while i < hi
        invariant
            lo <= i <= hi <= s@.len(),
            r@ == s@.subrange(lo as int, i as int),
        decreases hi - i,
    {
        r.push(s[i]);
        proof {
            assert(r@ =~= s@.subrange(lo as int, i + 1 as int));
        }
        i = i + 1;
    }
    r
}

/// Reads a hex-valued field of exactly `want` decoded bytes, ending at the
/// first quote. On the canonical wire of any byte string of that width,
/// this succeeds with exactly those bytes.
fn parse_hex_exact(s: &[u8], p: usize, want: usize) -> (r: Option<(Vec<u8>, usize)>)
    requires
        p <= s@.len(),
    ensures
        r matches Some(pr) ==> pr.0@.len() == want && p <= pr.1 < s@.len(),
        forall|b: Seq<u8>|
            (b.len() == want && p + 2 * b.len() < s@.len() && s@.subrange(
                p as int,
                p + 2 * b.len(),
            ) == #[trigger] spec_hex_lower(b) && s@[p + 2 * b.len()] == 34) ==> (r matches Some(pr)
                && pr.0@ == b && pr.1 == p + 2 * b.len()),
{
    let q = match scan_quote(s, p) {
        None => {
            proof {
                assert forall|b: Seq<u8>|
                    (b.len() == want && p + 2 * b.len() < s@.len() && s@.subrange(
                        p as int,
                        p + 2 * b.len(),
                    ) == #[trigger] spec_hex_lower(b) && s@[p + 2 * b.len()] == 34) implies false by {
                    lemma_hex_lower_len(b);
                }
            }
            return None;
        },
        Some(q) => q,
    };
    let span = copy_span(s, p, q);
    proof {
        assert forall|b: Seq<u8>|
            (b.len() == want && p + 2 * b.len() < s@.len() && s@.subrange(p as int, p + 2 * b.len())
                == #[trigger] spec_hex_lower(b) && s@[p + 2 * b.len()] == 34) implies q == p + 2
            * b.len() && span@ == spec_hex_lower(b) by {
            lemma_hex_lower_len(b);
            lemma_hex_lower_digits(b);
            if q < p + 2 * b.len() {
                assert(s@[q as int] == spec_hex_lower(b)[q - p]);
            }
            assert(q == p + 2 * b.len());
        }
    }
    match hex_decode(span.as_slice()) {
        Err(_) => {
            proof {
                assert forall|b: Seq<u8>|
                    (b.len() == want && p + 2 * b.len() < s@.len() && s@.subrange(
                        p as int,
                        p + 2 * b.len(),
                    ) == #[trigger] spec_hex_lower(b) && s@[p + 2 * b.len()] == 34) implies false by {
                    lemma_hex_decode_encode(b);
                }
            }
            None
        },
        Ok(v) => {
            if v.len() == want {
                proof {
                    assert forall|b: Seq<u8>|
                        (b.len() == want && p + 2 * b.len() < s@.len() && s@.subrange(
                            p as int,
                            p + 2 * b.len(),
                        ) == #[trigger] spec_hex_lower(b) && s@[p + 2 * b.len()] == 34) implies v@
                        == b by {
                        lemma_hex_decode_encode(b);
                    }
                }
                Some((v, q))
            } else {
                proof {
                    assert forall|b: Seq<u8>|
                        (b.len() == want && p + 2 * b.len() < s@.len() && s@.subrange(
                            p as int,
                            p + 2 * b.len(),
                        ) == #[trigger] spec_hex_lower(b) && s@[p + 2 * b.len()] == 34) implies false by {
                        lemma_hex_decode_encode(b);
                    }
                }
                None
            }
        },
    }
}

/// Reads a hex-valued field of at most `cap` decoded bytes, ending at the
/// first quote.
fn parse_hex_max(s: &[u8], p: usize, cap: usize) -> (r: Option<(Vec<u8>, usize)>)
    requires
        p <= s@.len(),
    ensures
        r matches Some(pr) ==> pr.0@.len() <= cap && p <= pr.1 < s@.len(),
        forall|b: Seq<u8>|
            (b.len() <= cap && p + 2 * b.len() < s@.len() && s@.subrange(p as int, p + 2 * b.len())
                == #[trigger] spec_hex_lower(b) && s@[p + 2 * b.len()] == 34) ==> (r matches Some(
                pr,
            ) && pr.0@ == b && pr.1 == p + 2 * b.len()),
{
    let q = match scan_quote(s, p) {
        None => {
            proof {
                assert forall|b: Seq<u8>|
                    (b.len() <= cap && p + 2 * b.len() < s@.len() && s@.subrange(
                        p as int,
                        p + 2 * b.len(),
                    ) == #[trigger] spec_hex_lower(b) && s@[p + 2 * b.len()] == 34) implies false by {
                    lemma_hex_lower_len(b);
                }
            }
            return None;
        },
        Some(q) => q,
    };
    let span = copy_span(s, p, q);
    proof {
        assert forall|b: Seq<u8>|
            (b.len() <= cap && p + 2 * b.len() < s@.len() && s@.subrange(p as int, p + 2 * b.len())
                == #[trigger] spec_hex_lower(b) && s@[p + 2 * b.len()] == 34) implies q == p + 2
            * b.len() && span@ == spec_hex_lower(b) by {
            lemma_hex_lower_len(b);
            lemma_hex_lower_digits(b);
            if q < p + 2 * b.len() {
                assert(s@[q as int] == spec_hex_lower(b)[q - p]);
            }
            assert(q == p + 2 * b.len());
        }
    }
    match hex_decode(span.as_slice()) {
        Err(_) => {
            proof {
                assert forall|b: Seq<u8>|
                    (b.len() <= cap && p + 2 * b.len() < s@.len() && s@.subrange(
                        p as int,
                        p + 2 * b.len(),
                    ) == #[trigger] spec_hex_lower(b) && s@[p + 2 * b.len()] == 34) implies false by {
                    lemma_hex_decode_encode(b);
                }
            }
            None
        },
        Ok(v) => {
            if v.len() <= cap {
                proof {
                    assert forall|b: Seq<u8>|
                        (b.len() <= cap && p + 2 * b.len() < s@.len() && s@.subrange(
                            p as int,
                            p + 2 * b.len(),
                        ) == #[trigger] spec_hex_lower(b) && s@[p + 2 * b.len()] == 34) implies v@
                        == b by {
                        lemma_hex_decode_encode(b);
                    }
                }
                Some((v, q))
            } else {
                proof {
                    assert forall|b: Seq<u8>|
                        (b.len() <= cap && p + 2 * b.len() < s@.len() && s@.subrange(
                            p as int,
                            p + 2 * b.len(),
                        ) == #[trigger] spec_hex_lower(b) && s@[p + 2 * b.len()] == 34) implies false by {
                        lemma_hex_decode_encode(b);
                    }
                }
                None
            }
        },
    }
}

/// Reads a decimal field as a `u64`, ending at the first quote. On the
/// canonical digit string of any `u64`, this succeeds with that number.
fn parse_dec_u64_field(s: &[u8], p: usize) -> (r: Option<(u64, usize)>)
    requires
        p <= s@.len(),
    ensures
        r matches Some(pr) ==> p <= pr.1 < s@.len(),
        forall|n: u64|
            (p + dec_digits(n as nat).len() < s@.len() && s@.subrange(
                p as int,
                p + dec_digits(n as nat).len(),
            ) == #[trigger] dec_digits(n as nat) && s@[p + dec_digits(n as nat).len()] == 34) ==> (
            r matches Some(pr) && pr.0 == n && pr.1 == p + dec_digits(n as nat).len()),
{
    let q = match scan_quote(s, p) {
        None => {
            proof {
                assert forall|n: u64|
                    (p + dec_digits(n as nat).len() < s@.len() && s@.subrange(
                        p as int,
                        p + dec_digits(n as nat).len(),
                    ) == #[trigger] dec_digits(n as nat) && s@[p + dec_digits(n as nat).len()]
                        == 34) implies false by {
                    lemma_dec_digits_shape(n as nat);
                }
            }
            return None;
        },
        Some(q) => q,
    };
    proof {
        assert forall|n: u64|
            (p + dec_digits(n as nat).len() < s@.len() && s@.subrange(
                p as int,
                p + dec_digits(n as nat).len(),
            ) == #[trigger] dec_digits(n as nat) && s@[p + dec_digits(n as nat).len()] == 34) implies q
            == p + dec_digits(n as nat).len() by {
            lemma_dec_digits_shape(n as nat);
            let d = dec_digits(n as nat);
            if q < p + d.len() {
                assert(s@[q as int] == d[q - p]);
                assert(crate::decimal::is_dec_digit(d[q - p]));
            }
        }
    }
    match parse_dec_u64(s, p, q) {
        None => {
            proof {
                assert forall|n: u64|
                    (p + dec_digits(n as nat).len() < s@.len() && s@.subrange(
                        p as int,
                        p + dec_digits(n as nat).len(),
                    ) == #[trigger] dec_digits(n as nat) && s@[p + dec_digits(n as nat).len()]
                        == 34) implies false by {
                    lemma_dec_digits_shape(n as nat);
                    lemma_num_of_dec_digits(n as nat);
                }
            }
            None
        },
        Some(v) => {
            proof {
                assert forall|n: u64|
                    (p + dec_digits(n as nat).len() < s@.len() && s@.subrange(
                        p as int,
                        p + dec_digits(n as nat).len(),
                    ) == #[trigger] dec_digits(n as nat) && s@[p + dec_digits(n as nat).len()]
                        == 34) implies v == n by {
                    lemma_dec_digits_shape(n as nat);
                    lemma_num_of_dec_digits(n as nat);
                }
            }
            Some((v, q))
        },
    }
}

/// Reads a decimal field as a `u128`, ending at the first quote.
fn parse_dec_u128_field(s: &[u8], p: usize) -> (r: Option<(u128, usize)>)
    requires
        p <= s@.len(),
    ensures
        r matches Some(pr) ==> p <= pr.1 < s@.len(),
        forall|n: u128|
            (p + dec_digits(n as nat).len() < s@.len() && s@.subrange(
                p as int,
                p + dec_digits(n as nat).len(),
            ) == #[trigger] dec_digits(n as nat) && s@[p + dec_digits(n as nat).len()] == 34) ==> (
            r matches Some(pr) && pr.0 == n && pr.1 == p + dec_digits(n as nat).len()),
{
    let q = match scan_quote(s, p) {
        None => {
            proof {
                assert forall|n: u128|
                    (p + dec_digits(n as nat).len() < s@.len() && s@.subrange(
                        p as int,
                        p + dec_digits(n as nat).len(),
                    ) == #[trigger] dec_digits(n as nat) && s@[p + dec_digits(n as nat).len()]
                        == 34) implies false by {
                    lemma_dec_digits_shape(n as nat);
                }
            }
            return None;
        },
        Some(q) => q,
    };
    proof {
        assert forall|n: u128|
            (p + dec_digits(n as nat).len() < s@.len() && s@.subrange(
                p as int,
                p + dec_digits(n as nat).len(),
            ) == #[trigger] dec_digits(n as nat) && s@[p + dec_digits(n as nat).len()] == 34) implies q
            == p + dec_digits(n as nat).len() by {
            lemma_dec_digits_shape(n as nat);
            let d = dec_digits(n as nat);
            if q < p + d.len() {
                assert(s@[q as int] == d[q - p]);
                assert(crate::decimal::is_dec_digit(d[q - p]));
            }
        }
    }
    match parse_dec_u128(s, p, q) {
        None => {
            proof {
                assert forall|n: u128|
                    (p + dec_digits(n as nat).len() < s@.len() && s@.subrange(
                        p as int,
                        p + dec_digits(n as nat).len(),
                    ) == #[trigger] dec_digits(n as nat) && s@[p + dec_digits(n as nat).len()]
                        == 34) implies false by {
                    lemma_dec_digits_shape(n as nat);
                    lemma_num_of_dec_digits(n as nat);
                }
            }
            None
        },
        Some(v) => {
            proof {
                assert forall|n: u128|
                    (p + dec_digits(n as nat).len() < s@.len() && s@.subrange(
                        p as int,
                        p + dec_digits(n as nat).len(),
                    ) == #[trigger] dec_digits(n as nat) && s@[p + dec_digits(n as nat).len()]
                        == 34) implies v == n by {
                    lemma_dec_digits_shape(n as nat);
                    lemma_num_of_dec_digits(n as nat);
                }
            }
            Some((v, q))
        },
    }
}

/// Field-wise agreement of two withdrawals, byte vectors compared by
/// contents.
pub open spec fn wd_like(a: WithdrawalMevBoost, b: WithdrawalMevBoost) -> bool {
    &&& a.index == b.index
    &&& a.validator_index == b.validator_index
    &&& a.address@ == b.address@
    &&& a.amount == b.amount
}

/// Where each piece of a withdrawal's wire bytes stands, when the wire as
/// a whole stands at `p` in `s`.
#[verifier::rlimit(100)]
proof fn lemma_wd_layout(s: Seq<u8>, p: int, w: WithdrawalMevBoost)
    requires
        0 <= p,
        p + spec_wire_withdrawal(w).len() <= s.len(),
        s.subrange(p, p + spec_wire_withdrawal(w).len()) == spec_wire_withdrawal(w),
    ensures
        ({
            let k1 = ("{\"index\":\"").spec_bytes().len();
            let d1 = dec_digits(w.index as nat).len();
            let k2 = ("\",\"validator_index\":\"").spec_bytes().len();
            let d2 = dec_digits(w.validator_index as nat).len();
            let k3 = ("\",\"address\":\"0x").spec_bytes().len();
            let h1 = spec_hex_lower(w.address@).len();
            let k4 = ("\",\"amount\":\"").spec_bytes().len();
            let d3 = dec_digits(w.amount as nat).len();
            let k5 = ("\"}").spec_bytes().len();
            &&& spec_wire_withdrawal(w).len() == k1 + d1 + k2 + d2 + k3 + h1 + k4 + d3 + k5
            &&& s.subrange(p, p + k1) == ("{\"index\":\"").spec_bytes()
            &&& s.subrange(p + k1, p + k1 + d1) == dec_digits(w.index as nat)
            &&& s[p + k1 + d1] == 34
            &&& s.subrange(p + k1 + d1, p + k1 + d1 + k2) == (
            "\",\"validator_index\":\"").spec_bytes()
            &&& s.subrange(p + k1 + d1 + k2, p + k1 + d1 + k2 + d2) == dec_digits(
                w.validator_index as nat,
            )
            &&& s[p + k1 + d1 + k2 + d2] == 34
            &&& s.subrange(p + k1 + d1 + k2 + d2, p + k1 + d1 + k2 + d2 + k3) == (
            "\",\"address\":\"0x").spec_bytes()
            &&& s.subrange(p + k1 + d1 + k2 + d2 + k3, p + k1 + d1 + k2 + d2 + k3 + h1)
                == spec_hex_lower(w.address@)
            &&& s[p + k1 + d1 + k2 + d2 + k3 + h1] == 34
            &&& s.subrange(
                p + k1 + d1 + k2 + d2 + k3 + h1,
                p + k1 + d1 + k2 + d2 + k3 + h1 + k4,
            ) == ("\",\"amount\":\"").spec_bytes()
            &&& s.subrange(
                p + k1 + d1 + k2 + d2 + k3 + h1 + k4,
                p + k1 + d1 + k2 + d2 + k3 + h1 + k4 + d3,
            ) == dec_digits(w.amount as nat)
            &&& s[p + k1 + d1 + k2 + d2 + k3 + h1 + k4 + d3] == 34
            &&& s.subrange(
                p + k1 + d1 + k2 + d2 + k3 + h1 + k4 + d3,
                p + k1 + d1 + k2 + d2 + k3 + h1 + k4 + d3 + k5,
            ) == ("\"}").spec_bytes()
        }),
{
    proof_wd_literals();
    let wire = spec_wire_withdrawal(w);
    let k1b = ("{\"index\":\"").spec_bytes();
    let d1b = dec_digits(w.index as nat);
    let k2b = ("\",\"validator_index\":\"").spec_bytes();
    let d2b = dec_digits(w.validator_index as nat);
    let k3b = ("\",\"address\":\"0x").spec_bytes();
    let h1b = spec_hex_lower(w.address@);
    let k4b = ("\",\"amount\":\"").spec_bytes();
    let d3b = dec_digits(w.amount as nat);
    let k5b = ("\"}").spec_bytes();
    let s1 = k1b;
    let s2 = s1 + d1b;
    let s3 = s2 + k2b;
    let s4 = s3 + d2b;
    let s5 = s4 + k3b;
    let s6 = s5 + h1b;
    let s7 = s6 + k4b;
    let s8 = s7 + d3b;
    let s9 = s8 + k5b;
    assert(wire == s9);
    assert(forall|t: int| 0 <= t < s8.len() ==> s9[t] == #[trigger] s8[t]);
    assert(forall|t: int| 0 <= t < s7.len() ==> s8[t] == #[trigger] s7[t]);
    assert(forall|t: int| 0 <= t < s6.len() ==> s7[t] == #[trigger] s6[t]);
    assert(forall|t: int| 0 <= t < s5.len() ==> s6[t] == #[trigger] s5[t]);
    assert(forall|t: int| 0 <= t < s4.len() ==> s5[t] == #[trigger] s4[t]);
    assert(forall|t: int| 0 <= t < s3.len() ==> s4[t] == #[trigger] s3[t]);
    assert(forall|t: int| 0 <= t < s2.len() ==> s3[t] == #[trigger] s2[t]);
    assert(forall|t: int| 0 <= t < s1.len() ==> s2[t] == #[trigger] s1[t]);
    assert forall|t: int| 0 <= t < wire.len() implies s[p + t] == wire[t] by {
        assert(s.subrange(p, p + wire.len())[t] == s[p + t]);
    }
    assert(s.subrange(p, p + s1.len()) =~= k1b);
    assert(s.subrange(p + s1.len(), p + s2.len()) =~= d1b) by {
        assert(forall|j: int| 0 <= j < d1b.len() ==> s2[s1.len() + j] == #[trigger] d1b[j]);
    }
    assert(s[p + s2.len()] == k2b[0]) by {
        assert(s3[s2.len() as int] == k2b[0]);
    }
    assert(s.subrange(p + s2.len(), p + s3.len()) =~= k2b) by {
        assert(forall|j: int| 0 <= j < k2b.len() ==> s3[s2.len() + j] == #[trigger] k2b[j]);
    }
    assert(s.subrange(p + s3.len(), p + s4.len()) =~= d2b) by {
        assert(forall|j: int| 0 <= j < d2b.len() ==> s4[s3.len() + j] == #[trigger] d2b[j]);
    }
    assert(s[p + s4.len()] == k3b[0]) by {
        assert(s5[s4.len() as int] == k3b[0]);
    }
    assert(s.subrange(p + s4.len(), p + s5.len()) =~= k3b) by {
        assert(forall|j: int| 0 <= j < k3b.len() ==> s5[s4.len() + j] == #[trigger] k3b[j]);
    }
    assert(s.subrange(p + s5.len(), p + s6.len()) =~= h1b) by {
        assert(forall|j: int| 0 <= j < h1b.len() ==> s6[s5.len() + j] == #[trigger] h1b[j]);
    }
    assert(s[p + s6.len()] == k4b[0]) by {
        assert(s7[s6.len() as int] == k4b[0]);
    }
    assert(s.subrange(p + s6.len(), p + s7.len()) =~= k4b) by {
        assert(forall|j: int| 0 <= j < k4b.len() ==> s7[s6.len() + j] == #[trigger] k4b[j]);
    }
    assert(s.subrange(p + s7.len(), p + s8.len()) =~= d3b) by {
        assert(forall|j: int| 0 <= j < d3b.len() ==> s8[s7.len() + j] == #[trigger] d3b[j]);
    }
    assert(s[p + s8.len()] == k5b[0]) by {
        assert(s9[s8.len() as int] == k5b[0]);
    }
    assert(s.subrange(p + s8.len(), p + s9.len()) =~= k5b) by {
        assert(forall|j: int| 0 <= j < k5b.len() ==> s9[s8.len() + j] == #[trigger] k5b[j]);
    }
}

/// The concrete bytes of the withdrawal object's fixed pieces.
proof fn proof_wd_literals()
    ensures
        ("{\"index\":\"").spec_bytes().len() == 10,
        ("{\"index\":\"").spec_bytes()[0] == 123,
        ("\",\"validator_index\":\"").spec_bytes().len() == 21,
        ("\",\"validator_index\":\"").spec_bytes()[0] == 34,
        ("\",\"address\":\"0x").spec_bytes().len() == 15,
        ("\",\"address\":\"0x").spec_bytes()[0] == 34,
        ("\",\"amount\":\"").spec_bytes().len() == 12,
        ("\",\"amount\":\"").spec_bytes()[0] == 34,
        ("\"}").spec_bytes().len() == 2,
        ("\"}").spec_bytes()[0] == 34,
{
    broadcast use vstd::string::is_ascii_spec_bytes;

    reveal_strlit("{\"index\":\"");
    reveal_strlit("\",\"validator_index\":\"");
    reveal_strlit("\",\"address\":\"0x");
    reveal_strlit("\",\"amount\":\"");
    reveal_strlit("\"}");
    assert(vstd::string::is_ascii("{\"index\":\""));
    assert(vstd::string::is_ascii("\",\"validator_index\":\""));
    assert(vstd::string::is_ascii("\",\"address\":\"0x"));
    assert(vstd::string::is_ascii("\",\"amount\":\""));
    assert(vstd::string::is_ascii("\"}"));
}

/// Reads one withdrawal object. On the canonical wire bytes of any
/// well-formed withdrawal, this succeeds with its fields.
fn parse_withdrawal(s: &[u8], p: usize) -> (r: Option<(WithdrawalMevBoost, usize)>)
    requires
        p <= s@.len(),
    ensures
        r matches Some(pr) ==> pr.0.wf() && p <= pr.1 <= s@.len(),
        forall|w: WithdrawalMevBoost|
            (w.wf() && p + spec_wire_withdrawal(w).len() <= s@.len() && s@.subrange(
                p as int,
                p + spec_wire_withdrawal(w).len(),
            ) == #[trigger] spec_wire_withdrawal(w)) ==> (r matches Some(pr) && wd_like(pr.0, w)
                && pr.1 == p + spec_wire_withdrawal(w).len()),
{
    let ghost hyp = |w: WithdrawalMevBoost|
        w.wf() && p + spec_wire_withdrawal(w).len() <= s@.len() && s@.subrange(
            p as int,
            p + spec_wire_withdrawal(w).len(),
        ) == spec_wire_withdrawal(w);
    let q1 = match eat_lit(s, p, "{\"index\":\"") {
        Some(q) => q,
        None => {
            proof {
                assert forall|w: WithdrawalMevBoost|
                    hyp(w) implies !(#[trigger] spec_wire_withdrawal(w) == spec_wire_withdrawal(
                    w,
                )) by {
                    lemma_wd_layout(s@, p as int, w);
                }
            }
            return None;
        },
    };
    let (index, q2) = match parse_dec_u64_field(s, q1) {
        Some(pr) => pr,
        None => {
            proof {
                assert forall|w: WithdrawalMevBoost|
                    hyp(w) implies !(#[trigger] spec_wire_withdrawal(w) == spec_wire_withdrawal(
                    w,
                )) by {
                    lemma_wd_layout(s@, p as int, w);
                    proof_wd_literals();
                    lemma_hex_lower_len(w.address@);
                }
            }
            return None;
        },
    };
    let q3 = match eat_lit(s, q2, "\",\"validator_index\":\"") {
        Some(q) => q,
        None => {
            proof {
                assert forall|w: WithdrawalMevBoost|
                    hyp(w) implies !(#[trigger] spec_wire_withdrawal(w) == spec_wire_withdrawal(
                    w,
                )) by {
                    lemma_wd_layout(s@, p as int, w);
                    proof_wd_literals();
                    lemma_hex_lower_len(w.address@);
                }
            }
            return None;
        },
    };
    let (validator_index, q4) = match parse_dec_u64_field(s, q3) {
        Some(pr) => pr,
        None => {
            proof {
                assert forall|w: WithdrawalMevBoost|
                    hyp(w) implies !(#[trigger] spec_wire_withdrawal(w) == spec_wire_withdrawal(
                    w,
                )) by {
                    lemma_wd_layout(s@, p as int, w);
                    proof_wd_literals();
                    lemma_hex_lower_len(w.address@);
                }
            }
            return None;
        },
    };
    let q5 = match eat_lit(s, q4, "\",\"address\":\"0x") {
        Some(q) => q,
        None => {
            proof {
                assert forall|w: WithdrawalMevBoost|
                    hyp(w) implies !(#[trigger] spec_wire_withdrawal(w) == spec_wire_withdrawal(
                    w,
                )) by {
                    lemma_wd_layout(s@, p as int, w);
                    proof_wd_literals();
                    lemma_hex_lower_len(w.address@);
                }
            }
            return None;
        },
    };
    let (address, q6) = match parse_hex_exact(s, q5, ADDRESS_BYTES_LEN) {
        Some(pr) => pr,
        None => {
            proof {
                assert forall|w: WithdrawalMevBoost|
                    hyp(w) implies !(#[trigger] spec_wire_withdrawal(w) == spec_wire_withdrawal(
                    w,
                )) by {
                    lemma_wd_layout(s@, p as int, w);
                    proof_wd_literals();
                    lemma_hex_lower_len(w.address@);
                }
            }
            return None;
        },
    };
    let q7 = match eat_lit(s, q6, "\",\"amount\":\"") {
        Some(q) => q,
        None => {
            proof {
                assert forall|w: WithdrawalMevBoost|
                    hyp(w) implies !(#[trigger] spec_wire_withdrawal(w) == spec_wire_withdrawal(
                    w,
                )) by {
                    lemma_wd_layout(s@, p as int, w);
                    proof_wd_literals();
                    lemma_hex_lower_len(w.address@);
                }
            }
            return None;
        },
    };
    let (amount, q8) = match parse_dec_u64_field(s, q7) {
        Some(pr) => pr,
        None => {
            proof {
                assert forall|w: WithdrawalMevBoost|
                    hyp(w) implies !(#[trigger] spec_wire_withdrawal(w) == spec_wire_withdrawal(
                    w,
                )) by {
                    lemma_wd_layout(s@, p as int, w);
                    proof_wd_literals();
                    lemma_hex_lower_len(w.address@);
                }
            }
            return None;
        },
    };
    let q9 = match eat_lit(s, q8, "\"}") {
        Some(q) => q,
        None => {
            proof {
                assert forall|w: WithdrawalMevBoost|
                    hyp(w) implies !(#[trigger] spec_wire_withdrawal(w) == spec_wire_withdrawal(
                    w,
                )) by {
                    lemma_wd_layout(s@, p as int, w);
                    proof_wd_literals();
                    lemma_hex_lower_len(w.address@);
                }
            }
            return None;
        },
    };
    let out = WithdrawalMevBoost { index, validator_index, address, amount };
    proof {
        assert forall|w: WithdrawalMevBoost| hyp(w) implies (wd_like(out, w) && q9 == p
            + #[trigger] spec_wire_withdrawal(w).len()) by {
            lemma_wd_layout(s@, p as int, w);
            proof_wd_literals();
            lemma_hex_lower_len(w.address@);
        }
    }
    Some((out, q9))
}

/// The concrete bytes of the bid trace object's fixed pieces.
proof fn proof_trace_literals()
    ensures
        ("{\"slot\":\"").spec_bytes().len() == 9,
        ("\",\"parent_hash\":\"0x").spec_bytes().len() == 19,
        ("\",\"parent_hash\":\"0x").spec_bytes()[0] == 34,
        ("\",\"block_hash\":\"0x").spec_bytes().len() == 18,
        ("\",\"block_hash\":\"0x").spec_bytes()[0] == 34,
        ("\",\"builder_pubkey\":\"0x").spec_bytes().len() == 22,
        ("\",\"builder_pubkey\":\"0x").spec_bytes()[0] == 34,
        ("\",\"proposer_pubkey\":\"0x").spec_bytes().len() == 23,
        ("\",\"proposer_pubkey\":\"0x").spec_bytes()[0] == 34,
        ("\",\"proposer_fee_recipient\":\"0x").spec_bytes().len() == 30,
        ("\",\"proposer_fee_recipient\":\"0x").spec_bytes()[0] == 34,
        ("\",\"gas_limit\":\"").spec_bytes().len() == 15,
        ("\",\"gas_limit\":\"").spec_bytes()[0] == 34,
        ("\",\"gas_used\":\"").spec_bytes().len() == 14,
        ("\",\"gas_used\":\"").spec_bytes()[0] == 34,
        ("\",\"value\":\"").spec_bytes().len() == 11,
        ("\",\"value\":\"").spec_bytes()[0] == 34,
        ("\"}").spec_bytes().len() == 2,
        ("\"}").spec_bytes()[0] == 34,
{
    broadcast use vstd::string::is_ascii_spec_bytes;

    reveal_strlit("{\"slot\":\"");
    reveal_strlit("\",\"parent_hash\":\"0x");
    reveal_strlit("\",\"block_hash\":\"0x");
    reveal_strlit("\",\"builder_pubkey\":\"0x");
    reveal_strlit("\",\"proposer_pubkey\":\"0x");
    reveal_strlit("\",\"proposer_fee_recipient\":\"0x");
    reveal_strlit("\",\"gas_limit\":\"");
    reveal_strlit("\",\"gas_used\":\"");
    reveal_strlit("\",\"value\":\"");
    reveal_strlit("\"}");
    assert(vstd::string::is_ascii("{\"slot\":\""));
    assert(vstd::string::is_ascii("\",\"parent_hash\":\"0x"));
    assert(vstd::string::is_ascii("\",\"block_hash\":\"0x"));
    assert(vstd::string::is_ascii("\",\"builder_pubkey\":\"0x"));
    assert(vstd::string::is_ascii("\",\"proposer_pubkey\":\"0x"));
    assert(vstd::string::is_ascii("\",\"proposer_fee_recipient\":\"0x"));
    assert(vstd::string::is_ascii("\",\"gas_limit\":\""));
    assert(vstd::string::is_ascii("\",\"gas_used\":\""));
    assert(vstd::string::is_ascii("\",\"value\":\""));
    assert(vstd::string::is_ascii("\"}"));
}

/// Where the pieces of a bid trace's leading fields stand.
#[verifier::rlimit(100)]
proof fn lemma_trace_head_layout(s: Seq<u8>, p: int, t: BidTrace)
    requires
        0 <= p,
        p + spec_wire_trace_head(t).len() < s.len(),
        s[p + spec_wire_trace_head(t).len()] == 34,
        s.subrange(p, p + spec_wire_trace_head(t).len()) == spec_wire_trace_head(t),
    ensures
        ({
            let b0 = ("{\"slot\":\"").spec_bytes();
            let b1 = dec_digits(t.slot as nat);
            let b2 = ("\",\"parent_hash\":\"0x").spec_bytes();
            let b3 = spec_hex_lower(t.parent_hash@);
            let b4 = ("\",\"block_hash\":\"0x").spec_bytes();
            let b5 = spec_hex_lower(t.block_hash@);
            let b6 = ("\",\"builder_pubkey\":\"0x").spec_bytes();
            let b7 = spec_hex_lower(t.builder_public_key@);
            let b8 = ("\",\"proposer_pubkey\":\"0x").spec_bytes();
            let b9 = spec_hex_lower(t.proposer_public_key@);
            &&& spec_wire_trace_head(t).len() == b0.len() + b1.len() + b2.len() + b3.len() + b4.len() + b5.len() + b6.len() + b7.len() + b8.len() + b9.len()
            &&& s.subrange(p, p + b0.len()) == b0
            &&& s.subrange(p + b0.len(), p + b0.len() + b1.len()) == b1
            &&& s[p + b0.len() + b1.len()] == 34
            &&& s.subrange(p + b0.len() + b1.len(), p + b0.len() + b1.len() + b2.len()) == b2
            &&& s.subrange(p + b0.len() + b1.len() + b2.len(), p + b0.len() + b1.len() + b2.len() + b3.len()) == b3
            &&& s[p + b0.len() + b1.len() + b2.len() + b3.len()] == 34
            &&& s.subrange(p + b0.len() + b1.len() + b2.len() + b3.len(), p + b0.len() + b1.len() + b2.len() + b3.len() + b4.len()) == b4
            &&& s.subrange(p + b0.len() + b1.len() + b2.len() + b3.len() + b4.len(), p + b0.len() + b1.len() + b2.len() + b3.len() + b4.len() + b5.len()) == b5
            &&& s[p + b0.len() + b1.len() + b2.len() + b3.len() + b4.len() + b5.len()] == 34
            &&& s.subrange(p + b0.len() + b1.len() + b2.len() + b3.len() + b4.len() + b5.len(), p + b0.len() + b1.len() + b2.len() + b3.len() + b4.len() + b5.len() + b6.len()) == b6
            &&& s.subrange(p + b0.len() + b1.len() + b2.len() + b3.len() + b4.len() + b5.len() + b6.len(), p + b0.len() + b1.len() + b2.len() + b3.len() + b4.len() + b5.len() + b6.len() + b7.len()) == b7
            &&& s[p + b0.len() + b1.len() + b2.len() + b3.len() + b4.len() + b5.len() + b6.len() + b7.len()] == 34
            &&& s.subrange(p + b0.len() + b1.len() + b2.len() + b3.len() + b4.len() + b5.len() + b6.len() + b7.len(), p + b0.len() + b1.len() + b2.len() + b3.len() + b4.len() + b5.len() + b6.len() + b7.len() + b8.len()) == b8
            &&& s.subrange(p + b0.len() + b1.len() + b2.len() + b3.len() + b4.len() + b5.len() + b6.len() + b7.len() + b8.len(), p + b0.len() + b1.len() + b2.len() + b3.len() + b4.len() + b5.len() + b6.len() + b7.len() + b8.len() + b9.len()) == b9
            &&& s[p + b0.len() + b1.len() + b2.len() + b3.len() + b4.len() + b5.len() + b6.len() + b7.len() + b8.len() + b9.len()] == 34
        }),
{
    reveal(spec_wire_trace_head);
    proof_trace_literals();
    let wire = spec_wire_trace_head(t);
    let b0 = ("{\"slot\":\"").spec_bytes();
    let b1 = dec_digits(t.slot as nat);
    let b2 = ("\",\"parent_hash\":\"0x").spec_bytes();
    let b3 = spec_hex_lower(t.parent_hash@);
    let b4 = ("\",\"block_hash\":\"0x").spec_bytes();
    let b5 = spec_hex_lower(t.block_hash@);
    let b6 = ("\",\"builder_pubkey\":\"0x").spec_bytes();
    let b7 = spec_hex_lower(t.builder_public_key@);
    let b8 = ("\",\"proposer_pubkey\":\"0x").spec_bytes();
    let b9 = spec_hex_lower(t.proposer_public_key@);
    let s0 = b0;
    let s1 = s0 + b1;
    let s2 = s1 + b2;
    let s3 = s2 + b3;
    let s4 = s3 + b4;
    let s5 = s4 + b5;
    let s6 = s5 + b6;
    let s7 = s6 + b7;
    let s8 = s7 + b8;
    let s9 = s8 + b9;
    assert(wire == s9) by {
    }
    assert(forall|t0: int| 0 <= t0 < s8.len() ==> s9[t0] == #[trigger] s8[t0]) by {
    }
    assert(forall|t0: int| 0 <= t0 < s7.len() ==> s8[t0] == #[trigger] s7[t0]) by {
    }
    assert(forall|t0: int| 0 <= t0 < s6.len() ==> s7[t0] == #[trigger] s6[t0]) by {
    }
    assert(forall|t0: int| 0 <= t0 < s5.len() ==> s6[t0] == #[trigger] s5[t0]) by {
    }
    assert(forall|t0: int| 0 <= t0 < s4.len() ==> s5[t0] == #[trigger] s4[t0]) by {
    }
    assert(forall|t0: int| 0 <= t0 < s3.len() ==> s4[t0] == #[trigger] s3[t0]) by {
    }
    assert(forall|t0: int| 0 <= t0 < s2.len() ==> s3[t0] == #[trigger] s2[t0]) by {
    }
    assert(forall|t0: int| 0 <= t0 < s1.len() ==> s2[t0] == #[trigger] s1[t0]) by {
    }
    assert(forall|t0: int| 0 <= t0 < s0.len() ==> s1[t0] == #[trigger] s0[t0]) by {
    }
    assert forall|t0: int| 0 <= t0 < wire.len() implies s[p + t0] == wire[t0] by {
        assert(s.subrange(p, p + wire.len())[t0] == s[p + t0]);
    }
    assert(s.subrange(p, p + s0.len()) =~= b0) by {
    }
    assert(s.subrange(p + s0.len(), p + s1.len()) =~= b1) by {
        assert(forall|j: int| 0 <= j < b1.len() ==> s1[s0.len() + j] == #[trigger] b1[j]);
    }
    assert(s.subrange(p + s1.len(), p + s2.len()) =~= b2) by {
        assert(forall|j: int| 0 <= j < b2.len() ==> s2[s1.len() + j] == #[trigger] b2[j]);
    }
    assert(s[p + s1.len()] == b2[0]) by {
        assert(s2[s1.len() as int] == b2[0]);
    }
    assert(s.subrange(p + s2.len(), p + s3.len()) =~= b3) by {
        assert(forall|j: int| 0 <= j < b3.len() ==> s3[s2.len() + j] == #[trigger] b3[j]);
    }
    assert(s.subrange(p + s3.len(), p + s4.len()) =~= b4) by {
        assert(forall|j: int| 0 <= j < b4.len() ==> s4[s3.len() + j] == #[trigger] b4[j]);
    }
    assert(s[p + s3.len()] == b4[0]) by {
        assert(s4[s3.len() as int] == b4[0]);
    }
    assert(s.subrange(p + s4.len(), p + s5.len()) =~= b5) by {
        assert(forall|j: int| 0 <= j < b5.len() ==> s5[s4.len() + j] == #[trigger] b5[j]);
    }
    assert(s.subrange(p + s5.len(), p + s6.len()) =~= b6) by {
        assert(forall|j: int| 0 <= j < b6.len() ==> s6[s5.len() + j] == #[trigger] b6[j]);
    }
    assert(s[p + s5.len()] == b6[0]) by {
        assert(s6[s5.len() as int] == b6[0]);
    }
    assert(s.subrange(p + s6.len(), p + s7.len()) =~= b7) by {
        assert(forall|j: int| 0 <= j < b7.len() ==> s7[s6.len() + j] == #[trigger] b7[j]);
    }
    assert(s.subrange(p + s7.len(), p + s8.len()) =~= b8) by {
        assert(forall|j: int| 0 <= j < b8.len() ==> s8[s7.len() + j] == #[trigger] b8[j]);
    }
    assert(s[p + s7.len()] == b8[0]) by {
        assert(s8[s7.len() as int] == b8[0]);
    }
    assert(s.subrange(p + s8.len(), p + s9.len()) =~= b9) by {
        assert(forall|j: int| 0 <= j < b9.len() ==> s9[s8.len() + j] == #[trigger] b9[j]);
    }
}

/// Where the pieces of a bid trace's trailing fields stand.
#[verifier::rlimit(100)]
proof fn lemma_trace_tail_layout(s: Seq<u8>, p: int, t: BidTrace)
    requires
        0 <= p,
        p + spec_wire_trace_tail(t).len() <= s.len(),
        s.subrange(p, p + spec_wire_trace_tail(t).len()) == spec_wire_trace_tail(t),
    ensures
        ({
            let b0 = ("\",\"proposer_fee_recipient\":\"0x").spec_bytes();
            let b1 = spec_hex_lower(t.proposer_fee_recipient@);
            let b2 = ("\",\"gas_limit\":\"").spec_bytes();
            let b3 = dec_digits(t.gas_limit as nat);
            let b4 = ("\",\"gas_used\":\"").spec_bytes();
            let b5 = dec_digits(t.gas_used as nat);
            let b6 = ("\",\"value\":\"").spec_bytes();
            let b7 = dec_digits(t.value as nat);
            let b8 = ("\"}").spec_bytes();
            &&& spec_wire_trace_tail(t).len() == b0.len() + b1.len() + b2.len() + b3.len() + b4.len() + b5.len() + b6.len() + b7.len() + b8.len()
            &&& s.subrange(p, p + b0.len()) == b0
            &&& s.subrange(p + b0.len(), p + b0.len() + b1.len()) == b1
            &&& s[p + b0.len() + b1.len()] == 34
            &&& s.subrange(p + b0.len() + b1.len(), p + b0.len() + b1.len() + b2.len()) == b2
            &&& s.subrange(p + b0.len() + b1.len() + b2.len(), p + b0.len() + b1.len() + b2.len() + b3.len()) == b3
            &&& s[p + b0.len() + b1.len() + b2.len() + b3.len()] == 34
            &&& s.subrange(p + b0.len() + b1.len() + b2.len() + b3.len(), p + b0.len() + b1.len() + b2.len() + b3.len() + b4.len()) == b4
            &&& s.subrange(p + b0.len() + b1.len() + b2.len() + b3.len() + b4.len(), p + b0.len() + b1.len() + b2.len() + b3.len() + b4.len() + b5.len()) == b5
            &&& s[p + b0.len() + b1.len() + b2.len() + b3.len() + b4.len() + b5.len()] == 34
            &&& s.subrange(p + b0.len() + b1.len() + b2.len() + b3.len() + b4.len() + b5.len(), p + b0.len() + b1.len() + b2.len() + b3.len() + b4.len() + b5.len() + b6.len()) == b6
            &&& s.subrange(p + b0.len() + b1.len() + b2.len() + b3.len() + b4.len() + b5.len() + b6.len(), p + b0.len() + b1.len() + b2.len() + b3.len() + b4.len() + b5.len() + b6.len() + b7.len()) == b7
            &&& s[p + b0.len() + b1.len() + b2.len() + b3.len() + b4.len() + b5.len() + b6.len() + b7.len()] == 34
            &&& s.subrange(p + b0.len() + b1.len() + b2.len() + b3.len() + b4.len() + b5.len() + b6.len() + b7.len(), p + b0.len() + b1.len() + b2.len() + b3.len() + b4.len() + b5.len() + b6.len() + b7.len() + b8.len()) == b8
        }),
{
    reveal(spec_wire_trace_tail);
    proof_trace_literals();
    let wire = spec_wire_trace_tail(t);
    let b0 = ("\",\"proposer_fee_recipient\":\"0x").spec_bytes();
    let b1 = spec_hex_lower(t.proposer_fee_recipient@);
    let b2 = ("\",\"gas_limit\":\"").spec_bytes();
    let b3 = dec_digits(t.gas_limit as nat);
    let b4 = ("\",\"gas_used\":\"").spec_bytes();
    let b5 = dec_digits(t.gas_used as nat);
    let b6 = ("\",\"value\":\"").spec_bytes();
    let b7 = dec_digits(t.value as nat);
    let b8 = ("\"}").spec_bytes();
    let s0 = b0;
    let s1 = s0 + b1;
    let s2 = s1 + b2;
    let s3 = s2 + b3;
    let s4 = s3 + b4;
    let s5 = s4 + b5;
    let s6 = s5 + b6;
    let s7 = s6 + b7;
    let s8 = s7 + b8;
    assert(wire == s8) by {
    }
    assert(forall|t0: int| 0 <= t0 < s7.len() ==> s8[t0] == #[trigger] s7[t0]) by {
    }
    assert(forall|t0: int| 0 <= t0 < s6.len() ==> s7[t0] == #[trigger] s6[t0]) by {
    }
    assert(forall|t0: int| 0 <= t0 < s5.len() ==> s6[t0] == #[trigger] s5[t0]) by {
    }
    assert(forall|t0: int| 0 <= t0 < s4.len() ==> s5[t0] == #[trigger] s4[t0]) by {
    }
    assert(forall|t0: int| 0 <= t0 < s3.len() ==> s4[t0] == #[trigger] s3[t0]) by {
    }
    assert(forall|t0: int| 0 <= t0 < s2.len() ==> s3[t0] == #[trigger] s2[t0]) by {
    }
    assert(forall|t0: int| 0 <= t0 < s1.len() ==> s2[t0] == #[trigger] s1[t0]) by {
    }
    assert(forall|t0: int| 0 <= t0 < s0.len() ==> s1[t0] == #[trigger] s0[t0]) by {
    }
    assert forall|t0: int| 0 <= t0 < wire.len() implies s[p + t0] == wire[t0] by {
        assert(s.subrange(p, p + wire.len())[t0] == s[p + t0]);
    }
    assert(s.subrange(p, p + s0.len()) =~= b0) by {
    }
    assert(s.subrange(p + s0.len(), p + s1.len()) =~= b1) by {
        assert(forall|j: int| 0 <= j < b1.len() ==> s1[s0.len() + j] == #[trigger] b1[j]);
    }
    assert(s.subrange(p + s1.len(), p + s2.len()) =~= b2) by {
        assert(forall|j: int| 0 <= j < b2.len() ==> s2[s1.len() + j] == #[trigger] b2[j]);
    }
    assert(s[p + s1.len()] == b2[0]) by {
        assert(s2[s1.len() as int] == b2[0]);
    }
    assert(s.subrange(p + s2.len(), p + s3.len()) =~= b3) by {
        assert(forall|j: int| 0 <= j < b3.len() ==> s3[s2.len() + j] == #[trigger] b3[j]);
    }
    assert(s.subrange(p + s3.len(), p + s4.len()) =~= b4) by {
        assert(forall|j: int| 0 <= j < b4.len() ==> s4[s3.len() + j] == #[trigger] b4[j]);
    }
    assert(s[p + s3.len()] == b4[0]) by {
        assert(s4[s3.len() as int] == b4[0]);
    }
    assert(s.subrange(p + s4.len(), p + s5.len()) =~= b5) by {
        assert(forall|j: int| 0 <= j < b5.len() ==> s5[s4.len() + j] == #[trigger] b5[j]);
    }
    assert(s.subrange(p + s5.len(), p + s6.len()) =~= b6) by {
        assert(forall|j: int| 0 <= j < b6.len() ==> s6[s5.len() + j] == #[trigger] b6[j]);
    }
    assert(s[p + s5.len()] == b6[0]) by {
        assert(s6[s5.len() as int] == b6[0]);
    }
    assert(s.subrange(p + s6.len(), p + s7.len()) =~= b7) by {
        assert(forall|j: int| 0 <= j < b7.len() ==> s7[s6.len() + j] == #[trigger] b7[j]);
    }
    assert(s.subrange(p + s7.len(), p + s8.len()) =~= b8) by {
        assert(forall|j: int| 0 <= j < b8.len() ==> s8[s7.len() + j] == #[trigger] b8[j]);
    }
    assert(s[p + s7.len()] == b8[0]) by {
        assert(s8[s7.len() as int] == b8[0]);
    }
}

/// A bid trace's wire bytes are its head segment followed by its tail
/// segment.
proof fn lemma_trace_segments(s: Seq<u8>, p: int, t: BidTrace)
    requires
        0 <= p,
        p + spec_wire_trace(t).len() <= s.len(),
        s.subrange(p, p + spec_wire_trace(t).len()) == spec_wire_trace(t),
    ensures
        spec_wire_trace(t).len() == spec_wire_trace_head(t).len() + spec_wire_trace_tail(t).len(),
        s.subrange(p, p + spec_wire_trace_head(t).len()) == spec_wire_trace_head(t),
        s.subrange(
            p + spec_wire_trace_head(t).len(),
            p + spec_wire_trace(t).len(),
        ) == spec_wire_trace_tail(t),
        s[p + spec_wire_trace_head(t).len()] == 34,
        spec_wire_trace_tail(t).len() > 0,
{
    let hd = spec_wire_trace_head(t);
    let tl = spec_wire_trace_tail(t);
    let wire = spec_wire_trace(t);
    assert(wire == hd + tl);
    assert forall|t0: int| 0 <= t0 < wire.len() implies s[p + t0] == wire[t0] by {
        assert(s.subrange(p, p + wire.len())[t0] == s[p + t0]);
    }
    assert(s.subrange(p, p + hd.len()) =~= hd) by {
        assert(forall|j: int| 0 <= j < hd.len() ==> (hd + tl)[j] == #[trigger] hd[j]);
    }
    assert forall|j: int| 0 <= j < tl.len() implies s.subrange(p + hd.len(), p + wire.len())[j]
        == tl[j] by {
        assert(s.subrange(p, p + wire.len())[hd.len() + j] == s[p + hd.len() + j]);
        assert(wire[hd.len() + j] == (hd + tl)[hd.len() + j]);
        assert((hd + tl)[hd.len() + j] == tl[j]);
        assert(s.subrange(p + hd.len(), p + wire.len())[j] == s[p + hd.len() + j]);
    }
    assert(s.subrange(p + hd.len(), p + wire.len()) =~= tl);
    proof_trace_literals();
    assert(tl[0] == ("\",\"proposer_fee_recipient\":\"0x").spec_bytes()[0] && tl.len() > 0) by {
        reveal(spec_wire_trace_tail);
        proof_trace_literals();
    }
    assert(s[p + hd.len()] == tl[0]) by {
        assert((hd + tl)[hd.len() as int] == tl[0]);
    }
}

/// One fixed-grammar step of a straight-line parse: succeeds exactly when
/// the previous steps succeeded and the literal stands at `pos`.
fn step_lit(s: &[u8], ok: bool, pos: usize, l: &str) -> (r: (bool, usize))
    requires
        pos <= s@.len(),
    ensures
        pos <= r.1 <= s@.len(),
        r.0 ==> ok && pos + l.spec_bytes().len() <= s@.len() && s@.subrange(
            pos as int,
            pos + l.spec_bytes().len(),
        ) == l.spec_bytes() && r.1 == pos + l.spec_bytes().len(),
        (ok && pos + l.spec_bytes().len() <= s@.len() && s@.subrange(
            pos as int,
            pos + l.spec_bytes().len(),
        ) == l.spec_bytes()) ==> r.0,
{
    if !ok {
        return (false, pos);
    }
    match eat_lit(s, pos, l) {
        Some(q) => (true, q),
        None => (false, pos),
    }
}

/// One hex-field step of a straight-line parse, of exactly `want` decoded
/// bytes.
fn step_hex_exact(s: &[u8], ok: bool, pos: usize, want: usize) -> (r: (bool, usize, Vec<u8>))
    requires
        pos <= s@.len(),
    ensures
        pos <= r.1 <= s@.len(),
        r.0 ==> ok && r.2@.len() == want,
        forall|b: Seq<u8>|
            (ok && b.len() == want && pos + 2 * b.len() < s@.len() && s@.subrange(
                pos as int,
                pos + 2 * b.len(),
            ) == #[trigger] spec_hex_lower(b) && s@[pos + 2 * b.len()] == 34) ==> (r.0 && r.2@ == b
                && r.1 == pos + 2 * b.len()),
{
    if !ok {
        return (false, pos, Vec::new());
    }
    match parse_hex_exact(s, pos, want) {
        Some(pr) => (true, pr.1, pr.0),
        None => (false, pos, Vec::new()),
    }
}

/// One hex-field step of a straight-line parse, of at most `cap` decoded
/// bytes.
fn step_hex_max(s: &[u8], ok: bool, pos: usize, cap: usize) -> (r: (bool, usize, Vec<u8>))
    requires
        pos <= s@.len(),
    ensures
        pos <= r.1 <= s@.len(),
        r.0 ==> ok && r.2@.len() <= cap,
        forall|b: Seq<u8>|
            (ok && b.len() <= cap && pos + 2 * b.len() < s@.len() && s@.subrange(
                pos as int,
                pos + 2 * b.len(),
            ) == #[trigger] spec_hex_lower(b) && s@[pos + 2 * b.len()] == 34) ==> (r.0 && r.2@ == b
                && r.1 == pos + 2 * b.len()),
{
    if !ok {
        return (false, pos, Vec::new());
    }
    match parse_hex_max(s, pos, cap) {
        Some(pr) => (true, pr.1, pr.0),
        None => (false, pos, Vec::new()),
    }
}

/// One decimal-field step of a straight-line parse, read as a `u64`.
fn step_dec_u64(s: &[u8], ok: bool, pos: usize) -> (r: (bool, usize, u64))
    requires
        pos <= s@.len(),
    ensures
        pos <= r.1 <= s@.len(),
        r.0 ==> ok,
        forall|n: u64|
            (ok && pos + dec_digits(n as nat).len() < s@.len() && s@.subrange(
                pos as int,
                pos + dec_digits(n as nat).len(),
            ) == #[trigger] dec_digits(n as nat) && s@[pos + dec_digits(n as nat).len()] == 34)
                ==> (r.0 && r.2 == n && r.1 == pos + dec_digits(n as nat).len()),
{
    if !ok {
        return (false, pos, 0);
    }
    match parse_dec_u64_field(s, pos) {
        Some(pr) => (true, pr.1, pr.0),
        None => (false, pos, 0),
    }
}

/// One decimal-field step of a straight-line parse, read as a `u128`.
fn step_dec_u128(s: &[u8], ok: bool, pos: usize) -> (r: (bool, usize, u128))
    requires
        pos <= s@.len(),
    ensures
        pos <= r.1 <= s@.len(),
        r.0 ==> ok,
        forall|n: u128|
            (ok && pos + dec_digits(n as nat).len() < s@.len() && s@.subrange(
                pos as int,
                pos + dec_digits(n as nat).len(),
            ) == #[trigger] dec_digits(n as nat) && s@[pos + dec_digits(n as nat).len()] == 34)
                ==> (r.0 && r.2 == n && r.1 == pos + dec_digits(n as nat).len()),
{
    if !ok {
        return (false, pos, 0);
    }
    match parse_dec_u128_field(s, pos) {
        Some(pr) => (true, pr.1, pr.0),
        None => (false, pos, 0),
    }
}

/// Field-wise agreement of two bid traces, byte vectors compared by
/// contents.
pub open spec fn trace_like(a: BidTrace, b: BidTrace) -> bool {
    &&& a.slot == b.slot
    &&& a.parent_hash@ == b.parent_hash@
    &&& a.block_hash@ == b.block_hash@
    &&& a.builder_public_key@ == b.builder_public_key@
    &&& a.proposer_public_key@ == b.proposer_public_key@
    &&& a.proposer_fee_recipient@ == b.proposer_fee_recipient@
    &&& a.gas_limit == b.gas_limit
    &&& a.gas_used == b.gas_used
    &&& a.value == b.value
}


/// Reads the leading half of a bid trace object: slot, parent and block
/// hash, builder and proposer public key.
#[verifier::rlimit(100)]
#[verifier::spinoff_prover]
fn parse_trace_front(s: &[u8], p: usize) -> (r: Option<(u64, Vec<u8>, Vec<u8>, Vec<u8>, Vec<u8>, usize)>)
    requires
        p <= s@.len(),
    ensures
        r matches Some(pr) ==> p <= pr.5 <= s@.len() && pr.1@.len() == HASH_BYTES_LEN && pr.2@.len()
            == HASH_BYTES_LEN && pr.3@.len() == BLS_PUBLIC_KEY_BYTES_LEN && pr.4@.len()
            == BLS_PUBLIC_KEY_BYTES_LEN,
        forall|t: BidTrace|
            (t.wf() && p + spec_wire_trace_head(t).len() < s@.len() && s@.subrange(
                p as int,
                p + spec_wire_trace_head(t).len(),
            ) == #[trigger] spec_wire_trace_head(t) && s@[p + spec_wire_trace_head(t).len()] == 34)
                ==> (r matches Some(pr) && pr.0 == t.slot && pr.1@ == t.parent_hash@ && pr.2@
                == t.block_hash@ && pr.3@ == t.builder_public_key@ && pr.4@
                == t.proposer_public_key@ && pr.5 == p + spec_wire_trace_head(t).len()),
{
    let ok0 = true;
    let pos0 = p;
    let (ok1, pos1) = step_lit(s, ok0, pos0, "{\"slot\":\"");
    let (ok2, pos2, slot) = step_dec_u64(s, ok1, pos1);
    let (ok3, pos3) = step_lit(s, ok2, pos2, "\",\"parent_hash\":\"0x");
    let (ok4, pos4, parent_hash) = step_hex_exact(s, ok3, pos3, HASH_BYTES_LEN);
    let (ok5, pos5) = step_lit(s, ok4, pos4, "\",\"block_hash\":\"0x");
    let (ok6, pos6, block_hash) = step_hex_exact(s, ok5, pos5, HASH_BYTES_LEN);
    let (ok7, pos7) = step_lit(s, ok6, pos6, "\",\"builder_pubkey\":\"0x");
    let (ok8, pos8, builder_public_key) = step_hex_exact(s, ok7, pos7, BLS_PUBLIC_KEY_BYTES_LEN);
    let (ok9, pos9) = step_lit(s, ok8, pos8, "\",\"proposer_pubkey\":\"0x");
    let (ok10, pos10, proposer_public_key) = step_hex_exact(s, ok9, pos9, BLS_PUBLIC_KEY_BYTES_LEN);
    proof {
        assert forall|t: BidTrace|
            (t.wf() && p + spec_wire_trace_head(t).len() < s@.len() && s@.subrange(
                p as int,
                p + spec_wire_trace_head(t).len(),
            ) == #[trigger] spec_wire_trace_head(t) && s@[p + spec_wire_trace_head(t).len()] == 34)
            implies (ok10 && slot == t.slot && parent_hash@
            == t.parent_hash@ && block_hash@ == t.block_hash@ && builder_public_key@
            == t.builder_public_key@ && proposer_public_key@ == t.proposer_public_key@ && pos10
            == p + spec_wire_trace_head(t).len()) by {
            lemma_trace_head_layout(s@, p as int, t);
            proof_trace_literals();
            lemma_hex_lower_len(t.parent_hash@);
            lemma_hex_lower_len(t.block_hash@);
            lemma_hex_lower_len(t.builder_public_key@);
            lemma_hex_lower_len(t.proposer_public_key@);
            assert(ok1 && pos1 == p + ("{\"slot\":\"").spec_bytes().len());
            assert(ok2 && slot == t.slot && pos2 == pos1 + dec_digits(t.slot as nat).len());
            assert(ok3 && pos3 == pos2 + ("\",\"parent_hash\":\"0x").spec_bytes().len());
            assert(ok4 && parent_hash@ == t.parent_hash@ && pos4 == pos3 + 2 * HASH_BYTES_LEN);
            assert(ok5 && pos5 == pos4 + ("\",\"block_hash\":\"0x").spec_bytes().len());
            assert(ok6 && block_hash@ == t.block_hash@ && pos6 == pos5 + 2 * HASH_BYTES_LEN);
            assert(ok7 && pos7 == pos6 + ("\",\"builder_pubkey\":\"0x").spec_bytes().len());
            assert(ok8 && builder_public_key@ == t.builder_public_key@ && pos8 == pos7 + 2
                * BLS_PUBLIC_KEY_BYTES_LEN);
            assert(ok9 && pos9 == pos8 + ("\",\"proposer_pubkey\":\"0x").spec_bytes().len());
            assert(ok10 && proposer_public_key@ == t.proposer_public_key@ && pos10 == pos9 + 2
                * BLS_PUBLIC_KEY_BYTES_LEN);
        }
    }
    if !ok10 {
        return None;
    }
    Some((slot, parent_hash, block_hash, builder_public_key, proposer_public_key, pos10))
}

/// Reads one bid trace object. On the canonical wire bytes of any
/// well-formed trace, this succeeds with its fields.
#[verifier::rlimit(100)]
fn parse_trace(s: &[u8], p: usize) -> (r: Option<(BidTrace, usize)>)
    requires
        p <= s@.len(),
    ensures
        r matches Some(pr) ==> pr.0.wf() && p <= pr.1 <= s@.len(),
        forall|t: BidTrace|
            (t.wf() && p + spec_wire_trace(t).len() <= s@.len() && s@.subrange(
                p as int,
                p + spec_wire_trace(t).len(),
            ) == #[trigger] spec_wire_trace(t)) ==> (r matches Some(pr) && trace_like(pr.0, t)
                && pr.1 == p + spec_wire_trace(t).len()),
{
    let front = match parse_trace_front(s, p) {
        Some(pr) => pr,
        None => {
            proof {
                assert forall|t: BidTrace|
                    (t.wf() && p + spec_wire_trace(t).len() <= s@.len() && s@.subrange(
                        p as int,
                        p + spec_wire_trace(t).len(),
                    ) == #[trigger] spec_wire_trace(t)) implies false by {
                    lemma_trace_segments(s@, p as int, t);
                }
            }
            return None;
        },
    };
    let (slot, parent_hash, block_hash, builder_public_key, proposer_public_key, pos10) = front;
    let ok10 = true;
    let (ok11, pos11) = step_lit(s, ok10, pos10, "\",\"proposer_fee_recipient\":\"0x");
    let (ok12, pos12, proposer_fee_recipient) = step_hex_exact(s, ok11, pos11, ADDRESS_BYTES_LEN);
    let (ok13, pos13) = step_lit(s, ok12, pos12, "\",\"gas_limit\":\"");
    let (ok14, pos14, gas_limit) = step_dec_u64(s, ok13, pos13);
    let (ok15, pos15) = step_lit(s, ok14, pos14, "\",\"gas_used\":\"");
    let (ok16, pos16, gas_used) = step_dec_u64(s, ok15, pos15);
    let (ok17, pos17) = step_lit(s, ok16, pos16, "\",\"value\":\"");
    let (ok18, pos18, value) = step_dec_u128(s, ok17, pos17);
    let (ok19, pos19) = step_lit(s, ok18, pos18, "\"}");
    proof {
        assert forall|t: BidTrace|
            (t.wf() && p + spec_wire_trace(t).len() <= s@.len() && s@.subrange(
                p as int,
                p + spec_wire_trace(t).len(),
            ) == #[trigger] spec_wire_trace(t)) implies (ok19 && slot == t.slot && parent_hash@
            == t.parent_hash@ && block_hash@ == t.block_hash@ && builder_public_key@
            == t.builder_public_key@ && proposer_public_key@ == t.proposer_public_key@
            && proposer_fee_recipient@
            == t.proposer_fee_recipient@ && gas_limit == t.gas_limit && gas_used == t.gas_used
            && value == t.value && pos19 == p + spec_wire_trace(t).len()) by {
            lemma_trace_segments(s@, p as int, t);
            lemma_trace_tail_layout(s@, p + spec_wire_trace_head(t).len(), t);
            proof_trace_literals();
            lemma_hex_lower_len(t.parent_hash@);
            lemma_hex_lower_len(t.block_hash@);
            lemma_hex_lower_len(t.builder_public_key@);
            lemma_hex_lower_len(t.proposer_public_key@);
            lemma_hex_lower_len(t.proposer_fee_recipient@);
            assert(pos10 == p + spec_wire_trace_head(t).len());
            assert(ok11 && pos11 == pos10 + (
            "\",\"proposer_fee_recipient\":\"0x").spec_bytes().len());
            assert(ok12 && proposer_fee_recipient@ == t.proposer_fee_recipient@ && pos12 == pos11
                + 2 * ADDRESS_BYTES_LEN);
            assert(ok13 && pos13 == pos12 + ("\",\"gas_limit\":\"").spec_bytes().len());
            assert(ok14 && gas_limit == t.gas_limit && pos14 == pos13 + dec_digits(
                t.gas_limit as nat,
            ).len());
            assert(ok15 && pos15 == pos14 + ("\",\"gas_used\":\"").spec_bytes().len());
            assert(ok16 && gas_used == t.gas_used && pos16 == pos15 + dec_digits(
                t.gas_used as nat,
            ).len());
            assert(ok17 && pos17 == pos16 + ("\",\"value\":\"").spec_bytes().len());
            assert(ok18 && value == t.value && pos18 == pos17 + dec_digits(t.value as nat).len());
            assert(ok19 && pos19 == pos18 + ("\"}").spec_bytes().len());
        }
    }
    if !ok19 {
        return None;
    }
    let out = BidTrace {
        slot,
        parent_hash,
        block_hash,
        builder_public_key,
        proposer_public_key,
        proposer_fee_recipient,
        gas_limit,
        gas_used,
        value,
    };
    Some((out, pos19))
}


/// Element-wise agreement of two transaction lists, compared by contents.
pub open spec fn txs_like(a: Seq<Vec<u8>>, b: Seq<Vec<u8>>) -> bool {
    a.len() == b.len() && forall|i: int| 0 <= i < a.len() ==> (#[trigger] a[i])@ == (#[trigger] b[i])@
}

/// Element-wise agreement of two withdrawal lists.
pub open spec fn wds_like(a: Seq<WithdrawalMevBoost>, b: Seq<WithdrawalMevBoost>) -> bool {
    a.len() == b.len() && forall|i: int| 0 <= i < a.len() ==> wd_like(#[trigger] a[i], #[trigger] b[i])
}

/// The concrete bytes of the list grammar's fixed pieces.
proof fn proof_list_literals()
    ensures
        (",\"0x").spec_bytes().len() == 4,
        (",\"0x").spec_bytes()[0] == 44,
        ("\"").spec_bytes().len() == 1,
        ("\"").spec_bytes()[0] == 34,
        ("[\"0x").spec_bytes().len() == 4,
        ("[\"0x").spec_bytes()[0] == 91,
        ("[\"0x").spec_bytes()[1] == 34,
        ("[]").spec_bytes().len() == 2,
        ("[]").spec_bytes()[0] == 91,
        ("[]").spec_bytes()[1] == 93,
        ("]").spec_bytes().len() == 1,
        ("]").spec_bytes()[0] == 93,
        (",").spec_bytes().len() == 1,
        (",").spec_bytes()[0] == 44,
        ("[").spec_bytes().len() == 1,
        ("[").spec_bytes()[0] == 91,
{
    broadcast use vstd::string::is_ascii_spec_bytes;

    reveal_strlit(",\"0x");
    reveal_strlit("\"");
    reveal_strlit("[\"0x");
    reveal_strlit("[]");
    reveal_strlit("]");
    reveal_strlit(",");
    reveal_strlit("[");
    assert(vstd::string::is_ascii(",\"0x"));
    assert(vstd::string::is_ascii("\""));
    assert(vstd::string::is_ascii("[\"0x"));
    assert(vstd::string::is_ascii("[]"));
    assert(vstd::string::is_ascii("]"));
    assert(vstd::string::is_ascii(","));
    assert(vstd::string::is_ascii("["));
}

/// Where the pieces of a non-empty transaction tail stand.
proof fn lemma_tx_more_layout(s: Seq<u8>, p: int, txs: Seq<Vec<u8>>)
    requires
        txs.len() > 0,
        0 <= p,
        p + spec_wire_tx_more(txs).len() <= s.len(),
        s.subrange(p, p + spec_wire_tx_more(txs).len()) == spec_wire_tx_more(txs),
    ensures
        ({
            let b0 = (",\"0x").spec_bytes();
            let b1 = spec_hex_lower(txs.first()@);
            let b2 = ("\"").spec_bytes();
            let rest = spec_wire_tx_more(txs.drop_first());
            &&& spec_wire_tx_more(txs).len() == b0.len() + b1.len() + b2.len() + rest.len()
            &&& s.subrange(p, p + b0.len()) == b0
            &&& s.subrange(p + b0.len(), p + b0.len() + b1.len()) == b1
            &&& s[p + b0.len() + b1.len()] == 34
            &&& s.subrange(p + b0.len() + b1.len(), p + b0.len() + b1.len() + b2.len()) == b2
            &&& s.subrange(
                p + b0.len() + b1.len() + b2.len(),
                p + spec_wire_tx_more(txs).len(),
            ) == rest
        }),
{
    proof_list_literals();
    let wire = spec_wire_tx_more(txs);
    let b0 = (",\"0x").spec_bytes();
    let b1 = spec_hex_lower(txs.first()@);
    let b2 = ("\"").spec_bytes();
    let rest = spec_wire_tx_more(txs.drop_first());
    let s0 = b0;
    let s1 = s0 + b1;
    let s2 = s1 + b2;
    let s3 = s2 + rest;
    assert(wire == s3) by {
    }
    assert(forall|t0: int| 0 <= t0 < s2.len() ==> s3[t0] == #[trigger] s2[t0]) by {
    }
    assert(forall|t0: int| 0 <= t0 < s1.len() ==> s2[t0] == #[trigger] s1[t0]) by {
    }
    assert(forall|t0: int| 0 <= t0 < s0.len() ==> s1[t0] == #[trigger] s0[t0]) by {
    }
    assert forall|t0: int| 0 <= t0 < wire.len() implies s[p + t0] == wire[t0] by {
        assert(s.subrange(p, p + wire.len())[t0] == s[p + t0]);
    }
    assert(s.subrange(p, p + s0.len()) =~= b0) by {
    }
    assert(s.subrange(p + s0.len(), p + s1.len()) =~= b1) by {
        assert(forall|j: int| 0 <= j < b1.len() ==> s1[s0.len() + j] == #[trigger] b1[j]);
    }
    assert(s[p + s1.len()] == b2[0]) by {
        assert(s2[s1.len() as int] == b2[0]);
    }
    assert(s.subrange(p + s1.len(), p + s2.len()) =~= b2) by {
        assert(forall|j: int| 0 <= j < b2.len() ==> s2[s1.len() + j] == #[trigger] b2[j]);
    }
    assert(s.subrange(p + s2.len(), p + s3.len()) =~= rest) by {
        assert(forall|j: int| 0 <= j < rest.len() ==> s3[s2.len() + j] == #[trigger] rest[j]);
    }
}

/// Reads the transaction items that follow the first one, up to and
/// including the closing bracket.
#[verifier::rlimit(100)]
fn parse_tx_more(s: &[u8], p: usize) -> (r: Option<(Vec<Vec<u8>>, usize)>)
    requires
        p <= s@.len(),
    ensures
        r matches Some(pr) ==> p < pr.1 <= s@.len() && (forall|i: int|
            0 <= i < pr.0@.len() ==> (#[trigger] pr.0@[i])@.len() <= MAX_BYTES_PER_TRANSACTION),
        forall|txs: Seq<Vec<u8>>|
            ((forall|i: int|
                0 <= i < txs.len() ==> (#[trigger] txs[i])@.len() <= MAX_BYTES_PER_TRANSACTION)
                && p + spec_wire_tx_more(txs).len() < s@.len() && s@.subrange(
                p as int,
                p + spec_wire_tx_more(txs).len(),
            ) == #[trigger] spec_wire_tx_more(txs) && s@[p + spec_wire_tx_more(txs).len()] == 93)
                ==> (r matches Some(pr) && txs_like(pr.0@, txs) && pr.1 == p + spec_wire_tx_more(
                txs,
            ).len() + 1),
    decreases s@.len() - p,
{
    if p < s.len() && s[p] == 93 {
        proof {
            proof_list_literals();
            assert forall|txs: Seq<Vec<u8>>|
                ((forall|i: int|
                    0 <= i < txs.len() ==> (#[trigger] txs[i])@.len()
                        <= MAX_BYTES_PER_TRANSACTION) && p + spec_wire_tx_more(txs).len()
                    < s@.len() && s@.subrange(p as int, p + spec_wire_tx_more(txs).len())
                    == #[trigger] spec_wire_tx_more(txs) && s@[p + spec_wire_tx_more(txs).len()]
                    == 93) implies txs.len() == 0 by {
                if txs.len() > 0 {
                    lemma_tx_more_layout(s@, p as int, txs);
                }
            }
        }
        return Some((Vec::new(), p + 1));
    }
    let (ok1, pos1) = step_lit(s, true, p, ",\"0x");
    let (ok2, pos2, tx) = step_hex_max(s, ok1, pos1, MAX_BYTES_PER_TRANSACTION);
    let (ok3, pos3) = step_lit(s, ok2, pos2, "\"");
    proof {
        assert forall|txs: Seq<Vec<u8>>|
            ((forall|i: int|
                0 <= i < txs.len() ==> (#[trigger] txs[i])@.len() <= MAX_BYTES_PER_TRANSACTION)
                && p + spec_wire_tx_more(txs).len() < s@.len() && s@.subrange(
                p as int,
                p + spec_wire_tx_more(txs).len(),
            ) == #[trigger] spec_wire_tx_more(txs) && s@[p + spec_wire_tx_more(txs).len()] == 93)
                implies (txs.len() > 0 && ok3 && tx@ == txs.first()@ && pos3 == p + 5 + 2 * txs.first()@.len()
                && p + spec_wire_tx_more(txs).len() == pos3 + spec_wire_tx_more(
                txs.drop_first(),
            ).len()) by {
            if txs.len() == 0 {
                assert(spec_wire_tx_more(txs).len() == 0);
                assert(s@[p as int] == 93);
            } else {
                lemma_tx_more_layout(s@, p as int, txs);
                proof_list_literals();
                lemma_hex_lower_len(txs.first()@);
                assert(txs.first()@.len() <= MAX_BYTES_PER_TRANSACTION);
            }
        }
    }
    if !ok3 {
        return None;
    }
    proof {
        proof_list_literals();
        assert(pos3 > p);
    }
    match parse_tx_more(s, pos3) {
        None => {
            proof {
                assert forall|txs: Seq<Vec<u8>>|
                    ((forall|i: int|
                        0 <= i < txs.len() ==> (#[trigger] txs[i])@.len()
                            <= MAX_BYTES_PER_TRANSACTION) && p + spec_wire_tx_more(txs).len()
                        < s@.len() && s@.subrange(p as int, p + spec_wire_tx_more(txs).len())
                        == #[trigger] spec_wire_tx_more(txs) && s@[p + spec_wire_tx_more(
                        txs,
                    ).len()] == 93) implies false by {
                    lemma_tx_more_layout(s@, p as int, txs);
                    proof_list_literals();
                    lemma_hex_lower_len(txs.first()@);
                    assert(spec_wire_tx_more(txs.drop_first()) == s@.subrange(
                        pos3 as int,
                        p + spec_wire_tx_more(txs).len(),
                    ));
                    assert(s@.subrange(pos3 as int, pos3 + spec_wire_tx_more(
                        txs.drop_first(),
                    ).len()) =~= s@.subrange(pos3 as int, p + spec_wire_tx_more(txs).len()));
                    assert(forall|i: int|
                        0 <= i < txs.drop_first().len() ==> (#[trigger] txs.drop_first()[i])@.len()
                            <= MAX_BYTES_PER_TRANSACTION);
                }
            }
            None
        },
        Some((mut rest, q)) => {
            let ghost rest0 = rest@;
            rest.insert(0, tx);
            proof {
                assert(rest@ == rest0.insert(0, tx));
                assert forall|txs: Seq<Vec<u8>>|
                    ((forall|i: int|
                        0 <= i < txs.len() ==> (#[trigger] txs[i])@.len()
                            <= MAX_BYTES_PER_TRANSACTION) && p + spec_wire_tx_more(txs).len()
                        < s@.len() && s@.subrange(p as int, p + spec_wire_tx_more(txs).len())
                        == #[trigger] spec_wire_tx_more(txs) && s@[p + spec_wire_tx_more(
                        txs,
                    ).len()] == 93) implies (txs_like(rest@, txs) && q == p + spec_wire_tx_more(
                        txs,
                    ).len() + 1) by {
                    lemma_tx_more_layout(s@, p as int, txs);
                    proof_list_literals();
                    lemma_hex_lower_len(txs.first()@);
                    assert(spec_wire_tx_more(txs.drop_first()) == s@.subrange(
                        pos3 as int,
                        p + spec_wire_tx_more(txs).len(),
                    ));
                    assert(s@.subrange(pos3 as int, pos3 + spec_wire_tx_more(
                        txs.drop_first(),
                    ).len()) =~= s@.subrange(pos3 as int, p + spec_wire_tx_more(txs).len()));
                    assert(forall|i: int|
                        0 <= i < txs.drop_first().len() ==> (#[trigger] txs.drop_first()[i])@.len()
                            <= MAX_BYTES_PER_TRANSACTION);
                    assert(txs_like(rest0, txs.drop_first()));
                    assert forall|i: int| 0 <= i < txs.len() implies (#[trigger] rest@[i])@ == (
                    #[trigger] txs[i])@ by {
                        if i == 0 {
                            assert(rest@[0] == tx);
                        } else {
                            assert(rest@[i] == rest0[i - 1]);
                            assert(txs.drop_first()[i - 1] == txs[i]);
                        }
                    }
                }
            }
            Some((rest, q))
        },
    }
}

/// Reads a whole transaction list, brackets included. On the canonical
/// wire of any list within the size caps, this succeeds with its items.
#[verifier::rlimit(100)]
fn parse_tx_list(s: &[u8], p: usize) -> (r: Option<(Vec<Vec<u8>>, usize)>)
    requires
        p <= s@.len(),
    ensures
        r matches Some(pr) ==> p < pr.1 <= s@.len() && (forall|i: int|
            0 <= i < pr.0@.len() ==> (#[trigger] pr.0@[i])@.len() <= MAX_BYTES_PER_TRANSACTION),
        forall|txs: Seq<Vec<u8>>|
            ((forall|i: int|
                0 <= i < txs.len() ==> (#[trigger] txs[i])@.len() <= MAX_BYTES_PER_TRANSACTION)
                && p + spec_wire_tx_list(txs).len() <= s@.len() && s@.subrange(
                p as int,
                p + spec_wire_tx_list(txs).len(),
            ) == #[trigger] spec_wire_tx_list(txs)) ==> (r matches Some(pr) && txs_like(pr.0@, txs)
                && pr.1 == p + spec_wire_tx_list(txs).len()),
{
    match eat_lit(s, p, "[]") {
        Some(q) => {
            proof {
                proof_list_literals();
                assert forall|txs: Seq<Vec<u8>>|
                    ((forall|i: int|
                        0 <= i < txs.len() ==> (#[trigger] txs[i])@.len()
                            <= MAX_BYTES_PER_TRANSACTION) && p + spec_wire_tx_list(txs).len()
                        <= s@.len() && s@.subrange(p as int, p + spec_wire_tx_list(txs).len())
                        == #[trigger] spec_wire_tx_list(txs)) implies (txs.len() == 0 && q == p
                        + spec_wire_tx_list(txs).len()) by {
                    if txs.len() > 0 {
                        assert(s@.subrange(p as int, p + spec_wire_tx_list(txs).len())[1] == (
                        "[\"0x").spec_bytes()[1]);
                        assert(s@[p + 1] == 34);
                        assert(s@.subrange(p as int, p + 2)[1] == ("[]").spec_bytes()[1]);
                    }
                }
            }
            return Some((Vec::new(), q));
        },
        None => {},
    }
    let (ok1, pos1) = step_lit(s, true, p, "[\"0x");
    let (ok2, pos2, tx0) = step_hex_max(s, ok1, pos1, MAX_BYTES_PER_TRANSACTION);
    let (ok3, pos3) = step_lit(s, ok2, pos2, "\"");
    proof {
        assert forall|txs: Seq<Vec<u8>>|
            ((forall|i: int|
                0 <= i < txs.len() ==> (#[trigger] txs[i])@.len() <= MAX_BYTES_PER_TRANSACTION)
                && p + spec_wire_tx_list(txs).len() <= s@.len() && s@.subrange(
                p as int,
                p + spec_wire_tx_list(txs).len(),
            ) == #[trigger] spec_wire_tx_list(txs)) implies (txs.len() > 0 && ok3 && tx0@
                == txs.first()@ && pos3 == p + 5 + 2 * txs.first()@.len() && p + spec_wire_tx_list(
                txs,
            ).len() == pos3 + spec_wire_tx_more(txs.drop_first()).len() + 1 && s@[pos3
                + spec_wire_tx_more(txs.drop_first()).len()] == 93) by {
            proof_list_literals();
            if txs.len() == 0 {
                assert(s@.subrange(p as int, p + 2) =~= s@.subrange(
                    p as int,
                    p + spec_wire_tx_list(txs).len(),
                ));
            } else {
                lemma_tx_list_layout(s@, p as int, txs);
                lemma_hex_lower_len(txs.first()@);
            }
        }
    }
    if !ok3 {
        return None;
    }
    match parse_tx_more(s, pos3) {
        None => {
            proof {
                assert forall|txs: Seq<Vec<u8>>|
                    ((forall|i: int|
                        0 <= i < txs.len() ==> (#[trigger] txs[i])@.len()
                            <= MAX_BYTES_PER_TRANSACTION) && p + spec_wire_tx_list(txs).len()
                        <= s@.len() && s@.subrange(p as int, p + spec_wire_tx_list(txs).len())
                        == #[trigger] spec_wire_tx_list(txs)) implies false by {
                    proof_list_literals();
                    lemma_tx_list_layout(s@, p as int, txs);
                    lemma_hex_lower_len(txs.first()@);
                    assert(s@.subrange(pos3 as int, pos3 + spec_wire_tx_more(
                        txs.drop_first(),
                    ).len()) == spec_wire_tx_more(txs.drop_first()));
                    assert(forall|i: int|
                        0 <= i < txs.drop_first().len() ==> (#[trigger] txs.drop_first()[i])@.len()
                            <= MAX_BYTES_PER_TRANSACTION);
                }
            }
            None
        },
        Some((mut rest, q)) => {
            let ghost rest0 = rest@;
            rest.insert(0, tx0);
            proof {
                assert forall|txs: Seq<Vec<u8>>|
                    ((forall|i: int|
                        0 <= i < txs.len() ==> (#[trigger] txs[i])@.len()
                            <= MAX_BYTES_PER_TRANSACTION) && p + spec_wire_tx_list(txs).len()
                        <= s@.len() && s@.subrange(p as int, p + spec_wire_tx_list(txs).len())
                        == #[trigger] spec_wire_tx_list(txs)) implies (txs_like(rest@, txs) && q
                        == p + spec_wire_tx_list(txs).len()) by {
                    proof_list_literals();
                    lemma_tx_list_layout(s@, p as int, txs);
                    lemma_hex_lower_len(txs.first()@);
                    assert(s@.subrange(pos3 as int, pos3 + spec_wire_tx_more(
                        txs.drop_first(),
                    ).len()) == spec_wire_tx_more(txs.drop_first()));
                    assert(forall|i: int|
                        0 <= i < txs.drop_first().len() ==> (#[trigger] txs.drop_first()[i])@.len()
                            <= MAX_BYTES_PER_TRANSACTION);
                    assert(txs_like(rest0, txs.drop_first()));
                    assert forall|i: int| 0 <= i < txs.len() implies (#[trigger] rest@[i])@ == (
                    #[trigger] txs[i])@ by {
                        if i == 0 {
                            assert(rest@[0] == tx0);
                        } else {
                            assert(rest@[i] == rest0[i - 1]);
                            assert(txs.drop_first()[i - 1] == txs[i]);
                        }
                    }
                }
            }
            Some((rest, q))
        },
    }
}

/// Where the pieces of a non-empty transaction list stand.
proof fn lemma_tx_list_layout(s: Seq<u8>, p: int, txs: Seq<Vec<u8>>)
    requires
        txs.len() > 0,
        0 <= p,
        p + spec_wire_tx_list(txs).len() <= s.len(),
        s.subrange(p, p + spec_wire_tx_list(txs).len()) == spec_wire_tx_list(txs),
    ensures
        ({
            let b0 = ("[\"0x").spec_bytes();
            let b1 = spec_hex_lower(txs.first()@);
            let b2 = ("\"").spec_bytes();
            let rest = spec_wire_tx_more(txs.drop_first());
            let b4 = ("]").spec_bytes();
            &&& spec_wire_tx_list(txs).len() == b0.len() + b1.len() + b2.len() + rest.len()
                + b4.len()
            &&& s.subrange(p, p + b0.len()) == b0
            &&& s.subrange(p + b0.len(), p + b0.len() + b1.len()) == b1
            &&& s[p + b0.len() + b1.len()] == 34
            &&& s.subrange(p + b0.len() + b1.len(), p + b0.len() + b1.len() + b2.len()) == b2
            &&& s.subrange(
                p + b0.len() + b1.len() + b2.len(),
                p + b0.len() + b1.len() + b2.len() + rest.len(),
            ) == rest
            &&& s[p + b0.len() + b1.len() + b2.len() + rest.len()] == 93
        }),
{
    proof_list_literals();
    let wire = spec_wire_tx_list(txs);
    let b0 = ("[\"0x").spec_bytes();
    let b1 = spec_hex_lower(txs.first()@);
    let b2 = ("\"").spec_bytes();
    let rest = spec_wire_tx_more(txs.drop_first());
    let b4 = ("]").spec_bytes();
    let s0 = b0;
    let s1 = s0 + b1;
    let s2 = s1 + b2;
    let s3 = s2 + rest;
    let s4 = s3 + b4;
    assert(wire == s4) by {
    }
    assert(forall|t0: int| 0 <= t0 < s3.len() ==> s4[t0] == #[trigger] s3[t0]) by {
    }
    assert(forall|t0: int| 0 <= t0 < s2.len() ==> s3[t0] == #[trigger] s2[t0]) by {
    }
    assert(forall|t0: int| 0 <= t0 < s1.len() ==> s2[t0] == #[trigger] s1[t0]) by {
    }
    assert(forall|t0: int| 0 <= t0 < s0.len() ==> s1[t0] == #[trigger] s0[t0]) by {
    }
    assert forall|t0: int| 0 <= t0 < wire.len() implies s[p + t0] == wire[t0] by {
        assert(s.subrange(p, p + wire.len())[t0] == s[p + t0]);
    }
    assert(s.subrange(p, p + s0.len()) =~= b0) by {
    }
    assert(s.subrange(p + s0.len(), p + s1.len()) =~= b1) by {
        assert(forall|j: int| 0 <= j < b1.len() ==> s1[s0.len() + j] == #[trigger] b1[j]);
    }
    assert(s[p + s1.len()] == b2[0]) by {
        assert(s2[s1.len() as int] == b2[0]);
    }
    assert(s.subrange(p + s1.len(), p + s2.len()) =~= b2) by {
        assert(forall|j: int| 0 <= j < b2.len() ==> s2[s1.len() + j] == #[trigger] b2[j]);
    }
    assert(s.subrange(p + s2.len(), p + s3.len()) =~= rest) by {
        assert(forall|j: int| 0 <= j < rest.len() ==> s3[s2.len() + j] == #[trigger] rest[j]);
    }
    assert(s[p + s3.len()] == b4[0]) by {
        assert(s4[s3.len() as int] == b4[0]);
    }
}


/// Where the pieces of a non-empty withdrawal tail stand.
proof fn lemma_wd_more_layout(s: Seq<u8>, p: int, ws: Seq<WithdrawalMevBoost>)
    requires
        ws.len() > 0,
        0 <= p,
        p + spec_wire_wd_more(ws).len() <= s.len(),
        s.subrange(p, p + spec_wire_wd_more(ws).len()) == spec_wire_wd_more(ws),
    ensures
        ({
            let b0 = (",").spec_bytes();
            let b1 = spec_wire_withdrawal(ws.first());
            let rest = spec_wire_wd_more(ws.drop_first());
            &&& spec_wire_wd_more(ws).len() == b0.len() + b1.len() + rest.len()
            &&& s.subrange(p, p + b0.len()) == b0
            &&& s.subrange(p + b0.len(), p + b0.len() + b1.len()) == b1
            &&& s.subrange(p + b0.len() + b1.len(), p + spec_wire_wd_more(ws).len()) == rest
        }),
{
    proof_list_literals();
    let wire = spec_wire_wd_more(ws);
    let b0 = (",").spec_bytes();
    let b1 = spec_wire_withdrawal(ws.first());
    let rest = spec_wire_wd_more(ws.drop_first());
    let s0 = b0;
    let s1 = s0 + b1;
    let s2 = s1 + rest;
    assert(wire == s2) by {
    }
    assert(forall|t0: int| 0 <= t0 < s1.len() ==> s2[t0] == #[trigger] s1[t0]) by {
    }
    assert(forall|t0: int| 0 <= t0 < s0.len() ==> s1[t0] == #[trigger] s0[t0]) by {
    }
    assert forall|t0: int| 0 <= t0 < wire.len() implies s[p + t0] == wire[t0] by {
        assert(s.subrange(p, p + wire.len())[t0] == s[p + t0]);
    }
    assert(s.subrange(p, p + s0.len()) =~= b0) by {
    }
    assert(s.subrange(p + s0.len(), p + s1.len()) =~= b1) by {
        assert(forall|j: int| 0 <= j < b1.len() ==> s1[s0.len() + j] == #[trigger] b1[j]);
    }
    assert(s.subrange(p + s1.len(), p + s2.len()) =~= rest) by {
        assert(forall|j: int| 0 <= j < rest.len() ==> s2[s1.len() + j] == #[trigger] rest[j]);
    }
}

/// Where the pieces of a non-empty withdrawal list stand.
proof fn lemma_wd_list_layout(s: Seq<u8>, p: int, ws: Seq<WithdrawalMevBoost>)
    requires
        ws.len() > 0,
        0 <= p,
        p + spec_wire_wd_list(ws).len() <= s.len(),
        s.subrange(p, p + spec_wire_wd_list(ws).len()) == spec_wire_wd_list(ws),
    ensures
        ({
            let b0 = ("[").spec_bytes();
            let b1 = spec_wire_withdrawal(ws.first());
            let rest = spec_wire_wd_more(ws.drop_first());
            let b3 = ("]").spec_bytes();
            &&& spec_wire_wd_list(ws).len() == b0.len() + b1.len() + rest.len() + b3.len()
            &&& s.subrange(p, p + b0.len()) == b0
            &&& s.subrange(p + b0.len(), p + b0.len() + b1.len()) == b1
            &&& s.subrange(p + b0.len() + b1.len(), p + b0.len() + b1.len() + rest.len()) == rest
            &&& s[p + b0.len() + b1.len() + rest.len()] == 93
        }),
{
    proof_list_literals();
    let wire = spec_wire_wd_list(ws);
    let b0 = ("[").spec_bytes();
    let b1 = spec_wire_withdrawal(ws.first());
    let rest = spec_wire_wd_more(ws.drop_first());
    let b3 = ("]").spec_bytes();
    let s0 = b0;
    let s1 = s0 + b1;
    let s2 = s1 + rest;
    let s3 = s2 + b3;
    assert(wire == s3) by {
    }
    assert(forall|t0: int| 0 <= t0 < s2.len() ==> s3[t0] == #[trigger] s2[t0]) by {
    }
    assert(forall|t0: int| 0 <= t0 < s1.len() ==> s2[t0] == #[trigger] s1[t0]) by {
    }
    assert(forall|t0: int| 0 <= t0 < s0.len() ==> s1[t0] == #[trigger] s0[t0]) by {
    }
    assert forall|t0: int| 0 <= t0 < wire.len() implies s[p + t0] == wire[t0] by {
        assert(s.subrange(p, p + wire.len())[t0] == s[p + t0]);
    }
    assert(s.subrange(p, p + s0.len()) =~= b0) by {
    }
    assert(s.subrange(p + s0.len(), p + s1.len()) =~= b1) by {
        assert(forall|j: int| 0 <= j < b1.len() ==> s1[s0.len() + j] == #[trigger] b1[j]);
    }
    assert(s.subrange(p + s1.len(), p + s2.len()) =~= rest) by {
        assert(forall|j: int| 0 <= j < rest.len() ==> s2[s1.len() + j] == #[trigger] rest[j]);
    }
    assert(s[p + s2.len()] == b3[0]) by {
        assert(s3[s2.len() as int] == b3[0]);
    }
}

/// Reads the withdrawal items that follow the first one, up to and
/// including the closing bracket.
#[verifier::rlimit(100)]
fn parse_wd_more(s: &[u8], p: usize) -> (r: Option<(Vec<WithdrawalMevBoost>, usize)>)
    requires
        p <= s@.len(),
    ensures
        r matches Some(pr) ==> p < pr.1 <= s@.len() && (forall|i: int|
            0 <= i < pr.0@.len() ==> (#[trigger] pr.0@[i]).wf()),
        forall|ws: Seq<WithdrawalMevBoost>|
            ((forall|i: int| 0 <= i < ws.len() ==> (#[trigger] ws[i]).wf()) && p
                + spec_wire_wd_more(ws).len() < s@.len() && s@.subrange(
                p as int,
                p + spec_wire_wd_more(ws).len(),
            ) == #[trigger] spec_wire_wd_more(ws) && s@[p + spec_wire_wd_more(ws).len()] == 93)
                ==> (r matches Some(pr) && wds_like(pr.0@, ws) && pr.1 == p + spec_wire_wd_more(
                ws,
            ).len() + 1),
    decreases s@.len() - p,
{
    if p < s.len() && s[p] == 93 {
        proof {
            proof_list_literals();
            assert forall|ws: Seq<WithdrawalMevBoost>|
                ((forall|i: int| 0 <= i < ws.len() ==> (#[trigger] ws[i]).wf()) && p
                    + spec_wire_wd_more(ws).len() < s@.len() && s@.subrange(
                    p as int,
                    p + spec_wire_wd_more(ws).len(),
                ) == #[trigger] spec_wire_wd_more(ws) && s@[p + spec_wire_wd_more(ws).len()] == 93)
                    implies ws.len() == 0 by {
                if ws.len() > 0 {
                    lemma_wd_more_layout(s@, p as int, ws);
                }
            }
        }
        return Some((Vec::new(), p + 1));
    }
    let q1 = match eat_lit(s, p, ",") {
        Some(q) => q,
        None => {
            proof {
                assert forall|ws: Seq<WithdrawalMevBoost>|
                    ((forall|i: int| 0 <= i < ws.len() ==> (#[trigger] ws[i]).wf()) && p
                        + spec_wire_wd_more(ws).len() < s@.len() && s@.subrange(
                        p as int,
                        p + spec_wire_wd_more(ws).len(),
                    ) == #[trigger] spec_wire_wd_more(ws) && s@[p + spec_wire_wd_more(ws).len()]
                        == 93) implies false by {
                    proof_list_literals();
                    if ws.len() > 0 {
                        lemma_wd_more_layout(s@, p as int, ws);
                    } else {
                        assert(s@[p as int] == 93);
                    }
                }
            }
            return None;
        },
    };
    let (item, q2) = match parse_withdrawal(s, q1) {
        Some(pr) => pr,
        None => {
            proof {
                assert forall|ws: Seq<WithdrawalMevBoost>|
                    ((forall|i: int| 0 <= i < ws.len() ==> (#[trigger] ws[i]).wf()) && p
                        + spec_wire_wd_more(ws).len() < s@.len() && s@.subrange(
                        p as int,
                        p + spec_wire_wd_more(ws).len(),
                    ) == #[trigger] spec_wire_wd_more(ws) && s@[p + spec_wire_wd_more(ws).len()]
                        == 93) implies false by {
                    proof_list_literals();
                    if ws.len() > 0 {
                        lemma_wd_more_layout(s@, p as int, ws);
                        assert(ws.first().wf());
                    } else {
                        assert(s@[p as int] == 93);
                    }
                }
            }
            return None;
        },
    };
    proof {
        proof_list_literals();
        assert(q2 > p);
    }
    match parse_wd_more(s, q2) {
        None => {
            proof {
                assert forall|ws: Seq<WithdrawalMevBoost>|
                    ((forall|i: int| 0 <= i < ws.len() ==> (#[trigger] ws[i]).wf()) && p
                        + spec_wire_wd_more(ws).len() < s@.len() && s@.subrange(
                        p as int,
                        p + spec_wire_wd_more(ws).len(),
                    ) == #[trigger] spec_wire_wd_more(ws) && s@[p + spec_wire_wd_more(ws).len()]
                        == 93) implies false by {
                    proof_list_literals();
                    if ws.len() > 0 {
                        lemma_wd_more_layout(s@, p as int, ws);
                        assert(ws.first().wf());
                        assert(s@.subrange(q2 as int, q2 + spec_wire_wd_more(
                            ws.drop_first(),
                        ).len()) =~= s@.subrange(q2 as int, p + spec_wire_wd_more(ws).len()));
                        assert(forall|i: int|
                            0 <= i < ws.drop_first().len() ==> (#[trigger] ws.drop_first()[i]).wf());
                    } else {
                        assert(s@[p as int] == 93);
                    }
                }
            }
            None
        },
        Some((mut rest, q)) => {
            let ghost rest0 = rest@;
            rest.insert(0, item);
            proof {
                assert forall|ws: Seq<WithdrawalMevBoost>|
                    ((forall|i: int| 0 <= i < ws.len() ==> (#[trigger] ws[i]).wf()) && p
                        + spec_wire_wd_more(ws).len() < s@.len() && s@.subrange(
                        p as int,
                        p + spec_wire_wd_more(ws).len(),
                    ) == #[trigger] spec_wire_wd_more(ws) && s@[p + spec_wire_wd_more(ws).len()]
                        == 93) implies (wds_like(rest@, ws) && q == p + spec_wire_wd_more(
                        ws,
                    ).len() + 1) by {
                    proof_list_literals();
                    if ws.len() > 0 {
                        lemma_wd_more_layout(s@, p as int, ws);
                        assert(ws.first().wf());
                        assert(s@.subrange(q2 as int, q2 + spec_wire_wd_more(
                            ws.drop_first(),
                        ).len()) =~= s@.subrange(q2 as int, p + spec_wire_wd_more(ws).len()));
                        assert(forall|i: int|
                            0 <= i < ws.drop_first().len() ==> (#[trigger] ws.drop_first()[i]).wf());
                        assert(wds_like(rest0, ws.drop_first()));
                        assert forall|i: int| 0 <= i < ws.len() implies wd_like(
                            #[trigger] rest@[i],
                            #[trigger] ws[i],
                        ) by {
                            if i == 0 {
                                assert(rest@[0] == item);
                            } else {
                                assert(rest@[i] == rest0[i - 1]);
                                assert(ws.drop_first()[i - 1] == ws[i]);
                            }
                        }
                    } else {
                        assert(s@[p as int] == 93);
                    }
                }
            }
            Some((rest, q))
        },
    }
}

/// Reads a whole withdrawal list, brackets included. On the canonical
/// wire of any list of well-formed withdrawals, this succeeds with its
/// items.
#[verifier::rlimit(100)]
fn parse_wd_list(s: &[u8], p: usize) -> (r: Option<(Vec<WithdrawalMevBoost>, usize)>)
    requires
        p <= s@.len(),
    ensures
        r matches Some(pr) ==> p < pr.1 <= s@.len() && (forall|i: int|
            0 <= i < pr.0@.len() ==> (#[trigger] pr.0@[i]).wf()),
        forall|ws: Seq<WithdrawalMevBoost>|
            ((forall|i: int| 0 <= i < ws.len() ==> (#[trigger] ws[i]).wf()) && p
                + spec_wire_wd_list(ws).len() <= s@.len() && s@.subrange(
                p as int,
                p + spec_wire_wd_list(ws).len(),
            ) == #[trigger] spec_wire_wd_list(ws)) ==> (r matches Some(pr) && wds_like(pr.0@, ws)
                && pr.1 == p + spec_wire_wd_list(ws).len()),
{
    match eat_lit(s, p, "[]") {
        Some(q) => {
            proof {
                proof_list_literals();
                proof_wd_literals();
                assert forall|ws: Seq<WithdrawalMevBoost>|
                    ((forall|i: int| 0 <= i < ws.len() ==> (#[trigger] ws[i]).wf()) && p
                        + spec_wire_wd_list(ws).len() <= s@.len() && s@.subrange(
                        p as int,
                        p + spec_wire_wd_list(ws).len(),
                    ) == #[trigger] spec_wire_wd_list(ws)) implies (ws.len() == 0 && q == p
                        + spec_wire_wd_list(ws).len()) by {
                    if ws.len() > 0 {
                        lemma_wd_list_layout(s@, p as int, ws);
                        assert(s@[p + 1] == spec_wire_withdrawal(ws.first())[0]);
                        assert(s@.subrange(p as int, p + 2)[1] == ("[]").spec_bytes()[1]);
                    }
                }
            }
            return Some((Vec::new(), q));
        },
        None => {},
    }
    let q1 = match eat_lit(s, p, "[") {
        Some(q) => q,
        None => {
            proof {
                assert forall|ws: Seq<WithdrawalMevBoost>|
                    ((forall|i: int| 0 <= i < ws.len() ==> (#[trigger] ws[i]).wf()) && p
                        + spec_wire_wd_list(ws).len() <= s@.len() && s@.subrange(
                        p as int,
                        p + spec_wire_wd_list(ws).len(),
                    ) == #[trigger] spec_wire_wd_list(ws)) implies false by {
                    proof_list_literals();
                    if ws.len() == 0 {
                        assert(s@.subrange(p as int, p + 2) =~= s@.subrange(
                            p as int,
                            p + spec_wire_wd_list(ws).len(),
                        ));
                    } else {
                        lemma_wd_list_layout(s@, p as int, ws);
                        assert(s@.subrange(p as int, p + 1) =~= ("[").spec_bytes());
                    }
                }
            }
            return None;
        },
    };
    let (item, q2) = match parse_withdrawal(s, q1) {
        Some(pr) => pr,
        None => {
            proof {
                assert forall|ws: Seq<WithdrawalMevBoost>|
                    ((forall|i: int| 0 <= i < ws.len() ==> (#[trigger] ws[i]).wf()) && p
                        + spec_wire_wd_list(ws).len() <= s@.len() && s@.subrange(
                        p as int,
                        p + spec_wire_wd_list(ws).len(),
                    ) == #[trigger] spec_wire_wd_list(ws)) implies false by {
                    proof_list_literals();
                    proof_wd_literals();
                    if ws.len() == 0 {
                        assert(s@.subrange(p as int, p + 2) =~= s@.subrange(
                            p as int,
                            p + spec_wire_wd_list(ws).len(),
                        ));
                        assert(s@.subrange(p as int, p + 2) == ("[]").spec_bytes());
                    } else {
                        lemma_wd_list_layout(s@, p as int, ws);
                        assert(ws.first().wf());
                    }
                }
            }
            return None;
        },
    };
    match parse_wd_more(s, q2) {
        None => {
            proof {
                assert forall|ws: Seq<WithdrawalMevBoost>|
                    ((forall|i: int| 0 <= i < ws.len() ==> (#[trigger] ws[i]).wf()) && p
                        + spec_wire_wd_list(ws).len() <= s@.len() && s@.subrange(
                        p as int,
                        p + spec_wire_wd_list(ws).len(),
                    ) == #[trigger] spec_wire_wd_list(ws)) implies false by {
                    proof_list_literals();
                    proof_wd_literals();
                    if ws.len() == 0 {
                        assert(s@.subrange(p as int, p + 2) =~= s@.subrange(
                            p as int,
                            p + spec_wire_wd_list(ws).len(),
                        ));
                        assert(s@.subrange(p as int, p + 2) == ("[]").spec_bytes());
                    } else {
                        lemma_wd_list_layout(s@, p as int, ws);
                        assert(ws.first().wf());
                        assert(s@.subrange(q2 as int, q2 + spec_wire_wd_more(
                            ws.drop_first(),
                        ).len()) =~= s@.subrange(
                            q2 as int,
                            p + spec_wire_wd_list(ws).len() - 1,
                        ));
                        assert(forall|i: int|
                            0 <= i < ws.drop_first().len() ==> (#[trigger] ws.drop_first()[i]).wf());
                    }
                }
            }
            None
        },
        Some((mut rest, q)) => {
            let ghost rest0 = rest@;
            rest.insert(0, item);
            proof {
                assert forall|ws: Seq<WithdrawalMevBoost>|
                    ((forall|i: int| 0 <= i < ws.len() ==> (#[trigger] ws[i]).wf()) && p
                        + spec_wire_wd_list(ws).len() <= s@.len() && s@.subrange(
                        p as int,
                        p + spec_wire_wd_list(ws).len(),
                    ) == #[trigger] spec_wire_wd_list(ws)) implies (wds_like(rest@, ws) && q == p
                        + spec_wire_wd_list(ws).len()) by {
                    proof_list_literals();
                    proof_wd_literals();
                    if ws.len() == 0 {
                        assert(s@.subrange(p as int, p + 2) =~= s@.subrange(
                            p as int,
                            p + spec_wire_wd_list(ws).len(),
                        ));
                        assert(s@.subrange(p as int, p + 2) == ("[]").spec_bytes());
                    } else {
                        lemma_wd_list_layout(s@, p as int, ws);
                        assert(ws.first().wf());
                        assert(s@.subrange(q2 as int, q2 + spec_wire_wd_more(
                            ws.drop_first(),
                        ).len()) =~= s@.subrange(
                            q2 as int,
                            p + spec_wire_wd_list(ws).len() - 1,
                        ));
                        assert(forall|i: int|
                            0 <= i < ws.drop_first().len() ==> (#[trigger] ws.drop_first()[i]).wf());
                        assert(wds_like(rest0, ws.drop_first()));
                        assert forall|i: int| 0 <= i < ws.len() implies wd_like(
                            #[trigger] rest@[i],
                            #[trigger] ws[i],
                        ) by {
                            if i == 0 {
                                assert(rest@[0] == item);
                            } else {
                                assert(rest@[i] == rest0[i - 1]);
                                assert(ws.drop_first()[i - 1] == ws[i]);
                            }
                        }
                    }
                }
            }
            Some((rest, q))
        },
    }
}

/// The concrete bytes of the execution payload object's fixed pieces.
proof fn proof_payload_literals()
    ensures
        ("{\"parent_hash\":\"0x").spec_bytes().len() == 18,
        ("\",\"fee_recipient\":\"0x").spec_bytes().len() == 21,
        ("\",\"fee_recipient\":\"0x").spec_bytes()[0] == 34,
        ("\",\"state_root\":\"0x").spec_bytes().len() == 18,
        ("\",\"state_root\":\"0x").spec_bytes()[0] == 34,
        ("\",\"receipts_root\":\"0x").spec_bytes().len() == 21,
        ("\",\"receipts_root\":\"0x").spec_bytes()[0] == 34,
        ("\",\"logs_bloom\":\"0x").spec_bytes().len() == 18,
        ("\",\"logs_bloom\":\"0x").spec_bytes()[0] == 34,
        ("\",\"prev_randao\":\"0x").spec_bytes().len() == 19,
        ("\",\"prev_randao\":\"0x").spec_bytes()[0] == 34,
        ("\",\"block_number\":\"").spec_bytes().len() == 18,
        ("\",\"block_number\":\"").spec_bytes()[0] == 34,
        ("\",\"gas_limit\":\"").spec_bytes().len() == 15,
        ("\",\"gas_limit\":\"").spec_bytes()[0] == 34,
        ("\",\"gas_used\":\"").spec_bytes().len() == 14,
        ("\",\"gas_used\":\"").spec_bytes()[0] == 34,
        ("\",\"timestamp\":\"").spec_bytes().len() == 15,
        ("\",\"timestamp\":\"").spec_bytes()[0] == 34,
        ("\",\"extra_data\":\"0x").spec_bytes().len() == 18,
        ("\",\"extra_data\":\"0x").spec_bytes()[0] == 34,
        ("\",\"base_fee_per_gas\":\"").spec_bytes().len() == 22,
        ("\",\"base_fee_per_gas\":\"").spec_bytes()[0] == 34,
        ("\",\"block_hash\":\"0x").spec_bytes().len() == 18,
        ("\",\"block_hash\":\"0x").spec_bytes()[0] == 34,
        ("\",\"transactions\":").spec_bytes().len() == 17,
        ("\",\"transactions\":").spec_bytes()[0] == 34,
        (",\"withdrawals\":").spec_bytes().len() == 15,
        ("}").spec_bytes().len() == 1,
{
    broadcast use vstd::string::is_ascii_spec_bytes;

    reveal_strlit("{\"parent_hash\":\"0x");
    reveal_strlit("\",\"fee_recipient\":\"0x");
    reveal_strlit("\",\"state_root\":\"0x");
    reveal_strlit("\",\"receipts_root\":\"0x");
    reveal_strlit("\",\"logs_bloom\":\"0x");
    reveal_strlit("\",\"prev_randao\":\"0x");
    reveal_strlit("\",\"block_number\":\"");
    reveal_strlit("\",\"gas_limit\":\"");
    reveal_strlit("\",\"gas_used\":\"");
    reveal_strlit("\",\"timestamp\":\"");
    reveal_strlit("\",\"extra_data\":\"0x");
    reveal_strlit("\",\"base_fee_per_gas\":\"");
    reveal_strlit("\",\"block_hash\":\"0x");
    reveal_strlit("\",\"transactions\":");
    reveal_strlit(",\"withdrawals\":");
    reveal_strlit("}");
    assert(vstd::string::is_ascii("{\"parent_hash\":\"0x"));
    assert(vstd::string::is_ascii("\",\"fee_recipient\":\"0x"));
    assert(vstd::string::is_ascii("\",\"state_root\":\"0x"));
    assert(vstd::string::is_ascii("\",\"receipts_root\":\"0x"));
    assert(vstd::string::is_ascii("\",\"logs_bloom\":\"0x"));
    assert(vstd::string::is_ascii("\",\"prev_randao\":\"0x"));
    assert(vstd::string::is_ascii("\",\"block_number\":\""));
    assert(vstd::string::is_ascii("\",\"gas_limit\":\""));
    assert(vstd::string::is_ascii("\",\"gas_used\":\""));
    assert(vstd::string::is_ascii("\",\"timestamp\":\""));
    assert(vstd::string::is_ascii("\",\"extra_data\":\"0x"));
    assert(vstd::string::is_ascii("\",\"base_fee_per_gas\":\""));
    assert(vstd::string::is_ascii("\",\"block_hash\":\"0x"));
    assert(vstd::string::is_ascii("\",\"transactions\":"));
    assert(vstd::string::is_ascii(",\"withdrawals\":"));
    assert(vstd::string::is_ascii("}"));
}

/// Where the pieces of a payload's leading hex fields stand.
#[verifier::rlimit(100)]
proof fn lemma_payload_front_layout(s: Seq<u8>, p: int, e: ExecutionPayload)
    requires
        0 <= p,
        p + spec_wire_payload_front(e).len() < s.len(),
        s[p + spec_wire_payload_front(e).len()] == 34,
        s.subrange(p, p + spec_wire_payload_front(e).len()) == spec_wire_payload_front(e),
    ensures
        ({
            let b0 = ("{\"parent_hash\":\"0x").spec_bytes();
            let b1 = spec_hex_lower(e.parent_hash@);
            let b2 = ("\",\"fee_recipient\":\"0x").spec_bytes();
            let b3 = spec_hex_lower(e.fee_recipient@);
            let b4 = ("\",\"state_root\":\"0x").spec_bytes();
            let b5 = spec_hex_lower(e.state_root@);
            let b6 = ("\",\"receipts_root\":\"0x").spec_bytes();
            let b7 = spec_hex_lower(e.receipts_root@);
            let b8 = ("\",\"logs_bloom\":\"0x").spec_bytes();
            let b9 = spec_hex_lower(e.logs_bloom@);
            let b10 = ("\",\"prev_randao\":\"0x").spec_bytes();
            let b11 = spec_hex_lower(e.prev_randao@);
            &&& spec_wire_payload_front(e).len() == b0.len() + b1.len() + b2.len() + b3.len() + b4.len() + b5.len() + b6.len() + b7.len() + b8.len() + b9.len() + b10.len() + b11.len()
            &&& s.subrange(p, p + b0.len()) == b0
            &&& s.subrange(p + b0.len(), p + b0.len() + b1.len()) == b1
            &&& s[p + b0.len() + b1.len()] == 34
            &&& s.subrange(p + b0.len() + b1.len(), p + b0.len() + b1.len() + b2.len()) == b2
            &&& s.subrange(p + b0.len() + b1.len() + b2.len(), p + b0.len() + b1.len() + b2.len() + b3.len()) == b3
            &&& s[p + b0.len() + b1.len() + b2.len() + b3.len()] == 34
            &&& s.subrange(p + b0.len() + b1.len() + b2.len() + b3.len(), p + b0.len() + b1.len() + b2.len() + b3.len() + b4.len()) == b4
            &&& s.subrange(p + b0.len() + b1.len() + b2.len() + b3.len() + b4.len(), p + b0.len() + b1.len() + b2.len() + b3.len() + b4.len() + b5.len()) == b5
            &&& s[p + b0.len() + b1.len() + b2.len() + b3.len() + b4.len() + b5.len()] == 34
            &&& s.subrange(p + b0.len() + b1.len() + b2.len() + b3.len() + b4.len() + b5.len(), p + b0.len() + b1.len() + b2.len() + b3.len() + b4.len() + b5.len() + b6.len()) == b6
            &&& s.subrange(p + b0.len() + b1.len() + b2.len() + b3.len() + b4.len() + b5.len() + b6.len(), p + b0.len() + b1.len() + b2.len() + b3.len() + b4.len() + b5.len() + b6.len() + b7.len()) == b7
            &&& s[p + b0.len() + b1.len() + b2.len() + b3.len() + b4.len() + b5.len() + b6.len() + b7.len()] == 34
            &&& s.subrange(p + b0.len() + b1.len() + b2.len() + b3.len() + b4.len() + b5.len() + b6.len() + b7.len(), p + b0.len() + b1.len() + b2.len() + b3.len() + b4.len() + b5.len() + b6.len() + b7.len() + b8.len()) == b8
            &&& s.subrange(p + b0.len() + b1.len() + b2.len() + b3.len() + b4.len() + b5.len() + b6.len() + b7.len() + b8.len(), p + b0.len() + b1.len() + b2.len() + b3.len() + b4.len() + b5.len() + b6.len() + b7.len() + b8.len() + b9.len()) == b9
            &&& s[p + b0.len() + b1.len() + b2.len() + b3.len() + b4.len() + b5.len() + b6.len() + b7.len() + b8.len() + b9.len()] == 34
            &&& s.subrange(p + b0.len() + b1.len() + b2.len() + b3.len() + b4.len() + b5.len() + b6.len() + b7.len() + b8.len() + b9.len(), p + b0.len() + b1.len() + b2.len() + b3.len() + b4.len() + b5.len() + b6.len() + b7.len() + b8.len() + b9.len() + b10.len()) == b10
            &&& s.subrange(p + b0.len() + b1.len() + b2.len() + b3.len() + b4.len() + b5.len() + b6.len() + b7.len() + b8.len() + b9.len() + b10.len(), p + b0.len() + b1.len() + b2.len() + b3.len() + b4.len() + b5.len() + b6.len() + b7.len() + b8.len() + b9.len() + b10.len() + b11.len()) == b11
            &&& s[p + b0.len() + b1.len() + b2.len() + b3.len() + b4.len() + b5.len() + b6.len() + b7.len() + b8.len() + b9.len() + b10.len() + b11.len()] == 34
        }),
{
    reveal(spec_wire_payload_front);
    proof_payload_literals();
    let wire = spec_wire_payload_front(e);
    let b0 = ("{\"parent_hash\":\"0x").spec_bytes();
    let b1 = spec_hex_lower(e.parent_hash@);
    let b2 = ("\",\"fee_recipient\":\"0x").spec_bytes();
    let b3 = spec_hex_lower(e.fee_recipient@);
    let b4 = ("\",\"state_root\":\"0x").spec_bytes();
    let b5 = spec_hex_lower(e.state_root@);
    let b6 = ("\",\"receipts_root\":\"0x").spec_bytes();
    let b7 = spec_hex_lower(e.receipts_root@);
    let b8 = ("\",\"logs_bloom\":\"0x").spec_bytes();
    let b9 = spec_hex_lower(e.logs_bloom@);
    let b10 = ("\",\"prev_randao\":\"0x").spec_bytes();
    let b11 = spec_hex_lower(e.prev_randao@);
    let s0 = b0;
    let s1 = s0 + b1;
    let s2 = s1 + b2;
    let s3 = s2 + b3;
    let s4 = s3 + b4;
    let s5 = s4 + b5;
    let s6 = s5 + b6;
    let s7 = s6 + b7;
    let s8 = s7 + b8;
    let s9 = s8 + b9;
    let s10 = s9 + b10;
    let s11 = s10 + b11;
    assert(wire == s11) by {
    }
    assert(forall|t0: int| 0 <= t0 < s10.len() ==> s11[t0] == #[trigger] s10[t0]) by {
    }
    assert(forall|t0: int| 0 <= t0 < s9.len() ==> s10[t0] == #[trigger] s9[t0]) by {
    }
    assert(forall|t0: int| 0 <= t0 < s8.len() ==> s9[t0] == #[trigger] s8[t0]) by {
    }
    assert(forall|t0: int| 0 <= t0 < s7.len() ==> s8[t0] == #[trigger] s7[t0]) by {
    }
    assert(forall|t0: int| 0 <= t0 < s6.len() ==> s7[t0] == #[trigger] s6[t0]) by {
    }
    assert(forall|t0: int| 0 <= t0 < s5.len() ==> s6[t0] == #[trigger] s5[t0]) by {
    }
    assert(forall|t0: int| 0 <= t0 < s4.len() ==> s5[t0] == #[trigger] s4[t0]) by {
    }
    assert(forall|t0: int| 0 <= t0 < s3.len() ==> s4[t0] == #[trigger] s3[t0]) by {
    }
    assert(forall|t0: int| 0 <= t0 < s2.len() ==> s3[t0] == #[trigger] s2[t0]) by {
    }
    assert(forall|t0: int| 0 <= t0 < s1.len() ==> s2[t0] == #[trigger] s1[t0]) by {
    }
    assert(forall|t0: int| 0 <= t0 < s0.len() ==> s1[t0] == #[trigger] s0[t0]) by {
    }
    assert forall|t0: int| 0 <= t0 < wire.len() implies s[p + t0] == wire[t0] by {
        assert(s.subrange(p, p + wire.len())[t0] == s[p + t0]);
    }
    assert(s.subrange(p, p + s0.len()) =~= b0) by {
    }
    assert(s.subrange(p + s0.len(), p + s1.len()) =~= b1) by {
        assert(forall|j: int| 0 <= j < b1.len() ==> s1[s0.len() + j] == #[trigger] b1[j]);
    }
    assert(s.subrange(p + s1.len(), p + s2.len()) =~= b2) by {
        assert(forall|j: int| 0 <= j < b2.len() ==> s2[s1.len() + j] == #[trigger] b2[j]);
    }
    assert(s[p + s1.len()] == b2[0]) by {
        assert(s2[s1.len() as int] == b2[0]);
    }
    assert(s.subrange(p + s2.len(), p + s3.len()) =~= b3) by {
        assert(forall|j: int| 0 <= j < b3.len() ==> s3[s2.len() + j] == #[trigger] b3[j]);
    }
    assert(s.subrange(p + s3.len(), p + s4.len()) =~= b4) by {
        assert(forall|j: int| 0 <= j < b4.len() ==> s4[s3.len() + j] == #[trigger] b4[j]);
    }
    assert(s[p + s3.len()] == b4[0]) by {
        assert(s4[s3.len() as int] == b4[0]);
    }
    assert(s.subrange(p + s4.len(), p + s5.len()) =~= b5) by {
        assert(forall|j: int| 0 <= j < b5.len() ==> s5[s4.len() + j] == #[trigger] b5[j]);
    }
    assert(s.subrange(p + s5.len(), p + s6.len()) =~= b6) by {
        assert(forall|j: int| 0 <= j < b6.len() ==> s6[s5.len() + j] == #[trigger] b6[j]);
    }
    assert(s[p + s5.len()] == b6[0]) by {
        assert(s6[s5.len() as int] == b6[0]);
    }
    assert(s.subrange(p + s6.len(), p + s7.len()) =~= b7) by {
        assert(forall|j: int| 0 <= j < b7.len() ==> s7[s6.len() + j] == #[trigger] b7[j]);
    }
    assert(s.subrange(p + s7.len(), p + s8.len()) =~= b8) by {
        assert(forall|j: int| 0 <= j < b8.len() ==> s8[s7.len() + j] == #[trigger] b8[j]);
    }
    assert(s[p + s7.len()] == b8[0]) by {
        assert(s8[s7.len() as int] == b8[0]);
    }
    assert(s.subrange(p + s8.len(), p + s9.len()) =~= b9) by {
        assert(forall|j: int| 0 <= j < b9.len() ==> s9[s8.len() + j] == #[trigger] b9[j]);
    }
    assert(s.subrange(p + s9.len(), p + s10.len()) =~= b10) by {
        assert(forall|j: int| 0 <= j < b10.len() ==> s10[s9.len() + j] == #[trigger] b10[j]);
    }
    assert(s[p + s9.len()] == b10[0]) by {
        assert(s10[s9.len() as int] == b10[0]);
    }
    assert(s.subrange(p + s10.len(), p + s11.len()) =~= b11) by {
        assert(forall|j: int| 0 <= j < b11.len() ==> s11[s10.len() + j] == #[trigger] b11[j]);
    }
}

/// Where the first numeric fields of a payload's middle stand.
#[verifier::rlimit(100)]
proof fn lemma_payload_mid_layout_a(s: Seq<u8>, p: int, e: ExecutionPayload)
    requires
        0 <= p,
        p + spec_wire_payload_mid(e).len() < s.len(),
        s[p + spec_wire_payload_mid(e).len()] == 34,
        s.subrange(p, p + spec_wire_payload_mid(e).len()) == spec_wire_payload_mid(e),
    ensures
        ({
            let b0 = ("\",\"block_number\":\"").spec_bytes();
            let b1 = dec_digits(e.block_number as nat);
            let b2 = ("\",\"gas_limit\":\"").spec_bytes();
            let b3 = dec_digits(e.gas_limit as nat);
            let b4 = ("\",\"gas_used\":\"").spec_bytes();
            let b5 = dec_digits(e.gas_used as nat);
            let b6 = ("\",\"timestamp\":\"").spec_bytes();
            let b7 = dec_digits(e.timestamp as nat);
            let b8 = ("\",\"extra_data\":\"0x").spec_bytes();
            let b9 = spec_hex_lower(e.extra_data@);
            let b10 = ("\",\"base_fee_per_gas\":\"").spec_bytes();
            let b11 = dec_digits(e.base_fee_per_gas as nat);
            let b12 = ("\",\"block_hash\":\"0x").spec_bytes();
            let b13 = spec_hex_lower(e.block_hash@);
            &&& spec_wire_payload_mid(e).len() == b0.len() + b1.len() + b2.len() + b3.len() + b4.len() + b5.len() + b6.len() + b7.len() + b8.len() + b9.len() + b10.len() + b11.len() + b12.len() + b13.len()
            &&& s.subrange(p, p + b0.len()) == b0
            &&& s.subrange(p + b0.len(), p + b0.len() + b1.len()) == b1
            &&& s[p + b0.len() + b1.len()] == 34
            &&& s.subrange(p + b0.len() + b1.len(), p + b0.len() + b1.len() + b2.len()) == b2
            &&& s.subrange(p + b0.len() + b1.len() + b2.len(), p + b0.len() + b1.len() + b2.len() + b3.len()) == b3
            &&& s[p + b0.len() + b1.len() + b2.len() + b3.len()] == 34
            &&& s.subrange(p + b0.len() + b1.len() + b2.len() + b3.len(), p + b0.len() + b1.len() + b2.len() + b3.len() + b4.len()) == b4
            &&& s.subrange(p + b0.len() + b1.len() + b2.len() + b3.len() + b4.len(), p + b0.len() + b1.len() + b2.len() + b3.len() + b4.len() + b5.len()) == b5
            &&& s[p + b0.len() + b1.len() + b2.len() + b3.len() + b4.len() + b5.len()] == 34
            &&& s.subrange(p + b0.len() + b1.len() + b2.len() + b3.len() + b4.len() + b5.len(), p + b0.len() + b1.len() + b2.len() + b3.len() + b4.len() + b5.len() + b6.len()) == b6
        }),
{
    reveal(spec_wire_payload_mid);
    proof_payload_literals();
    let wire = spec_wire_payload_mid(e);
    let b0 = ("\",\"block_number\":\"").spec_bytes();
    let b1 = dec_digits(e.block_number as nat);
    let b2 = ("\",\"gas_limit\":\"").spec_bytes();
    let b3 = dec_digits(e.gas_limit as nat);
    let b4 = ("\",\"gas_used\":\"").spec_bytes();
    let b5 = dec_digits(e.gas_used as nat);
    let b6 = ("\",\"timestamp\":\"").spec_bytes();
    let b7 = dec_digits(e.timestamp as nat);
    let b8 = ("\",\"extra_data\":\"0x").spec_bytes();
    let b9 = spec_hex_lower(e.extra_data@);
    let b10 = ("\",\"base_fee_per_gas\":\"").spec_bytes();
    let b11 = dec_digits(e.base_fee_per_gas as nat);
    let b12 = ("\",\"block_hash\":\"0x").spec_bytes();
    let b13 = spec_hex_lower(e.block_hash@);
    let s0 = b0;
    let s1 = s0 + b1;
    let s2 = s1 + b2;
    let s3 = s2 + b3;
    let s4 = s3 + b4;
    let s5 = s4 + b5;
    let s6 = s5 + b6;
    let s7 = s6 + b7;
    let s8 = s7 + b8;
    let s9 = s8 + b9;
    let s10 = s9 + b10;
    let s11 = s10 + b11;
    let s12 = s11 + b12;
    let s13 = s12 + b13;
    assert(wire == s13) by {
    }
    assert(forall|t0: int| 0 <= t0 < s12.len() ==> s13[t0] == #[trigger] s12[t0]) by {
    }
    assert(forall|t0: int| 0 <= t0 < s11.len() ==> s12[t0] == #[trigger] s11[t0]) by {
    }
    assert(forall|t0: int| 0 <= t0 < s10.len() ==> s11[t0] == #[trigger] s10[t0]) by {
    }
    assert(forall|t0: int| 0 <= t0 < s9.len() ==> s10[t0] == #[trigger] s9[t0]) by {
    }
    assert(forall|t0: int| 0 <= t0 < s8.len() ==> s9[t0] == #[trigger] s8[t0]) by {
    }
    assert(forall|t0: int| 0 <= t0 < s7.len() ==> s8[t0] == #[trigger] s7[t0]) by {
    }
    assert(forall|t0: int| 0 <= t0 < s6.len() ==> s7[t0] == #[trigger] s6[t0]) by {
    }
    assert(forall|t0: int| 0 <= t0 < s5.len() ==> s6[t0] == #[trigger] s5[t0]) by {
    }
    assert(forall|t0: int| 0 <= t0 < s4.len() ==> s5[t0] == #[trigger] s4[t0]) by {
    }
    assert(forall|t0: int| 0 <= t0 < s3.len() ==> s4[t0] == #[trigger] s3[t0]) by {
    }
    assert(forall|t0: int| 0 <= t0 < s2.len() ==> s3[t0] == #[trigger] s2[t0]) by {
    }
    assert(forall|t0: int| 0 <= t0 < s1.len() ==> s2[t0] == #[trigger] s1[t0]) by {
    }
    assert(forall|t0: int| 0 <= t0 < s0.len() ==> s1[t0] == #[trigger] s0[t0]) by {
    }
    assert forall|t0: int| 0 <= t0 < wire.len() implies s[p + t0] == wire[t0] by {
        assert(s.subrange(p, p + wire.len())[t0] == s[p + t0]);
    }
    assert(s.subrange(p, p + s0.len()) =~= b0) by {
    }
    assert(s.subrange(p + s0.len(), p + s1.len()) =~= b1) by {
        assert(forall|j: int| 0 <= j < b1.len() ==> s1[s0.len() + j] == #[trigger] b1[j]);
    }
    assert(s[p + s1.len()] == b2[0]) by {
        assert(s2[s1.len() as int] == b2[0]);
    }
    assert(s.subrange(p + s1.len(), p + s2.len()) =~= b2) by {
        assert(forall|j: int| 0 <= j < b2.len() ==> s2[s1.len() + j] == #[trigger] b2[j]);
    }
    assert(s.subrange(p + s2.len(), p + s3.len()) =~= b3) by {
        assert(forall|j: int| 0 <= j < b3.len() ==> s3[s2.len() + j] == #[trigger] b3[j]);
    }
    assert(s[p + s3.len()] == b4[0]) by {
        assert(s4[s3.len() as int] == b4[0]);
    }
    assert(s.subrange(p + s3.len(), p + s4.len()) =~= b4) by {
        assert(forall|j: int| 0 <= j < b4.len() ==> s4[s3.len() + j] == #[trigger] b4[j]);
    }
    assert(s.subrange(p + s4.len(), p + s5.len()) =~= b5) by {
        assert(forall|j: int| 0 <= j < b5.len() ==> s5[s4.len() + j] == #[trigger] b5[j]);
    }
    assert(s[p + s5.len()] == b6[0]) by {
        assert(s6[s5.len() as int] == b6[0]);
    }
    assert(s.subrange(p + s5.len(), p + s6.len()) =~= b6) by {
        assert(forall|j: int| 0 <= j < b6.len() ==> s6[s5.len() + j] == #[trigger] b6[j]);
    }
}

/// Where the trailing fields of a payload's middle stand.
#[verifier::rlimit(100)]
proof fn lemma_payload_mid_layout_b(s: Seq<u8>, p: int, e: ExecutionPayload)
    requires
        0 <= p,
        p + spec_wire_payload_mid(e).len() < s.len(),
        s[p + spec_wire_payload_mid(e).len()] == 34,
        s.subrange(p, p + spec_wire_payload_mid(e).len()) == spec_wire_payload_mid(e),
    ensures
        ({
            let b0 = ("\",\"block_number\":\"").spec_bytes();
            let b1 = dec_digits(e.block_number as nat);
            let b2 = ("\",\"gas_limit\":\"").spec_bytes();
            let b3 = dec_digits(e.gas_limit as nat);
            let b4 = ("\",\"gas_used\":\"").spec_bytes();
            let b5 = dec_digits(e.gas_used as nat);
            let b6 = ("\",\"timestamp\":\"").spec_bytes();
            let b7 = dec_digits(e.timestamp as nat);
            let b8 = ("\",\"extra_data\":\"0x").spec_bytes();
            let b9 = spec_hex_lower(e.extra_data@);
            let b10 = ("\",\"base_fee_per_gas\":\"").spec_bytes();
            let b11 = dec_digits(e.base_fee_per_gas as nat);
            let b12 = ("\",\"block_hash\":\"0x").spec_bytes();
            let b13 = spec_hex_lower(e.block_hash@);
            &&& s.subrange(p + b0.len() + b1.len() + b2.len() + b3.len() + b4.len() + b5.len() + b6.len(), p + b0.len() + b1.len() + b2.len() + b3.len() + b4.len() + b5.len() + b6.len() + b7.len()) == b7
            &&& s[p + b0.len() + b1.len() + b2.len() + b3.len() + b4.len() + b5.len() + b6.len() + b7.len()] == 34
            &&& s.subrange(p + b0.len() + b1.len() + b2.len() + b3.len() + b4.len() + b5.len() + b6.len() + b7.len(), p + b0.len() + b1.len() + b2.len() + b3.len() + b4.len() + b5.len() + b6.len() + b7.len() + b8.len()) == b8
            &&& s.subrange(p + b0.len() + b1.len() + b2.len() + b3.len() + b4.len() + b5.len() + b6.len() + b7.len() + b8.len(), p + b0.len() + b1.len() + b2.len() + b3.len() + b4.len() + b5.len() + b6.len() + b7.len() + b8.len() + b9.len()) == b9
            &&& s[p + b0.len() + b1.len() + b2.len() + b3.len() + b4.len() + b5.len() + b6.len() + b7.len() + b8.len() + b9.len()] == 34
            &&& s.subrange(p + b0.len() + b1.len() + b2.len() + b3.len() + b4.len() + b5.len() + b6.len() + b7.len() + b8.len() + b9.len(), p + b0.len() + b1.len() + b2.len() + b3.len() + b4.len() + b5.len() + b6.len() + b7.len() + b8.len() + b9.len() + b10.len()) == b10
            &&& s.subrange(p + b0.len() + b1.len() + b2.len() + b3.len() + b4.len() + b5.len() + b6.len() + b7.len() + b8.len() + b9.len() + b10.len(), p + b0.len() + b1.len() + b2.len() + b3.len() + b4.len() + b5.len() + b6.len() + b7.len() + b8.len() + b9.len() + b10.len() + b11.len()) == b11
            &&& s[p + b0.len() + b1.len() + b2.len() + b3.len() + b4.len() + b5.len() + b6.len() + b7.len() + b8.len() + b9.len() + b10.len() + b11.len()] == 34
            &&& s.subrange(p + b0.len() + b1.len() + b2.len() + b3.len() + b4.len() + b5.len() + b6.len() + b7.len() + b8.len() + b9.len() + b10.len() + b11.len(), p + b0.len() + b1.len() + b2.len() + b3.len() + b4.len() + b5.len() + b6.len() + b7.len() + b8.len() + b9.len() + b10.len() + b11.len() + b12.len()) == b12
            &&& s.subrange(p + b0.len() + b1.len() + b2.len() + b3.len() + b4.len() + b5.len() + b6.len() + b7.len() + b8.len() + b9.len() + b10.len() + b11.len() + b12.len(), p + b0.len() + b1.len() + b2.len() + b3.len() + b4.len() + b5.len() + b6.len() + b7.len() + b8.len() + b9.len() + b10.len() + b11.len() + b12.len() + b13.len()) == b13
        }),
{
    reveal(spec_wire_payload_mid);
    proof_payload_literals();
    let wire = spec_wire_payload_mid(e);
    let b0 = ("\",\"block_number\":\"").spec_bytes();
    let b1 = dec_digits(e.block_number as nat);
    let b2 = ("\",\"gas_limit\":\"").spec_bytes();
    let b3 = dec_digits(e.gas_limit as nat);
    let b4 = ("\",\"gas_used\":\"").spec_bytes();
    let b5 = dec_digits(e.gas_used as nat);
    let b6 = ("\",\"timestamp\":\"").spec_bytes();
    let b7 = dec_digits(e.timestamp as nat);
    let b8 = ("\",\"extra_data\":\"0x").spec_bytes();
    let b9 = spec_hex_lower(e.extra_data@);
    let b10 = ("\",\"base_fee_per_gas\":\"").spec_bytes();
    let b11 = dec_digits(e.base_fee_per_gas as nat);
    let b12 = ("\",\"block_hash\":\"0x").spec_bytes();
    let b13 = spec_hex_lower(e.block_hash@);
    let s0 = b0;
    let s1 = s0 + b1;
    let s2 = s1 + b2;
    let s3 = s2 + b3;
    let s4 = s3 + b4;
    let s5 = s4 + b5;
    let s6 = s5 + b6;
    let s7 = s6 + b7;
    let s8 = s7 + b8;
    let s9 = s8 + b9;
    let s10 = s9 + b10;
    let s11 = s10 + b11;
    let s12 = s11 + b12;
    let s13 = s12 + b13;
    assert(wire == s13) by {
    }
    assert(forall|t0: int| 0 <= t0 < s12.len() ==> s13[t0] == #[trigger] s12[t0]) by {
    }
    assert(forall|t0: int| 0 <= t0 < s11.len() ==> s12[t0] == #[trigger] s11[t0]) by {
    }
    assert(forall|t0: int| 0 <= t0 < s10.len() ==> s11[t0] == #[trigger] s10[t0]) by {
    }
    assert(forall|t0: int| 0 <= t0 < s9.len() ==> s10[t0] == #[trigger] s9[t0]) by {
    }
    assert(forall|t0: int| 0 <= t0 < s8.len() ==> s9[t0] == #[trigger] s8[t0]) by {
    }
    assert(forall|t0: int| 0 <= t0 < s7.len() ==> s8[t0] == #[trigger] s7[t0]) by {
    }
    assert(forall|t0: int| 0 <= t0 < s6.len() ==> s7[t0] == #[trigger] s6[t0]) by {
    }
    assert(forall|t0: int| 0 <= t0 < s5.len() ==> s6[t0] == #[trigger] s5[t0]) by {
    }
    assert(forall|t0: int| 0 <= t0 < s4.len() ==> s5[t0] == #[trigger] s4[t0]) by {
    }
    assert(forall|t0: int| 0 <= t0 < s3.len() ==> s4[t0] == #[trigger] s3[t0]) by {
    }
    assert(forall|t0: int| 0 <= t0 < s2.len() ==> s3[t0] == #[trigger] s2[t0]) by {
    }
    assert(forall|t0: int| 0 <= t0 < s1.len() ==> s2[t0] == #[trigger] s1[t0]) by {
    }
    assert(forall|t0: int| 0 <= t0 < s0.len() ==> s1[t0] == #[trigger] s0[t0]) by {
    }
    assert forall|t0: int| 0 <= t0 < wire.len() implies s[p + t0] == wire[t0] by {
        assert(s.subrange(p, p + wire.len())[t0] == s[p + t0]);
    }
    assert(s.subrange(p + s6.len(), p + s7.len()) =~= b7) by {
        assert(forall|j: int| 0 <= j < b7.len() ==> s7[s6.len() + j] == #[trigger] b7[j]);
    }
    assert(s[p + s7.len()] == b8[0]) by {
        assert(s8[s7.len() as int] == b8[0]);
    }
    assert(s.subrange(p + s7.len(), p + s8.len()) =~= b8) by {
        assert(forall|j: int| 0 <= j < b8.len() ==> s8[s7.len() + j] == #[trigger] b8[j]);
    }
    assert(s.subrange(p + s8.len(), p + s9.len()) =~= b9) by {
        assert(forall|j: int| 0 <= j < b9.len() ==> s9[s8.len() + j] == #[trigger] b9[j]);
    }
    assert(s[p + s9.len()] == b10[0]) by {
        assert(s10[s9.len() as int] == b10[0]);
    }
    assert(s.subrange(p + s9.len(), p + s10.len()) =~= b10) by {
        assert(forall|j: int| 0 <= j < b10.len() ==> s10[s9.len() + j] == #[trigger] b10[j]);
    }
    assert(s.subrange(p + s10.len(), p + s11.len()) =~= b11) by {
        assert(forall|j: int| 0 <= j < b11.len() ==> s11[s10.len() + j] == #[trigger] b11[j]);
    }
    assert(s[p + s11.len()] == b12[0]) by {
        assert(s12[s11.len() as int] == b12[0]);
    }
    assert(s.subrange(p + s11.len(), p + s12.len()) =~= b12) by {
        assert(forall|j: int| 0 <= j < b12.len() ==> s12[s11.len() + j] == #[trigger] b12[j]);
    }
    assert(s.subrange(p + s12.len(), p + s13.len()) =~= b13) by {
        assert(forall|j: int| 0 <= j < b13.len() ==> s13[s12.len() + j] == #[trigger] b13[j]);
    }
}

/// The length of an execution payload's wire bytes is the sum of its
/// segments, and the leading segments stand at the front.
#[verifier::rlimit(100)]
proof fn lemma_payload_segments_a(s: Seq<u8>, p: int, e: ExecutionPayload)
    requires
        0 <= p,
        p + spec_wire_payload(e).len() <= s.len(),
        s.subrange(p, p + spec_wire_payload(e).len()) == spec_wire_payload(e),
    ensures
        ({
            let fr = spec_wire_payload_front(e);
            let mi = spec_wire_payload_mid(e);
            let ktx = ("\",\"transactions\":").spec_bytes();
            let txl = spec_wire_tx_list(e.transactions@);
            let kwd = (",\"withdrawals\":").spec_bytes();
            let wdl = spec_wire_wd_list(e.withdrawals@);
            let kend = ("}").spec_bytes();
            &&& spec_wire_payload(e).len() == fr.len() + mi.len() + ktx.len() + txl.len()
                + kwd.len() + wdl.len() + kend.len()
            &&& s.subrange(p, p + fr.len()) == fr
            &&& s[p + fr.len()] == 34
            &&& s.subrange(p + fr.len(), p + fr.len() + mi.len()) == mi
            &&& s[p + fr.len() + mi.len()] == 34
        }),
{
    proof_payload_literals();
    let wire = spec_wire_payload(e);
    let fr = spec_wire_payload_front(e);
    let mi = spec_wire_payload_mid(e);
    let ktx = ("\",\"transactions\":").spec_bytes();
    let txl = spec_wire_tx_list(e.transactions@);
    let kwd = (",\"withdrawals\":").spec_bytes();
    let wdl = spec_wire_wd_list(e.withdrawals@);
    let kend = ("}").spec_bytes();
    let s0 = fr;
    let s1 = s0 + mi;
    let s2 = s1 + ktx;
    let s3 = s2 + txl;
    let s4 = s3 + kwd;
    let s5 = s4 + wdl;
    let s6 = s5 + kend;
    assert(spec_wire_payload_head(e) == s1);
    assert(wire == s6) by {
        reveal(spec_wire_payload);
        assert(wire == spec_wire_payload_head(e) + ktx + txl + kwd + wdl + kend);
        assert(spec_wire_payload_head(e) + ktx + txl + kwd + wdl + kend =~= s6);
    }
    assert(forall|t0: int| 0 <= t0 < s5.len() ==> s6[t0] == #[trigger] s5[t0]) by {
    }
    assert(forall|t0: int| 0 <= t0 < s4.len() ==> s5[t0] == #[trigger] s4[t0]) by {
    }
    assert(forall|t0: int| 0 <= t0 < s3.len() ==> s4[t0] == #[trigger] s3[t0]) by {
    }
    assert(forall|t0: int| 0 <= t0 < s2.len() ==> s3[t0] == #[trigger] s2[t0]) by {
    }
    assert(forall|t0: int| 0 <= t0 < s1.len() ==> s2[t0] == #[trigger] s1[t0]) by {
    }
    assert(forall|t0: int| 0 <= t0 < s0.len() ==> s1[t0] == #[trigger] s0[t0]) by {
    }
    assert forall|t0: int| 0 <= t0 < wire.len() implies s[p + t0] == wire[t0] by {
        assert(s.subrange(p, p + wire.len())[t0] == s[p + t0]);
    }
    assert(s.subrange(p, p + s0.len()) =~= fr) by {
        assert(forall|j: int| 0 <= j < fr.len() ==> s1[0 + j] == #[trigger] fr[j]);
    }
    assert(s[p + s0.len()] == 34) by {
        reveal(spec_wire_payload_mid);
        assert(s1[s0.len() as int] == mi[0]);
        assert(mi[0] == ("\",\"block_number\":\"").spec_bytes()[0]);
    }
    assert(s.subrange(p + s0.len(), p + s1.len()) =~= mi) by {
        assert(forall|j: int| 0 <= j < mi.len() ==> s1[s0.len() + j] == #[trigger] mi[j]);
    }
    assert(s[p + s1.len()] == 34) by {
        assert(s2[s1.len() as int] == ktx[0]);
    }
}

/// The transactions key and list of an execution payload's wire bytes
/// stand after its numeric middle.
#[verifier::rlimit(100)]
proof fn lemma_payload_segments_b1(s: Seq<u8>, p: int, e: ExecutionPayload)
    requires
        0 <= p,
        p + spec_wire_payload(e).len() <= s.len(),
        s.subrange(p, p + spec_wire_payload(e).len()) == spec_wire_payload(e),
    ensures
        ({
            let fr = spec_wire_payload_front(e);
            let mi = spec_wire_payload_mid(e);
            let ktx = ("\",\"transactions\":").spec_bytes();
            let txl = spec_wire_tx_list(e.transactions@);
            &&& s.subrange(p + fr.len() + mi.len(), p + fr.len() + mi.len() + ktx.len()) == ktx
            &&& s.subrange(
                p + fr.len() + mi.len() + ktx.len(),
                p + fr.len() + mi.len() + ktx.len() + txl.len(),
            ) == txl
        }),
{
    proof_payload_literals();
    let wire = spec_wire_payload(e);
    let fr = spec_wire_payload_front(e);
    let mi = spec_wire_payload_mid(e);
    let ktx = ("\",\"transactions\":").spec_bytes();
    let txl = spec_wire_tx_list(e.transactions@);
    let kwd = (",\"withdrawals\":").spec_bytes();
    let wdl = spec_wire_wd_list(e.withdrawals@);
    let kend = ("}").spec_bytes();
    let s0 = fr;
    let s1 = s0 + mi;
    let s2 = s1 + ktx;
    let s3 = s2 + txl;
    let s4 = s3 + kwd;
    let s5 = s4 + wdl;
    let s6 = s5 + kend;
    assert(spec_wire_payload_head(e) == s1);
    assert(wire == s6) by {
        reveal(spec_wire_payload);
        assert(wire == spec_wire_payload_head(e) + ktx + txl + kwd + wdl + kend);
        assert(spec_wire_payload_head(e) + ktx + txl + kwd + wdl + kend =~= s6);
    }
    assert(forall|t0: int| 0 <= t0 < s5.len() ==> s6[t0] == #[trigger] s5[t0]) by {
    }
    assert(forall|t0: int| 0 <= t0 < s4.len() ==> s5[t0] == #[trigger] s4[t0]) by {
    }
    assert(forall|t0: int| 0 <= t0 < s3.len() ==> s4[t0] == #[trigger] s3[t0]) by {
    }
    assert(forall|t0: int| 0 <= t0 < s2.len() ==> s3[t0] == #[trigger] s2[t0]) by {
    }
    assert(forall|t0: int| 0 <= t0 < s1.len() ==> s2[t0] == #[trigger] s1[t0]) by {
    }
    assert(forall|t0: int| 0 <= t0 < s0.len() ==> s1[t0] == #[trigger] s0[t0]) by {
    }
    assert forall|t0: int| 0 <= t0 < wire.len() implies s[p + t0] == wire[t0] by {
        assert(s.subrange(p, p + wire.len())[t0] == s[p + t0]);
    }
    assert(s.subrange(p + s1.len(), p + s2.len()) =~= ktx) by {
        assert(forall|j: int| 0 <= j < ktx.len() ==> s2[s1.len() + j] == #[trigger] ktx[j]);
    }
    assert(s.subrange(p + s2.len(), p + s3.len()) =~= txl) by {
        assert(forall|j: int| 0 <= j < txl.len() ==> s3[s2.len() + j] == #[trigger] txl[j]);
    }
}

/// The withdrawals key, the withdrawal list and the closing brace of an
/// execution payload's wire bytes stand at its end.
#[verifier::rlimit(100)]
proof fn lemma_payload_segments_b2(s: Seq<u8>, p: int, e: ExecutionPayload)
    requires
        0 <= p,
        p + spec_wire_payload(e).len() <= s.len(),
        s.subrange(p, p + spec_wire_payload(e).len()) == spec_wire_payload(e),
    ensures
        ({
            let fr = spec_wire_payload_front(e);
            let mi = spec_wire_payload_mid(e);
            let ktx = ("\",\"transactions\":").spec_bytes();
            let txl = spec_wire_tx_list(e.transactions@);
            let kwd = (",\"withdrawals\":").spec_bytes();
            let wdl = spec_wire_wd_list(e.withdrawals@);
            let kend = ("}").spec_bytes();
            &&& s.subrange(
                p + fr.len() + mi.len() + ktx.len() + txl.len(),
                p + fr.len() + mi.len() + ktx.len() + txl.len() + kwd.len(),
            ) == kwd
            &&& s.subrange(
                p + fr.len() + mi.len() + ktx.len() + txl.len() + kwd.len(),
                p + fr.len() + mi.len() + ktx.len() + txl.len() + kwd.len() + wdl.len(),
            ) == wdl
            &&& s.subrange(
                p + fr.len() + mi.len() + ktx.len() + txl.len() + kwd.len() + wdl.len(),
                p + spec_wire_payload(e).len(),
            ) == kend
        }),
{
    proof_payload_literals();
    let wire = spec_wire_payload(e);
    let fr = spec_wire_payload_front(e);
    let mi = spec_wire_payload_mid(e);
    let ktx = ("\",\"transactions\":").spec_bytes();
    let txl = spec_wire_tx_list(e.transactions@);
    let kwd = (",\"withdrawals\":").spec_bytes();
    let wdl = spec_wire_wd_list(e.withdrawals@);
    let kend = ("}").spec_bytes();
    let s0 = fr;
    let s1 = s0 + mi;
    let s2 = s1 + ktx;
    let s3 = s2 + txl;
    let s4 = s3 + kwd;
    let s5 = s4 + wdl;
    let s6 = s5 + kend;
    assert(spec_wire_payload_head(e) == s1);
    assert(wire == s6) by {
        reveal(spec_wire_payload);
        assert(wire == spec_wire_payload_head(e) + ktx + txl + kwd + wdl + kend);
        assert(spec_wire_payload_head(e) + ktx + txl + kwd + wdl + kend =~= s6);
    }
    assert(forall|t0: int| 0 <= t0 < s5.len() ==> s6[t0] == #[trigger] s5[t0]) by {
    }
    assert(forall|t0: int| 0 <= t0 < s4.len() ==> s5[t0] == #[trigger] s4[t0]) by {
    }
    assert(forall|t0: int| 0 <= t0 < s3.len() ==> s4[t0] == #[trigger] s3[t0]) by {
    }
    assert(forall|t0: int| 0 <= t0 < s2.len() ==> s3[t0] == #[trigger] s2[t0]) by {
    }
    assert(forall|t0: int| 0 <= t0 < s1.len() ==> s2[t0] == #[trigger] s1[t0]) by {
    }
    assert(forall|t0: int| 0 <= t0 < s0.len() ==> s1[t0] == #[trigger] s0[t0]) by {
    }
    assert forall|t0: int| 0 <= t0 < wire.len() implies s[p + t0] == wire[t0] by {
        assert(s.subrange(p, p + wire.len())[t0] == s[p + t0]);
    }
    assert(s.subrange(p + s3.len(), p + s4.len()) =~= kwd) by {
        assert(forall|j: int| 0 <= j < kwd.len() ==> s4[s3.len() + j] == #[trigger] kwd[j]);
    }
    assert(s.subrange(p + s4.len(), p + s5.len()) =~= wdl) by {
        assert(forall|j: int| 0 <= j < wdl.len() ==> s5[s4.len() + j] == #[trigger] wdl[j]);
    }
    assert(s.subrange(p + s5.len(), p + s6.len()) =~= kend) by {
        assert(forall|j: int| 0 <= j < kend.len() ==> s6[s5.len() + j] == #[trigger] kend[j]);
    }
}

/// Reads the leading hex fields of an execution payload object.
#[verifier::rlimit(100)]
#[verifier::spinoff_prover]
fn parse_payload_front(s: &[u8], p: usize) -> (r: Option<
    (Vec<u8>, Vec<u8>, Vec<u8>, Vec<u8>, Vec<u8>, Vec<u8>, usize),
>)
    requires
        p <= s@.len(),
    ensures
        r matches Some(pr) ==> p <= pr.6 <= s@.len() && pr.0@.len() == HASH_BYTES_LEN && pr.1@.len()
            == ADDRESS_BYTES_LEN && pr.2@.len() == HASH_BYTES_LEN && pr.3@.len() == HASH_BYTES_LEN
            && pr.4@.len() == BYTES_PER_LOGS_BLOOM && pr.5@.len() == HASH_BYTES_LEN,
        forall|e: ExecutionPayload|
            (e.wf() && p + spec_wire_payload_front(e).len() < s@.len() && s@.subrange(
                p as int,
                p + spec_wire_payload_front(e).len(),
            ) == #[trigger] spec_wire_payload_front(e) && s@[p + spec_wire_payload_front(e).len()]
                == 34) ==> (r matches Some(pr) && pr.0@ == e.parent_hash@ && pr.1@
                == e.fee_recipient@ && pr.2@ == e.state_root@ && pr.3@ == e.receipts_root@ && pr.4@
                == e.logs_bloom@ && pr.5@ == e.prev_randao@ && pr.6 == p + spec_wire_payload_front(
                e,
            ).len()),
{
    let (ok1, pos1) = step_lit(s, true, p, "{\"parent_hash\":\"0x");
    let (ok2, pos2, parent_hash) = step_hex_exact(s, ok1, pos1, HASH_BYTES_LEN);
    let (ok3, pos3) = step_lit(s, ok2, pos2, "\",\"fee_recipient\":\"0x");
    let (ok4, pos4, fee_recipient) = step_hex_exact(s, ok3, pos3, ADDRESS_BYTES_LEN);
    let (ok5, pos5) = step_lit(s, ok4, pos4, "\",\"state_root\":\"0x");
    let (ok6, pos6, state_root) = step_hex_exact(s, ok5, pos5, HASH_BYTES_LEN);
    let (ok7, pos7) = step_lit(s, ok6, pos6, "\",\"receipts_root\":\"0x");
    let (ok8, pos8, receipts_root) = step_hex_exact(s, ok7, pos7, HASH_BYTES_LEN);
    let (ok9, pos9) = step_lit(s, ok8, pos8, "\",\"logs_bloom\":\"0x");
    let (ok10, pos10, logs_bloom) = step_hex_exact(s, ok9, pos9, BYTES_PER_LOGS_BLOOM);
    let (ok11, pos11) = step_lit(s, ok10, pos10, "\",\"prev_randao\":\"0x");
    let (ok12, pos12, prev_randao) = step_hex_exact(s, ok11, pos11, HASH_BYTES_LEN);
    proof {
        assert forall|e: ExecutionPayload|
            (e.wf() && p + spec_wire_payload_front(e).len() < s@.len() && s@.subrange(
                p as int,
                p + spec_wire_payload_front(e).len(),
            ) == #[trigger] spec_wire_payload_front(e) && s@[p + spec_wire_payload_front(e).len()]
                == 34) implies (ok12 && parent_hash@ == e.parent_hash@ && fee_recipient@
            == e.fee_recipient@ && state_root@ == e.state_root@ && receipts_root@
            == e.receipts_root@ && logs_bloom@ == e.logs_bloom@ && prev_randao@ == e.prev_randao@
            && pos12 == p + spec_wire_payload_front(e).len()) by {
            lemma_payload_front_layout(s@, p as int, e);
            proof_payload_literals();
            lemma_hex_lower_len(e.parent_hash@);
            lemma_hex_lower_len(e.fee_recipient@);
            lemma_hex_lower_len(e.state_root@);
            lemma_hex_lower_len(e.receipts_root@);
            lemma_hex_lower_len(e.logs_bloom@);
            lemma_hex_lower_len(e.prev_randao@);
            assert(ok1 && pos1 == p + ("{\"parent_hash\":\"0x").spec_bytes().len());
            assert(ok2 && parent_hash@ == e.parent_hash@ && pos2 == pos1 + 2 * HASH_BYTES_LEN);
            assert(ok3 && pos3 == pos2 + ("\",\"fee_recipient\":\"0x").spec_bytes().len());
            assert(ok4 && fee_recipient@ == e.fee_recipient@ && pos4 == pos3 + 2
                * ADDRESS_BYTES_LEN);
            assert(ok5 && pos5 == pos4 + ("\",\"state_root\":\"0x").spec_bytes().len());
            assert(ok6 && state_root@ == e.state_root@ && pos6 == pos5 + 2 * HASH_BYTES_LEN);
            assert(ok7 && pos7 == pos6 + ("\",\"receipts_root\":\"0x").spec_bytes().len());
            assert(ok8 && receipts_root@ == e.receipts_root@ && pos8 == pos7 + 2 * HASH_BYTES_LEN);
            assert(ok9 && pos9 == pos8 + ("\",\"logs_bloom\":\"0x").spec_bytes().len());
            assert(ok10 && logs_bloom@ == e.logs_bloom@ && pos10 == pos9 + 2
                * BYTES_PER_LOGS_BLOOM);
            assert(ok11 && pos11 == pos10 + ("\",\"prev_randao\":\"0x").spec_bytes().len());
            assert(ok12 && prev_randao@ == e.prev_randao@ && pos12 == pos11 + 2 * HASH_BYTES_LEN);
        }
    }
    if !ok12 {
        return None;
    }
    Some((parent_hash, fee_recipient, state_root, receipts_root, logs_bloom, prev_randao, pos12))
}

/// Reads the numeric middle of an execution payload object, from block
/// number through block hash.
#[verifier::rlimit(100)]
#[verifier::spinoff_prover]
fn parse_payload_mid(s: &[u8], p: usize) -> (r: Option<
    (u64, u64, u64, u64, Vec<u8>, u64, Vec<u8>, usize),
>)
    requires
        p <= s@.len(),
    ensures
        r matches Some(pr) ==> p <= pr.7 <= s@.len() && pr.4@.len() <= MAX_EXTRA_DATA_BYTES
            && pr.6@.len() == HASH_BYTES_LEN,
        forall|e: ExecutionPayload|
            (e.wf() && p + spec_wire_payload_mid(e).len() < s@.len() && s@.subrange(
                p as int,
                p + spec_wire_payload_mid(e).len(),
            ) == #[trigger] spec_wire_payload_mid(e) && s@[p + spec_wire_payload_mid(e).len()]
                == 34) ==> (r matches Some(pr) && pr.0 == e.block_number && pr.1 == e.gas_limit
                && pr.2 == e.gas_used && pr.3 == e.timestamp && pr.4@ == e.extra_data@ && pr.5
                == e.base_fee_per_gas && pr.6@ == e.block_hash@ && pr.7 == p
                + spec_wire_payload_mid(e).len()),
{
    let (ok1, pos1) = step_lit(s, true, p, "\",\"block_number\":\"");
    let (ok2, pos2, block_number) = step_dec_u64(s, ok1, pos1);
    let (ok3, pos3) = step_lit(s, ok2, pos2, "\",\"gas_limit\":\"");
    let (ok4, pos4, gas_limit) = step_dec_u64(s, ok3, pos3);
    let (ok5, pos5) = step_lit(s, ok4, pos4, "\",\"gas_used\":\"");
    let (ok6, pos6, gas_used) = step_dec_u64(s, ok5, pos5);
    let (ok7, pos7) = step_lit(s, ok6, pos6, "\",\"timestamp\":\"");
    let (ok8, pos8, timestamp) = step_dec_u64(s, ok7, pos7);
    let (ok9, pos9) = step_lit(s, ok8, pos8, "\",\"extra_data\":\"0x");
    let (ok10, pos10, extra_data) = step_hex_max(s, ok9, pos9, MAX_EXTRA_DATA_BYTES);
    let (ok11, pos11) = step_lit(s, ok10, pos10, "\",\"base_fee_per_gas\":\"");
    let (ok12, pos12, base_fee_per_gas) = step_dec_u64(s, ok11, pos11);
    let (ok13, pos13) = step_lit(s, ok12, pos12, "\",\"block_hash\":\"0x");
    let (ok14, pos14, block_hash) = step_hex_exact(s, ok13, pos13, HASH_BYTES_LEN);
    proof {
        assert forall|e: ExecutionPayload|
            (e.wf() && p + spec_wire_payload_mid(e).len() < s@.len() && s@.subrange(
                p as int,
                p + spec_wire_payload_mid(e).len(),
            ) == #[trigger] spec_wire_payload_mid(e) && s@[p + spec_wire_payload_mid(e).len()]
                == 34) implies (ok14 && block_number == e.block_number && gas_limit == e.gas_limit
            && gas_used == e.gas_used && timestamp == e.timestamp && extra_data@ == e.extra_data@
            && base_fee_per_gas == e.base_fee_per_gas && block_hash@ == e.block_hash@ && pos14 == p
            + spec_wire_payload_mid(e).len()) by {
            lemma_payload_mid_layout_a(s@, p as int, e);
            lemma_payload_mid_layout_b(s@, p as int, e);
            proof_payload_literals();
            lemma_hex_lower_len(e.extra_data@);
            lemma_hex_lower_len(e.block_hash@);
            assert(ok1 && pos1 == p + ("\",\"block_number\":\"").spec_bytes().len());
            assert(ok2 && block_number == e.block_number && pos2 == pos1 + dec_digits(
                e.block_number as nat,
            ).len());
            assert(ok3 && pos3 == pos2 + ("\",\"gas_limit\":\"").spec_bytes().len());
            assert(ok4 && gas_limit == e.gas_limit && pos4 == pos3 + dec_digits(
                e.gas_limit as nat,
            ).len());
            assert(ok5 && pos5 == pos4 + ("\",\"gas_used\":\"").spec_bytes().len());
            assert(ok6 && gas_used == e.gas_used && pos6 == pos5 + dec_digits(
                e.gas_used as nat,
            ).len());
            assert(ok7 && pos7 == pos6 + ("\",\"timestamp\":\"").spec_bytes().len());
            assert(ok8 && timestamp == e.timestamp && pos8 == pos7 + dec_digits(
                e.timestamp as nat,
            ).len());
            assert(ok9 && pos9 == pos8 + ("\",\"extra_data\":\"0x").spec_bytes().len());
            assert(ok10 && extra_data@ == e.extra_data@ && pos10 == pos9 + 2 * e.extra_data@.len());
            assert(ok11 && pos11 == pos10 + ("\",\"base_fee_per_gas\":\"").spec_bytes().len());
            assert(ok12 && base_fee_per_gas == e.base_fee_per_gas && pos12 == pos11 + dec_digits(
                e.base_fee_per_gas as nat,
            ).len());
            assert(ok13 && pos13 == pos12 + ("\",\"block_hash\":\"0x").spec_bytes().len());
            assert(ok14 && block_hash@ == e.block_hash@ && pos14 == pos13 + 2 * HASH_BYTES_LEN);
        }
    }
    if !ok14 {
        return None;
    }
    Some((block_number, gas_limit, gas_used, timestamp, extra_data, base_fee_per_gas, block_hash, pos14))
}

/// Field-wise agreement of two execution payloads, byte vectors and lists
/// compared by contents.
pub open spec fn payload_like(a: ExecutionPayload, b: ExecutionPayload) -> bool {
    &&& a.parent_hash@ == b.parent_hash@
    &&& a.fee_recipient@ == b.fee_recipient@
    &&& a.state_root@ == b.state_root@
    &&& a.receipts_root@ == b.receipts_root@
    &&& a.logs_bloom@ == b.logs_bloom@
    &&& a.prev_randao@ == b.prev_randao@
    &&& a.block_number == b.block_number
    &&& a.gas_limit == b.gas_limit
    &&& a.gas_used == b.gas_used
    &&& a.timestamp == b.timestamp
    &&& a.extra_data@ == b.extra_data@
    &&& a.base_fee_per_gas == b.base_fee_per_gas
    &&& a.block_hash@ == b.block_hash@
    &&& txs_like(a.transactions@, b.transactions@)
    &&& wds_like(a.withdrawals@, b.withdrawals@)
}

/// Reads one execution payload object. On the canonical wire bytes of any
/// well-formed payload, this succeeds with its fields.
#[verifier::rlimit(100)]
#[verifier::spinoff_prover]
fn parse_payload(s: &[u8], p: usize) -> (r: Option<(ExecutionPayload, usize)>)
    requires
        p <= s@.len(),
    ensures
        r matches Some(pr) ==> pr.0.wf() && p <= pr.1 <= s@.len(),
        forall|e: ExecutionPayload|
            (e.wf() && p + spec_wire_payload(e).len() <= s@.len() && s@.subrange(
                p as int,
                p + spec_wire_payload(e).len(),
            ) == #[trigger] spec_wire_payload(e)) ==> (r matches Some(pr) && payload_like(pr.0, e)
                && pr.1 == p + spec_wire_payload(e).len()),
{
    let (parent_hash, fee_recipient, state_root, receipts_root, logs_bloom, prev_randao, q1, ok_a)
        = match parse_payload_front(s, p) {
        Some(pr) => (pr.0, pr.1, pr.2, pr.3, pr.4, pr.5, pr.6, true),
        None => (Vec::new(), Vec::new(), Vec::new(), Vec::new(), Vec::new(), Vec::new(), p, false),
    };
    let midr = if ok_a {
        parse_payload_mid(s, q1)
    } else {
        None
    };
    let (block_number, gas_limit, gas_used, timestamp, extra_data, base_fee_per_gas, block_hash,
        q2, ok_b) = match midr {
        Some(pr) => (pr.0, pr.1, pr.2, pr.3, pr.4, pr.5, pr.6, pr.7, true),
        None => (0, 0, 0, 0, Vec::new(), 0, Vec::new(), q1, false),
    };
    let (ok_c, q3) = step_lit(s, ok_b, q2, "\",\"transactions\":");
    let txr = if ok_c {
        parse_tx_list(s, q3)
    } else {
        None
    };
    let (transactions, q4, ok_d) = match txr {
        Some(pr) => (pr.0, pr.1, true),
        None => (Vec::new(), q3, false),
    };
    let (ok_e, q5) = step_lit(s, ok_d, q4, ",\"withdrawals\":");
    let wdr = if ok_e {
        parse_wd_list(s, q5)
    } else {
        None
    };
    let (withdrawals, q6, ok_f) = match wdr {
        Some(pr) => (pr.0, pr.1, true),
        None => (Vec::new(), q5, false),
    };
    let (ok_g, q7) = step_lit(s, ok_f, q6, "}");
    let ok = ok_g && transactions.len() <= MAX_TRANSACTIONS_PER_PAYLOAD && withdrawals.len()
        <= MAX_WITHDRAWALS_PER_PAYLOAD;
    proof {
        assert forall|e: ExecutionPayload|
            (e.wf() && p + spec_wire_payload(e).len() <= s@.len() && s@.subrange(
                p as int,
                p + spec_wire_payload(e).len(),
            ) == #[trigger] spec_wire_payload(e)) implies (ok && parent_hash@ == e.parent_hash@
            && fee_recipient@ == e.fee_recipient@ && state_root@ == e.state_root@ && receipts_root@
            == e.receipts_root@ && logs_bloom@ == e.logs_bloom@ && prev_randao@ == e.prev_randao@
            && block_number == e.block_number && gas_limit == e.gas_limit && gas_used == e.gas_used
            && timestamp == e.timestamp && extra_data@ == e.extra_data@ && base_fee_per_gas
            == e.base_fee_per_gas && block_hash@ == e.block_hash@ && txs_like(
            transactions@,
            e.transactions@,
        ) && wds_like(withdrawals@, e.withdrawals@) && q7 == p + spec_wire_payload(e).len()) by {
            lemma_payload_segments_a(s@, p as int, e);
            lemma_payload_segments_b1(s@, p as int, e);
            lemma_payload_segments_b2(s@, p as int, e);
            proof_payload_literals();
            let fr = spec_wire_payload_front(e);
            let mi = spec_wire_payload_mid(e);
            let ktx = ("\",\"transactions\":").spec_bytes();
            let txl = spec_wire_tx_list(e.transactions@);
            let kwd = (",\"withdrawals\":").spec_bytes();
            let wdl = spec_wire_wd_list(e.withdrawals@);
            assert(ok_a && q1 == p + fr.len());
            assert(ok_b && q2 == q1 + mi.len());
            assert(ok_c && q3 == q2 + ktx.len());
            assert(forall|i: int|
                0 <= i < e.transactions@.len() ==> (#[trigger] e.transactions@[i])@.len()
                    <= MAX_BYTES_PER_TRANSACTION);
            assert(ok_d && txs_like(transactions@, e.transactions@) && q4 == q3 + txl.len());
            assert(ok_e && q5 == q4 + kwd.len());
            assert(forall|i: int| 0 <= i < e.withdrawals@.len() ==> (#[trigger] e.withdrawals@[i]).wf());
            assert(ok_f && wds_like(withdrawals@, e.withdrawals@) && q6 == q5 + wdl.len());
            assert(ok_g && q7 == q6 + 1);
            assert(transactions@.len() == e.transactions@.len());
            assert(withdrawals@.len() == e.withdrawals@.len());
        }
    }
    if !ok {
        return None;
    }
    let out = ExecutionPayload {
        parent_hash,
        fee_recipient,
        state_root,
        receipts_root,
        logs_bloom,
        prev_randao,
        block_number,
        gas_limit,
        gas_used,
        timestamp,
        extra_data,
        base_fee_per_gas,
        block_hash,
        transactions,
        withdrawals,
    };
    Some((out, q7))
}


/// Field-wise agreement of two signed bid submissions, byte vectors and
/// lists compared by contents.
pub open spec fn submission_like(a: SignedBidSubmission, b: SignedBidSubmission) -> bool {
    &&& trace_like(a.message, b.message)
    &&& payload_like(a.execution_payload, b.execution_payload)
    &&& a.signature@ == b.signature@
}

/// The concrete bytes of the submission object's fixed pieces.
proof fn proof_submission_literals()
    ensures
        ("{\"message\":").spec_bytes().len() == 11,
        (",\"execution_payload\":").spec_bytes().len() == 21,
        (",\"signature\":\"0x").spec_bytes().len() == 16,
        ("\"}").spec_bytes().len() == 2,
        ("\"}").spec_bytes()[0] == 34,
{
    broadcast use vstd::string::is_ascii_spec_bytes;

    reveal_strlit("{\"message\":");
    reveal_strlit(",\"execution_payload\":");
    reveal_strlit(",\"signature\":\"0x");
    reveal_strlit("\"}");
    assert(vstd::string::is_ascii("{\"message\":"));
    assert(vstd::string::is_ascii(",\"execution_payload\":"));
    assert(vstd::string::is_ascii(",\"signature\":\"0x"));
    assert(vstd::string::is_ascii("\"}"));
}

/// Where the main segments of a signed bid submission's wire bytes stand.
#[verifier::rlimit(100)]
proof fn lemma_submission_layout(s: Seq<u8>, p: int, y: SignedBidSubmission)
    requires
        0 <= p,
        p + spec_wire_submission(y).len() <= s.len(),
        s.subrange(p, p + spec_wire_submission(y).len()) == spec_wire_submission(y),
    ensures
        ({
            let l0 = ("{\"message\":").spec_bytes();
            let tr = spec_wire_trace(y.message);
            let l1 = (",\"execution_payload\":").spec_bytes();
            let pl = spec_wire_payload(y.execution_payload);
            let l2 = (",\"signature\":\"0x").spec_bytes();
            let sg = spec_hex_lower(y.signature@);
            let l3 = ("\"}").spec_bytes();
            &&& spec_wire_submission(y).len() == l0.len() + tr.len() + l1.len() + pl.len()
                + l2.len() + sg.len() + l3.len()
            &&& s.subrange(p, p + l0.len()) == l0
            &&& s.subrange(p + l0.len(), p + l0.len() + tr.len()) == tr
            &&& s.subrange(p + l0.len() + tr.len(), p + l0.len() + tr.len() + l1.len()) == l1
            &&& s.subrange(
                p + l0.len() + tr.len() + l1.len(),
                p + l0.len() + tr.len() + l1.len() + pl.len(),
            ) == pl
            &&& s.subrange(
                p + l0.len() + tr.len() + l1.len() + pl.len(),
                p + l0.len() + tr.len() + l1.len() + pl.len() + l2.len(),
            ) == l2
            &&& s.subrange(
                p + l0.len() + tr.len() + l1.len() + pl.len() + l2.len(),
                p + l0.len() + tr.len() + l1.len() + pl.len() + l2.len() + sg.len(),
            ) == sg
            &&& s[p + l0.len() + tr.len() + l1.len() + pl.len() + l2.len() + sg.len()] == 34
            &&& s.subrange(
                p + l0.len() + tr.len() + l1.len() + pl.len() + l2.len() + sg.len(),
                p + spec_wire_submission(y).len(),
            ) == l3
        }),
{
    proof_submission_literals();
    let wire = spec_wire_submission(y);
    let l0 = ("{\"message\":").spec_bytes();
    let tr = spec_wire_trace(y.message);
    let l1 = (",\"execution_payload\":").spec_bytes();
    let pl = spec_wire_payload(y.execution_payload);
    let l2 = (",\"signature\":\"0x").spec_bytes();
    let sg = spec_hex_lower(y.signature@);
    let l3 = ("\"}").spec_bytes();
    let s0 = l0;
    let s1 = s0 + tr;
    let s2 = s1 + l1;
    let s3 = s2 + pl;
    let s4 = s3 + l2;
    let s5 = s4 + sg;
    let s6 = s5 + l3;
    assert(wire == s6) by {
    }
    assert(forall|t0: int| 0 <= t0 < s5.len() ==> s6[t0] == #[trigger] s5[t0]) by {
    }
    assert(forall|t0: int| 0 <= t0 < s4.len() ==> s5[t0] == #[trigger] s4[t0]) by {
    }
    assert(forall|t0: int| 0 <= t0 < s3.len() ==> s4[t0] == #[trigger] s3[t0]) by {
    }
    assert(forall|t0: int| 0 <= t0 < s2.len() ==> s3[t0] == #[trigger] s2[t0]) by {
    }
    assert(forall|t0: int| 0 <= t0 < s1.len() ==> s2[t0] == #[trigger] s1[t0]) by {
    }
    assert(forall|t0: int| 0 <= t0 < s0.len() ==> s1[t0] == #[trigger] s0[t0]) by {
    }
    assert forall|t0: int| 0 <= t0 < wire.len() implies s[p + t0] == wire[t0] by {
        assert(s.subrange(p, p + wire.len())[t0] == s[p + t0]);
    }
    assert(s.subrange(p, p + s0.len()) =~= l0) by {
    }
    assert(s.subrange(p + s0.len(), p + s1.len()) =~= tr) by {
        assert(forall|j: int| 0 <= j < tr.len() ==> s1[s0.len() + j] == #[trigger] tr[j]);
    }
    assert(s.subrange(p + s1.len(), p + s2.len()) =~= l1) by {
        assert(forall|j: int| 0 <= j < l1.len() ==> s2[s1.len() + j] == #[trigger] l1[j]);
    }
    assert(s.subrange(p + s2.len(), p + s3.len()) =~= pl) by {
        assert(forall|j: int| 0 <= j < pl.len() ==> s3[s2.len() + j] == #[trigger] pl[j]);
    }
    assert(s.subrange(p + s3.len(), p + s4.len()) =~= l2) by {
        assert(forall|j: int| 0 <= j < l2.len() ==> s4[s3.len() + j] == #[trigger] l2[j]);
    }
    assert(s.subrange(p + s4.len(), p + s5.len()) =~= sg) by {
        assert(forall|j: int| 0 <= j < sg.len() ==> s5[s4.len() + j] == #[trigger] sg[j]);
    }
    assert(s[p + s5.len()] == l3[0]) by {
        assert(s6[s5.len() as int] == l3[0]);
    }
    assert(s.subrange(p + s5.len(), p + s6.len()) =~= l3) by {
        assert(forall|j: int| 0 <= j < l3.len() ==> s6[s5.len() + j] == #[trigger] l3[j]);
    }
}

/// Parses a signed bid submission from its wire JSON. Parsing inverts
/// serialization: on the byte string that [`serialize_signed_bid_submission`]
/// yields for any well-formed submission, this returns a submission equal
/// to it in every field; any other outcome means the body is not that
/// canonical wire.
#[verifier::rlimit(100)]
#[verifier::spinoff_prover]
pub fn parse_signed_bid_submission(s: &[u8]) -> (r: Result<SignedBidSubmission, WireError>)
    requires
        s@.len() <= usize::MAX,
    ensures
        r matches Ok(x) ==> x.wf(),
        forall|y: SignedBidSubmission|
            (y.wf() && s@ == #[trigger] spec_wire_submission(y)) ==> (r matches Ok(x)
                && submission_like(x, y)),
{
    let (ok1, q1) = step_lit(s, true, 0, "{\"message\":");
    let trr = if ok1 {
        parse_trace(s, q1)
    } else {
        None
    };
    let (message, q2, ok2) = match trr {
        Some(pr) => (pr.0, pr.1, true),
        None => (
            BidTrace {
                slot: 0,
                parent_hash: Vec::new(),
                block_hash: Vec::new(),
                builder_public_key: Vec::new(),
                proposer_public_key: Vec::new(),
                proposer_fee_recipient: Vec::new(),
                gas_limit: 0,
                gas_used: 0,
                value: 0,
            },
            q1,
            false,
        ),
    };
    let (ok3, q3) = step_lit(s, ok2, q2, ",\"execution_payload\":");
    let plr = if ok3 {
        parse_payload(s, q3)
    } else {
        None
    };
    let (execution_payload, q4, ok4) = match plr {
        Some(pr) => (pr.0, pr.1, true),
        None => (
            ExecutionPayload {
                parent_hash: Vec::new(),
                fee_recipient: Vec::new(),
                state_root: Vec::new(),
                receipts_root: Vec::new(),
                logs_bloom: Vec::new(),
                prev_randao: Vec::new(),
                block_number: 0,
                gas_limit: 0,
                gas_used: 0,
                timestamp: 0,
                extra_data: Vec::new(),
                base_fee_per_gas: 0,
                block_hash: Vec::new(),
                transactions: Vec::new(),
                withdrawals: Vec::new(),
            },
            q3,
            false,
        ),
    };
    let (ok5, q5) = step_lit(s, ok4, q4, ",\"signature\":\"0x");
    let (ok6, q6, signature) = step_hex_exact(s, ok5, q5, BLS_SIGNATURE_BYTES_LEN);
    let (ok7, q7) = step_lit(s, ok6, q6, "\"}");
    proof {
        assert forall|y: SignedBidSubmission|
            (y.wf() && s@ == #[trigger] spec_wire_submission(y)) implies (ok7 && trace_like(
            message,
            y.message,
        ) && payload_like(execution_payload, y.execution_payload) && signature@ == y.signature@
            && q7 == s@.len()) by {
            assert(s@.subrange(0, spec_wire_submission(y).len() as int) =~= s@);
            lemma_submission_layout(s@, 0, y);
            proof_submission_literals();
            lemma_hex_lower_len(y.signature@);
            let l0 = ("{\"message\":").spec_bytes();
            let tr = spec_wire_trace(y.message);
            let l1 = (",\"execution_payload\":").spec_bytes();
            let pl = spec_wire_payload(y.execution_payload);
            let l2 = (",\"signature\":\"0x").spec_bytes();
            let sg = spec_hex_lower(y.signature@);
            assert(ok1 && q1 == l0.len());
            assert(ok2 && trace_like(message, y.message) && q2 == q1 + tr.len());
            assert(ok3 && q3 == q2 + l1.len());
            assert(ok4 && payload_like(execution_payload, y.execution_payload) && q4 == q3
                + pl.len());
            assert(ok5 && q5 == q4 + l2.len());
            assert(ok6 && signature@ == y.signature@ && q6 == q5 + 2 * BLS_SIGNATURE_BYTES_LEN);
            assert(ok7 && q7 == q6 + 2);
        }
    }
    if !ok7 {
        return Err(WireError::Malformed);
    }
    if q7 != s.len() {
        return Err(WireError::TrailingData);
    }
    Ok(SignedBidSubmission { message, execution_payload, signature })
}

} // verus!
