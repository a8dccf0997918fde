use mev_builder_core::hexbytes::{HexError, try_bytes_from_hex_str};
use mev_builder_core::relay_endpoint::RelayEndpoint;
use mev_builder_core::types::{BidTrace, ExecutionPayload, SignedBidSubmission, WithdrawalMevBoost};
use mev_builder_core::wire::{WireError, parse_signed_bid_submission,
    serialize_signed_bid_submission};

fn sample_trace() -> BidTrace {
    BidTrace {
        slot: 6_543_210,
        parent_hash: vec![0xab; 32],
        block_hash: vec![0xcd; 32],
        builder_public_key: vec![0x33; 48],
        proposer_public_key: vec![0x22; 48],
        proposer_fee_recipient: vec![0x11; 20],
        gas_limit: 30_000_000,
        gas_used: 12_345_678,
        value: 123_456_789_000_000_000,
    }
}

fn sample_payload(transactions: Vec<Vec<u8>>, withdrawals: Vec<WithdrawalMevBoost>) -> ExecutionPayload {
    ExecutionPayload {
        parent_hash: vec![0xab; 32],
        fee_recipient: vec![0x02; 20],
        state_root: vec![0x03; 32],
        receipts_root: vec![0x04; 32],
        logs_bloom: vec![0x00; 256],
        prev_randao: vec![0x05; 32],
        block_number: 1_234_567,
        gas_limit: 30_000_000,
        gas_used: 12_345_678,
        timestamp: 1_700_000_123,
        extra_data: vec![0x31, 0x33, 0x33, 0x37],
        base_fee_per_gas: 42,
        block_hash: vec![0xcd; 32],
        transactions,
        withdrawals,
    }
}

fn sample_submission(transactions: Vec<Vec<u8>>, withdrawals: Vec<WithdrawalMevBoost>) -> SignedBidSubmission {
    SignedBidSubmission {
        message: sample_trace(),
        execution_payload: sample_payload(transactions, withdrawals),
        signature: vec![0x55; 96],
    }
}

fn assert_submissions_equal(a: &SignedBidSubmission, b: &SignedBidSubmission) {
    assert_eq!(a.message.slot, b.message.slot);
    assert_eq!(a.message.parent_hash, b.message.parent_hash);
    assert_eq!(a.message.block_hash, b.message.block_hash);
    assert_eq!(a.message.builder_public_key, b.message.builder_public_key);
    assert_eq!(a.message.proposer_public_key, b.message.proposer_public_key);
    assert_eq!(a.message.proposer_fee_recipient, b.message.proposer_fee_recipient);
    assert_eq!(a.message.gas_limit, b.message.gas_limit);
    assert_eq!(a.message.gas_used, b.message.gas_used);
    assert_eq!(a.message.value, b.message.value);
    assert_eq!(a.execution_payload.parent_hash, b.execution_payload.parent_hash);
    assert_eq!(a.execution_payload.fee_recipient, b.execution_payload.fee_recipient);
    assert_eq!(a.execution_payload.state_root, b.execution_payload.state_root);
    assert_eq!(a.execution_payload.receipts_root, b.execution_payload.receipts_root);
    assert_eq!(a.execution_payload.logs_bloom, b.execution_payload.logs_bloom);
    assert_eq!(a.execution_payload.prev_randao, b.execution_payload.prev_randao);
    assert_eq!(a.execution_payload.block_number, b.execution_payload.block_number);
    assert_eq!(a.execution_payload.gas_limit, b.execution_payload.gas_limit);
    assert_eq!(a.execution_payload.gas_used, b.execution_payload.gas_used);
    assert_eq!(a.execution_payload.timestamp, b.execution_payload.timestamp);
    assert_eq!(a.execution_payload.extra_data, b.execution_payload.extra_data);
    assert_eq!(a.execution_payload.base_fee_per_gas, b.execution_payload.base_fee_per_gas);
    assert_eq!(a.execution_payload.block_hash, b.execution_payload.block_hash);
    assert_eq!(a.execution_payload.transactions, b.execution_payload.transactions);
    assert_eq!(a.execution_payload.withdrawals, b.execution_payload.withdrawals);
    assert_eq!(a.signature, b.signature);
}

#[test]
fn serialize_execution_payload() {
    let payload = ExecutionPayload {
        parent_hash: vec![0; 32],
        fee_recipient: vec![0; 20],
        state_root: vec![0; 32],
        receipts_root: vec![0; 32],
        logs_bloom: vec![0; 256],
        prev_randao: vec![0; 32],
        block_number: 1,
        gas_limit: 1,
        gas_used: 1,
        timestamp: 1,
        extra_data: "1337".as_bytes().to_vec(),
        base_fee_per_gas: 1,
        block_hash: vec![0; 32],
        transactions: vec![vec![0xf8, 0x01, 0x02]],
        withdrawals: vec![WithdrawalMevBoost {
            index: 1,
            validator_index: 1,
            address: vec![0; 20],
            amount: 1,
        }],
    };
    let sub = SignedBidSubmission {
        message: sample_trace(),
        execution_payload: payload,
        signature: vec![0; 96],
    };
    let serialized = serialize_signed_bid_submission(&sub);
    let text = String::from_utf8(serialized.clone()).expect("wire is ascii");
    println!("{}", text);
    // the body is well-formed JSON with the wire's field conventions
    let v: serde_json::Value = serde_json::from_slice(&serialized).expect("valid json");
    assert_eq!(v["execution_payload"]["block_number"], "1");
    assert_eq!(v["execution_payload"]["extra_data"], "0x31333337");
    assert_eq!(v["execution_payload"]["withdrawals"][0]["amount"], "1");
    assert_eq!(v["execution_payload"]["transactions"][0], "0xf80102");
    assert_eq!(v["message"]["slot"], "6543210");
}

#[test]
fn round_trip_with_empty_lists() {
    let sub = sample_submission(vec![], vec![]);
    let wire = serialize_signed_bid_submission(&sub);
    let back = parse_signed_bid_submission(&wire).expect("parse");
    assert_submissions_equal(&back, &sub);
}

#[test]
fn round_trip_with_full_lists() {
    let txs = vec![vec![0x02, 0xf8, 0x72, 0x01], vec![], vec![0xff; 300]];
    let wds = vec![
        WithdrawalMevBoost { index: 0, validator_index: 9, address: vec![0x0a; 20], amount: 0 },
        WithdrawalMevBoost {
            index: u64::MAX,
            validator_index: u64::MAX,
            address: vec![0x0b; 20],
            amount: u64::MAX,
        },
    ];
    let mut sub = sample_submission(txs, wds);
    sub.message.value = u128::MAX;
    sub.execution_payload.extra_data = vec![];
    let wire = serialize_signed_bid_submission(&sub);
    let back = parse_signed_bid_submission(&wire).expect("parse");
    assert_submissions_equal(&back, &sub);
}

#[test]
fn parse_rejects_trailing_and_malformed_data() {
    let sub = sample_submission(vec![], vec![]);
    let mut wire = serialize_signed_bid_submission(&sub);
    wire.push(b' ');
    assert!(matches!(parse_signed_bid_submission(&wire), Err(WireError::TrailingData)));

    let mut broken = serialize_signed_bid_submission(&sub);
    broken[0] = b'[';
    assert!(matches!(parse_signed_bid_submission(&broken), Err(WireError::Malformed)));

    assert!(matches!(parse_signed_bid_submission(b""), Err(WireError::Malformed)));
}

#[test]
fn hex_fields_are_really_encoded() {
    // if the hex wrapper handed its argument back unchanged, the signature
    // bytes 0x55 would appear raw instead of as the digits "55"
    let sub = sample_submission(vec![], vec![]);
    let wire = serialize_signed_bid_submission(&sub);
    let text = String::from_utf8(wire).expect("wire is ascii");
    let sig_field = "\"signature\":\"0x";
    let at = text.find(sig_field).expect("signature field") + sig_field.len();
    assert_eq!(&text[at..at + 192], "55".repeat(96));
}

#[test]
fn hex_str_decoding() {
    assert_eq!(try_bytes_from_hex_str("0x00ff"), Ok(vec![0x00, 0xff]));
    assert_eq!(try_bytes_from_hex_str("0xAbCd"), Ok(vec![0xab, 0xcd]));
    assert_eq!(try_bytes_from_hex_str("0x"), Ok(vec![]));
    assert_eq!(try_bytes_from_hex_str("00ff"), Err(HexError::MissingPrefix));
    assert_eq!(try_bytes_from_hex_str(""), Err(HexError::MissingPrefix));
    assert_eq!(try_bytes_from_hex_str("0xabc"), Err(HexError::OddLength));
    assert!(matches!(
        try_bytes_from_hex_str("0xzz"),
        Err(HexError::InvalidHexCharacter { .. })
    ));
}

#[test]
fn endpoint_encode_compresses_exactly_when_enabled() {
    let sub = sample_submission(vec![vec![0x01, 0x02]], vec![]);
    let plain_endpoint = RelayEndpoint::new("plain", "https://plain.example", false, None);
    let (plain_body, plain_gzip) = plain_endpoint.encode(&sub).expect("encode");
    assert!(!plain_gzip);
    assert_eq!(plain_body, serialize_signed_bid_submission(&sub));

    let gz_endpoint = RelayEndpoint::new("gz", "https://gz.example", true, None);
    let (gz_body, gz_flag) = gz_endpoint.encode(&sub).expect("encode");
    assert!(gz_flag);
    assert_ne!(gz_body, plain_body);
    let mut decoder = flate2::read::GzDecoder::new(&gz_body[..]);
    let mut decompressed = Vec::new();
    std::io::Read::read_to_end(&mut decoder, &mut decompressed).expect("gunzip");
    assert_eq!(decompressed, plain_body);
}
