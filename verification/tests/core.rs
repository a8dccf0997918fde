use mev_builder_core::auction::{Executor, SUBMIT_WINDOW_CLOSE_MS, SUBMIT_WINDOW_OPEN_MS,
    submission_window_contains};
use mev_builder_core::config::get_relay_endpoints;
use mev_builder_core::coordinator::{Coordinator, summarize_dispatch, submission_allowed};
use mev_builder_core::relay_endpoint::{ConfigError, RelayEndpoint, validate_endpoints};
use mev_builder_core::resolver::{ReadyRelay, resolve};
use mev_builder_core::types::{Bid, BidError, CandidateBlock, Entry, EntryMessage,
    PayloadAttributes, PayloadWithMetadata, RelayError, SendBlockStatus, Status, SubmitErrorKind,
    Validator, Withdrawal, status_transition_is_allowed};

fn validator_for_slot(slot: u64) -> Validator {
    Validator {
        slot,
        validator_index: 7,
        entry: Entry {
            message: EntryMessage {
                fee_recipient: vec![0x11; 20],
                gas_limit: 30_000_000,
                timestamp: 1_700_000_000,
                pubkey: vec![0x22; 48],
            },
            signature: "0xsig".to_string(),
        },
    }
}

fn block_with(hash_byte: u8, value: u128) -> CandidateBlock {
    CandidateBlock {
        hash: vec![hash_byte; 32],
        parent_hash: vec![0x01; 32],
        fee_recipient: vec![0x02; 20],
        state_root: vec![0x03; 32],
        receipts_root: vec![0x04; 32],
        logs_bloom: vec![0x00; 256],
        prev_randao: vec![0x05; 32],
        block_number: 17,
        gas_limit: 30_000_000,
        gas_used: 21_000,
        timestamp: 1_700_000_123,
        extra_data: vec![0x13, 0x37],
        base_fee_per_gas: 7,
        transactions: vec![vec![0x02, 0xf8, 0x01]],
        withdrawals: vec![Withdrawal {
            index: 1,
            validator_index: 2,
            address: vec![0x06; 20],
            amount: 3,
        }],
        value,
    }
}

fn coordinator_with_relays(ready: Vec<ReadyRelay>) -> Coordinator {
    Coordinator {
        all_endpoints: get_relay_endpoints(),
        last_slot: 100,
        ready_relays: ready,
        builder_public_key: vec![0x33; 48],
        secret_key: vec![0x44; 32],
    }
}

#[test]
fn create_coordinator() {
    let coordinator = Coordinator {
        all_endpoints: get_relay_endpoints(),
        last_slot: 0,
        ready_relays: vec![],
        builder_public_key: vec![0u8; 48],
        secret_key: vec![0u8; 32],
    };
    assert_eq!(coordinator.all_endpoints.len(), 9);
    assert_eq!(coordinator.all_endpoints[0].name, "ultrasound");
    assert_eq!(coordinator.all_endpoints[0].url, "https://relay.ultrasound.money");
    assert!(coordinator.all_endpoints.iter().all(|e| e.is_gzip_enabled));
}

#[test]
fn payload_attributes_for_old_slot_is_inert() {
    let mut c = coordinator_with_relays(vec![ReadyRelay { index: 0, validator: validator_for_slot(100) }]);
    let pa = PayloadAttributes {
        timestamp: 0,
        random: vec![0; 32],
        suggested_fee_receiptient: vec![0; 20],
        withdrawals: vec![],
        slot: 99,
        head_hash: vec![0; 32],
        gas_limit: 30_000_000,
    };
    // responses would yield a ready relay for slot 99, but the old slot is ignored
    c.on_payload_attributes(&pa, vec![Ok(vec![validator_for_slot(99)])]);
    assert_eq!(c.last_slot, 100);
    assert_eq!(c.ready_relays.len(), 1);
    assert_eq!(c.ready_relays[0].index, 0);

    // same-slot re-notification (re-org case) is inert as well
    let pa_same = PayloadAttributes { slot: 100, ..pa };
    c.on_payload_attributes(&pa_same, vec![Ok(vec![validator_for_slot(100)])]);
    assert_eq!(c.last_slot, 100);
    assert_eq!(c.ready_relays.len(), 1);
}

#[test]
fn payload_attributes_advances_and_recomputes() {
    let mut c = coordinator_with_relays(vec![]);
    let pa = PayloadAttributes {
        timestamp: 0,
        random: vec![0; 32],
        suggested_fee_receiptient: vec![0; 20],
        withdrawals: vec![],
        slot: 101,
        head_hash: vec![0; 32],
        gas_limit: 30_000_000,
    };
    c.on_payload_attributes(&pa, vec![Ok(vec![validator_for_slot(101)]), Err(RelayError::Transport)]);
    assert_eq!(c.last_slot, 101);
    assert_eq!(c.ready_relays.len(), 1);
    assert_eq!(c.ready_relays[0].index, 0);
    assert_eq!(c.ready_relays[0].validator.slot, 101);
}

#[test]
fn resolve_excludes_failures_and_non_matches() {
    // three relays: A has an entry for slot 100, B fails, C has no entry
    let responses = vec![
        Ok(vec![validator_for_slot(99), validator_for_slot(100)]),
        Err(RelayError::Transport),
        Ok(vec![validator_for_slot(101)]),
    ];
    let ready = resolve(responses, 100);
    assert_eq!(ready.len(), 1);
    assert_eq!(ready[0].index, 0);
    assert_eq!(ready[0].validator.slot, 100);
}

#[test]
fn calculate_bid_policy() {
    let mut e = Executor::new(0);
    let candidate = block_with(0xaa, 140);

    e.max_bid = Bid { value: 100, is_ours: true };
    assert_eq!(e.calculate_bid(&candidate), Ok(101));

    e.max_bid = Bid { value: 100, is_ours: false };
    assert_eq!(e.calculate_bid(&candidate), Ok(120));

    let low = block_with(0xbb, 90);
    assert_eq!(e.calculate_bid(&low), Err(BidError::Unprofitable));
}

#[test]
fn submission_window_gates_dispatch() {
    let t0: u64 = 1_000_000;
    assert!(!submission_window_contains(t0 + 9_000, t0));
    assert!(submission_window_contains(t0 + 10_000, t0));
    assert!(submission_window_contains(t0 + 11_000, t0));
    assert!(submission_window_contains(t0 + 12_000, t0));
    assert!(!submission_window_contains(t0 + 13_000, t0));
    assert_eq!(SUBMIT_WINDOW_OPEN_MS, 10_000);
    assert_eq!(SUBMIT_WINDOW_CLOSE_MS, 12_000);

    let mut e = Executor::new(t0);
    assert!(e.on_new_block(block_with(0x01, 50), t0 + 9_000).is_none());
    assert!(e.on_new_block(block_with(0x02, 60), t0 + 13_000).is_none());
    // inside the window a profitable candidate is dispatched, once per
    // ready relay of the coordinator's plan
    let decision = e.on_new_block(block_with(0x03, 70), t0 + 11_000).expect("dispatch");
    assert_eq!(decision.value, 35); // midpoint of 70 and 0
    assert_eq!(decision.block_hash, vec![0x03; 32]);

    let ready = vec![
        ReadyRelay { index: 0, validator: validator_for_slot(100) },
        ReadyRelay { index: 4, validator: validator_for_slot(100) },
    ];
    let c = coordinator_with_relays(ready);
    let plan = c.plan_submissions(&block_with(0x03, 70), decision.value).expect("plan");
    assert_eq!(plan.len(), 2);
    assert_eq!(plan[0].relay_index, 0);
    assert_eq!(plan[1].relay_index, 4);
}

#[test]
fn duplicate_block_hash_is_ignored() {
    let t0: u64 = 1_000_000;
    let mut e = Executor::new(t0);
    let first = e.on_new_block(block_with(0x07, 80), t0 + 11_000);
    assert!(first.is_some());
    let max_after_first = e.max_bid;
    // same hash again, even with a different claimed value: no new dispatch
    let second = e.on_new_block(block_with(0x07, 9_000), t0 + 11_000);
    assert!(second.is_none());
    assert_eq!(e.max_bid, max_after_first);
    assert_eq!(e.status_of(&vec![0x07; 32]), Some(Status::NeverSent));
    // relay feedback moves the candidate forward along its lifecycle
    e.set_status(&vec![0x07; 32], Status::Sealed);
    e.set_status(&vec![0x07; 32], Status::Winning);
    assert_eq!(e.status_of(&vec![0x07; 32]), Some(Status::Winning));
}

#[test]
fn observed_bids_raise_the_floor() {
    let t0: u64 = 1_000_000;
    let mut e = Executor::new(t0);
    assert!(e.on_new_block(block_with(0x08, 100), t0 + 500).is_none());

    // a lower observation is ignored outright
    e.max_bid = Bid { value: 50, is_ours: false };
    assert!(e.on_new_bid(Bid { value: 40, is_ours: false }, t0 + 11_000).is_none());
    assert_eq!(e.max_bid, Bid { value: 50, is_ours: false });

    // a higher observation is adopted and re-triggers the decision
    let d = e.on_new_bid(Bid { value: 60, is_ours: false }, t0 + 11_000).expect("rebid");
    assert_eq!(d.value, 80); // midpoint of 100 and 60
    assert_eq!(e.max_bid, Bid { value: 80, is_ours: true });

    // while this builder leads, only a token increment is needed
    let d2 = e.on_new_block(block_with(0x09, 100), t0 + 11_000).expect("token rebid");
    assert_eq!(d2.value, 81);
}

#[test]
fn dispatch_report_counts_outcomes_independently() {
    let results: Vec<Result<SendBlockStatus, RelayError>> = vec![
        Err(RelayError::Transport),
        Ok(SendBlockStatus { code: 200, message: "ok".to_string() }),
        Ok(SendBlockStatus { code: 200, message: "ok".to_string() }),
    ];
    let report = summarize_dispatch(&results);
    assert_eq!(report.failures, 1);
    assert_eq!(report.successes, 2);
    assert_eq!(report.rejections, 0);

    let rejected: Vec<Result<SendBlockStatus, RelayError>> = vec![
        Ok(SendBlockStatus { code: 400, message: "submission for past slot".to_string() }),
        Err(RelayError::Decode),
    ];
    let r2 = summarize_dispatch(&rejected);
    assert_eq!(r2.rejections, 1);
    assert_eq!(r2.failures, 1);
    assert_eq!(r2.successes, 0);
}

#[test]
fn create_bid_assembles_submission() {
    let relay = ReadyRelay { index: 0, validator: validator_for_slot(100) };
    let c = coordinator_with_relays(vec![]);
    let block = block_with(0x0a, 500);
    let sub = c.create_bid(&relay, &block, 321, vec![0x55; 96]).expect("bid");
    assert_eq!(sub.message.slot, 100);
    assert_eq!(sub.message.parent_hash, vec![0x01; 32]);
    assert_eq!(sub.message.block_hash, vec![0x0a; 32]);
    assert_eq!(sub.message.builder_public_key, vec![0x33; 48]);
    assert_eq!(sub.message.proposer_public_key, vec![0x22; 48]);
    assert_eq!(sub.message.proposer_fee_recipient, vec![0x11; 20]);
    assert_eq!(sub.message.value, 321);
    assert_eq!(sub.execution_payload.block_hash, vec![0x0a; 32]);
    assert_eq!(sub.execution_payload.transactions, vec![vec![0x02, 0xf8, 0x01]]);
    assert_eq!(sub.signature, vec![0x55; 96]);

    // a malformed signature width is rejected
    assert!(c.create_bid(&relay, &block, 321, vec![0x55; 95]).is_err());
}

#[test]
fn endpoint_alias_must_reference_another_endpoint() {
    let mut endpoints = get_relay_endpoints();
    assert_eq!(validate_endpoints(&endpoints), Ok(()));

    endpoints[0].alias_of = Some("https://boost-relay.flashbots.net".to_string());
    assert_eq!(validate_endpoints(&endpoints), Ok(()));

    endpoints[0].alias_of = Some("https://nowhere.example".to_string());
    assert_eq!(validate_endpoints(&endpoints), Err(ConfigError::InvalidAliasReference));

    // an alias may not point at the endpoint's own URL only
    let mut solo = vec![RelayEndpoint::new("a", "https://a.example", true, None)];
    solo[0].alias_of = Some("https://a.example".to_string());
    assert_eq!(validate_endpoints(&solo), Err(ConfigError::InvalidAliasReference));
}

#[test]
fn blacklist_hook_blocks_listed_addresses() {
    let c = coordinator_with_relays(vec![]);
    let block = block_with(0x0b, 1);
    let payload = Coordinator::build_execution_payload(&block).expect("payload");
    let empty: Vec<Vec<u8>> = vec![];
    assert!(submission_allowed(&empty, &payload));
    let listed_fee = vec![vec![0x02; 20]];
    assert!(!submission_allowed(&listed_fee, &payload));
    let listed_withdrawal = vec![vec![0x06; 20]];
    assert!(!submission_allowed(&listed_withdrawal, &payload));
    let unrelated = vec![vec![0x42; 20]];
    assert!(submission_allowed(&unrelated, &payload));
    drop(c);
}

#[test]
fn set_status_reports_post_seal_bookkeeping() {
    let mut p = PayloadWithMetadata {
        block_hash: vec![0x0c; 32],
        value: 9,
        status: Status::NeverSent,
    };
    assert!(p.set_status(Status::Sealed));
    assert_eq!(p.status, Status::Sealed);
    assert!(!p.set_status(Status::Winning));
    assert_eq!(p.status, Status::Winning);
    assert!(!p.set_status(Status::Error(SubmitErrorKind::Transport)));
    assert_eq!(p.status, Status::Error(SubmitErrorKind::Transport));
}

#[test]
fn status_machine_moves_only_forward() {
    let err = Status::Error(SubmitErrorKind::Transport);
    assert!(status_transition_is_allowed(&Status::NeverSent, &Status::Sealed));
    assert!(status_transition_is_allowed(&Status::NeverSent, &Status::Error(SubmitErrorKind::Signing)));
    assert!(!status_transition_is_allowed(&Status::NeverSent, &Status::Winning));
    assert!(status_transition_is_allowed(&Status::Sealed, &Status::Winning));
    assert!(status_transition_is_allowed(&Status::Sealed, &Status::Losing));
    assert!(status_transition_is_allowed(&Status::Sealed, &err));
    assert!(!status_transition_is_allowed(&Status::Sealed, &Status::NeverSent));
    assert!(status_transition_is_allowed(&Status::Winning, &err));
    assert!(!status_transition_is_allowed(&Status::Winning, &Status::Losing));
    assert!(!status_transition_is_allowed(&Status::Losing, &Status::NeverSent));
    assert!(!status_transition_is_allowed(&err, &Status::Sealed));
}
