use namada_adapter::error::Error;
use namada_adapter::events::{EventAttribute, ProtocolEvent, ProtocolEventWithHeight};
use namada_adapter::ident::{Epoch, Height, Ident};
use namada_adapter::tx::{
    all_tx_results_found, apply_search_result, build_inner_tx, build_wrapper, commit_events,
    confirmation_decision, confirmation_verdict, encode_message, flatten_events,
    placeholder_sync_result, resolve_gas_limit, wrapper_sign_bytes, AnyMessage, Fee, InnerTx,
    LoopStep, SignedTx, TxResponse, TxStatus, TxSyncResult, DEFAULT_MAX_GAS, WAIT_BACKOFF_MILLIS,
};

fn ident(s: &str) -> Ident {
    Ident::new(s.to_string()).unwrap()
}

fn signed_inner(payload: &[u8]) -> SignedTx {
    SignedTx {
        tx: InnerTx { code: vec![0xde, 0xad], data: payload.to_vec() },
        signature: vec![0x51],
    }
}

fn wrapper(fee_amount: u64, gas: u64, epoch: u64, payload: &[u8]) -> namada_adapter::tx::WrapperTx {
    build_wrapper(
        Fee { amount: fee_amount, token: ident("#nam") },
        Epoch(epoch),
        gas,
        signed_inner(payload),
    )
}

#[test]
fn message_encoding_is_real_protobuf() {
    // field 1 (type_url): tag 0x0a, length, bytes; field 2 (value): tag 0x12
    let msg = AnyMessage { type_url: "a".to_string(), value: vec![7] };
    assert_eq!(encode_message(&msg), vec![0x0a, 0x01, 0x61, 0x12, 0x01, 0x07]);
}

#[test]
fn inner_tx_carries_bytecode_and_encoded_message() {
    let msg = AnyMessage { type_url: "a".to_string(), value: vec![7] };
    let inner = build_inner_tx(vec![0xde, 0xad], &msg);
    assert_eq!(inner.code, vec![0xde, 0xad]);
    assert_eq!(inner.data, vec![0x0a, 0x01, 0x61, 0x12, 0x01, 0x07]);
}

#[test]
fn gas_limit_defaults_when_unconfigured() {
    assert_eq!(resolve_gas_limit(Some(250_000)), 250_000);
    assert_eq!(resolve_gas_limit(None), DEFAULT_MAX_GAS);
}

#[test]
fn wrapper_embeds_exactly_its_parameters() {
    let w = wrapper(17, 100_000, 3, &[1, 2, 3]);
    assert_eq!(w.fee.amount, 17);
    assert_eq!(w.fee.token.as_string(), "#nam");
    assert_eq!(w.epoch, Epoch(3));
    assert_eq!(w.gas_limit, 100_000);
    assert_eq!(w.inner.tx.data, vec![1, 2, 3]);
    assert_eq!(w.inner.signature, vec![0x51]);
}

#[test]
fn changing_fee_gas_or_epoch_changes_the_signed_message() {
    let base = wrapper_sign_bytes(&wrapper(17, 100_000, 3, &[1, 2, 3]));
    assert_ne!(base, wrapper_sign_bytes(&wrapper(18, 100_000, 3, &[1, 2, 3])));
    assert_ne!(base, wrapper_sign_bytes(&wrapper(17, 100_001, 3, &[1, 2, 3])));
    assert_ne!(base, wrapper_sign_bytes(&wrapper(17, 100_000, 4, &[1, 2, 3])));
    assert_ne!(base, wrapper_sign_bytes(&wrapper(17, 100_000, 3, &[1, 2, 4])));
    // rebuilding with the same parameters signs the same message
    assert_eq!(base, wrapper_sign_bytes(&wrapper(17, 100_000, 3, &[1, 2, 3])));
}

fn response(hash: u8) -> TxResponse {
    TxResponse { code: 0, data: Vec::new(), log: "mempool ok".to_string(), hash: vec![hash] }
}

fn committed_event(seq: &str) -> ProtocolEventWithHeight {
    ProtocolEventWithHeight {
        event: ProtocolEvent::Decoded {
            kind: "send_packet".to_string(),
            attributes: vec![EventAttribute {
                key: "packet_sequence".to_string(),
                value: seq.to_string(),
            }],
        },
        height: Height { revision_number: 0, revision_height: 77 },
    }
}

#[test]
fn placeholder_is_a_pending_chain_error() {
    let r = placeholder_sync_result(2, response(9));
    assert_eq!(r.status, TxStatus::Pending { message_count: 1 });
    assert_eq!(r.events.len(), 1);
    assert_eq!(r.events[0].height, Height { revision_number: 2, revision_height: 1 });
    match &r.events[0].event {
        ProtocolEvent::ChainError { kind, attributes } => {
            assert_eq!(kind, "check_tx");
            assert_eq!(attributes[0].key, "code");
            assert_eq!(attributes[0].value, "0");
            assert_eq!(attributes[1].key, "log");
            assert_eq!(attributes[1].value, "mempool ok");
        },
        ProtocolEvent::Decoded { .. } => panic!("the placeholder must be a chain error"),
    }
}

#[test]
fn search_results_replace_placeholders_only_when_found() {
    let mut r = placeholder_sync_result(0, response(1));
    // nothing found yet: stay pending, keep the placeholder
    apply_search_result(&mut r, Vec::new());
    assert_eq!(r.status, TxStatus::Pending { message_count: 1 });
    assert_eq!(r.events.len(), 1);
    // found: take the real events and resolve
    apply_search_result(&mut r, vec![committed_event("1")]);
    assert_eq!(r.status, TxStatus::ReceivedResponse);
    assert_eq!(r.events, vec![committed_event("1")]);
    // a later empty poll never un-resolves it
    apply_search_result(&mut r, Vec::new());
    assert_eq!(r.status, TxStatus::ReceivedResponse);
    assert_eq!(r.events, vec![committed_event("1")]);
}

#[test]
fn two_of_three_resolve_and_the_loop_times_out() {
    // batch of three pending results; a fixed 1000 ms deadline; the
    // constant backoff interval paces the loop
    let timeout_ms: u64 = 1000;
    let mut results: Vec<TxSyncResult> = vec![
        placeholder_sync_result(0, response(1)),
        placeholder_sync_result(0, response(2)),
        placeholder_sync_result(0, response(3)),
    ];
    let mut elapsed: u64 = 0;
    // first interval: two transactions commit, the third is never found
    elapsed += WAIT_BACKOFF_MILLIS;
    assert_eq!(confirmation_decision(&results, elapsed, timeout_ms), LoopStep::Poll);
    apply_search_result(&mut results[0], vec![committed_event("1")]);
    apply_search_result(&mut results[1], vec![committed_event("2")]);
    apply_search_result(&mut results[2], Vec::new());
    // the loop keeps polling while the deadline has not passed
    let mut polls = 0;
    loop {
        elapsed += WAIT_BACKOFF_MILLIS;
        match confirmation_decision(&results, elapsed, timeout_ms) {
            LoopStep::Poll => {
                polls += 1;
                apply_search_result(&mut results[2], Vec::new());
            },
            step => {
                // the two resolved results already hold their real events
                // when the failure is raised
                assert_eq!(results[0].events, vec![committed_event("1")]);
                assert_eq!(results[1].events, vec![committed_event("2")]);
                assert_eq!(results[0].status, TxStatus::ReceivedResponse);
                assert_eq!(results[2].status, TxStatus::Pending { message_count: 1 });
                assert_eq!(step, LoopStep::TimedOut);
                assert_eq!(confirmation_verdict(step), Some(Err(Error::TxNoConfirmation)));
                break;
            },
        }
    }
    assert_eq!(polls, 2);
    assert!(!all_tx_results_found(&results));
}

#[test]
fn resolution_wins_over_the_deadline() {
    let mut results = vec![placeholder_sync_result(0, response(1))];
    apply_search_result(&mut results[0], vec![committed_event("1")]);
    assert!(all_tx_results_found(&results));
    // even past the deadline a fully resolved batch is returned
    assert_eq!(confirmation_decision(&results, 5000, 1000), LoopStep::AllConfirmed);
    assert_eq!(confirmation_verdict(LoopStep::AllConfirmed), Some(Ok(())));
    assert_eq!(confirmation_verdict(LoopStep::Poll), None);
}

#[test]
fn batch_events_flatten_in_order_and_deduplicate() {
    let mut a = placeholder_sync_result(0, response(1));
    let mut b = placeholder_sync_result(0, response(2));
    apply_search_result(&mut a, vec![committed_event("1"), committed_event("2")]);
    apply_search_result(&mut b, vec![committed_event("2"), committed_event("3")]);
    let results = vec![a, b];
    let flat = flatten_events(&results);
    assert_eq!(
        flat,
        vec![committed_event("1"), committed_event("2"), committed_event("2"), committed_event("3")]
    );
    let out = commit_events(&results);
    assert_eq!(out, vec![committed_event("1"), committed_event("2"), committed_event("3")]);
}
