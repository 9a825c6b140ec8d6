use namada_adapter::events::{
    classify_event, convert_events, dedup_events, event_eq, AbciEvent, EventAttribute,
    ProtocolEvent, ProtocolEventWithHeight,
};
use namada_adapter::ident::Height;

fn attr(key: &str, value: &str) -> EventAttribute {
    EventAttribute { key: key.to_string(), value: value.to_string() }
}

fn event(kind: &str, attrs: &[(&str, &str)]) -> AbciEvent {
    AbciEvent {
        kind: kind.to_string(),
        attributes: attrs.iter().map(|(k, v)| attr(k, v)).collect(),
    }
}

fn height(h: u64) -> Height {
    Height { revision_number: 0, revision_height: h }
}

#[test]
fn decoded_event_is_emitted_at_block_height() {
    let ev = event("send_packet", &[("packet_src_port", "transfer")]);
    let out = classify_event(&ev, true, height(42)).unwrap();
    assert_eq!(out.height, height(42));
    match out.event {
        ProtocolEvent::Decoded { kind, attributes } => {
            assert_eq!(kind, "send_packet");
            assert_eq!(attributes, vec![attr("packet_src_port", "transfer")]);
        },
        ProtocolEvent::ChainError { .. } => panic!("expected a decoded event"),
    }
}

#[test]
fn skip_set_events_yield_nothing_whatever_their_attributes() {
    for kind in ["app_module", "recv_packet", "message"] {
        assert!(classify_event(&event(kind, &[]), false, height(5)).is_none());
        assert!(classify_event(&event(kind, &[("code", "1")]), false, height(5)).is_none());
        assert!(
            classify_event(&event(kind, &[("a", "b"), ("code", "0")]), false, height(5)).is_none()
        );
    }
}

#[test]
fn undecodable_success_is_dropped_silently() {
    let ev = event("tx_applied", &[("height", "12"), ("code", "0")]);
    assert!(classify_event(&ev, false, height(12)).is_none());
}

#[test]
fn undecodable_failure_becomes_exactly_one_chain_error() {
    let ev = event("tx_applied", &[("height", "12"), ("code", "1")]);
    let out = classify_event(&ev, false, height(12)).unwrap();
    assert_eq!(out.height, height(12));
    match out.event {
        ProtocolEvent::ChainError { kind, attributes } => {
            assert_eq!(kind, "tx_applied");
            assert_eq!(attributes, vec![attr("height", "12"), attr("code", "1")]);
        },
        ProtocolEvent::Decoded { .. } => panic!("expected a chain-error event"),
    }
}

#[test]
fn code_marker_must_match_exactly() {
    // a code other than "0", or a "0" under another key, is no success marker
    assert!(classify_event(&event("x", &[("code", "00")]), false, height(1)).is_some());
    assert!(classify_event(&event("x", &[("status", "0")]), false, height(1)).is_some());
}

#[test]
fn block_conversion_keeps_order_and_drops_silent_events() {
    let events = vec![
        (event("send_packet", &[("s", "1")]), true),
        (event("app_module", &[]), false),
        (event("bad", &[("code", "1")]), false),
        (event("fine", &[("code", "0")]), false),
        (event("write_acknowledgement", &[("s", "2")]), true),
    ];
    let out = convert_events(&events, height(9));
    assert_eq!(out.len(), 3);
    assert!(matches!(&out[0].event, ProtocolEvent::Decoded { kind, .. } if kind == "send_packet"));
    assert!(matches!(&out[1].event, ProtocolEvent::ChainError { kind, .. } if kind == "bad"));
    assert!(
        matches!(&out[2].event, ProtocolEvent::Decoded { kind, .. } if kind == "write_acknowledgement")
    );
}

fn decoded(kind: &str, attrs: &[(&str, &str)], h: u64) -> ProtocolEventWithHeight {
    ProtocolEventWithHeight {
        event: ProtocolEvent::Decoded {
            kind: kind.to_string(),
            attributes: attrs.iter().map(|(k, v)| attr(k, v)).collect(),
        },
        height: height(h),
    }
}

#[test]
fn identical_events_deduplicate_to_one() {
    let a = decoded("send_packet", &[("seq", "1")], 4);
    let b = decoded("send_packet", &[("seq", "1")], 4);
    assert!(event_eq(&a, &b));
    let out = dedup_events(&vec![a.clone(), b]);
    assert_eq!(out, vec![a]);
}

#[test]
fn dedup_preserves_first_seen_order() {
    let a = decoded("send_packet", &[("seq", "1")], 4);
    let b = decoded("send_packet", &[("seq", "2")], 4);
    let c = decoded("update_client", &[], 5);
    let input = vec![a.clone(), b.clone(), a.clone(), c.clone(), b.clone()];
    assert_eq!(dedup_events(&input), vec![a, b, c]);
}

#[test]
fn events_differing_in_kind_attributes_or_height_are_distinct() {
    let base = decoded("send_packet", &[("seq", "1")], 4);
    assert!(!event_eq(&base, &decoded("send_packet", &[("seq", "2")], 4)));
    assert!(!event_eq(&base, &decoded("recv_packet", &[("seq", "1")], 4)));
    assert!(!event_eq(&base, &decoded("send_packet", &[("seq", "1")], 5)));
    let error_twin = ProtocolEventWithHeight {
        event: ProtocolEvent::ChainError {
            kind: "send_packet".to_string(),
            attributes: vec![attr("seq", "1")],
        },
        height: height(4),
    };
    assert!(!event_eq(&base, &error_twin));
    let out = dedup_events(&vec![base.clone(), error_twin.clone()]);
    assert_eq!(out.len(), 2);
}
