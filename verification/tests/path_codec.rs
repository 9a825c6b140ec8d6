use namada_adapter::ident::{Height, Ident, Sequence};
use namada_adapter::path::{
    ack_key, balance_key, channel_counter_key, channel_key, client_state_key, commitment_key,
    connection_counter_key, connection_key, consensus_state_key, decode_ack_key,
    decode_balance_key, decode_channel_key, decode_client_state_key, decode_commitment_key,
    decode_connection_key, decode_consensus_state_key, decode_multitoken_balance_key,
    decode_next_sequence_recv_key, multitoken_balance_key, next_sequence_recv_key, receipt_key,
    decode_receipt_key, StorageKey,
};

fn ident(s: &str) -> Ident {
    Ident::new(s.to_string()).unwrap()
}

fn key(segments: &[&str]) -> StorageKey {
    StorageKey { segments: segments.iter().map(|s| s.to_string()).collect() }
}

#[test]
fn client_state_round_trip() {
    let id = ident("07-tendermint-0");
    let k = client_state_key(&id);
    assert_eq!(k.to_text(), "clients/07-tendermint-0/clientState");
    let back = decode_client_state_key(&k).unwrap();
    assert_eq!(back.as_string(), "07-tendermint-0");
}

#[test]
fn consensus_state_round_trip() {
    let id = ident("07-tendermint-3");
    let h = Height { revision_number: 2, revision_height: 145 };
    let k = consensus_state_key(&id, h);
    assert_eq!(k.to_text(), "clients/07-tendermint-3/consensusStates/2-145");
    let (back_id, back_h) = decode_consensus_state_key(&k).unwrap();
    assert_eq!(back_id.as_string(), "07-tendermint-3");
    assert_eq!(back_h, h);
}

#[test]
fn connection_round_trip() {
    let id = ident("connection-11");
    let k = connection_key(&id);
    assert_eq!(k.to_text(), "connections/connection-11");
    assert_eq!(decode_connection_key(&k).unwrap().as_string(), "connection-11");
}

#[test]
fn channel_round_trip() {
    let port = ident("transfer");
    let channel = ident("channel-4");
    let k = channel_key(&port, &channel);
    assert_eq!(k.to_text(), "channelEnds/ports/transfer/channels/channel-4");
    let (p, c) = decode_channel_key(&k).unwrap();
    assert_eq!(p.as_string(), "transfer");
    assert_eq!(c.as_string(), "channel-4");
}

#[test]
fn packet_families_round_trip() {
    let port = ident("transfer");
    let channel = ident("channel-0");
    let s = Sequence(9007199254740993);

    let k = commitment_key(&port, &channel, s);
    assert_eq!(
        k.to_text(),
        "commitments/ports/transfer/channels/channel-0/sequences/9007199254740993"
    );
    let (p, c, back) = decode_commitment_key(&k).unwrap();
    assert_eq!(p.as_string(), "transfer");
    assert_eq!(c.as_string(), "channel-0");
    assert_eq!(back, s);

    let k = receipt_key(&port, &channel, Sequence(0));
    assert_eq!(k.to_text(), "receipts/ports/transfer/channels/channel-0/sequences/0");
    assert_eq!(decode_receipt_key(&k).unwrap().2, Sequence(0));

    let k = ack_key(&port, &channel, Sequence(u64::MAX));
    assert_eq!(
        k.to_text(),
        "acks/ports/transfer/channels/channel-0/sequences/18446744073709551615"
    );
    assert_eq!(decode_ack_key(&k).unwrap().2, Sequence(u64::MAX));
}

#[test]
fn next_sequence_recv_round_trip() {
    let k = next_sequence_recv_key(&ident("transfer"), &ident("channel-2"));
    assert_eq!(k.to_text(), "nextSequenceRecv/ports/transfer/channels/channel-2");
    let (p, c) = decode_next_sequence_recv_key(&k).unwrap();
    assert_eq!(p.as_string(), "transfer");
    assert_eq!(c.as_string(), "channel-2");
}

#[test]
fn balance_round_trip() {
    let k = balance_key(&ident("#nam"), &ident("#alice"));
    assert_eq!(k.to_text(), "#nam/balance/#alice");
    let (t, o) = decode_balance_key(&k).unwrap();
    assert_eq!(t.as_string(), "#nam");
    assert_eq!(o.as_string(), "#alice");
}

#[test]
fn multitoken_balance_round_trip() {
    let sub = vec![ident("ibc"), ident("hashhash")];
    let k = multitoken_balance_key(&ident("#nam"), &sub, &ident("#bob"));
    assert_eq!(k.to_text(), "#nam/ibc/hashhash/balance/#bob");
    let (t, back_sub, o) = decode_multitoken_balance_key(&k).unwrap();
    assert_eq!(t.as_string(), "#nam");
    assert_eq!(back_sub.len(), 2);
    assert_eq!(back_sub[0].as_string(), "ibc");
    assert_eq!(back_sub[1].as_string(), "hashhash");
    assert_eq!(o.as_string(), "#bob");
}

#[test]
fn wrong_shape_keys_are_filtered_not_errors() {
    // Decoding a key of the wrong shape yields nothing: the caller's
    // filter predicate during prefix scans.
    let counter = connection_counter_key();
    assert_eq!(counter.to_text(), "connections/counter");
    assert!(decode_client_state_key(&counter).is_none());
    assert!(decode_channel_key(&counter).is_none());
    assert!(decode_commitment_key(&counter).is_none());

    assert!(decode_connection_key(&key(&["connections"])).is_none());
    assert!(decode_connection_key(&key(&["clients", "x"])).is_none());
    assert!(decode_client_state_key(&key(&["clients", "c-0", "clientType"])).is_none());
    // a non-canonical sequence segment is not a packet key
    assert!(
        decode_commitment_key(
            &key(&["commitments", "ports", "p", "channels", "c", "sequences", "007"])
        )
        .is_none()
    );
    // a zero block height is not a consensus-state key
    assert!(decode_consensus_state_key(&key(&["clients", "c-0", "consensusStates", "2-0"]))
        .is_none());
    assert_eq!(channel_counter_key().to_text(), "channelEnds/counter");
}

#[test]
fn identifier_validation() {
    assert!(Ident::new(String::new()).is_none());
    assert!(Ident::new("a/b".to_string()).is_none());
    assert!(Ident::new("héllo".to_string()).is_none());
    assert!(Ident::new("channel-0".to_string()).is_some());
}
