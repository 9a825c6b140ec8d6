use namada_adapter::error::{DecodeError, Error};
use namada_adapter::ident::{Height, Ident, Sequence};
use namada_adapter::merkle::{convert_proof, ProofOp, ProofOps};
use namada_adapter::path::{
    channel_counter_key, channel_key, client_state_key, commitment_key, connection_counter_key,
    connection_key, consensus_state_key, StorageKey,
};
use namada_adapter::path::{balance_key, multitoken_balance_key};
use namada_adapter::query::{
    ack_sequences_scan, application_status, balances_scan, block_height_admitted,
    bytes_to_string, chain_version, channels_scan, clients_scan, commitment_prefix,
    commitment_sequences_scan, connections_scan, consensus_heights_scan,
    filter_client_connections, filter_connection_channels, finish_query, first_connection_hop,
    decode_denom_value, parse_denom_trace, resolve_trusting_period, retained_sequences,
    token_hash_from_denom,
    unbonding_secs, unreceived_sequences, ChainStatus, ChannelSummary, ConnectionSummary,
};
use namada_adapter::requests::{IncludeProof, Qualified, QueryHeight};

fn ident(s: &str) -> Ident {
    Ident::new(s.to_string()).unwrap()
}

fn op(data: &[u8]) -> ProofOp {
    ProofOp { field_type: "ics23:iavl".to_string(), key: vec![1], data: data.to_vec() }
}

#[test]
fn missing_proof_is_a_hard_error_for_any_key() {
    // query at the latest height with a proof requested, but the backing
    // store returned none
    let r = finish_query(vec![1, 2, 3], None, IncludeProof::Yes);
    assert_eq!(r.unwrap_err(), Error::EmptyResponseProof);
}

#[test]
fn proofless_query_passes_data_through() {
    let r = finish_query(vec![1, 2, 3], None, IncludeProof::No).unwrap();
    assert_eq!(r.0, vec![1, 2, 3]);
    assert!(r.1.is_none());
    // a proof that came back unrequested is not attached either
    let ops = ProofOps { ops: vec![op(&[])] };
    let r = finish_query(vec![9], Some(ops), IncludeProof::No).unwrap();
    assert!(r.1.is_none());
}

#[test]
fn proof_ops_are_copied_field_for_field() {
    // an empty buffer is a well-formed (empty) commitment proof
    let ops = ProofOps { ops: vec![op(&[]), op(&[0x0a, 0x00])] };
    let r = finish_query(vec![5], Some(ops), IncludeProof::Yes).unwrap();
    let proof = r.1.unwrap();
    assert_eq!(proof.proofs, vec![vec![], vec![0x0a, 0x00]]);
}

#[test]
fn malformed_proof_op_fails_conversion() {
    // 0xff starts a field with an invalid wire type
    let ops = ProofOps { ops: vec![op(&[]), op(&[0xff, 0xff])] };
    assert_eq!(convert_proof(&ops).unwrap_err(), Error::ProofConversion);
    let ops = ProofOps { ops: vec![op(&[0xff, 0xff])] };
    let r = finish_query(vec![5], Some(ops), IncludeProof::Yes);
    assert_eq!(r.unwrap_err(), Error::ProofConversion);
}

fn entry(key: StorageKey, value: &[u8]) -> (StorageKey, Vec<u8>) {
    (key, value.to_vec())
}

#[test]
fn connections_scan_skips_the_counter_key() {
    let entries = vec![
        entry(connection_key(&ident("connection-0")), &[1]),
        entry(connection_counter_key(), &[9]),
        entry(connection_key(&ident("connection-1")), &[2]),
    ];
    let out = connections_scan(&entries).unwrap();
    assert_eq!(out.len(), 2);
    assert_eq!(out[0].0.as_string(), "connection-0");
    assert_eq!(out[0].1, vec![1]);
    assert_eq!(out[1].0.as_string(), "connection-1");
}

#[test]
fn channels_scan_skips_the_counter_key() {
    let entries = vec![
        entry(channel_counter_key(), &[0]),
        entry(channel_key(&ident("transfer"), &ident("channel-3")), &[7]),
    ];
    let out = channels_scan(&entries).unwrap();
    assert_eq!(out.len(), 1);
    assert_eq!(out[0].0 .0.as_string(), "transfer");
    assert_eq!(out[0].0 .1.as_string(), "channel-3");
    assert_eq!(out[0].1, vec![7]);
}

#[test]
fn malformed_family_key_is_an_error_not_a_skip() {
    let bad = StorageKey { segments: vec!["connections".to_string()] };
    let entries = vec![entry(bad, &[1])];
    assert_eq!(connections_scan(&entries).unwrap_err(), Error::MalformedKey);
}

#[test]
fn clients_scan_keeps_only_client_states() {
    let entries = vec![
        entry(client_state_key(&ident("c-0")), &[1]),
        entry(
            consensus_state_key(&ident("c-0"), Height { revision_number: 0, revision_height: 3 }),
            &[2],
        ),
        entry(client_state_key(&ident("c-1")), &[3]),
    ];
    let out = clients_scan(&entries).unwrap();
    assert_eq!(out.len(), 2);
    assert_eq!(out[0].0.as_string(), "c-0");
    assert_eq!(out[1].0.as_string(), "c-1");
}

#[test]
fn consensus_heights_scan_skips_foreign_keys() {
    let h1 = Height { revision_number: 0, revision_height: 3 };
    let h2 = Height { revision_number: 1, revision_height: 9 };
    let entries = vec![
        entry(client_state_key(&ident("c-0")), &[1]),
        entry(consensus_state_key(&ident("c-0"), h1), &[2]),
        entry(consensus_state_key(&ident("c-0"), h2), &[2]),
    ];
    assert_eq!(consensus_heights_scan(&entries), vec![h1, h2]);
}

#[test]
fn packet_scans_collect_sequences() {
    let p = ident("transfer");
    let c = ident("channel-0");
    let entries = vec![
        entry(commitment_key(&p, &c, Sequence(1)), &[1]),
        entry(commitment_key(&p, &c, Sequence(4)), &[1]),
    ];
    assert_eq!(commitment_sequences_scan(&entries).unwrap(), vec![Sequence(1), Sequence(4)]);
    assert!(ack_sequences_scan(&entries).is_err());
}

#[test]
fn unreceived_and_retained_filters() {
    let commitments = vec![Sequence(1), Sequence(2), Sequence(3), Sequence(4)];
    let received = vec![Sequence(2), Sequence(4), Sequence(9)];
    assert_eq!(unreceived_sequences(&commitments, &received), vec![Sequence(1), Sequence(3)]);
    let scanned = vec![Sequence(5), Sequence(6), Sequence(7)];
    let requested = vec![Sequence(7), Sequence(5)];
    assert_eq!(retained_sequences(&scanned, &requested), vec![Sequence(5), Sequence(7)]);
}

#[test]
fn connection_and_channel_filters() {
    let conns = vec![
        ConnectionSummary { connection_id: ident("connection-0"), client_id: ident("c-0") },
        ConnectionSummary { connection_id: ident("connection-1"), client_id: ident("c-1") },
        ConnectionSummary { connection_id: ident("connection-2"), client_id: ident("c-0") },
    ];
    let out = filter_client_connections(&conns, &ident("c-0"));
    assert_eq!(out.len(), 2);
    assert_eq!(out[0].as_string(), "connection-0");
    assert_eq!(out[1].as_string(), "connection-2");

    let chans = vec![
        ChannelSummary {
            port_id: ident("transfer"),
            channel_id: ident("channel-0"),
            connection_hops: vec![ident("connection-0")],
        },
        ChannelSummary {
            port_id: ident("transfer"),
            channel_id: ident("channel-1"),
            connection_hops: vec![ident("connection-1")],
        },
        ChannelSummary {
            port_id: ident("transfer"),
            channel_id: ident("channel-2"),
            connection_hops: vec![ident("connection-0"), ident("connection-1")],
        },
    ];
    let out = filter_connection_channels(&chans, &ident("connection-0"));
    assert_eq!(out.len(), 1);
    assert_eq!(out[0].1.as_string(), "channel-0");
}

#[test]
fn first_hop_of_a_channel() {
    let hops = vec![ident("connection-5"), ident("connection-6")];
    assert_eq!(first_connection_hop(&hops).unwrap().as_string(), "connection-5");
    assert_eq!(first_connection_hop(&Vec::new()).unwrap_err(), Error::Query);
}

#[test]
fn application_status_checks() {
    assert_eq!(application_status(2, 100, true, 7).unwrap_err(), Error::ChainNotCaughtUp);
    assert_eq!(application_status(2, 0, false, 7).unwrap_err(), Error::InvalidHeight);
    assert_eq!(
        application_status(2, 100, false, 7).unwrap(),
        ChainStatus {
            height: Height { revision_number: 2, revision_height: 100 },
            timestamp: 7
        }
    );
}

#[test]
fn chain_version_parses_the_trailing_number() {
    assert_eq!(chain_version("namada-test-2"), 2);
    assert_eq!(chain_version("mainnet"), 0);
    assert_eq!(chain_version("chain-x"), 0);
}

#[test]
fn denom_trace_splits_at_the_last_slash() {
    let t = parse_denom_trace("transfer/channel-0/uatom").unwrap();
    assert_eq!(t.path, "transfer/channel-0");
    assert_eq!(t.base_denom, "uatom");
    assert_eq!(parse_denom_trace("uatom").unwrap_err(), Error::Query);
}

#[test]
fn token_hash_needs_the_multitoken_prefix() {
    assert_eq!(token_hash_from_denom("ibc/abc123").unwrap().as_string(), "abc123");
    assert!(token_hash_from_denom("transfer/abc123").is_none());
    assert!(token_hash_from_denom("abc123").is_none());
    assert!(token_hash_from_denom("ibc/").is_none());
}

#[test]
fn text_decoding_goes_through_the_library() {
    assert_eq!(bytes_to_string(vec![0x75, 0x61, 0x74, 0x6f, 0x6d]).unwrap(), "uatom");
    assert!(bytes_to_string(vec![0xff, 0xfe]).is_none());
}

#[test]
fn fee_parameters() {
    assert_eq!(unbonding_secs(21, 86400), Some(21 * 86400));
    assert_eq!(unbonding_secs(u64::MAX, 2), None);
    assert_eq!(unbonding_secs(0, 5), Some(0));
    assert_eq!(resolve_trusting_period(Some(10), Some(20), 300), 10);
    assert_eq!(resolve_trusting_period(None, Some(20), 300), 20);
    assert_eq!(resolve_trusting_period(None, None, 300), 200);
}

#[test]
fn commitment_prefix_is_ibc() {
    assert_eq!(commitment_prefix(), b"ibc".to_vec());
}

#[test]
fn balances_scan_keeps_only_the_owner() {
    let nam = ident("#nam");
    let alice = ident("#alice");
    let bob = ident("#bob");
    let sub = vec![ident("ibc"), ident("hash0")];
    let amount = |n: u8| vec![n, 0, 0, 0, 0, 0, 0, 0];
    let entries = vec![
        entry(balance_key(&nam, &alice), &amount(5)),
        entry(balance_key(&nam, &bob), &amount(9)),
        entry(multitoken_balance_key(&nam, &sub, &alice), &amount(2)),
        entry(connection_counter_key(), &[1]),
    ];
    let out = balances_scan(&entries, &alice).unwrap();
    assert_eq!(out.len(), 2);
    assert_eq!(out[0].0.as_string(), "#nam");
    assert!(out[0].1.is_empty());
    assert_eq!(out[0].2, 5);
    assert_eq!(out[1].1.len(), 2);
    assert_eq!(out[1].2, 2);
    // an owner's balance that is not an 8-byte word fails decoding
    let entries = vec![entry(balance_key(&nam, &alice), &[5, 0])];
    assert!(matches!(balances_scan(&entries, &alice), Err(Error::Decode(_))));
}

#[test]
fn height_bound_admits_blocks_up_to_the_request() {
    let h = |n: u64| Height { revision_number: 0, revision_height: n };
    let bound = Qualified::SmallerEqual(QueryHeight::Specific(h(10)));
    assert!(block_height_admitted(&bound, h(9)));
    assert!(block_height_admitted(&bound, h(10)));
    assert!(!block_height_admitted(&bound, h(11)));
    let later_revision = Height { revision_number: 1, revision_height: 1 };
    assert!(!block_height_admitted(&bound, later_revision));
    let latest = Qualified::Equal(QueryHeight::Latest);
    assert!(block_height_admitted(&latest, h(1_000_000)));
}

#[test]
fn denom_value_decoding() {
    let t = decode_denom_value(b"transfer/channel-0/uatom".to_vec()).unwrap();
    assert_eq!(t.path, "transfer/channel-0");
    assert_eq!(t.base_denom, "uatom");
    assert_eq!(
        decode_denom_value(vec![0xff, 0xfe]).unwrap_err(),
        Error::Decode(DecodeError::Text)
    );
    assert_eq!(decode_denom_value(b"uatom".to_vec()).unwrap_err(), Error::Query);
}
