use vstd::prelude::*;
use vstd::string::StringExecFns;

use crate::ident::{valid_id, Height, Ident, Sequence};
use crate::strnum::{
    dec_chars, height_chars, height_seg, parse_dec, parse_height_seg, spec_parse_dec,
    spec_parse_height_seg, u64_to_dec,
};

verus! {

/// The structured address of a value in the chain's versioned key-value
/// store: an ordered sequence of path segments, rendered on the wire as a
/// slash-delimited string.  Immutable once constructed.
#[derive(Clone, Debug, PartialEq, Eq)]
pub struct StorageKey {
    pub segments: Vec<String>,
}

impl View for StorageKey {
    type V = Seq<Seq<char>>;

    open spec fn view(&self) -> Seq<Seq<char>> {
        Seq::new(self.segments@.len(), |i: int| self.segments@[i]@)
    }
}

impl StorageKey {
    /// Structural equality of two keys.
    pub fn key_eq(&self, other: &StorageKey) -> (r: bool)
        ensures
            r == (self@ =~~= other@),
    {
        if self.segments.len() != other.segments.len() {
            return false;
        }
        let n = self.segments.len();
        let mut i: usize = 0;
        while i < n
            invariant
                0 <= i <= n,
                n == self.segments@.len(),
                n == other.segments@.len(),
                forall|j: int| 0 <= j < i ==> self@[j] == #[trigger] other@[j],
            decreases n - i,
        {
            if !(self.segments[i] == other.segments[i]) {
                assert(self@[i as int] != other@[i as int]);
                return false;
            }
            assert(self@[i as int] == other@[i as int]);
            i += 1;
        }
        proof {
            assert(self@ =~~= other@);
        }
        true
    }

    /// Renders the key as its slash-delimited path string.
    pub fn to_text(&self) -> (r: String)
        ensures
            r@ == join_segments(self@),
    {
        let mut r = String::new();
        let n = self.segments.len();
        let mut i: usize = 0;
        while i < n
            invariant
                0 <= i <= n,
                n == self.segments@.len(),
                r@ == join_segments(self@.subrange(0, i as int)),
            decreases n - i,
        {
            proof {
                assert(self@.subrange(0, i + 1).drop_last() =~= self@.subrange(0, i as int));
                assert(self@.subrange(0, i + 1).last() == self@[i as int]);
                reveal_strlit("/");
                assert("/"@ =~= seq!['/']);
            }
            if i > 0 {
                r.append("/");
            }
            r.append(self.segments[i].as_str());
            proof {
                if i == 0 {
                    assert(self@.subrange(0, 1).len() == 1);
                    assert(r@ =~= join_segments(self@.subrange(0, i + 1)));
                } else {
                    assert(r@ =~= join_segments(self@.subrange(0, i + 1)));
                }
            }
            i += 1;
        }
        proof {
            assert(self@.subrange(0, n as int) =~= self@);
        }
        r
    }
}

/// The slash-delimited rendering of a key's segments.
pub open spec fn join_segments(k: Seq<Seq<char>>) -> Seq<char>
    decreases k.len(),
{
    if k.len() == 0 {
        Seq::empty()
    } else if k.len() == 1 {
        k[0]
    } else {
        join_segments(k.drop_last()) + seq!['/'] + k.last()
    }
}

/// True when `seg` is the literal `lit`.
fn seg_is(seg: &String, lit: &str) -> (r: bool)
    ensures
        r == (seg@ == lit@),
{
    let owned: String = lit.to_owned();
    *seg == owned
}

// ---------------------------------------------------------------------
// Spec-level key shapes, one per supported path kind.
// ---------------------------------------------------------------------
/// `clients/{client_id}/clientState`
pub open spec fn spec_client_state_key(id: Seq<char>) -> Seq<Seq<char>> {
    seq!["clients"@, id, "clientState"@]
}

/// `clients/{client_id}/consensusStates/{revision}-{height}`
pub open spec fn spec_consensus_state_key(id: Seq<char>, h: Height) -> Seq<Seq<char>> {
    seq!["clients"@, id, "consensusStates"@, height_chars(h.revision_number as nat, h.revision_height as nat)]
}

/// `connections/{connection_id}`
pub open spec fn spec_connection_key(id: Seq<char>) -> Seq<Seq<char>> {
    seq!["connections"@, id]
}

/// `channelEnds/ports/{port_id}/channels/{channel_id}`
pub open spec fn spec_channel_key(port: Seq<char>, channel: Seq<char>) -> Seq<Seq<char>> {
    seq!["channelEnds"@, "ports"@, port, "channels"@, channel]
}

/// `{family}/ports/{port_id}/channels/{channel_id}/sequences/{sequence}`
pub open spec fn spec_packet_key(family: Seq<char>, port: Seq<char>, channel: Seq<char>, s: nat) -> Seq<Seq<char>> {
    seq![family, "ports"@, port, "channels"@, channel, "sequences"@, dec_chars(s)]
}

/// `commitments/ports/{port_id}/channels/{channel_id}/sequences/{sequence}`
pub open spec fn spec_commitment_key(port: Seq<char>, channel: Seq<char>, s: nat) -> Seq<Seq<char>> {
    spec_packet_key("commitments"@, port, channel, s)
}

/// `receipts/ports/{port_id}/channels/{channel_id}/sequences/{sequence}`
pub open spec fn spec_receipt_key(port: Seq<char>, channel: Seq<char>, s: nat) -> Seq<Seq<char>> {
    spec_packet_key("receipts"@, port, channel, s)
}

/// `acks/ports/{port_id}/channels/{channel_id}/sequences/{sequence}`
pub open spec fn spec_ack_key(port: Seq<char>, channel: Seq<char>, s: nat) -> Seq<Seq<char>> {
    spec_packet_key("acks"@, port, channel, s)
}

/// `nextSequenceRecv/ports/{port_id}/channels/{channel_id}`
pub open spec fn spec_next_sequence_recv_key(port: Seq<char>, channel: Seq<char>) -> Seq<Seq<char>> {
    seq!["nextSequenceRecv"@, "ports"@, port, "channels"@, channel]
}

/// `{token}/balance/{owner}`
pub open spec fn spec_balance_key(token: Seq<char>, owner: Seq<char>) -> Seq<Seq<char>> {
    seq![token, "balance"@, owner]
}

/// `{token}/{sub_prefix..}/balance/{owner}`
pub open spec fn spec_multitoken_balance_key(
    token: Seq<char>,
    sub_prefix: Seq<Seq<char>>,
    owner: Seq<char>,
) -> Seq<Seq<char>> {
    seq![token] + sub_prefix + seq!["balance"@, owner]
}

// ---------------------------------------------------------------------
// Spec-level decoders: what key shapes each path kind accepts.
// Decoding a key of the wrong shape yields nothing — callers use that
// as a filter predicate during prefix scans, not as an error.
// ---------------------------------------------------------------------
/// The client id of a client-state key.
pub open spec fn spec_client_state_id(k: Seq<Seq<char>>) -> Option<Seq<char>> {
    if k.len() == 3 && k[0] == "clients"@ && k[2] == "clientState"@ && valid_id(k[1]) {
        Some(k[1])
    } else {
        None
    }
}

/// The client id and height of a consensus-state key.
pub open spec fn spec_consensus_state_parts(k: Seq<Seq<char>>) -> Option<(Seq<char>, Height)> {
    if k.len() == 4 && k[0] == "clients"@ && k[2] == "consensusStates"@ && valid_id(k[1]) {
        match spec_parse_height_seg(k[3]) {
            Some(p) => if p.1 >= 1 {
                Some((k[1], Height { revision_number: p.0 as u64, revision_height: p.1 as u64 }))
            } else {
                None
            },
            None => None,
        }
    } else {
        None
    }
}

/// The connection id of a connection key.
pub open spec fn spec_connection_id(k: Seq<Seq<char>>) -> Option<Seq<char>> {
    if k.len() == 2 && k[0] == "connections"@ && valid_id(k[1]) {
        Some(k[1])
    } else {
        None
    }
}

/// The port and channel ids of a channel-end key.
pub open spec fn spec_channel_parts(k: Seq<Seq<char>>) -> Option<(Seq<char>, Seq<char>)> {
    if k.len() == 5 && k[0] == "channelEnds"@ && k[1] == "ports"@ && k[3] == "channels"@
        && valid_id(k[2]) && valid_id(k[4]) {
        Some((k[2], k[4]))
    } else {
        None
    }
}

/// The port id, channel id and sequence of a key of the given packet family.
pub open spec fn spec_packet_parts(family: Seq<char>, k: Seq<Seq<char>>) -> Option<
    (Seq<char>, Seq<char>, nat),
> {
    if k.len() == 7 && k[0] == family && k[1] == "ports"@ && k[3] == "channels"@ && k[5]
        == "sequences"@ && valid_id(k[2]) && valid_id(k[4]) {
        match spec_parse_dec(k[6]) {
            Some(n) => Some((k[2], k[4], n)),
            None => None,
        }
    } else {
        None
    }
}

/// The port and channel ids of a next-sequence-receive key.
pub open spec fn spec_next_sequence_recv_parts(k: Seq<Seq<char>>) -> Option<
    (Seq<char>, Seq<char>),
> {
    if k.len() == 5 && k[0] == "nextSequenceRecv"@ && k[1] == "ports"@ && k[3] == "channels"@
        && valid_id(k[2]) && valid_id(k[4]) {
        Some((k[2], k[4]))
    } else {
        None
    }
}

/// The token and owner of a plain balance key.
pub open spec fn spec_balance_parts(k: Seq<Seq<char>>) -> Option<(Seq<char>, Seq<char>)> {
    if k.len() == 3 && k[1] == "balance"@ && valid_id(k[0]) && valid_id(k[2]) {
        Some((k[0], k[2]))
    } else {
        None
    }
}

/// The token, sub-prefix and owner of a multi-token balance key.
pub open spec fn spec_multitoken_balance_parts(k: Seq<Seq<char>>) -> Option<
    (Seq<char>, Seq<Seq<char>>, Seq<char>),
> {
    if k.len() >= 4 && k[k.len() - 2] == "balance"@ && valid_id(k[0]) && valid_id(k[k.len() - 1])
        && (forall|i: int| 1 <= i < k.len() - 2 ==> valid_id(#[trigger] k[i])) {
        Some((k[0], k.subrange(1, k.len() - 2), k[k.len() - 1]))
    } else {
        None
    }
}

// ---------------------------------------------------------------------
// Executable encoders.
// ---------------------------------------------------------------------
/// Builds the storage key of a client's state.
pub fn client_state_key(id: &Ident) -> (r: StorageKey)
    ensures
        r@ == spec_client_state_key(id@),
{
    let mut v: Vec<String> = Vec::new();
    v.push("clients".to_owned());
    v.push(id.to_text());
    v.push("clientState".to_owned());
    let r = StorageKey { segments: v };
    proof {
        assert(r@ =~= spec_client_state_key(id@));
    }
    r
}

/// Builds the storage key of one consensus state of a client.
pub fn consensus_state_key(id: &Ident, h: Height) -> (r: StorageKey)
    ensures
        r@ == spec_consensus_state_key(id@, h),
{
    let mut v: Vec<String> = Vec::new();
    v.push("clients".to_owned());
    v.push(id.to_text());
    v.push("consensusStates".to_owned());
    v.push(height_seg(h.revision_number, h.revision_height));
    let r = StorageKey { segments: v };
    proof {
        assert(r@ =~= spec_consensus_state_key(id@, h));
    }
    r
}

/// Builds the storage key of a connection end.
pub fn connection_key(id: &Ident) -> (r: StorageKey)
    ensures
        r@ == spec_connection_key(id@),
{
    let mut v: Vec<String> = Vec::new();
    v.push("connections".to_owned());
    v.push(id.to_text());
    let r = StorageKey { segments: v };
    proof {
        assert(r@ =~= spec_connection_key(id@));
    }
    r
}

/// Builds the storage key of a channel end.
pub fn channel_key(port: &Ident, channel: &Ident) -> (r: StorageKey)
    ensures
        r@ == spec_channel_key(port@, channel@),
{
    let mut v: Vec<String> = Vec::new();
    v.push("channelEnds".to_owned());
    v.push("ports".to_owned());
    v.push(port.to_text());
    v.push("channels".to_owned());
    v.push(channel.to_text());
    let r = StorageKey { segments: v };
    proof {
        assert(r@ =~= spec_channel_key(port@, channel@));
    }
    r
}

/// Builds a packet-family storage key: shared layout of commitments,
/// receipts and acknowledgements.
fn packet_key(family: &str, port: &Ident, channel: &Ident, s: Sequence) -> (r: StorageKey)
    ensures
        r@ == spec_packet_key(family@, port@, channel@, s.0 as nat),
{
    let mut v: Vec<String> = Vec::new();
    v.push(family.to_owned());
    v.push("ports".to_owned());
    v.push(port.to_text());
    v.push("channels".to_owned());
    v.push(channel.to_text());
    v.push("sequences".to_owned());
    v.push(u64_to_dec(s.0));
    let r = StorageKey { segments: v };
    proof {
        assert(r@ =~= spec_packet_key(family@, port@, channel@, s.0 as nat));
    }
    r
}

/// Builds the storage key of a packet commitment.
pub fn commitment_key(port: &Ident, channel: &Ident, s: Sequence) -> (r: StorageKey)
    ensures
        r@ == spec_commitment_key(port@, channel@, s.0 as nat),
{
    packet_key("commitments", port, channel, s)
}

/// Builds the storage key of a packet receipt.
pub fn receipt_key(port: &Ident, channel: &Ident, s: Sequence) -> (r: StorageKey)
    ensures
        r@ == spec_receipt_key(port@, channel@, s.0 as nat),
{
    packet_key("receipts", port, channel, s)
}

/// Builds the storage key of a packet acknowledgement.
pub fn ack_key(port: &Ident, channel: &Ident, s: Sequence) -> (r: StorageKey)
    ensures
        r@ == spec_ack_key(port@, channel@, s.0 as nat),
{
    packet_key("acks", port, channel, s)
}

/// Builds the storage key of a channel's next-sequence-receive counter.
pub fn next_sequence_recv_key(port: &Ident, channel: &Ident) -> (r: StorageKey)
    ensures
        r@ == spec_next_sequence_recv_key(port@, channel@),
{
    let mut v: Vec<String> = Vec::new();
    v.push("nextSequenceRecv".to_owned());
    v.push("ports".to_owned());
    v.push(port.to_text());
    v.push("channels".to_owned());
    v.push(channel.to_text());
    let r = StorageKey { segments: v };
    proof {
        assert(r@ =~= spec_next_sequence_recv_key(port@, channel@));
    }
    r
}

/// Builds the storage key of a plain token balance.
pub fn balance_key(token: &Ident, owner: &Ident) -> (r: StorageKey)
    ensures
        r@ == spec_balance_key(token@, owner@),
{
    let mut v: Vec<String> = Vec::new();
    v.push(token.to_text());
    v.push("balance".to_owned());
    v.push(owner.to_text());
    let r = StorageKey { segments: v };
    proof {
        assert(r@ =~= spec_balance_key(token@, owner@));
    }
    r
}

/// Builds the storage key of a multi-token balance, carrying the token's
/// sub-prefix between token and owner.
pub fn multitoken_balance_key(token: &Ident, sub_prefix: &Vec<Ident>, owner: &Ident) -> (r:
    StorageKey)
    ensures
        r@ == spec_multitoken_balance_key(
            token@,
            Seq::new(sub_prefix@.len(), |i: int| sub_prefix@[i]@),
            owner@,
        ),
{
    let mut v: Vec<String> = Vec::new();
    v.push(token.to_text());
    let n = sub_prefix.len();
    let mut i: usize = 0;
    while i < n
        invariant
            0 <= i <= n,
            n == sub_prefix@.len(),
            v@.len() == i + 1,
            v@[0]@ == token@,
            forall|j: int| 0 <= j < i ==> v@[j + 1]@ == #[trigger] sub_prefix@[j]@,
        decreases n - i,
    {
        v.push(sub_prefix[i].to_text());
        i += 1;
    }
    v.push("balance".to_owned());
    v.push(owner.to_text());
    let r = StorageKey { segments: v };
    proof {
        assert(r@ =~= spec_multitoken_balance_key(
            token@,
            Seq::new(sub_prefix@.len(), |i: int| sub_prefix@[i]@),
            owner@,
        ));
    }
    r
}

// ---------------------------------------------------------------------
// Counter keys and scan prefixes.
// ---------------------------------------------------------------------
/// `connections/counter`: the reserved sibling of the connections family.
pub fn connection_counter_key() -> (r: StorageKey)
    ensures
        r@ == seq!["connections"@, "counter"@],
{
    let mut v: Vec<String> = Vec::new();
    v.push("connections".to_owned());
    v.push("counter".to_owned());
    let r = StorageKey { segments: v };
    proof {
        assert(r@ =~= seq!["connections"@, "counter"@]);
    }
    r
}

/// `channelEnds/counter`: the reserved sibling of the channels family.
pub fn channel_counter_key() -> (r: StorageKey)
    ensures
        r@ == seq!["channelEnds"@, "counter"@],
{
    let mut v: Vec<String> = Vec::new();
    v.push("channelEnds".to_owned());
    v.push("counter".to_owned());
    let r = StorageKey { segments: v };
    proof {
        assert(r@ =~= seq!["channelEnds"@, "counter"@]);
    }
    r
}

/// One-segment scan prefix.
fn prefix1(seg: &str) -> (r: StorageKey)
    ensures
        r@ == seq![seg@],
{
    let mut v: Vec<String> = Vec::new();
    v.push(seg.to_owned());
    let r = StorageKey { segments: v };
    proof {
        assert(r@ =~= seq![seg@]);
    }
    r
}

/// The scan prefix of all client data.
pub fn clients_prefix() -> (r: StorageKey)
    ensures
        r@ == seq!["clients"@],
{
    prefix1("clients")
}

/// The scan prefix of all data of one client.
pub fn client_prefix(id: &Ident) -> (r: StorageKey)
    ensures
        r@ == seq!["clients"@, id@],
{
    let mut v: Vec<String> = Vec::new();
    v.push("clients".to_owned());
    v.push(id.to_text());
    let r = StorageKey { segments: v };
    proof {
        assert(r@ =~= seq!["clients"@, id@]);
    }
    r
}

/// The scan prefix of the connections family.
pub fn connections_prefix() -> (r: StorageKey)
    ensures
        r@ == seq!["connections"@],
{
    prefix1("connections")
}

/// The scan prefix of the channel-ends family.
pub fn channel_ends_prefix() -> (r: StorageKey)
    ensures
        r@ == seq!["channelEnds"@],
{
    prefix1("channelEnds")
}

/// The scan prefix of one channel's packet family.
fn packet_prefix(family: &str, port: &Ident, channel: &Ident) -> (r: StorageKey)
    ensures
        r@ == seq![family@, "ports"@, port@, "channels"@, channel@, "sequences"@],
{
    let mut v: Vec<String> = Vec::new();
    v.push(family.to_owned());
    v.push("ports".to_owned());
    v.push(port.to_text());
    v.push("channels".to_owned());
    v.push(channel.to_text());
    v.push("sequences".to_owned());
    let r = StorageKey { segments: v };
    proof {
        assert(r@ =~= seq![family@, "ports"@, port@, "channels"@, channel@, "sequences"@]);
    }
    r
}

/// The scan prefix of one channel's packet commitments.
pub fn commitments_prefix(port: &Ident, channel: &Ident) -> (r: StorageKey)
    ensures
        r@ == seq!["commitments"@, "ports"@, port@, "channels"@, channel@, "sequences"@],
{
    packet_prefix("commitments", port, channel)
}

/// The scan prefix of one channel's packet receipts.
pub fn receipts_prefix(port: &Ident, channel: &Ident) -> (r: StorageKey)
    ensures
        r@ == seq!["receipts"@, "ports"@, port@, "channels"@, channel@, "sequences"@],
{
    packet_prefix("receipts", port, channel)
}

/// The scan prefix of one channel's packet acknowledgements.
pub fn acks_prefix(port: &Ident, channel: &Ident) -> (r: StorageKey)
    ensures
        r@ == seq!["acks"@, "ports"@, port@, "channels"@, channel@, "sequences"@],
{
    packet_prefix("acks", port, channel)
}

/// The scan prefix of one token's balances.
pub fn balance_prefix(token: &Ident) -> (r: StorageKey)
    ensures
        r@ == seq![token@],
{
    let mut v: Vec<String> = Vec::new();
    v.push(token.to_text());
    let r = StorageKey { segments: v };
    proof {
        assert(r@ =~= seq![token@]);
    }
    r
}

// ---------------------------------------------------------------------
// Executable decoders.  A wrong-shape key yields `None`, which prefix
// scans use as a filter, not as an error.
// ---------------------------------------------------------------------
/// Reads the client id out of a client-state key.
pub fn decode_client_state_key(key: &StorageKey) -> (r: Option<Ident>)
    ensures
        r is Some <==> spec_client_state_id(key@) is Some,
        r is Some ==> Some(r->Some_0@) == spec_client_state_id(key@),
{
    if key.segments.len() != 3 {
        return None;
    }
    if !seg_is(&key.segments[0], "clients") {
        return None;
    }
    if !seg_is(&key.segments[2], "clientState") {
        return None;
    }
    Ident::new(key.segments[1].clone())
}

/// Reads the client id and height out of a consensus-state key.
pub fn decode_consensus_state_key(key: &StorageKey) -> (r: Option<(Ident, Height)>)
    ensures
        r is Some <==> spec_consensus_state_parts(key@) is Some,
        r is Some ==> Some((r->Some_0.0@, r->Some_0.1)) == spec_consensus_state_parts(key@),
{
    if key.segments.len() != 4 {
        return None;
    }
    if !seg_is(&key.segments[0], "clients") {
        return None;
    }
    if !seg_is(&key.segments[2], "consensusStates") {
        return None;
    }
    let id = match Ident::new(key.segments[1].clone()) {
        Some(id) => id,
        None => {
            return None;
        },
    };
    match parse_height_seg(key.segments[3].as_str()) {
        Some((rn, rh)) => {
            if rh >= 1 {
                Some((id, Height { revision_number: rn, revision_height: rh }))
            } else {
                None
            }
        },
        None => None,
    }
}

/// Reads the connection id out of a connection key.
pub fn decode_connection_key(key: &StorageKey) -> (r: Option<Ident>)
    ensures
        r is Some <==> spec_connection_id(key@) is Some,
        r is Some ==> Some(r->Some_0@) == spec_connection_id(key@),
{
    if key.segments.len() != 2 {
        return None;
    }
    if !seg_is(&key.segments[0], "connections") {
        return None;
    }
    Ident::new(key.segments[1].clone())
}

/// Reads the port and channel ids out of a channel-end key.
pub fn decode_channel_key(key: &StorageKey) -> (r: Option<(Ident, Ident)>)
    ensures
        r is Some <==> spec_channel_parts(key@) is Some,
        r is Some ==> Some((r->Some_0.0@, r->Some_0.1@)) == spec_channel_parts(key@),
{
    if key.segments.len() != 5 {
        return None;
    }
    if !seg_is(&key.segments[0], "channelEnds") {
        return None;
    }
    if !seg_is(&key.segments[1], "ports") {
        return None;
    }
    if !seg_is(&key.segments[3], "channels") {
        return None;
    }
    let port = match Ident::new(key.segments[2].clone()) {
        Some(p) => p,
        None => {
            return None;
        },
    };
    match Ident::new(key.segments[4].clone()) {
        Some(c) => Some((port, c)),
        None => None,
    }
}

/// Reads port, channel and sequence out of a packet-family key.
pub fn decode_packet_key_any(family: &str, key: &StorageKey) -> (r: Option<(Ident, Ident, Sequence)>)
    ensures
        r is Some <==> spec_packet_parts(family@, key@) is Some,
        r is Some ==> Some((r->Some_0.0@, r->Some_0.1@, r->Some_0.2.0 as nat))
            == spec_packet_parts(family@, key@),
{
    if key.segments.len() != 7 {
        return None;
    }
    if !seg_is(&key.segments[0], family) {
        return None;
    }
    if !seg_is(&key.segments[1], "ports") {
        return None;
    }
    if !seg_is(&key.segments[3], "channels") {
        return None;
    }
    if !seg_is(&key.segments[5], "sequences") {
        return None;
    }
    let port = match Ident::new(key.segments[2].clone()) {
        Some(p) => p,
        None => {
            return None;
        },
    };
    let channel = match Ident::new(key.segments[4].clone()) {
        Some(c) => c,
        None => {
            return None;
        },
    };
    match parse_dec(key.segments[6].as_str()) {
        Some(n) => Some((port, channel, Sequence(n))),
        None => None,
    }
}

/// Reads port, channel and sequence out of a packet-commitment key.
pub fn decode_commitment_key(key: &StorageKey) -> (r: Option<(Ident, Ident, Sequence)>)
    ensures
        r is Some <==> spec_packet_parts("commitments"@, key@) is Some,
        r is Some ==> Some((r->Some_0.0@, r->Some_0.1@, r->Some_0.2.0 as nat))
            == spec_packet_parts("commitments"@, key@),
{
    decode_packet_key_any("commitments", key)
}

/// Reads port, channel and sequence out of a packet-receipt key.
pub fn decode_receipt_key(key: &StorageKey) -> (r: Option<(Ident, Ident, Sequence)>)
    ensures
        r is Some <==> spec_packet_parts("receipts"@, key@) is Some,
        r is Some ==> Some((r->Some_0.0@, r->Some_0.1@, r->Some_0.2.0 as nat))
            == spec_packet_parts("receipts"@, key@),
{
    decode_packet_key_any("receipts", key)
}

/// Reads port, channel and sequence out of an acknowledgement key.
pub fn decode_ack_key(key: &StorageKey) -> (r: Option<(Ident, Ident, Sequence)>)
    ensures
        r is Some <==> spec_packet_parts("acks"@, key@) is Some,
        r is Some ==> Some((r->Some_0.0@, r->Some_0.1@, r->Some_0.2.0 as nat))
            == spec_packet_parts("acks"@, key@),
{
    decode_packet_key_any("acks", key)
}

/// Reads the port and channel ids out of a next-sequence-receive key.
pub fn decode_next_sequence_recv_key(key: &StorageKey) -> (r: Option<(Ident, Ident)>)
    ensures
        r is Some <==> spec_next_sequence_recv_parts(key@) is Some,
        r is Some ==> Some((r->Some_0.0@, r->Some_0.1@)) == spec_next_sequence_recv_parts(key@),
{
    if key.segments.len() != 5 {
        return None;
    }
    if !seg_is(&key.segments[0], "nextSequenceRecv") {
        return None;
    }
    if !seg_is(&key.segments[1], "ports") {
        return None;
    }
    if !seg_is(&key.segments[3], "channels") {
        return None;
    }
    let port = match Ident::new(key.segments[2].clone()) {
        Some(p) => p,
        None => {
            return None;
        },
    };
    match Ident::new(key.segments[4].clone()) {
        Some(c) => Some((port, c)),
        None => None,
    }
}

/// Reads the token and owner out of a plain balance key.
pub fn decode_balance_key(key: &StorageKey) -> (r: Option<(Ident, Ident)>)
    ensures
        r is Some <==> spec_balance_parts(key@) is Some,
        r is Some ==> Some((r->Some_0.0@, r->Some_0.1@)) == spec_balance_parts(key@),
{
    if key.segments.len() != 3 {
        return None;
    }
    if !seg_is(&key.segments[1], "balance") {
        return None;
    }
    let token = match Ident::new(key.segments[0].clone()) {
        Some(t) => t,
        None => {
            return None;
        },
    };
    match Ident::new(key.segments[2].clone()) {
        Some(o) => Some((token, o)),
        None => None,
    }
}

/// Reads token, sub-prefix and owner out of a multi-token balance key.
pub fn decode_multitoken_balance_key(key: &StorageKey) -> (r: Option<(Ident, Vec<Ident>, Ident)>)
    ensures
        r is Some <==> spec_multitoken_balance_parts(key@) is Some,
        r is Some ==> (spec_multitoken_balance_parts(key@) matches Some(p) && r->Some_0.0@ == p.0
            && Seq::new(r->Some_0.1@.len(), |i: int| r->Some_0.1@[i]@) == p.1
            && r->Some_0.2@ == p.2),
{
    let len = key.segments.len();
    if len < 4 {
        return None;
    }
    if !seg_is(&key.segments[len - 2], "balance") {
        return None;
    }
    let token = match Ident::new(key.segments[0].clone()) {
        Some(t) => t,
        None => {
            return None;
        },
    };
    let owner = match Ident::new(key.segments[len - 1].clone()) {
        Some(o) => o,
        None => {
            return None;
        },
    };
    let mut sub: Vec<Ident> = Vec::new();
    let mut i: usize = 1;
    while i < len - 2
        invariant
            1 <= i <= len - 2,
            4 <= len == key.segments@.len(),
            sub@.len() == i - 1,
            forall|j: int| 1 <= j < i ==> valid_id(#[trigger] key@[j]),
            forall|j: int| 0 <= j < i - 1 ==> sub@[j]@ == #[trigger] key@[j + 1],
        decreases len - i,
    {
        match Ident::new(key.segments[i].clone()) {
            Some(s) => {
                sub.push(s);
            },
            None => {
                proof {
                    assert(!valid_id(key@[i as int]));
                }
                return None;
            },
        }
        i += 1;
    }
    proof {
        let k = key@;
        let p = spec_multitoken_balance_parts(k);
        assert(p is Some);
        assert(Seq::new(sub@.len(), |i: int| sub@[i]@) =~= k.subrange(1, k.len() - 2));
    }
    Some((token, sub, owner))
}

// ---------------------------------------------------------------------
// Round-trip law: for every supported path kind, decoding a key built
// from an entity recovers exactly that entity.
// ---------------------------------------------------------------------
/// Round trip over the client-state path kind.
pub proof fn lemma_client_state_roundtrip(id: Seq<char>)
    requires
        valid_id(id),
    ensures
        spec_client_state_id(spec_client_state_key(id)) == Some(id),
{
}

/// Round trip over the consensus-state path kind.
pub proof fn lemma_consensus_state_roundtrip(id: Seq<char>, h: Height)
    requires
        valid_id(id),
        h.wf(),
    ensures
        spec_consensus_state_parts(spec_consensus_state_key(id, h)) == Some((id, h)),
{
    crate::strnum::lemma_parse_height_seg_roundtrip(h.revision_number, h.revision_height);
}

/// Round trip over the connection path kind.
pub proof fn lemma_connection_roundtrip(id: Seq<char>)
    requires
        valid_id(id),
    ensures
        spec_connection_id(spec_connection_key(id)) == Some(id),
{
}

/// Round trip over the channel-end path kind.
pub proof fn lemma_channel_roundtrip(port: Seq<char>, channel: Seq<char>)
    requires
        valid_id(port),
        valid_id(channel),
    ensures
        spec_channel_parts(spec_channel_key(port, channel)) == Some((port, channel)),
{
}

/// Round trip over the three packet path kinds (commitment, receipt,
/// acknowledgement), which share one layout.
pub proof fn lemma_packet_roundtrip(family: Seq<char>, port: Seq<char>, channel: Seq<char>, n: u64)
    requires
        valid_id(port),
        valid_id(channel),
    ensures
        spec_packet_parts(family, spec_packet_key(family, port, channel, n as nat)) == Some(
            (port, channel, n as nat),
        ),
{
    crate::strnum::lemma_dec_chars_canonical(n as nat);
    crate::strnum::lemma_dec_val_of_dec_chars(n as nat);
}

/// Round trip over the next-sequence-receive path kind.
pub proof fn lemma_next_sequence_recv_roundtrip(port: Seq<char>, channel: Seq<char>)
    requires
        valid_id(port),
        valid_id(channel),
    ensures
        spec_next_sequence_recv_parts(spec_next_sequence_recv_key(port, channel)) == Some(
            (port, channel),
        ),
{
}

/// Round trip over the plain token-balance path kind.
pub proof fn lemma_balance_roundtrip(token: Seq<char>, owner: Seq<char>)
    requires
        valid_id(token),
        valid_id(owner),
    ensures
        spec_balance_parts(spec_balance_key(token, owner)) == Some((token, owner)),
{
}

/// Round trip over the multi-token balance path kind.
pub proof fn lemma_multitoken_balance_roundtrip(
    token: Seq<char>,
    sub_prefix: Seq<Seq<char>>,
    owner: Seq<char>,
)
    requires
        valid_id(token),
        valid_id(owner),
        sub_prefix.len() >= 1,
        forall|i: int| 0 <= i < sub_prefix.len() ==> valid_id(#[trigger] sub_prefix[i]),
    ensures
        spec_multitoken_balance_parts(spec_multitoken_balance_key(token, sub_prefix, owner))
            == Some((token, sub_prefix, owner)),
{
    let k = spec_multitoken_balance_key(token, sub_prefix, owner);
    assert(k.len() == sub_prefix.len() + 3);
    assert(k[k.len() - 2] == "balance"@);
    assert(k[k.len() - 1] == owner);
    assert(k[0] == token);
    assert forall|i: int| 1 <= i < k.len() - 2 implies valid_id(#[trigger] k[i]) by {
        assert(k[i] == sub_prefix[i - 1]);
    }
    assert(k.subrange(1, k.len() - 2) =~= sub_prefix);
}

} // verus!
