use vstd::prelude::*;

use crate::events::{clone_event, dedup_events, events_view, spec_dedup, ProtocolEvent,
    ProtocolEventWithHeight, EventAttribute};
use crate::ident::{Epoch, Height, Ident};
use crate::strnum::{dec_chars, u64_to_dec};
use crate::wire::{lemma_be_bytes_injective, lemma_be_bytes_roundtrip, lemma_pow256_8,
    spec_be_bytes, u64_be_bytes};

verus! {

/// The default gas limit of a wrapper transaction when the configuration
/// sets none.
pub const DEFAULT_MAX_GAS: u64 = 100_000;

/// The fixed backoff interval of the confirmation loop, in milliseconds.
/// Constant-interval polling, not exponential: downstream timing
/// assumptions depend on it.
pub const WAIT_BACKOFF_MILLIS: u64 = 300;

/// An outbound protocol message in the chain's wire format: a type url
/// and the message bytes.
#[derive(Clone, Debug, PartialEq, Eq)]
pub struct AnyMessage {
    pub type_url: String,
    pub value: Vec<u8>,
}

/// What encoding a protocol message to wire bytes yields; a function of
/// the two fields alone.
pub uninterp spec fn any_encoding(type_url: Seq<char>, value: Seq<u8>) -> Seq<u8>;

/// Relies on prost's protobuf encoding of `google.protobuf.Any` (the
/// prost-types message): deterministic in the two fields.
#[verifier::external_body]
fn encode_any(type_url: &String, value: &Vec<u8>) -> (r: Vec<u8>)
    ensures
        r@ == any_encoding(type_url@, value@),
{
    let any = prost_types::Any { type_url: type_url.clone(), value: value.clone() };
    prost::Message::encode_to_vec(&any)
}

/// Encodes an outbound protocol message into the chain's wire format.
pub fn encode_message(msg: &AnyMessage) -> (r: Vec<u8>)
    ensures
        r@ == any_encoding(msg.type_url@, msg.value@),
{
    encode_any(&msg.type_url, &msg.value)
}

/// The inner transaction: the fixed on-chain transaction bytecode for
/// the protocol's message-execution path, plus the encoded message.
#[derive(Clone, Debug, PartialEq, Eq)]
pub struct InnerTx {
    pub code: Vec<u8>,
    pub data: Vec<u8>,
}

/// An inner transaction together with the signature the wallet produced
/// over it.
#[derive(Clone, Debug, PartialEq, Eq)]
pub struct SignedTx {
    pub tx: InnerTx,
    pub signature: Vec<u8>,
}

/// The fee of a wrapper transaction.
#[derive(Clone, Debug, PartialEq, Eq)]
pub struct Fee {
    pub amount: u64,
    pub token: Ident,
}

/// The outer fee-paying envelope: fee, epoch, gas limit, and the signed
/// inner transaction.  Epoch and fee are read from current chain
/// parameters at construction time; an expired epoch invalidates the
/// wrapper atomically with the inner payload — both are rebuilt together.
#[derive(Clone, Debug, PartialEq, Eq)]
pub struct WrapperTx {
    pub fee: Fee,
    pub epoch: Epoch,
    pub gas_limit: u64,
    pub inner: SignedTx,
}

/// Builds the inner transaction from the transaction bytecode and an
/// encoded message.
pub fn build_inner_tx(code: Vec<u8>, msg: &AnyMessage) -> (r: InnerTx)
    ensures
        r.code@ == code@,
        r.data@ == any_encoding(msg.type_url@, msg.value@),
{
    let data = encode_message(msg);
    InnerTx { code, data }
}

/// The gas limit of a wrapper: the configured maximum, or the fixed
/// default when none is configured.
pub fn resolve_gas_limit(config_max_gas: Option<u64>) -> (r: u64)
    ensures
        config_max_gas is Some ==> r == config_max_gas->Some_0,
        config_max_gas is None ==> r == DEFAULT_MAX_GAS,
{
    match config_max_gas {
        Some(g) => g,
        None => DEFAULT_MAX_GAS,
    }
}

/// Constructs the wrapper transaction.  It embeds exactly the fee, the
/// epoch, the gas limit and the signed inner transaction it was given.
pub fn build_wrapper(fee: Fee, epoch: Epoch, gas_limit: u64, inner: SignedTx) -> (w: WrapperTx)
    ensures
        w.fee.amount == fee.amount,
        w.fee.token@ == fee.token@,
        w.epoch == epoch,
        w.gas_limit == gas_limit,
        w.inner.tx.code@ == inner.tx.code@,
        w.inner.tx.data@ == inner.tx.data@,
        w.inner.signature@ == inner.signature@,
{
    WrapperTx { fee, epoch, gas_limit, inner }
}

/// The canonical sign bytes of a wrapper: fee amount, epoch and gas
/// limit as fixed-width big-endian words, the fee token length-prefixed,
/// then the signed inner payload.  The wallet signs exactly these bytes.
pub open spec fn spec_wrapper_sign_bytes(
    amount: u64,
    epoch: u64,
    gas_limit: u64,
    token: Seq<u8>,
    payload: Seq<u8>,
) -> Seq<u8> {
    spec_be_bytes(amount as nat, 8) + spec_be_bytes(epoch as nat, 8) + spec_be_bytes(
        gas_limit as nat,
        8,
    ) + spec_be_bytes(token.len(), 8) + token + payload
}

/// Renders the sign bytes of a wrapper over the signed inner data.
pub fn wrapper_sign_bytes(w: &WrapperTx) -> (r: Vec<u8>)
    requires
        w.fee.token@.len() <= u64::MAX,
    ensures
        r@ == spec_wrapper_sign_bytes(
            w.fee.amount,
            w.epoch.0,
            w.gas_limit,
            crate::tx::token_bytes(w.fee.token@),
            w.inner.tx.data@,
        ),
{
    let mut r = u64_be_bytes(w.fee.amount, 8);
    let mut b2 = u64_be_bytes(w.epoch.0, 8);
    let mut b3 = u64_be_bytes(w.gas_limit, 8);
    let tok = ident_bytes(&w.fee.token);
    let mut b4 = u64_be_bytes(tok.len() as u64, 8);
    r.append(&mut b2);
    r.append(&mut b3);
    r.append(&mut b4);
    let mut tokv = tok;
    r.append(&mut tokv);
    let mut payload = clone_payload(&w.inner.tx.data);
    r.append(&mut payload);
    proof {
        assert(r@ =~= spec_wrapper_sign_bytes(
            w.fee.amount,
            w.epoch.0,
            w.gas_limit,
            token_bytes(w.fee.token@),
            w.inner.tx.data@,
        ));
    }
    r
}

/// The UTF-8 bytes of an identifier's text.
pub open spec fn token_bytes(s: Seq<char>) -> Seq<u8> {
    vstd::utf8::encode_utf8(s)
}

/// Renders an identifier's text as bytes.
fn ident_bytes(id: &Ident) -> (r: Vec<u8>)
    ensures
        r@ == token_bytes(id@),
{
    id.as_string().as_str().as_bytes_vec()
}

/// Copies a byte vector.
fn clone_payload(v: &Vec<u8>) -> (r: Vec<u8>)
    ensures
        r@ == v@,
{
    let mut r: Vec<u8> = Vec::new();
    let n = v.len();
    let mut i: usize = 0;
    while i < n
        invariant
            0 <= i <= n,
            n == v@.len(),
            r@ =~= v@.subrange(0, i as int),
        decreases n - i,
    {
        r.push(v[i]);
        proof {
            assert(r@ =~= v@.subrange(0, i + 1));
        }
        i += 1;
    }
    proof {
        assert(v@.subrange(0, n as int) =~= v@);
    }
    r
}

/// Law: the wrapper sign bytes pin every parameter — two wrappers sign
/// the same message only when fee amount, epoch, gas limit, fee token
/// and inner payload all agree.  Changing any one of them changes the
/// signed message, and with it the signature the wallet produces.
pub proof fn lemma_sign_bytes_injective(
    a1: u64,
    e1: u64,
    g1: u64,
    t1: Seq<u8>,
    p1: Seq<u8>,
    a2: u64,
    e2: u64,
    g2: u64,
    t2: Seq<u8>,
    p2: Seq<u8>,
)
    requires
        spec_wrapper_sign_bytes(a1, e1, g1, t1, p1) == spec_wrapper_sign_bytes(a2, e2, g2, t2, p2),
        t1.len() <= u64::MAX,
        t2.len() <= u64::MAX,
    ensures
        a1 == a2,
        e1 == e2,
        g1 == g2,
        t1 == t2,
        p1 == p2,
{
    lemma_pow256_8();
    lemma_be_bytes_roundtrip(a1 as nat, 8);
    lemma_be_bytes_roundtrip(a2 as nat, 8);
    lemma_be_bytes_roundtrip(e1 as nat, 8);
    lemma_be_bytes_roundtrip(e2 as nat, 8);
    lemma_be_bytes_roundtrip(g1 as nat, 8);
    lemma_be_bytes_roundtrip(g2 as nat, 8);
    lemma_be_bytes_roundtrip(t1.len(), 8);
    lemma_be_bytes_roundtrip(t2.len(), 8);
    let s1 = spec_wrapper_sign_bytes(a1, e1, g1, t1, p1);
    let s2 = spec_wrapper_sign_bytes(a2, e2, g2, t2, p2);
    assert(s1.len() == 32 + t1.len() + p1.len());
    assert(s2.len() == 32 + t2.len() + p2.len());
    assert(s1.subrange(0, 8) =~= spec_be_bytes(a1 as nat, 8));
    assert(s2.subrange(0, 8) =~= spec_be_bytes(a2 as nat, 8));
    lemma_be_bytes_injective(a1 as nat, a2 as nat, 8);
    assert(s1.subrange(8, 16) =~= spec_be_bytes(e1 as nat, 8));
    assert(s2.subrange(8, 16) =~= spec_be_bytes(e2 as nat, 8));
    lemma_be_bytes_injective(e1 as nat, e2 as nat, 8);
    assert(s1.subrange(16, 24) =~= spec_be_bytes(g1 as nat, 8));
    assert(s2.subrange(16, 24) =~= spec_be_bytes(g2 as nat, 8));
    lemma_be_bytes_injective(g1 as nat, g2 as nat, 8);
    assert(s1.subrange(24, 32) =~= spec_be_bytes(t1.len(), 8));
    assert(s2.subrange(24, 32) =~= spec_be_bytes(t2.len(), 8));
    lemma_be_bytes_injective(t1.len(), t2.len(), 8);
    assert(t1.len() == t2.len());
    assert(s1.subrange(32, 32 + t1.len() as int) =~= t1);
    assert(s2.subrange(32, 32 + t2.len() as int) =~= t2);
    assert(t1 == t2);
    assert(s1.subrange(32 + t1.len() as int, s1.len() as int) =~= p1);
    assert(s2.subrange(32 + t2.len() as int, s2.len() as int) =~= p2);
    assert(p1 == p2);
}

// ---------------------------------------------------------------------
// The commit-confirmation state machine.
// ---------------------------------------------------------------------
/// The state of one submitted transaction: pending until its committed
/// effects are found, then resolved.
#[derive(Clone, Copy, Debug, PartialEq, Eq, Structural)]
pub enum TxStatus {
    Pending { message_count: usize },
    ReceivedResponse,
}

/// A normalized broadcast response.
#[derive(Clone, Debug, PartialEq, Eq)]
pub struct TxResponse {
    pub code: u32,
    pub data: Vec<u8>,
    pub log: String,
    pub hash: Vec<u8>,
}

impl View for TxResponse {
    type V = (u32, Seq<u8>, Seq<char>, Seq<u8>);

    open spec fn view(&self) -> (u32, Seq<u8>, Seq<char>, Seq<u8>) {
        (self.code, self.data@, self.log@, self.hash@)
    }
}

/// One submitted transaction tracked by the confirmation loop: its
/// broadcast response, its accumulated protocol events, and its state.
#[derive(Clone, Debug, PartialEq, Eq)]
pub struct TxSyncResult {
    pub response: TxResponse,
    pub events: Vec<ProtocolEventWithHeight>,
    pub status: TxStatus,
}

impl View for TxSyncResult {
    type V = (
        (u32, Seq<u8>, Seq<char>, Seq<u8>),
        Seq<((bool, Seq<char>, Seq<(Seq<char>, Seq<char>)>), Height)>,
        TxStatus,
    );

    open spec fn view(&self) -> (
        (u32, Seq<u8>, Seq<char>, Seq<u8>),
        Seq<((bool, Seq<char>, Seq<(Seq<char>, Seq<char>)>), Height)>,
        TxStatus,
    ) {
        (self.response@, events_view(self.events@), self.status)
    }
}

/// The placeholder event of a freshly broadcast transaction: a
/// chain-error event carrying the response's code and log, tagged at the
/// chain's first block height, to be replaced once the transaction's
/// real effects are found.
pub fn placeholder_sync_result(chain_version: u64, response: TxResponse) -> (r: TxSyncResult)
    ensures
        r.status == (TxStatus::Pending { message_count: 1 as usize }),
        r.response@ == response@,
        events_view(r.events@) =~~= seq![
            (
                (
                    true,
                    "check_tx"@,
                    seq![("code"@, dec_chars(response.code as nat)), ("log"@, response.log@)],
                ),
                Height { revision_number: chain_version, revision_height: 1 },
            ),
        ],
{
    let code_text = u64_to_dec(response.code as u64);
    let log_text = response.log.clone();
    let mut attributes: Vec<EventAttribute> = Vec::new();
    attributes.push(EventAttribute { key: "code".to_owned(), value: code_text });
    attributes.push(EventAttribute { key: "log".to_owned(), value: log_text });
    let event = ProtocolEventWithHeight {
        event: ProtocolEvent::ChainError { kind: "check_tx".to_owned(), attributes },
        height: Height { revision_number: chain_version, revision_height: 1 },
    };
    let mut events: Vec<ProtocolEventWithHeight> = Vec::new();
    events.push(event);
    let r = TxSyncResult { response, events, status: TxStatus::Pending { message_count: 1 } };
    proof {
        assert(events_view(r.events@) =~~= seq![
            (
                (
                    true,
                    "check_tx"@,
                    seq![("code"@, dec_chars(r.response.code as nat)), ("log"@, r.response.log@)],
                ),
                Height { revision_number: chain_version, revision_height: 1 },
            ),
        ]);
    }
    r
}

/// True when every tracked result has left the pending state.
pub open spec fn spec_all_found(results: Seq<TxSyncResult>) -> bool {
    forall|i: int| 0 <= i < results.len() ==> #[trigger] results[i].status is ReceivedResponse
}

/// True when every tracked transaction has been resolved.
pub fn all_tx_results_found(results: &Vec<TxSyncResult>) -> (r: bool)
    ensures
        r == spec_all_found(results@),
{
    let n = results.len();
    let mut i: usize = 0;
    while i < n
        invariant
            0 <= i <= n,
            n == results@.len(),
            forall|j: int| 0 <= j < i ==> #[trigger] results@[j].status is ReceivedResponse,
        decreases n - i,
    {
        match results[i].status {
            TxStatus::Pending { .. } => {
                return false;
            },
            TxStatus::ReceivedResponse => {},
        }
        i += 1;
    }
    true
}

/// Records one poll's outcome for one tracked transaction.
///
/// A pending transaction whose search returned events takes those events
/// — decoded effects replace the placeholder — and resolves.  An empty
/// search result, or a transaction already resolved, changes nothing.
pub fn apply_search_result(result: &mut TxSyncResult, events: Vec<ProtocolEventWithHeight>)
    ensures
        old(result).status is Pending && events@.len() > 0 ==> final(result)@ == (
            old(result).response@,
            events_view(events@),
            TxStatus::ReceivedResponse,
        ),
        !(old(result).status is Pending && events@.len() > 0) ==> final(result)@ == old(result)@,
{
    let is_pending = matches!(result.status, TxStatus::Pending { .. });
    if is_pending && events.len() > 0 {
        result.events = events;
        result.status = TxStatus::ReceivedResponse;
    }
}

/// What the confirmation loop does next.
#[derive(Clone, Copy, Debug, PartialEq, Eq, Structural)]
pub enum LoopStep {
    /// Every result has resolved: return them.
    AllConfirmed,
    /// Some result is still pending and the deadline has passed: fail
    /// with the confirmation-timeout error.
    TimedOut,
    /// Some result is still pending: sleep one backoff interval and poll
    /// again.
    Poll,
}

/// Decides one iteration of the confirmation loop.
///
/// Resolution is checked before the deadline, so a batch that resolved
/// just in time is returned even when the deadline has passed.
pub fn confirmation_decision(results: &Vec<TxSyncResult>, elapsed_ms: u64, timeout_ms: u64) -> (r:
    LoopStep)
    ensures
        spec_all_found(results@) ==> r == LoopStep::AllConfirmed,
        !spec_all_found(results@) && elapsed_ms > timeout_ms ==> r == LoopStep::TimedOut,
        !spec_all_found(results@) && elapsed_ms <= timeout_ms ==> r == LoopStep::Poll,
{
    if all_tx_results_found(results) {
        LoopStep::AllConfirmed
    } else if elapsed_ms > timeout_ms {
        LoopStep::TimedOut
    } else {
        LoopStep::Poll
    }
}

/// What the loop returns at a step: nothing while it keeps polling, or
/// the final verdict — success, or the confirmation-timeout error that
/// callers can tell apart from transport errors when deciding whether to
/// resubmit.
pub fn confirmation_verdict(step: LoopStep) -> (r: Option<Result<(), crate::error::Error>>)
    ensures
        step is AllConfirmed ==> r == Some(Ok::<(), crate::error::Error>(())),
        step is TimedOut ==> r == Some(
            Err::<(), crate::error::Error>(crate::error::Error::TxNoConfirmation),
        ),
        step is Poll ==> r is None,
{
    match step {
        LoopStep::AllConfirmed => Some(Ok(())),
        LoopStep::TimedOut => Some(Err(crate::error::Error::TxNoConfirmation)),
        LoopStep::Poll => None,
    }
}

/// The events of all results, flattened in result order.
pub open spec fn spec_flatten(results: Seq<TxSyncResult>) -> Seq<
    ((bool, Seq<char>, Seq<(Seq<char>, Seq<char>)>), Height),
>
    decreases results.len(),
{
    if results.len() == 0 {
        Seq::empty()
    } else {
        spec_flatten(results.drop_last()) + events_view(results.last().events@)
    }
}

/// Flattens all results' events into one list, in result order.
pub fn flatten_events(results: &Vec<TxSyncResult>) -> (r: Vec<ProtocolEventWithHeight>)
    ensures
        events_view(r@) == spec_flatten(results@),
{
    let mut out: Vec<ProtocolEventWithHeight> = Vec::new();
    let n = results.len();
    let mut i: usize = 0;
    while i < n
        invariant
            0 <= i <= n,
            n == results@.len(),
            events_view(out@) == spec_flatten(results@.subrange(0, i as int)),
        decreases n - i,
    {
        proof {
            assert(results@.subrange(0, i + 1).drop_last() =~= results@.subrange(0, i as int));
            assert(results@.subrange(0, i + 1).last() == results@[i as int]);
        }
        let m = results[i].events.len();
        let mut j: usize = 0;
        while j < m
            invariant
                0 <= j <= m,
                0 <= i < n,
                n == results@.len(),
                m == results@[i as int].events@.len(),
                events_view(out@) == spec_flatten(results@.subrange(0, i as int)) + events_view(
                    results@[i as int].events@.subrange(0, j as int),
                ),
            decreases m - j,
        {
            let ghost pre = events_view(out@);
            out.push(clone_event(&results[i].events[j]));
            proof {
                assert(events_view(out@) =~= pre.push(results@[i as int].events@[j as int]@));
                assert(events_view(results@[i as int].events@.subrange(0, j + 1)) =~= events_view(
                    results@[i as int].events@.subrange(0, j as int),
                ).push(results@[i as int].events@[j as int]@));
                assert(events_view(out@) =~= spec_flatten(results@.subrange(0, i as int))
                    + events_view(results@[i as int].events@.subrange(0, j + 1)));
            }
            j += 1;
        }
        proof {
            assert(results@[i as int].events@.subrange(
                0,
                results@[i as int].events@.len() as int,
            ) =~= results@[i as int].events@);
            assert(events_view(out@) =~= spec_flatten(results@.subrange(0, i + 1)));
        }
        i += 1;
    }
    proof {
        assert(results@.subrange(0, n as int) =~= results@);
        assert(events_view(out@) =~= spec_flatten(results@));
    }
    out
}

/// The events a finished batch hands upward: all results' events
/// flattened in result order, then deduplicated by structural equality,
/// first-seen order preserved.
pub fn commit_events(results: &Vec<TxSyncResult>) -> (r: Vec<ProtocolEventWithHeight>)
    ensures
        events_view(r@) == spec_dedup(spec_flatten(results@)),
{
    let flat = flatten_events(results);
    dedup_events(&flat)
}

} // verus!
