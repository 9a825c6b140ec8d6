use vstd::prelude::*;
use vstd::string::StrSliceExecFns;

use crate::error::{DecodeError, Error};
use crate::ident::{Height, Ident, Sequence};
use crate::merkle::{convert_proof, ops_view, spec_translate, MerkleProof, ProofOps};
use crate::path::StorageKey;
use crate::requests::IncludeProof;
use crate::strnum::{
    lemma_split_first_at, lemma_split_first_none, lemma_split_last_at, lemma_split_last_none,
    parse_dec, spec_parse_dec, split_first, split_last,
};
use crate::wire::{be_bytes_val, le_bytes_val, read_u64_be, read_u64_le};

verus! {

/// Resolves a point query's raw response.
///
/// When a proof was requested, its absence is a hard error
/// (`EmptyResponseProof`), never a silent omission; a present proof is
/// translated to the canonical form.  Without a proof request the data
/// passes through untouched.
pub fn finish_query(data: Vec<u8>, response_proof: Option<ProofOps>, include_proof: IncludeProof)
    -> (r: Result<(Vec<u8>, Option<MerkleProof>), Error>)
    ensures
        include_proof is No ==> r is Ok && r->Ok_0.0@ == data@ && r->Ok_0.1 is None,
        include_proof is Yes && response_proof is None ==> r is Err && r->Err_0
            == Error::EmptyResponseProof,
        include_proof is Yes && response_proof is Some && spec_translate(
            ops_view(response_proof->Some_0.ops@),
        ) is Some ==> r is Ok && r->Ok_0.0@ == data@ && r->Ok_0.1 is Some
            && r->Ok_0.1->Some_0@ == spec_translate(
            ops_view(response_proof->Some_0.ops@),
        )->Some_0,
        include_proof is Yes && response_proof is Some && spec_translate(
            ops_view(response_proof->Some_0.ops@),
        ) is None ==> r is Err && r->Err_0 == Error::ProofConversion,
{
    match include_proof {
        IncludeProof::No => Ok((data, None)),
        IncludeProof::Yes => match response_proof {
            None => Err(Error::EmptyResponseProof),
            Some(ops) => match convert_proof(&ops) {
                Ok(m) => Ok((data, Some(m))),
                Err(e) => Err(e),
            },
        },
    }
}

/// Decodes a next-sequence-receive value: an 8-byte big-endian integer.
/// Any other length is a length-mismatch decode error.
pub fn decode_sequence(value: &Vec<u8>) -> (r: Result<Sequence, Error>)
    ensures
        value@.len() == 8 ==> r is Ok && r->Ok_0.0 as nat == be_bytes_val(value@),
        value@.len() != 8 ==> r is Err && r->Err_0 == Error::Decode(
            DecodeError::LengthMismatch { expected: 8, actual: value@.len() as usize },
        ),
{
    match read_u64_be(value) {
        Some(n) => Ok(Sequence(n)),
        None => Err(
            Error::Decode(DecodeError::LengthMismatch { expected: 8, actual: value.len() }),
        ),
    }
}

/// Decodes a token amount: an 8-byte little-endian integer.  Any other
/// length is a length-mismatch decode error.
pub fn decode_amount(value: &Vec<u8>) -> (r: Result<u64, Error>)
    ensures
        value@.len() == 8 ==> r is Ok && r->Ok_0 as nat == le_bytes_val(value@),
        value@.len() != 8 ==> r is Err && r->Err_0 == Error::Decode(
            DecodeError::LengthMismatch { expected: 8, actual: value@.len() as usize },
        ),
{
    match read_u64_le(value) {
        Some(n) => Ok(n),
        None => Err(
            Error::Decode(DecodeError::LengthMismatch { expected: 8, actual: value.len() }),
        ),
    }
}

/// The chain's commitment prefix: the ASCII bytes of `ibc`.
pub fn commitment_prefix() -> (r: Vec<u8>)
    ensures
        r@ == seq![105u8, 98u8, 99u8],
{
    let mut v: Vec<u8> = Vec::new();
    v.push(105);
    v.push(98);
    v.push(99);
    proof {
        assert(v@ =~= seq![105u8, 98u8, 99u8]);
    }
    v
}

/// The status of the chain as the relayer sees it.
#[derive(Clone, Copy, Debug, PartialEq, Eq, Structural)]
pub struct ChainStatus {
    pub height: Height,
    /// The latest block time, in nanoseconds.
    pub timestamp: u64,
}

/// The revision number carried in a chain id of the form
/// `{name}-{revision}`: the value of the canonical decimal after the last
/// dash, and zero when there is none.
pub open spec fn spec_chain_version(s: Seq<char>) -> nat {
    match split_last(s, '-') {
        Some(p) => match spec_parse_dec(p.1) {
            Some(v) => v,
            None => 0,
        },
        None => 0,
    }
}

/// Reads the revision number out of a chain id.
pub fn chain_version(chain_id: &str) -> (r: u64)
    ensures
        r as nat == spec_chain_version(chain_id@),
{
    let len = chain_id.unicode_len();
    let mut j: usize = len;
    while j > 0
        invariant
            0 <= j <= len,
            len == chain_id@.len(),
            forall|k: int| j <= k < len ==> #[trigger] chain_id@[k] != '-',
        decreases j,
    {
        if chain_id.get_char(j - 1) == '-' {
            let right = chain_id.substring_char(j, len);
            proof {
                let left = chain_id@.subrange(0, j - 1);
                assert(chain_id@ =~= left + seq!['-'] + right@);
                lemma_split_last_at(left, right@, '-');
            }
            match parse_dec(right) {
                Some(v) => {
                    return v;
                },
                None => {
                    return 0;
                },
            }
        }
        j -= 1;
    }
    proof {
        lemma_split_last_none(chain_id@, '-');
    }
    0
}

/// Builds the chain status from what the node reported.
///
/// A node that is still catching up cannot serve queries; a zero height
/// is not a valid block height.
pub fn application_status(chain_version: u64, latest_block_height: u64, catching_up: bool, timestamp: u64)
    -> (r: Result<ChainStatus, Error>)
    ensures
        catching_up ==> r is Err && r->Err_0 == Error::ChainNotCaughtUp,
        !catching_up && latest_block_height == 0 ==> r is Err && r->Err_0 == Error::InvalidHeight,
        !catching_up && latest_block_height >= 1 ==> r is Ok && r->Ok_0 == (ChainStatus {
            height: Height { revision_number: chain_version, revision_height: latest_block_height },
            timestamp,
        }),
{
    if catching_up {
        return Err(Error::ChainNotCaughtUp);
    }
    match Height::new(chain_version, latest_block_height) {
        Some(height) => Ok(ChainStatus { height, timestamp }),
        None => Err(Error::InvalidHeight),
    }
}

/// A token denomination split into its trace path and base denomination.
#[derive(Clone, Debug, PartialEq, Eq)]
pub struct DenomTrace {
    pub path: String,
    pub base_denom: String,
}

/// Splits a denomination at its last `/` into trace path and base
/// denomination; a denomination without a path is an error.
pub fn parse_denom_trace(denom: &str) -> (r: Result<DenomTrace, Error>)
    ensures
        split_last(denom@, '/') is Some ==> r is Ok && Some(
            (r->Ok_0.path@, r->Ok_0.base_denom@),
        ) == split_last(denom@, '/'),
        split_last(denom@, '/') is None ==> r is Err && r->Err_0 == Error::Query,
{
    let len = denom.unicode_len();
    let mut j: usize = len;
    while j > 0
        invariant
            0 <= j <= len,
            len == denom@.len(),
            forall|k: int| j <= k < len ==> #[trigger] denom@[k] != '/',
        decreases j,
    {
        if denom.get_char(j - 1) == '/' {
            let left = denom.substring_char(0, j - 1);
            let right = denom.substring_char(j, len);
            proof {
                assert(denom@ =~= left@ + seq!['/'] + right@);
                lemma_split_last_at(left@, right@, '/');
            }
            return Ok(DenomTrace { path: left.to_owned(), base_denom: right.to_owned() });
        }
        j -= 1;
    }
    proof {
        lemma_split_last_none(denom@, '/');
    }
    Err(Error::Query)
}

/// The token hash of a hashed denomination of the form `ibc/{hash}`:
/// everything after the first `/` when the part before it is `ibc` and
/// the hash is a well-formed identifier.
pub open spec fn spec_token_hash(s: Seq<char>) -> Option<Seq<char>> {
    match split_first(s, '/') {
        Some(p) => if p.0 == "ibc"@ && crate::ident::valid_id(p.1) {
            Some(p.1)
        } else {
            None
        },
        None => None,
    }
}

/// Reads the token hash out of a hashed denomination.
pub fn token_hash_from_denom(denom: &str) -> (r: Option<Ident>)
    ensures
        r is Some <==> spec_token_hash(denom@) is Some,
        r is Some ==> Some(r->Some_0@) == spec_token_hash(denom@),
{
    let len = denom.unicode_len();
    let mut i: usize = 0;
    while i < len
        invariant
            0 <= i <= len,
            len == denom@.len(),
            forall|k: int| 0 <= k < i ==> #[trigger] denom@[k] != '/',
        decreases len - i,
    {
        if denom.get_char(i) == '/' {
            let left = denom.substring_char(0, i);
            let right = denom.substring_char(i + 1, len);
            proof {
                assert(denom@ =~= left@ + seq!['/'] + right@);
                lemma_split_first_at(left@, right@, '/');
            }
            if !crate::ident::text_is(&left.to_owned(), "ibc") {
                return None;
            }
            return Ident::new(right.to_owned());
        }
        i += 1;
    }
    proof {
        lemma_split_first_none(denom@, '/');
    }
    None
}

/// The storage key holding the original denomination of a hashed token.
pub fn denom_key(hash: &Ident) -> (r: crate::path::StorageKey)
    ensures
        r@ == seq!["denom"@, hash@],
{
    let mut v: Vec<String> = Vec::new();
    v.push("denom".to_owned());
    v.push(hash.to_text());
    let r = crate::path::StorageKey { segments: v };
    proof {
        assert(r@ =~= seq!["denom"@, hash@]);
    }
    r
}

/// What decoding a byte string as text yields; decided by the bytes alone.
pub uninterp spec fn utf8_chars(bytes: Seq<u8>) -> Option<Seq<char>>;

/// Relies on std's `String::from_utf8`: whether the bytes are valid
/// UTF-8, and the text they decode to, depend on the bytes alone.
#[verifier::external_body]
pub fn bytes_to_string(bytes: Vec<u8>) -> (r: Option<String>)
    ensures
        r is Some <==> utf8_chars(bytes@) is Some,
        r is Some ==> Some(r->Some_0@) == utf8_chars(bytes@),
{
    String::from_utf8(bytes).ok()
}

/// Decodes the raw value of a denomination key: the bytes must be text,
/// and the text must split at a `/` into trace path and base
/// denomination.
pub fn decode_denom_value(value: Vec<u8>) -> (r: Result<DenomTrace, Error>)
    ensures
        utf8_chars(value@) is None ==> r is Err && r->Err_0 == Error::Decode(DecodeError::Text),
        utf8_chars(value@) matches Some(text) ==> (split_last(text, '/') is Some ==> r is Ok
            && Some((r->Ok_0.path@, r->Ok_0.base_denom@)) == split_last(text, '/')),
        utf8_chars(value@) matches Some(text) ==> (split_last(text, '/') is None ==> r is Err
            && r->Err_0 == Error::Query),
{
    match bytes_to_string(value) {
        None => Err(Error::Decode(DecodeError::Text)),
        Some(text) => parse_denom_trace(text.as_str()),
    }
}

/// The unbonding time in seconds: the pipeline length times the minimum
/// epoch duration, when the product fits the machine word.
pub fn unbonding_secs(pipeline_len: u64, min_duration_secs: u64) -> (r: Option<u64>)
    ensures
        r is Some <==> pipeline_len * min_duration_secs <= u64::MAX,
        r is Some ==> r->Some_0 == pipeline_len * min_duration_secs,
{
    if min_duration_secs == 0 {
        return Some(0);
    }
    let q = u64::MAX / min_duration_secs;
    if pipeline_len > q {
        proof {
            vstd::arithmetic::div_mod::lemma_fundamental_div_mod(
                u64::MAX as int,
                min_duration_secs as int,
            );
            let qq = (u64::MAX as int) / (min_duration_secs as int);
            let rr = (u64::MAX as int) % (min_duration_secs as int);
            assert((pipeline_len as int) * (min_duration_secs as int) > qq * (
            min_duration_secs as int) + rr) by (nonlinear_arith)
                requires
                    pipeline_len as int >= qq + 1,
                    min_duration_secs as int >= 1,
                    rr < min_duration_secs as int,
            ;
        }
        return None;
    }
    proof {
        vstd::arithmetic::div_mod::lemma_fundamental_div_mod(
            u64::MAX as int,
            min_duration_secs as int,
        );
        let qq = (u64::MAX as int) / (min_duration_secs as int);
        let rr = (u64::MAX as int) % (min_duration_secs as int);
        assert((pipeline_len as int) * (min_duration_secs as int) <= qq * (
        min_duration_secs as int)) by (nonlinear_arith)
            requires
                pipeline_len as int <= qq,
                min_duration_secs as int >= 1,
        ;
        assert(qq * (min_duration_secs as int) <= u64::MAX as int);
    }
    Some(pipeline_len * min_duration_secs)
}

/// The trusting period of a new client: the explicit setting when given,
/// else the configured one, else two thirds of the unbonding period.
pub fn resolve_trusting_period(
    settings_period: Option<u64>,
    config_period: Option<u64>,
    unbonding_period: u64,
) -> (r: u64)
    requires
        unbonding_period <= u64::MAX / 2,
    ensures
        settings_period is Some ==> r == settings_period->Some_0,
        settings_period is None && config_period is Some ==> r == config_period->Some_0,
        settings_period is None && config_period is None ==> r == (2 * unbonding_period) / 3,
{
    match settings_period {
        Some(p) => p,
        None => match config_period {
            Some(p) => p,
            None => (2 * unbonding_period) / 3,
        },
    }
}

/// The first connection hop of a channel end; a channel without one
/// cannot identify its client.
pub fn first_connection_hop(hops: &Vec<Ident>) -> (r: Result<Ident, Error>)
    ensures
        hops@.len() >= 1 ==> r is Ok && r->Ok_0@ == hops@[0]@,
        hops@.len() == 0 ==> r is Err && r->Err_0 == Error::Query,
{
    if hops.len() == 0 {
        Err(Error::Query)
    } else {
        Ok(Ident::clone_id(&hops[0]))
    }
}

/// Copies a byte vector.
fn clone_bytes(v: &Vec<u8>) -> (r: Vec<u8>)
    ensures
        r@ == v@,
{
    let mut r: Vec<u8> = Vec::new();
    let n = v.len();
    let mut i: usize = 0;
    while i < n
        invariant
            0 <= i <= n,
            n == v@.len(),
            r@ =~= v@.subrange(0, i as int),
        decreases n - i,
    {
        r.push(v[i]);
        proof {
            assert(r@ =~= v@.subrange(0, i + 1));
        }
        i += 1;
    }
    proof {
        assert(v@.subrange(0, n as int) =~= v@);
    }
    r
}

// ---------------------------------------------------------------------
// Prefix-scan consumers.  Each walks the entries a prefix scan returned
// and keeps the entries of its path family; the family's reserved
// counter key is explicitly excluded, and a key that should belong to
// the family but does not parse is an error.
// ---------------------------------------------------------------------
/// What scanning the clients family yields: the client id and raw value
/// of every entry whose key ends in the client-state segment; other
/// entries are skipped; a malformed client-state key is an error.
pub open spec fn spec_clients_scan(entries: Seq<(StorageKey, Vec<u8>)>) -> Option<
    Seq<(Seq<char>, Seq<u8>)>,
>
    decreases entries.len(),
{
    if entries.len() == 0 {
        Some(Seq::empty())
    } else {
        match spec_clients_scan(entries.drop_last()) {
            Some(prefix) => {
                let k = entries.last().0@;
                if k.len() >= 1 && k.last() == "clientState"@ {
                    match crate::path::spec_client_state_id(k) {
                        Some(id) => Some(prefix.push((id, entries.last().1@))),
                        None => None,
                    }
                } else {
                    Some(prefix)
                }
            },
            None => None,
        }
    }
}

/// Once the clients scan has failed on a prefix, it fails on the whole.
proof fn lemma_clients_scan_error_persists(entries: Seq<(StorageKey, Vec<u8>)>, i: int, j: int)
    requires
        0 <= i <= j <= entries.len(),
        spec_clients_scan(entries.subrange(0, i)) is None,
    ensures
        spec_clients_scan(entries.subrange(0, j)) is None,
    decreases j - i,
{
    if i < j {
        assert(entries.subrange(0, i + 1).drop_last() =~= entries.subrange(0, i));
        lemma_clients_scan_error_persists(entries, i + 1, j);
    }
}

/// Walks a clients-family scan and keeps each client state.
pub fn clients_scan(entries: &Vec<(StorageKey, Vec<u8>)>) -> (r: Result<
    Vec<(Ident, Vec<u8>)>,
    Error,
>)
    ensures
        r is Ok <==> spec_clients_scan(entries@) is Some,
        r is Ok ==> Some(
            Seq::new(r->Ok_0@.len(), |i: int| (r->Ok_0@[i].0@, r->Ok_0@[i].1@)),
        ) == spec_clients_scan(entries@),
        r is Err ==> r->Err_0 == Error::MalformedKey,
{
    let mut out: Vec<(Ident, Vec<u8>)> = Vec::new();
    let n = entries.len();
    let mut i: usize = 0;
    while i < n
        invariant
            0 <= i <= n,
            n == entries@.len(),
            Some(
                Seq::new(out@.len(), |j: int| (out@[j].0@, out@[j].1@)),
            ) == spec_clients_scan(entries@.subrange(0, i as int)),
        decreases n - i,
    {
        proof {
            assert(entries@.subrange(0, i + 1).drop_last() =~= entries@.subrange(0, i as int));
            assert(entries@.subrange(0, i + 1).last() == entries@[i as int]);
        }
        let key = &entries[i].0;
        let nseg = key.segments.len();
        if nseg >= 1 && crate::ident::text_is(&key.segments[nseg - 1], "clientState") {
            assert(key@.last() == "clientState"@);
            match crate::path::decode_client_state_key(key) {
                Some(id) => {
                    out.push((id, clone_bytes(&entries[i].1)));
                    proof {
                        assert(Seq::new(out@.len(), |j: int| (out@[j].0@, out@[j].1@))
                            =~= spec_clients_scan(entries@.subrange(0, i + 1))->Some_0);
                    }
                },
                None => {
                    proof {
                        assert(spec_clients_scan(entries@.subrange(0, i + 1)) is None);
                        lemma_clients_scan_error_persists(entries@, i + 1, entries@.len() as int);
                        assert(entries@.subrange(0, entries@.len() as int) =~= entries@);
                    }
                    return Err(Error::MalformedKey);
                },
            }
        } else {
            proof {
                if key@.len() >= 1 {
                    assert(key@.last() == key.segments@[nseg - 1]@);
                }
                assert(spec_clients_scan(entries@.subrange(0, i + 1)) == spec_clients_scan(
                    entries@.subrange(0, i as int),
                ));
            }
        }
        i += 1;
    }
    proof {
        assert(entries@.subrange(0, n as int) =~= entries@);
    }
    Ok(out)
}

/// What scanning the connections family yields: the connection id and
/// raw value of every entry, the reserved counter key excluded; any
/// other key that does not parse as a connection is an error.
pub open spec fn spec_connections_scan(entries: Seq<(StorageKey, Vec<u8>)>) -> Option<
    Seq<(Seq<char>, Seq<u8>)>,
>
    decreases entries.len(),
{
    if entries.len() == 0 {
        Some(Seq::empty())
    } else {
        match spec_connections_scan(entries.drop_last()) {
            Some(prefix) => {
                let k = entries.last().0@;
                if k =~~= seq!["connections"@, "counter"@] {
                    Some(prefix)
                } else {
                    match crate::path::spec_connection_id(k) {
                        Some(id) => Some(prefix.push((id, entries.last().1@))),
                        None => None,
                    }
                }
            },
            None => None,
        }
    }
}

/// Once the connections scan has failed on a prefix, it fails on the whole.
proof fn lemma_connections_scan_error_persists(entries: Seq<(StorageKey, Vec<u8>)>, i: int, j: int)
    requires
        0 <= i <= j <= entries.len(),
        spec_connections_scan(entries.subrange(0, i)) is None,
    ensures
        spec_connections_scan(entries.subrange(0, j)) is None,
    decreases j - i,
{
    if i < j {
        assert(entries.subrange(0, i + 1).drop_last() =~= entries.subrange(0, i));
        lemma_connections_scan_error_persists(entries, i + 1, j);
    }
}

/// Walks a connections-family scan, skipping the reserved counter key.
pub fn connections_scan(entries: &Vec<(StorageKey, Vec<u8>)>) -> (r: Result<
    Vec<(Ident, Vec<u8>)>,
    Error,
>)
    ensures
        r is Ok <==> spec_connections_scan(entries@) is Some,
        r is Ok ==> Some(
            Seq::new(r->Ok_0@.len(), |i: int| (r->Ok_0@[i].0@, r->Ok_0@[i].1@)),
        ) == spec_connections_scan(entries@),
        r is Err ==> r->Err_0 == Error::MalformedKey,
{
    let counter = crate::path::connection_counter_key();
    let mut out: Vec<(Ident, Vec<u8>)> = Vec::new();
    let n = entries.len();
    let mut i: usize = 0;
    while i < n
        invariant
            0 <= i <= n,
            n == entries@.len(),
            counter@ == seq!["connections"@, "counter"@],
            Some(
                Seq::new(out@.len(), |j: int| (out@[j].0@, out@[j].1@)),
            ) == spec_connections_scan(entries@.subrange(0, i as int)),
        decreases n - i,
    {
        proof {
            assert(entries@.subrange(0, i + 1).drop_last() =~= entries@.subrange(0, i as int));
            assert(entries@.subrange(0, i + 1).last() == entries@[i as int]);
        }
        if entries[i].0.key_eq(&counter) {
            proof {
                assert(spec_connections_scan(entries@.subrange(0, i + 1)) == spec_connections_scan(
                    entries@.subrange(0, i as int),
                ));
            }
        } else {
            match crate::path::decode_connection_key(&entries[i].0) {
                Some(id) => {
                    out.push((id, clone_bytes(&entries[i].1)));
                    proof {
                        assert(Seq::new(out@.len(), |j: int| (out@[j].0@, out@[j].1@))
                            =~= spec_connections_scan(entries@.subrange(0, i + 1))->Some_0);
                    }
                },
                None => {
                    proof {
                        assert(spec_connections_scan(entries@.subrange(0, i + 1)) is None);
                        lemma_connections_scan_error_persists(
                            entries@,
                            i + 1,
                            entries@.len() as int,
                        );
                        assert(entries@.subrange(0, entries@.len() as int) =~= entries@);
                    }
                    return Err(Error::MalformedKey);
                },
            }
        }
        i += 1;
    }
    proof {
        assert(entries@.subrange(0, n as int) =~= entries@);
    }
    Ok(out)
}

/// What scanning the channel-ends family yields, the reserved counter
/// key excluded.
pub open spec fn spec_channels_scan(entries: Seq<(StorageKey, Vec<u8>)>) -> Option<
    Seq<((Seq<char>, Seq<char>), Seq<u8>)>,
>
    decreases entries.len(),
{
    if entries.len() == 0 {
        Some(Seq::empty())
    } else {
        match spec_channels_scan(entries.drop_last()) {
            Some(prefix) => {
                let k = entries.last().0@;
                if k =~~= seq!["channelEnds"@, "counter"@] {
                    Some(prefix)
                } else {
                    match crate::path::spec_channel_parts(k) {
                        Some(pc) => Some(prefix.push((pc, entries.last().1@))),
                        None => None,
                    }
                }
            },
            None => None,
        }
    }
}

/// Once the channels scan has failed on a prefix, it fails on the whole.
proof fn lemma_channels_scan_error_persists(entries: Seq<(StorageKey, Vec<u8>)>, i: int, j: int)
    requires
        0 <= i <= j <= entries.len(),
        spec_channels_scan(entries.subrange(0, i)) is None,
    ensures
        spec_channels_scan(entries.subrange(0, j)) is None,
    decreases j - i,
{
    if i < j {
        assert(entries.subrange(0, i + 1).drop_last() =~= entries.subrange(0, i));
        lemma_channels_scan_error_persists(entries, i + 1, j);
    }
}

/// Walks a channel-ends-family scan, skipping the reserved counter key.
pub fn channels_scan(entries: &Vec<(StorageKey, Vec<u8>)>) -> (r: Result<
    Vec<((Ident, Ident), Vec<u8>)>,
    Error,
>)
    ensures
        r is Ok <==> spec_channels_scan(entries@) is Some,
        r is Ok ==> Some(
            Seq::new(
                r->Ok_0@.len(),
                |i: int| ((r->Ok_0@[i].0.0@, r->Ok_0@[i].0.1@), r->Ok_0@[i].1@),
            ),
        ) == spec_channels_scan(entries@),
        r is Err ==> r->Err_0 == Error::MalformedKey,
{
    let counter = crate::path::channel_counter_key();
    let mut out: Vec<((Ident, Ident), Vec<u8>)> = Vec::new();
    let n = entries.len();
    let mut i: usize = 0;
    while i < n
        invariant
            0 <= i <= n,
            n == entries@.len(),
            counter@ == seq!["channelEnds"@, "counter"@],
            Some(
                Seq::new(out@.len(), |j: int| ((out@[j].0.0@, out@[j].0.1@), out@[j].1@)),
            ) == spec_channels_scan(entries@.subrange(0, i as int)),
        decreases n - i,
    {
        proof {
            assert(entries@.subrange(0, i + 1).drop_last() =~= entries@.subrange(0, i as int));
            assert(entries@.subrange(0, i + 1).last() == entries@[i as int]);
        }
        if entries[i].0.key_eq(&counter) {
            proof {
                assert(spec_channels_scan(entries@.subrange(0, i + 1)) == spec_channels_scan(
                    entries@.subrange(0, i as int),
                ));
            }
        } else {
            match crate::path::decode_channel_key(&entries[i].0) {
                Some(pc) => {
                    out.push((pc, clone_bytes(&entries[i].1)));
                    proof {
                        assert(Seq::new(
                            out@.len(),
                            |j: int| ((out@[j].0.0@, out@[j].0.1@), out@[j].1@),
                        ) =~= spec_channels_scan(entries@.subrange(0, i + 1))->Some_0);
                    }
                },
                None => {
                    proof {
                        assert(spec_channels_scan(entries@.subrange(0, i + 1)) is None);
                        lemma_channels_scan_error_persists(
                            entries@,
                            i + 1,
                            entries@.len() as int,
                        );
                        assert(entries@.subrange(0, entries@.len() as int) =~= entries@);
                    }
                    return Err(Error::MalformedKey);
                },
            }
        }
        i += 1;
    }
    proof {
        assert(entries@.subrange(0, n as int) =~= entries@);
    }
    Ok(out)
}

/// What scanning one client's data for consensus-state heights yields:
/// the height of every key that parses as a consensus state; any other
/// key is silently skipped.
pub open spec fn spec_consensus_heights(entries: Seq<(StorageKey, Vec<u8>)>) -> Seq<Height>
    decreases entries.len(),
{
    if entries.len() == 0 {
        Seq::empty()
    } else {
        let prefix = spec_consensus_heights(entries.drop_last());
        match crate::path::spec_consensus_state_parts(entries.last().0@) {
            Some(p) => prefix.push(p.1),
            None => prefix,
        }
    }
}

/// Collects the heights of a client's consensus states from a scan.
pub fn consensus_heights_scan(entries: &Vec<(StorageKey, Vec<u8>)>) -> (r: Vec<Height>)
    ensures
        r@ == spec_consensus_heights(entries@),
{
    let mut out: Vec<Height> = Vec::new();
    let n = entries.len();
    let mut i: usize = 0;
    while i < n
        invariant
            0 <= i <= n,
            n == entries@.len(),
            out@ == spec_consensus_heights(entries@.subrange(0, i as int)),
        decreases n - i,
    {
        proof {
            assert(entries@.subrange(0, i + 1).drop_last() =~= entries@.subrange(0, i as int));
            assert(entries@.subrange(0, i + 1).last() == entries@[i as int]);
        }
        match crate::path::decode_consensus_state_key(&entries[i].0) {
            Some((_, h)) => {
                out.push(h);
            },
            None => {
            },
        }
        i += 1;
    }
    proof {
        assert(entries@.subrange(0, n as int) =~= entries@);
    }
    out
}

/// What scanning one channel's packet family yields: the sequence of
/// every key, in scan order; a key that does not parse as the family is
/// an error.
pub open spec fn spec_packet_sequences(family: Seq<char>, entries: Seq<(StorageKey, Vec<u8>)>)
    -> Option<Seq<nat>>
    decreases entries.len(),
{
    if entries.len() == 0 {
        Some(Seq::empty())
    } else {
        match spec_packet_sequences(family, entries.drop_last()) {
            Some(prefix) => match crate::path::spec_packet_parts(family, entries.last().0@) {
                Some(p) => Some(prefix.push(p.2)),
                None => None,
            },
            None => None,
        }
    }
}

/// Once a packet scan has failed on a prefix, it fails on the whole.
proof fn lemma_packet_scan_error_persists(
    family: Seq<char>,
    entries: Seq<(StorageKey, Vec<u8>)>,
    i: int,
    j: int,
)
    requires
        0 <= i <= j <= entries.len(),
        spec_packet_sequences(family, entries.subrange(0, i)) is None,
    ensures
        spec_packet_sequences(family, entries.subrange(0, j)) is None,
    decreases j - i,
{
    if i < j {
        assert(entries.subrange(0, i + 1).drop_last() =~= entries.subrange(0, i));
        lemma_packet_scan_error_persists(family, entries, i + 1, j);
    }
}

/// Walks a packet-family scan and collects the sequences.
fn packet_sequences_scan(family: &str, entries: &Vec<(StorageKey, Vec<u8>)>) -> (r: Result<
    Vec<Sequence>,
    Error,
>)
    ensures
        r is Ok <==> spec_packet_sequences(family@, entries@) is Some,
        r is Ok ==> Some(
            Seq::new(r->Ok_0@.len(), |i: int| r->Ok_0@[i].0 as nat),
        ) == spec_packet_sequences(family@, entries@),
        r is Err ==> r->Err_0 == Error::MalformedKey,
{
    let mut out: Vec<Sequence> = Vec::new();
    let n = entries.len();
    let mut i: usize = 0;
    while i < n
        invariant
            0 <= i <= n,
            n == entries@.len(),
            Some(
                Seq::new(out@.len(), |j: int| out@[j].0 as nat),
            ) == spec_packet_sequences(family@, entries@.subrange(0, i as int)),
        decreases n - i,
    {
        proof {
            assert(entries@.subrange(0, i + 1).drop_last() =~= entries@.subrange(0, i as int));
            assert(entries@.subrange(0, i + 1).last() == entries@[i as int]);
        }
        match crate::path::decode_packet_key_any(family, &entries[i].0) {
            Some((_, _, s)) => {
                out.push(s);
                proof {
                    assert(Seq::new(out@.len(), |j: int| out@[j].0 as nat)
                        =~= spec_packet_sequences(family@, entries@.subrange(0, i + 1))->Some_0);
                }
            },
            None => {
                proof {
                    assert(spec_packet_sequences(family@, entries@.subrange(0, i + 1)) is None);
                    lemma_packet_scan_error_persists(
                        family@,
                        entries@,
                        i + 1,
                        entries@.len() as int,
                    );
                    assert(entries@.subrange(0, entries@.len() as int) =~= entries@);
                }
                return Err(Error::MalformedKey);
            },
        }
        i += 1;
    }
    proof {
        assert(entries@.subrange(0, n as int) =~= entries@);
    }
    Ok(out)
}

/// Collects the sequences of one channel's packet commitments.
pub fn commitment_sequences_scan(entries: &Vec<(StorageKey, Vec<u8>)>) -> (r: Result<
    Vec<Sequence>,
    Error,
>)
    ensures
        r is Ok <==> spec_packet_sequences("commitments"@, entries@) is Some,
        r is Ok ==> Some(
            Seq::new(r->Ok_0@.len(), |i: int| r->Ok_0@[i].0 as nat),
        ) == spec_packet_sequences("commitments"@, entries@),
        r is Err ==> r->Err_0 == Error::MalformedKey,
{
    packet_sequences_scan("commitments", entries)
}

/// Collects the sequences of one channel's packet receipts.
pub fn receipt_sequences_scan(entries: &Vec<(StorageKey, Vec<u8>)>) -> (r: Result<
    Vec<Sequence>,
    Error,
>)
    ensures
        r is Ok <==> spec_packet_sequences("receipts"@, entries@) is Some,
        r is Ok ==> Some(
            Seq::new(r->Ok_0@.len(), |i: int| r->Ok_0@[i].0 as nat),
        ) == spec_packet_sequences("receipts"@, entries@),
        r is Err ==> r->Err_0 == Error::MalformedKey,
{
    packet_sequences_scan("receipts", entries)
}

/// Collects the sequences of one channel's packet acknowledgements.
pub fn ack_sequences_scan(entries: &Vec<(StorageKey, Vec<u8>)>) -> (r: Result<
    Vec<Sequence>,
    Error,
>)
    ensures
        r is Ok <==> spec_packet_sequences("acks"@, entries@) is Some,
        r is Ok ==> Some(
            Seq::new(r->Ok_0@.len(), |i: int| r->Ok_0@[i].0 as nat),
        ) == spec_packet_sequences("acks"@, entries@),
        r is Err ==> r->Err_0 == Error::MalformedKey,
{
    packet_sequences_scan("acks", entries)
}

// ---------------------------------------------------------------------
// Sequence filters.
// ---------------------------------------------------------------------
/// The sequences of `xs` that are not in `excluded`, in order.
pub open spec fn spec_excluding(xs: Seq<Sequence>, excluded: Seq<Sequence>) -> Seq<Sequence>
    decreases xs.len(),
{
    if xs.len() == 0 {
        Seq::empty()
    } else {
        let prefix = spec_excluding(xs.drop_last(), excluded);
        if excluded.contains(xs.last()) {
            prefix
        } else {
            prefix.push(xs.last())
        }
    }
}

/// The sequences of `xs` that are in `kept`, in order.
pub open spec fn spec_retaining(xs: Seq<Sequence>, kept: Seq<Sequence>) -> Seq<Sequence>
    decreases xs.len(),
{
    if xs.len() == 0 {
        Seq::empty()
    } else {
        let prefix = spec_retaining(xs.drop_last(), kept);
        if kept.contains(xs.last()) {
            prefix.push(xs.last())
        } else {
            prefix
        }
    }
}

/// True when `v` holds `x`.
fn sequence_vec_contains(v: &Vec<Sequence>, x: Sequence) -> (found: bool)
    ensures
        found == v@.contains(x),
{
    let n = v.len();
    let mut i: usize = 0;
    while i < n
        invariant
            0 <= i <= n,
            n == v@.len(),
            forall|j: int| 0 <= j < i ==> v@[j] != x,
        decreases n - i,
    {
        if v[i].0 == x.0 {
            assert(v@[i as int] == x);
            return true;
        }
        i += 1;
    }
    false
}

/// The commitment sequences whose packets this chain has not received:
/// exactly those without a receipt, in the request's order.
pub fn unreceived_sequences(commitment_seqs: &Vec<Sequence>, received: &Vec<Sequence>) -> (r: Vec<
    Sequence,
>)
    ensures
        r@ == spec_excluding(commitment_seqs@, received@),
{
    let mut out: Vec<Sequence> = Vec::new();
    let n = commitment_seqs.len();
    let mut i: usize = 0;
    while i < n
        invariant
            0 <= i <= n,
            n == commitment_seqs@.len(),
            out@ == spec_excluding(commitment_seqs@.subrange(0, i as int), received@),
        decreases n - i,
    {
        proof {
            assert(commitment_seqs@.subrange(0, i + 1).drop_last() =~= commitment_seqs@.subrange(
                0,
                i as int,
            ));
            assert(commitment_seqs@.subrange(0, i + 1).last() == commitment_seqs@[i as int]);
        }
        if !sequence_vec_contains(received, commitment_seqs[i]) {
            out.push(commitment_seqs[i]);
        }
        i += 1;
    }
    proof {
        assert(commitment_seqs@.subrange(0, n as int) =~= commitment_seqs@);
    }
    out
}

/// The scanned sequences that the request asked about: exactly those in
/// `requested`, in scan order.
pub fn retained_sequences(scanned: &Vec<Sequence>, requested: &Vec<Sequence>) -> (r: Vec<Sequence>)
    ensures
        r@ == spec_retaining(scanned@, requested@),
{
    let mut out: Vec<Sequence> = Vec::new();
    let n = scanned.len();
    let mut i: usize = 0;
    while i < n
        invariant
            0 <= i <= n,
            n == scanned@.len(),
            out@ == spec_retaining(scanned@.subrange(0, i as int), requested@),
        decreases n - i,
    {
        proof {
            assert(scanned@.subrange(0, i + 1).drop_last() =~= scanned@.subrange(0, i as int));
            assert(scanned@.subrange(0, i + 1).last() == scanned@[i as int]);
        }
        if sequence_vec_contains(requested, scanned[i]) {
            out.push(scanned[i]);
        }
        i += 1;
    }
    proof {
        assert(scanned@.subrange(0, n as int) =~= scanned@);
    }
    out
}

// ---------------------------------------------------------------------
// Connection and channel filters.
// ---------------------------------------------------------------------
/// A connection end identified by its id, reduced to what the filters
/// read: the client it belongs to.
#[derive(Clone, Debug, PartialEq, Eq)]
pub struct ConnectionSummary {
    pub connection_id: Ident,
    pub client_id: Ident,
}

impl View for ConnectionSummary {
    type V = (Seq<char>, Seq<char>);

    open spec fn view(&self) -> (Seq<char>, Seq<char>) {
        (self.connection_id@, self.client_id@)
    }
}

/// A channel end identified by port and channel, reduced to what the
/// filters read: the connections it runs over.
#[derive(Clone, Debug, PartialEq, Eq)]
pub struct ChannelSummary {
    pub port_id: Ident,
    pub channel_id: Ident,
    pub connection_hops: Vec<Ident>,
}

impl View for ChannelSummary {
    type V = (Seq<char>, Seq<char>, Seq<Seq<char>>);

    open spec fn view(&self) -> (Seq<char>, Seq<char>, Seq<Seq<char>>) {
        (
            self.port_id@,
            self.channel_id@,
            Seq::new(self.connection_hops@.len(), |i: int| self.connection_hops@[i]@),
        )
    }
}

/// The connection ids of `conns` that belong to `client`, in order.
pub open spec fn spec_client_connections(s: Seq<(Seq<char>, Seq<char>)>, client: Seq<char>)
    -> Seq<Seq<char>>
    decreases s.len(),
{
    if s.len() == 0 {
        Seq::empty()
    } else {
        let prefix = spec_client_connections(s.drop_last(), client);
        if s.last().1 == client {
            prefix.push(s.last().0)
        } else {
            prefix
        }
    }
}

/// Filters the connections that belong to one client.
pub fn filter_client_connections(conns: &Vec<ConnectionSummary>, client: &Ident) -> (r: Vec<Ident>)
    ensures
        Seq::new(r@.len(), |i: int| r@[i]@) == spec_client_connections(
            Seq::new(conns@.len(), |i: int| conns@[i]@),
            client@,
        ),
{
    let mut out: Vec<Ident> = Vec::new();
    let n = conns.len();
    let mut i: usize = 0;
    while i < n
        invariant
            0 <= i <= n,
            n == conns@.len(),
            Seq::new(out@.len(), |j: int| out@[j]@) == spec_client_connections(
                Seq::new(conns@.len(), |j: int| conns@[j]@).subrange(0, i as int),
                client@,
            ),
        decreases n - i,
    {
        proof {
            let all = Seq::new(conns@.len(), |j: int| conns@[j]@);
            assert(all.subrange(0, i + 1).drop_last() =~= all.subrange(0, i as int));
            assert(all.subrange(0, i + 1).last() == conns@[i as int]@);
        }
        if conns[i].client_id.text_eq(client) {
            out.push(conns[i].connection_id.clone_id());
            proof {
                let all = Seq::new(conns@.len(), |j: int| conns@[j]@);
                assert(Seq::new(out@.len(), |j: int| out@[j]@) =~= spec_client_connections(
                    all.subrange(0, i + 1),
                    client@,
                ));
            }
        } else {
            proof {
                let all = Seq::new(conns@.len(), |j: int| conns@[j]@);
                assert(Seq::new(out@.len(), |j: int| out@[j]@) =~= spec_client_connections(
                    all.subrange(0, i + 1),
                    client@,
                ));
            }
        }
        i += 1;
    }
    proof {
        let all = Seq::new(conns@.len(), |j: int| conns@[j]@);
        assert(all.subrange(0, n as int) =~= all);
    }
    out
}

/// The channels of `chans` whose connection hops are exactly the one
/// queried connection, in order.
pub open spec fn spec_connection_channels(
    s: Seq<(Seq<char>, Seq<char>, Seq<Seq<char>>)>,
    conn: Seq<char>,
) -> Seq<(Seq<char>, Seq<char>)>
    decreases s.len(),
{
    if s.len() == 0 {
        Seq::empty()
    } else {
        let prefix = spec_connection_channels(s.drop_last(), conn);
        if s.last().2 =~~= seq![conn] {
            prefix.push((s.last().0, s.last().1))
        } else {
            prefix
        }
    }
}

/// Filters the channels that run over one connection.
pub fn filter_connection_channels(chans: &Vec<ChannelSummary>, conn: &Ident) -> (r: Vec<
    (Ident, Ident),
>)
    ensures
        Seq::new(r@.len(), |i: int| (r@[i].0@, r@[i].1@)) == spec_connection_channels(
            Seq::new(chans@.len(), |i: int| chans@[i]@),
            conn@,
        ),
{
    let mut out: Vec<(Ident, Ident)> = Vec::new();
    let n = chans.len();
    let mut i: usize = 0;
    while i < n
        invariant
            0 <= i <= n,
            n == chans@.len(),
            Seq::new(out@.len(), |j: int| (out@[j].0@, out@[j].1@)) == spec_connection_channels(
                Seq::new(chans@.len(), |j: int| chans@[j]@).subrange(0, i as int),
                conn@,
            ),
        decreases n - i,
    {
        proof {
            let all = Seq::new(chans@.len(), |j: int| chans@[j]@);
            assert(all.subrange(0, i + 1).drop_last() =~= all.subrange(0, i as int));
            assert(all.subrange(0, i + 1).last() == chans@[i as int]@);
        }
        let hlen = chans[i].connection_hops.len();
        let hops_match = if hlen == 1 {
            chans[i].connection_hops[0].text_eq(conn)
        } else {
            false
        };
        proof {
            let a = chans@[i as int]@.2;
            let b = seq![conn@];
            assert(b.len() == 1 && b[0] == conn@);
            if hlen == 1 {
                assert(a.len() == 1);
                assert(a[0] == chans@[i as int].connection_hops@[0]@);
                if hops_match {
                    assert(a =~~= b);
                } else {
                    assert(a[0] != b[0]);
                }
            } else {
                assert(a.len() != b.len());
            }
        }
        if hops_match {
            out.push((chans[i].port_id.clone_id(), chans[i].channel_id.clone_id()));
            proof {
                let all = Seq::new(chans@.len(), |j: int| chans@[j]@);
                assert(Seq::new(out@.len(), |j: int| (out@[j].0@, out@[j].1@))
                    =~= spec_connection_channels(all.subrange(0, i + 1), conn@));
            }
        } else {
            proof {
                let all = Seq::new(chans@.len(), |j: int| chans@[j]@);
                assert(Seq::new(out@.len(), |j: int| (out@[j].0@, out@[j].1@))
                    =~= spec_connection_channels(all.subrange(0, i + 1), conn@));
            }
        }
        i += 1;
    }
    proof {
        let all = Seq::new(chans@.len(), |j: int| chans@[j]@);
        assert(all.subrange(0, n as int) =~= all);
    }
    out
}

// ---------------------------------------------------------------------
// Scan laws.
// ---------------------------------------------------------------------
/// Law: a scan over the connections family never takes the reserved
/// counter key — deleting a counter entry leaves the scan unchanged.
pub proof fn lemma_connections_scan_skips_counter(entries: Seq<(StorageKey, Vec<u8>)>, i: int)
    requires
        0 <= i < entries.len(),
        entries[i].0@ =~~= seq!["connections"@, "counter"@],
    ensures
        spec_connections_scan(entries) == spec_connections_scan(entries.remove(i)),
    decreases entries.len(),
{
    if i == entries.len() - 1 {
        assert(entries.remove(i) =~= entries.drop_last());
    } else {
        assert(entries.remove(i).drop_last() =~= entries.drop_last().remove(i));
        assert(entries.drop_last()[i] == entries[i]);
        lemma_connections_scan_skips_counter(entries.drop_last(), i);
        assert(entries.remove(i).last() == entries.last());
    }
}

/// Law: a scan over the channel-ends family never takes the reserved
/// counter key — deleting a counter entry leaves the scan unchanged.
pub proof fn lemma_channels_scan_skips_counter(entries: Seq<(StorageKey, Vec<u8>)>, i: int)
    requires
        0 <= i < entries.len(),
        entries[i].0@ =~~= seq!["channelEnds"@, "counter"@],
    ensures
        spec_channels_scan(entries) == spec_channels_scan(entries.remove(i)),
    decreases entries.len(),
{
    if i == entries.len() - 1 {
        assert(entries.remove(i) =~= entries.drop_last());
    } else {
        assert(entries.remove(i).drop_last() =~= entries.drop_last().remove(i));
        assert(entries.drop_last()[i] == entries[i]);
        lemma_channels_scan_skips_counter(entries.drop_last(), i);
        assert(entries.remove(i).last() == entries.last());
    }
}

/// Whether a block found by a packet-event search is admitted by the
/// request's height bound: with a specific height in the request, blocks
/// above it are skipped; `Latest` admits every block.
pub fn block_height_admitted(
    request_height: &crate::requests::Qualified<crate::requests::QueryHeight>,
    response_height: Height,
) -> (r: bool)
    ensures
        r == match request_height.spec_get() {
            crate::requests::QueryHeight::Latest => true,
            crate::requests::QueryHeight::Specific(bound) => !(response_height.revision_number
                > bound.revision_number || (response_height.revision_number
                == bound.revision_number && response_height.revision_height
                > bound.revision_height)),
        },
{
    let bound = match request_height {
        crate::requests::Qualified::SmallerEqual(h) => h,
        crate::requests::Qualified::Equal(h) => h,
    };
    match bound {
        crate::requests::QueryHeight::Latest => true,
        crate::requests::QueryHeight::Specific(b) => {
            let above = response_height.revision_number > b.revision_number
                || (response_height.revision_number == b.revision_number
                    && response_height.revision_height > b.revision_height);
            !above
        },
    }
}

/// What scanning a token's balances for one owner yields: for every
/// balance key of that owner — multi-token or plain — the token, the
/// sub-prefix (empty for a plain balance) and the decoded amount; other
/// keys are skipped; an owner's balance value that is not an 8-byte word
/// is a decode error.
pub open spec fn spec_balances_scan(entries: Seq<(StorageKey, Vec<u8>)>, owner: Seq<char>)
    -> Option<Seq<(Seq<char>, Seq<Seq<char>>, nat)>>
    decreases entries.len(),
{
    if entries.len() == 0 {
        Some(Seq::empty())
    } else {
        match spec_balances_scan(entries.drop_last(), owner) {
            Some(prefix) => {
                let k = entries.last().0@;
                let v = entries.last().1@;
                match crate::path::spec_multitoken_balance_parts(k) {
                    Some(p) => if p.2 == owner {
                        if v.len() == 8 {
                            Some(prefix.push((p.0, p.1, le_bytes_val(v))))
                        } else {
                            None
                        }
                    } else {
                        Some(prefix)
                    },
                    None => match crate::path::spec_balance_parts(k) {
                        Some(b) => if b.1 == owner {
                            if v.len() == 8 {
                                Some(prefix.push((b.0, Seq::<Seq<char>>::empty(), le_bytes_val(v))))
                            } else {
                                None
                            }
                        } else {
                            Some(prefix)
                        },
                        None => Some(prefix),
                    },
                }
            },
            None => None,
        }
    }
}

/// Once the balances scan has failed on a prefix, it fails on the whole.
proof fn lemma_balances_scan_error_persists(
    entries: Seq<(StorageKey, Vec<u8>)>,
    owner: Seq<char>,
    i: int,
    j: int,
)
    requires
        0 <= i <= j <= entries.len(),
        spec_balances_scan(entries.subrange(0, i), owner) is None,
    ensures
        spec_balances_scan(entries.subrange(0, j), owner) is None,
    decreases j - i,
{
    if i < j {
        assert(entries.subrange(0, i + 1).drop_last() =~= entries.subrange(0, i));
        lemma_balances_scan_error_persists(entries, owner, i + 1, j);
    }
}

/// Walks one token's balance scan and keeps the owner's balances.
pub fn balances_scan(entries: &Vec<(StorageKey, Vec<u8>)>, owner: &Ident) -> (r: Result<
    Vec<(Ident, Vec<Ident>, u64)>,
    Error,
>)
    ensures
        r is Ok <==> spec_balances_scan(entries@, owner@) is Some,
        r is Ok ==> Some(
            Seq::new(
                r->Ok_0@.len(),
                |i: int|
                    (
                        r->Ok_0@[i].0@,
                        Seq::new(r->Ok_0@[i].1@.len(), |j: int| r->Ok_0@[i].1@[j]@),
                        r->Ok_0@[i].2 as nat,
                    ),
            ),
        ) =~~= spec_balances_scan(entries@, owner@),
        r is Err ==> r->Err_0 is Decode,
{
    let mut out: Vec<(Ident, Vec<Ident>, u64)> = Vec::new();
    let n = entries.len();
    let mut i: usize = 0;
    while i < n
        invariant
            0 <= i <= n,
            n == entries@.len(),
            Some(
                Seq::new(
                    out@.len(),
                    |k: int|
                        (
                            out@[k].0@,
                            Seq::new(out@[k].1@.len(), |j: int| out@[k].1@[j]@),
                            out@[k].2 as nat,
                        ),
                ),
            ) =~~= spec_balances_scan(entries@.subrange(0, i as int), owner@),
        decreases n - i,
    {
        proof {
            assert(entries@.subrange(0, i + 1).drop_last() =~= entries@.subrange(0, i as int));
            assert(entries@.subrange(0, i + 1).last() == entries@[i as int]);
        }
        let kept: Option<(Ident, Vec<Ident>)> = match crate::path::decode_multitoken_balance_key(
            &entries[i].0,
        ) {
            Some((token, sub, entry_owner)) => {
                if entry_owner.text_eq(owner) {
                    Some((token, sub))
                } else {
                    None
                }
            },
            None => match crate::path::decode_balance_key(&entries[i].0) {
                Some((token, entry_owner)) => {
                    if entry_owner.text_eq(owner) {
                        Some((token, Vec::new()))
                    } else {
                        None
                    }
                },
                None => None,
            },
        };
        match kept {
            Some((token, sub)) => match decode_amount(&entries[i].1) {
                Ok(amount) => {
                    out.push((token, sub, amount));
                    proof {
                        assert(Seq::new(
                            out@.len(),
                            |k: int|
                                (
                                    out@[k].0@,
                                    Seq::new(out@[k].1@.len(), |j: int| out@[k].1@[j]@),
                                    out@[k].2 as nat,
                                ),
                        ) =~~= spec_balances_scan(entries@.subrange(0, i + 1), owner@)->Some_0);
                    }
                },
                Err(e) => {
                    proof {
                        assert(spec_balances_scan(entries@.subrange(0, i + 1), owner@) is None);
                        lemma_balances_scan_error_persists(
                            entries@,
                            owner@,
                            i + 1,
                            entries@.len() as int,
                        );
                        assert(entries@.subrange(0, entries@.len() as int) =~= entries@);
                    }
                    return Err(e);
                },
            },
            None => {
                proof {
                    assert(spec_balances_scan(entries@.subrange(0, i + 1), owner@)
                        =~~= spec_balances_scan(entries@.subrange(0, i as int), owner@));
                }
            },
        }
        i += 1;
    }
    proof {
        assert(entries@.subrange(0, n as int) =~= entries@);
    }
    Ok(out)
}

} // verus!
