use vstd::prelude::*;

use crate::ident::{Height, Ident, Sequence};

verus! {

/// Which state snapshot a query targets: the chain's current height at
/// query time, or one specific block height.
#[derive(Clone, Copy, Debug, PartialEq, Eq, Structural)]
pub enum QueryHeight {
    Latest,
    Specific(Height),
}

impl QueryHeight {
    /// The height parameter handed to the chain: a specific height is passed
    /// through, `Latest` is resolved chain-side by omitting the parameter.
    pub fn to_rpc_height(&self) -> (r: Option<u64>)
        ensures
            r == match *self {
                QueryHeight::Latest => None::<u64>,
                QueryHeight::Specific(h) => Some(h.revision_height),
            },
    {
        match self {
            QueryHeight::Latest => None,
            QueryHeight::Specific(h) => Some(h.revision_height),
        }
    }
}

/// Whether a query must return a proof along with its response.
///
/// When a proof is requested, its absence in the response is a hard error,
/// not a silent omission.
#[derive(Clone, Copy, Debug, PartialEq, Eq, Structural)]
pub enum IncludeProof {
    Yes,
    No,
}

impl IncludeProof {
    /// True exactly when a proof is requested.
    pub fn to_bool(&self) -> (r: bool)
        ensures
            r == (*self == IncludeProof::Yes),
    {
        matches!(self, IncludeProof::Yes)
    }
}

/// Pagination settings of a bulk query.
#[derive(Clone, Debug, PartialEq, Eq)]
pub struct PageRequest {
    /// Opaque continuation key returned by a previous page.
    pub key: Vec<u8>,
    /// Numeric offset, used when no continuation key is available.
    pub offset: u64,
    /// Total number of results to return in the result page.
    pub limit: u64,
    /// Whether the result should carry a count of all available items.
    pub count_total: bool,
    /// Whether results are returned in descending order.
    pub reverse: bool,
}

impl Default for PageRequest {
    /// An empty page request: no key, no offset, no limit.
    fn default() -> (r: Self)
        ensures
            r.key@ =~= Seq::<u8>::empty(),
            r.offset == 0,
            r.limit == 0,
            !r.count_total,
            !r.reverse,
    {
        PageRequest { key: Vec::new(), offset: 0, limit: 0, count_total: false, reverse: false }
    }
}

impl PageRequest {
    /// A request for one page holding every result at once.
    pub fn all() -> (r: Self)
        ensures
            r.key@ =~= Seq::<u8>::empty(),
            r.offset == 0,
            r.limit == u32::MAX as u64,
            !r.count_total,
            !r.reverse,
    {
        Self::per_page(u32::MAX as u64)
    }

    /// A request for one page of at most `limit` results.
    pub fn per_page(limit: u64) -> (r: Self)
        ensures
            r.key@ =~= Seq::<u8>::empty(),
            r.offset == 0,
            r.limit == limit,
            !r.count_total,
            !r.reverse,
    {
        PageRequest { key: Vec::new(), offset: 0, limit, count_total: false, reverse: false }
    }
}

/// Whether a bulk query is paginated, and how.
#[derive(Clone, Copy, Debug, PartialEq, Eq, Structural)]
pub enum Paginate {
    All,
    PerPage { per_page: u64, total: u64 },
}

impl Paginate {
    /// True when an actual page size is set.
    pub fn is_enabled(&self) -> (r: bool)
        ensures
            r == !(*self is All),
    {
        !matches!(self, Paginate::All)
    }

    /// The page size and total, or zeroes when pagination is off.
    pub fn get_values(&self) -> (r: (u64, u64))
        ensures
            r == match *self {
                Paginate::PerPage { per_page, total } => (per_page, total),
                Paginate::All => (0u64, 0u64),
            },
    {
        match self {
            Paginate::PerPage { per_page, total } => (*per_page, *total),
            Paginate::All => (0, 0),
        }
    }
}

impl Default for Paginate {
    /// By default a bulk query is not paginated.
    fn default() -> (r: Self)
        ensures
            r is All,
    {
        Paginate::All
    }
}

/// Qualifies a value as either an exact bound or an inclusive upper bound.
///
/// For a height `t`, `Equal(t)` asks for data from the block at exactly
/// `t`, while `SmallerEqual(t)` admits any block up to `t`.
#[derive(Clone, Copy, Debug)]
pub enum Qualified<T> {
    SmallerEqual(T),
    Equal(T),
}

impl<T> Qualified<T> {
    /// The wrapped value, whichever qualifier carries it.
    pub open spec fn spec_get(self) -> T {
        match self {
            Qualified::SmallerEqual(t) => t,
            Qualified::Equal(t) => t,
        }
    }

    /// Access the inner value.
    pub fn get(self) -> (r: T)
        ensures
            r == self.spec_get(),
    {
        match self {
            Qualified::SmallerEqual(t) => t,
            Qualified::Equal(t) => t,
        }
    }

    /// Apply `f` to the inner value, keeping the qualifier.
    pub fn map<U, F: FnOnce(T) -> U>(self, f: F) -> (r: Qualified<U>)
        requires
            f.requires((self.spec_get(),)),
        ensures
            self is SmallerEqual ==> r is SmallerEqual,
            self is Equal ==> r is Equal,
            f.ensures((self.spec_get(),), r.spec_get()),
    {
        match self {
            Qualified::SmallerEqual(t) => Qualified::SmallerEqual(f(t)),
            Qualified::Equal(t) => Qualified::Equal(f(t)),
        }
    }
}

/// Query for the state of one client.
#[derive(Clone, Debug)]
pub struct QueryClientStateRequest {
    pub client_id: Ident,
    pub height: QueryHeight,
}

/// Query for the states of all clients of the chain.
#[derive(Clone, Debug)]
pub struct QueryClientStatesRequest {
    pub pagination: Option<PageRequest>,
}

/// Query for one consensus state of one client.
#[derive(Clone, Debug)]
pub struct QueryConsensusStateRequest {
    pub client_id: Ident,
    pub consensus_height: Height,
    pub query_height: QueryHeight,
}

/// Query for the client state the chain will move to at an upgrade.
#[derive(Clone, Debug)]
pub struct QueryUpgradedClientStateRequest {
    /// Height at which the chain is scheduled to halt for the upgrade.
    pub upgrade_height: Height,
}

/// Query for the consensus state the chain will move to at an upgrade.
#[derive(Clone, Debug)]
pub struct QueryUpgradedConsensusStateRequest {
    /// Height at which the chain is scheduled to halt for the upgrade.
    pub upgrade_height: Height,
}

/// Query for all consensus states of one client.
#[derive(Clone, Debug)]
pub struct QueryConsensusStatesRequest {
    pub client_id: Ident,
    pub pagination: Option<PageRequest>,
}

/// Query for the heights of all consensus states of one client.
#[derive(Clone, Debug)]
pub struct QueryConsensusStateHeightsRequest {
    pub client_id: Ident,
    pub pagination: Option<PageRequest>,
}

/// Query for all connections of the chain.
#[derive(Clone, Debug)]
pub struct QueryConnectionsRequest {
    pub pagination: Option<PageRequest>,
}

/// Query for all connections associated with one client.
#[derive(Clone, Debug)]
pub struct QueryClientConnectionsRequest {
    pub client_id: Ident,
}

/// Query for one connection end.
#[derive(Clone, Debug)]
pub struct QueryConnectionRequest {
    pub connection_id: Ident,
    pub height: QueryHeight,
}

/// Query for all channels running over one connection.
#[derive(Clone, Debug)]
pub struct QueryConnectionChannelsRequest {
    pub connection_id: Ident,
    pub pagination: Option<PageRequest>,
}

/// Query for all channels of the chain.
#[derive(Clone, Debug)]
pub struct QueryChannelsRequest {
    pub pagination: Option<PageRequest>,
}

/// Query for one channel end.
#[derive(Clone, Debug)]
pub struct QueryChannelRequest {
    pub port_id: Ident,
    pub channel_id: Ident,
    pub height: QueryHeight,
}

/// Query for the client state backing one channel.
#[derive(Clone, Debug)]
pub struct QueryChannelClientStateRequest {
    pub port_id: Ident,
    pub channel_id: Ident,
}

/// Query for one packet commitment.
#[derive(Clone, Debug)]
pub struct QueryPacketCommitmentRequest {
    pub port_id: Ident,
    pub channel_id: Ident,
    pub sequence: Sequence,
    pub height: QueryHeight,
}

/// Query for the sequences of all packet commitments of one channel.
#[derive(Clone, Debug)]
pub struct QueryPacketCommitmentsRequest {
    pub query_height: QueryHeight,
    pub port_id: Ident,
    pub channel_id: Ident,
    pub pagination: Paginate,
}

/// Query for one packet receipt.
#[derive(Clone, Debug)]
pub struct QueryPacketReceiptRequest {
    pub port_id: Ident,
    pub channel_id: Ident,
    pub sequence: Sequence,
    pub height: QueryHeight,
}

/// Query for the commitment sequences not yet received on this chain.
#[derive(Clone, Debug)]
pub struct QueryUnreceivedPacketsRequest {
    pub port_id: Ident,
    pub channel_id: Ident,
    pub packet_commitment_sequences: Vec<Sequence>,
}

/// Query for one packet acknowledgement.
#[derive(Clone, Debug)]
pub struct QueryPacketAcknowledgementRequest {
    pub port_id: Ident,
    pub channel_id: Ident,
    pub sequence: Sequence,
    pub height: QueryHeight,
}

/// Query for the sequences of all packet acknowledgements of one channel.
#[derive(Clone, Debug)]
pub struct QueryPacketAcknowledgementsRequest {
    pub port_id: Ident,
    pub channel_id: Ident,
    pub pagination: Paginate,
    pub packet_commitment_sequences: Vec<Sequence>,
}

/// Query for the acknowledgement sequences not yet received on this chain.
#[derive(Clone, Debug)]
pub struct QueryUnreceivedAcksRequest {
    pub port_id: Ident,
    pub channel_id: Ident,
    pub packet_ack_sequences: Vec<Sequence>,
}

/// Query for the sequence number of the next packet to be received.
#[derive(Clone, Debug)]
pub struct QueryNextSequenceReceiveRequest {
    pub port_id: Ident,
    pub channel_id: Ident,
    pub height: QueryHeight,
}

/// Query for the chain's own consensus state at a height.
#[derive(Clone, Debug)]
pub struct QueryHostConsensusStateRequest {
    pub height: QueryHeight,
}

/// The hash of a transaction to search for.
#[derive(Clone, Debug)]
pub struct QueryTxHash(pub Vec<u8>);

/// The protocol event kinds an event query can ask for.
#[derive(Clone, Copy, Debug, PartialEq, Eq, Structural)]
pub enum BlockEventKind {
    CreateClient,
    UpdateClient,
    SendPacket,
    WriteAcknowledgement,
}

/// Query for a single client event.
#[derive(Clone, Debug)]
pub struct QueryClientEventRequest {
    pub query_height: QueryHeight,
    pub event_id: BlockEventKind,
    pub client_id: Ident,
    pub consensus_height: Height,
}

/// Query for the effects of committed transactions.
#[derive(Clone, Debug)]
pub enum QueryTxRequest {
    Client(QueryClientEventRequest),
    Transaction(QueryTxHash),
}

/// Query for packet events of one channel, bounded by a qualified height.
#[derive(Clone, Debug)]
pub struct QueryPacketEventDataRequest {
    pub event_id: BlockEventKind,
    pub source_channel_id: Ident,
    pub source_port_id: Ident,
    pub destination_channel_id: Ident,
    pub destination_port_id: Ident,
    pub sequences: Vec<Sequence>,
    pub height: Qualified<QueryHeight>,
}

/// A query relayed to another chain on behalf of this one.
#[derive(Clone, Debug)]
pub struct CrossChainQueryRequest {
    pub chain_id: Ident,
    pub query_id: String,
    pub query_type: String,
    /// Hex-encoded query request.
    pub request: String,
    pub height: u64,
}

} // verus!
