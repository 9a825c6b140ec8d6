use vstd::prelude::*;

verus! {

/// Why a byte value failed to decode as the expected domain type.
#[derive(Clone, Copy, Debug, PartialEq, Eq, Structural)]
pub enum DecodeError {
    /// The value's length differs from the one the wire encoding fixes.
    LengthMismatch { expected: usize, actual: usize },
    /// The value is not the text the encoding calls for.
    Text,
}

/// Errors of the adapter core.
///
/// Each failure kind gets its own variant, so that callers can tell
/// transport, decoding, proof, submission and confirmation failures apart
/// and none is downgraded to a generic failure.
#[derive(Clone, Copy, Debug, PartialEq, Eq, Structural)]
pub enum Error {
    /// The RPC transport failed; surfaced, never silently retried.
    Transport,
    /// A proof was requested but the chain's response carried none.
    EmptyResponseProof,
    /// A proof operation was malformed for the canonical proof encoding.
    ProofConversion,
    /// A value's bytes did not match the expected wire encoding.
    Decode(DecodeError),
    /// A key returned by a scan did not parse as the scanned path family.
    MalformedKey,
    /// A query answer did not have the required shape.
    Query,
    /// The chain node is still catching up and cannot serve queries.
    ChainNotCaughtUp,
    /// The chain reported a block height of zero.
    InvalidHeight,
    /// The wallet holds no address under the requested alias.
    AddressNotFound,
    /// The wallet holds no signing key under the configured alias.
    KeyNotFound,
    /// Loading the fixed on-chain transaction bytecode failed; fatal.
    TxCodeLoad,
    /// Encoding an outbound protocol message failed.
    ProtobufEncode,
    /// A submitted transaction was still unconfirmed when the global
    /// confirmation timeout fired.
    TxNoConfirmation,
}

} // verus!
