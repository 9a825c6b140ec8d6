//! Verified core of a chain adapter for a multi-chain relayer.
//!
//! The adapter speaks to one ledger's storage and transaction-submission
//! model and presents a uniform query/submit contract upward.  This crate
//! holds the adapter's logic — storage-path codec, proof translation,
//! query-result resolution, event normalization, wrapper-transaction
//! construction and the commit-confirmation state machine — verified with
//! Verus.  Network transport, wallet and light client are collaborators
//! that the surrounding system supplies.

pub mod error;
pub mod events;
pub mod ident;
pub mod merkle;
pub mod path;
pub mod query;
pub mod requests;
pub mod strnum;
pub mod tx;
pub mod wire;
