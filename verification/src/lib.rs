//! Bidding and submission core of an Ethereum block builder that takes part
//! in proposer-builder separation through the mev-boost relay protocol.
//!
//! The crate owns the slot/bid lifecycle: per-slot relay readiness, the bid
//! auction over candidate blocks and competing bid signals, the timing-gated
//! submission decision, and the construction of the wire-format submission
//! message. Transport, signing and clock collaborators live outside and hand
//! plain values in.

pub mod auction;
pub mod config;
pub mod coordinator;
pub mod decimal;
pub mod hexbytes;
pub mod relay_endpoint;
pub mod resolver;
pub mod status_map;
pub mod types;
pub mod wire;
