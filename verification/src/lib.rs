//! A governance voting core: token holders cast weighted votes on proposals,
//! voting power derives from token deposits and may be delegated, and each
//! deposit is counted at most once per proposal.
//!
//! The crate is laid out leaf-first:
//! - [`types`]: the plain data the core exchanges with its collaborators.
//! - [`keyed`]: a unique-key association vector, the model of a persisted map.
//! - [`delegation`]: the delegation graph, kept acyclic at write time.
//! - [`registry`]: per-voter token deposits and their running total.
//! - [`weights`]: resolution of effective voting power along delegation chains.
//! - [`records`]: one live vote record per `(proposal, voter)` pair.
//! - [`tally`]: running yes/no/abstain totals per proposal.
//! - [`engine`]: the public operations, orchestrating the components.

pub mod types;
pub mod keyed;
pub mod delegation;
pub mod registry;
pub mod weights;
pub mod records;
pub mod tally;
pub mod engine;

pub use types::{GovError, ProposalInfo, ProposalStatus, VoteChoice};
pub use engine::GovernanceHandler;
