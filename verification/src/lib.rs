//! Core state machine of a single node in a toy proof-of-work ledger:
//! an append-only chain of hashed blocks, a pending-transaction pool,
//! a brute-force proof-of-work search, and a longest-valid-chain
//! conflict-resolution rule.
//!
//! The HTTP layer, peer fetching and argument parsing are external
//! collaborators; this crate holds the verified consensus logic.

pub mod codec;
pub mod hashing;
pub mod laws;
pub mod ledger;
pub mod model;
