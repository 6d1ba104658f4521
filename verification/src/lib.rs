//! UTXO chain input selection and ownership-dependency resolution.
//!
//! Given the outputs a transaction must produce, this library decides which
//! ownership-bearing outputs (alias, NFT, foundry — "chain outputs") must be
//! consumed as inputs, resolves transitive ownership dependencies against a
//! ledger snapshot, and rebuilds continuation outputs at the minimum required
//! storage deposit so that chain identities are not destroyed unless burning
//! is explicitly allowed.

#![verifier::loop_isolation(false)]

pub mod amounts;
pub mod error;
pub mod idset;
pub mod materialize;
pub mod output;
pub mod rent;
pub mod resolve;
pub mod select;
pub mod tokens;
pub mod unlock;
