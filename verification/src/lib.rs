//! A verified multi-token ledger in the ERC-1155 style.
//!
//! The ledger keeps token collections ("taos"), token types scoped to a
//! collection, per-owner balances keyed by `(owner, collection, token)`,
//! and blanket operator approvals.  Mint, burn and transfer come in single
//! and batched forms; a batch either applies completely or leaves the
//! ledger untouched.

pub mod approval;
pub mod extension;
pub mod laws;
pub mod ledger;
pub mod model;
