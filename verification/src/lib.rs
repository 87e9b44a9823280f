//! An in-memory access-control service for per-account "sheets": it registers
//! accounts, tracks which are logged in, and manages each owner's sharing
//! record (at most one collaborator plus a set of viewers) under exact
//! promotion, demotion and revocation rules.

pub mod creds;
pub mod laws;
pub mod user_store;
