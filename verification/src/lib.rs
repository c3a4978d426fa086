//! A content-addressed record store with quorum attestation.
//!
//! Independent parties submit economic records into a shared store; each
//! record's storage address is derived deterministically from its content
//! key, duplicate submissions are refused, storage is paid for up front,
//! and a fixed quorum of approve or reject votes finalizes each record's
//! status exactly once. The caller's execution environment must serialize
//! operations that touch the same address; under that guarantee every
//! operation here either commits fully or fails leaving nothing changed.

pub mod address;
pub mod den;
pub mod laws;
pub mod ledger;
pub mod rewards;
pub mod store;
pub mod types;
