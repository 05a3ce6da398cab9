//! Escrow contract between a creator, a fulfiller and an arbiter: a keyed store
//! of escrow records, a multi-asset balance ledger and a trust-metric gate on
//! who may accept an escrow.

pub mod balance;
pub mod contract;
pub mod error;
pub mod msg;
pub mod state;
pub mod trust;
