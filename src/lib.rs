//! Commitments: value locked by an owner for a term under a risk policy, with the rules that
//! detect excess loss and expiry, the tiered access control that gates every change, the
//! position receipts that stand for each commitment, and an append-only attestation ledger.

pub mod access_control;
pub mod address;
pub mod attestation_engine;
pub mod commitment_core;
pub mod commitment_nft;
pub mod lifecycle;
pub mod risk;
