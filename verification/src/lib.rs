//! A minimal replicated ledger: hash-linked blocks of transactions secured by
//! a fixed-difficulty proof of work, with longest-valid-chain reconciliation
//! between peers.

pub mod api;
pub mod blockchain;
pub mod clock;
pub mod digest;
pub mod history;
pub mod peer;
pub mod text;
pub mod wire;
