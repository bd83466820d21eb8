//! A minimal proof-of-work ledger: signed transfers, hash-linked blocks mined
//! under a difficulty target, and nodes that settle forks by the
//! longest-valid-chain rule.
//!
//! Every executable function carries a contract over the mathematical model
//! of its data, and every contract is machine-checked.

pub mod blockchain;
pub mod crypto;
pub mod encoding;
pub mod errors;
pub mod wallet;
