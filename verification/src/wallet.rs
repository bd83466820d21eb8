//! Wallets and the signed transfers they issue.

pub mod transaction;
pub mod wallet;
