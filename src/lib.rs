//! An in-process ledger of typed accounts: creation, value transfer between
//! wallets, lookup by category and a byte format for persistence.

pub mod text;
pub mod errors;
pub mod account;
pub mod codec;
pub mod ledger;
pub mod name_ledger;
