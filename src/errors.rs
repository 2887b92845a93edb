//! The failures that ledger operations report.

use vstd::prelude::*;
use crate::text::{decimal, decimal_of};

verus! {

/// Every failure of an account or ledger operation.
#[derive(Debug)]
pub enum LedgerError {
    /// No stored account has this identifier.
    AccountNotFound(String),
    /// A transfer asked for more than the source account holds.
    InsufficientFunds { require: u64, available: u64 },
    /// An account with this identifier is already stored.
    DuplicateAccount(String),
    /// A transfer endpoint is not a wallet; the text names it.
    InvalidTransfer(String),
    /// Bytes could not be produced or read back.
    SerializationError(String),
}

/// The human-readable text of an error.
pub open spec fn error_text(e: LedgerError) -> Seq<char> {
    match e {
        LedgerError::AccountNotFound(key) => key@ + " was not fount"@,
        LedgerError::InsufficientFunds { require, available } =>
            "Insuficient funds to make the trasnfer: requires: "@ + decimal_of(require as nat)
                + ", account has: "@ + decimal_of(available as nat),
        LedgerError::DuplicateAccount(key) => "account "@ + key@ + " already exists"@,
        LedgerError::InvalidTransfer(message) => "invalid transfer for: "@ + message@,
        LedgerError::SerializationError(message) => message@,
    }
}

impl LedgerError {
    /// Renders the error as text.
    pub fn to_string(&self) -> (r: String)
        ensures
            r@ == error_text(*self),
    {
        match self {
            LedgerError::AccountNotFound(key) => key.clone().concat(" was not fount"),
            LedgerError::InsufficientFunds { require, available } => {
                let mut s = String::from_str("Insuficient funds to make the trasnfer: requires: ");
                s.append(decimal(*require).as_str());
                s.append(", account has: ");
                s.append(decimal(*available).as_str());
                s
            },
            LedgerError::DuplicateAccount(key) => {
                let mut s = String::from_str("account ");
                s.append(key.as_str());
                s.append(" already exists");
                s
            },
            LedgerError::InvalidTransfer(message) => {
                String::from_str("invalid transfer for: ").concat(message.as_str())
            },
            LedgerError::SerializationError(message) => message.clone(),
        }
    }
}

} // verus!
