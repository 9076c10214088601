//! The vault's error taxonomy.  Every failure is reported synchronously and
//! no operation leaves partial state behind.

use vstd::prelude::*;

verus! {

/// Why a vault operation was rejected.
#[derive(Clone, Copy, Debug, PartialEq, Eq)]
pub enum VaultError {
    /// A withdraw was requested by an identity that is not the account's
    /// stored authority.
    Unauthorized,
    /// A deposit or withdraw named a zero amount.
    InvalidAmount,
    /// A withdraw asked for more than the vault account holds.
    InsufficientFunds,
    /// An initialize targeted an address that already holds a record.
    AccountAlreadyExists,
    /// A deposit or withdraw targeted an address with no initialized record,
    /// or no address at all can be derived for the identity.
    AccountNotFound,
    /// The value-transfer step rejected the deposit, e.g. because the
    /// caller's externally held balance is too low.
    TransferFailed,
}

impl VaultError {
    /// A short human-readable description of the error.
    pub fn message(&self) -> (r: &'static str)
        ensures
            r@.len() > 0,
    {
        let s = match self {
            VaultError::Unauthorized => "Unauthorized",
            VaultError::InvalidAmount => "Invalid amount",
            VaultError::InsufficientFunds => "Insufficient funds",
            VaultError::AccountAlreadyExists => "Account already exists",
            VaultError::AccountNotFound => "Account not found",
            VaultError::TransferFailed => "Transfer failed",
        };
        proof {
            reveal_strlit("Unauthorized");
            reveal_strlit("Invalid amount");
            reveal_strlit("Insufficient funds");
            reveal_strlit("Account already exists");
            reveal_strlit("Account not found");
            reveal_strlit("Transfer failed");
        }
        s
    }
}

} // verus!
