//! A minimal custodial balance vault.
//!
//! Every user identity owns at most one vault account, stored at an address
//! derived deterministically from the identity, a fixed domain tag and a
//! canonical one-byte discriminant.  The ledger offers three operations:
//! `initialize` creates the account, `deposit` moves value from the user's
//! externally held balance into the vault, and `withdraw` moves value back
//! out, gated on the account's immutable authority.

pub mod addressing;
pub mod errors;
pub mod keys;
pub mod laws;
pub mod ledger;
pub mod records;

pub use errors::VaultError;
pub use keys::{Address, Identity};
pub use ledger::{Deposit, Initialize, VaultLedger, Withdraw};
pub use records::{VaultAccount, Wallet};
