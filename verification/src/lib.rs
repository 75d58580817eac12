//! A small ledger that reconstructs per-client account balances from a
//! stream of transaction records, enforcing deposit / withdrawal / dispute /
//! resolve / chargeback semantics.

pub mod account;
pub mod laws;
pub mod registry;
pub mod transaction;

pub use account::{Account, Error};
pub use registry::Registry;
pub use transaction::{Amount, ClientId, Transaction, TransactionId, TransactionType};
