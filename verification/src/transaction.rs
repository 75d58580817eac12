//! Transaction records: the immutable-once-parsed input events that an
//! account ledger consumes.

use vstd::prelude::*;

verus! {

/// Identifies a customer; the stable key into the ledger registry.
pub type ClientId = u16;

/// Identifies a transaction, globally unique across all clients.
pub type TransactionId = u32;

/// A monetary quantity, held as a fixed-point integer scaled by 10_000
/// (four decimal digits of precision, so `12_5000` means `12.5`).
pub type Amount = u64;

/// The five kinds of input event.
///
/// Deposits and withdrawals carry an amount; disputes, resolves and
/// chargebacks carry none and instead reference an earlier transaction id.
#[derive(Copy, Clone, Debug, PartialEq, Eq, Structural)]
pub enum TransactionType {
    Deposit,
    Withdrawal,
    Dispute,
    Resolve,
    Chargeback,
}

/// One input event, validated for required fields before it reaches an
/// account. Deposits and withdrawals are retained in the owning account's
/// history (so later disputes can reference them); the other kinds are
/// transient. `under_dispute` is mutable account-side state, false on entry.
#[derive(Copy, Clone, Debug, PartialEq, Eq, Structural)]
pub struct Transaction {
    pub transaction_type: TransactionType,
    pub client_id: ClientId,
    pub transaction_id: TransactionId,
    pub amount: Option<Amount>,
    pub under_dispute: bool,
}

impl Transaction {
    /// Whether this kind of record must carry an amount to be well formed:
    /// true exactly for deposits and withdrawals.
    pub fn requires_amount(&self) -> (r: bool)
        ensures
            r == (self.transaction_type == TransactionType::Deposit
                || self.transaction_type == TransactionType::Withdrawal),
    {
        matches!(
            self.transaction_type,
            TransactionType::Deposit | TransactionType::Withdrawal
        )
    }
}

} // verus!
