//! The laws of the account state machine, proved once and for all over the
//! spec-level transition relation [`spec_execute`].
//!
//! [`Account::execute`] is proved to implement `spec_execute` exactly, so
//! each law here holds of every run of the executable ledger as well.
//!
//! [`Account::execute`]: crate::account::Account::execute
//! [`spec_execute`]: crate::account::spec_execute

use vstd::prelude::*;

use crate::account::{
    admissible, amount_of, history_contains, history_index, lemma_history_index_of,
    lemma_spec_chargeback_wf, lemma_spec_deposit_wf, lemma_spec_dispute_wf, lemma_spec_resolve_wf,
    lemma_spec_withdraw_wf, spec_execute, stored_ok, AccountModel, Error,
};
use crate::transaction::{Transaction, TransactionType};

verus! {

/// Law: executing any transaction that a well-formed account admits yields a
/// well-formed account again; in particular the balance equation
/// `total == available + held` holds exactly in every reachable state.
pub proof fn lemma_execute_preserves_consistency(a: AccountModel, t: Transaction)
    requires
        a.wf(),
        !a.locked ==> admissible(a, t),
    ensures
        spec_execute(a, t).0.wf(),
        spec_execute(a, t).0.total == spec_execute(a, t).0.available + spec_execute(a, t).0.held,
{
    if !a.locked {
        match t.transaction_type {
            TransactionType::Deposit => lemma_spec_deposit_wf(a, t),
            TransactionType::Withdrawal => lemma_spec_withdraw_wf(a, t),
            TransactionType::Dispute => lemma_spec_dispute_wf(a, t),
            TransactionType::Resolve => lemma_spec_resolve_wf(a, t),
            TransactionType::Chargeback => lemma_spec_chargeback_wf(a, t),
        }
    }
}

/// Law: once an account is locked, every execution fails with
/// `AccountLocked` and leaves the account exactly as it was — so the lock is
/// monotonic and the balances can never change again.
pub proof fn lemma_locked_rejects_everything(a: AccountModel, t: Transaction)
    requires
        a.locked,
    ensures
        spec_execute(a, t).0 == a,
        spec_execute(a, t).1 == Err::<(), Error>(Error::AccountLocked),
        spec_execute(a, t).0.locked,
{
}

/// Law: after a dispute succeeds, disputing the same transaction id again
/// fails with `AlreadyDisputed`, whatever other fields the second record
/// carries.
pub proof fn lemma_second_dispute_fails(a: AccountModel, t1: Transaction, t2: Transaction)
    requires
        a.wf(),
        t1.transaction_type == TransactionType::Dispute,
        t2.transaction_type == TransactionType::Dispute,
        t2.transaction_id == t1.transaction_id,
        spec_execute(a, t1).1 is Ok,
    ensures
        spec_execute(spec_execute(a, t1).0, t2).1 == Err::<(), Error>(Error::AlreadyDisputed),
        spec_execute(spec_execute(a, t1).0, t2).0 == spec_execute(a, t1).0,
{
    let a1 = spec_execute(a, t1).0;
    let i = history_index(a.transactions, t1.transaction_id);
    assert(0 <= i < a.transactions.len() && a.transactions[i].transaction_id
        == t1.transaction_id);
    let referenced = a.transactions[i];
    let flagged = Transaction { under_dispute: true, ..referenced };
    assert(a1.transactions == a.transactions.update(i, flagged));
    assert forall|p: int, q: int| 0 <= p < q < a1.transactions.len() implies (
    #[trigger] a1.transactions[p]).transaction_id != (
    #[trigger] a1.transactions[q]).transaction_id by {
        assert(a1.transactions[p].transaction_id == a.transactions[p].transaction_id);
        assert(a1.transactions[q].transaction_id == a.transactions[q].transaction_id);
        assert(a.transactions[p].transaction_id != a.transactions[q].transaction_id);
    };
    lemma_history_index_of(a1.transactions, t2.transaction_id, i);
    assert(a1.transactions[i].under_dispute);
}

/// Law: a dispute followed by a resolve of the same transaction id succeeds
/// and returns the account — balances, history and all — exactly to its
/// state before the dispute.
pub proof fn lemma_dispute_resolve_round_trip(a: AccountModel, t1: Transaction, t2: Transaction)
    requires
        a.wf(),
        t1.transaction_type == TransactionType::Dispute,
        t2.transaction_type == TransactionType::Resolve,
        t2.transaction_id == t1.transaction_id,
        spec_execute(a, t1).1 is Ok,
    ensures
        spec_execute(spec_execute(a, t1).0, t2).1 is Ok,
        spec_execute(spec_execute(a, t1).0, t2).0 == a,
{
    let a1 = spec_execute(a, t1).0;
    let i = history_index(a.transactions, t1.transaction_id);
    assert(0 <= i < a.transactions.len() && a.transactions[i].transaction_id
        == t1.transaction_id);
    let referenced = a.transactions[i];
    let flagged = Transaction { under_dispute: true, ..referenced };
    assert(a1.transactions == a.transactions.update(i, flagged));
    assert forall|p: int, q: int| 0 <= p < q < a1.transactions.len() implies (
    #[trigger] a1.transactions[p]).transaction_id != (
    #[trigger] a1.transactions[q]).transaction_id by {
        assert(a1.transactions[p].transaction_id == a.transactions[p].transaction_id);
        assert(a1.transactions[q].transaction_id == a.transactions[q].transaction_id);
        assert(a.transactions[p].transaction_id != a.transactions[q].transaction_id);
    };
    lemma_history_index_of(a1.transactions, t2.transaction_id, i);
    let cleared = Transaction { under_dispute: false, ..flagged };
    assert(cleared == referenced);
    let a2 = spec_execute(a1, t2).0;
    assert(a2.transactions =~= a.transactions);
    assert(a2 =~= a);
}

/// Law: a withdrawal asking for more than the available balance fails with
/// `InsufficientFunds` and leaves the account unchanged.
pub proof fn lemma_overdraw_rejected(a: AccountModel, t: Transaction)
    requires
        !a.locked,
        t.transaction_type == TransactionType::Withdrawal,
        amount_of(t) > a.available,
    ensures
        spec_execute(a, t).0 == a,
        spec_execute(a, t).1 == Err::<(), Error>(Error::InsufficientFunds),
{
}

/// Law: disputing a retained withdrawal always fails with
/// `InvalidDisputeTarget` and leaves the account unchanged. (On a locked
/// account the earlier `AccountLocked` rejection fires instead.)
pub proof fn lemma_dispute_of_withdrawal_rejected(a: AccountModel, t: Transaction)
    requires
        a.wf(),
        !a.locked,
        t.transaction_type == TransactionType::Dispute,
        history_contains(a.transactions, t.transaction_id),
        a.transactions[history_index(a.transactions, t.transaction_id)].transaction_type
            == TransactionType::Withdrawal,
    ensures
        spec_execute(a, t).0 == a,
        spec_execute(a, t).1 == Err::<(), Error>(Error::InvalidDisputeTarget),
{
    let i = history_index(a.transactions, t.transaction_id);
    assert(0 <= i < a.transactions.len() && a.transactions[i].transaction_id
        == t.transaction_id);
    assert(stored_ok(a.transactions[i]));
}

} // verus!
