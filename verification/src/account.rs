//! The account ledger: one client's balance state machine.
//!
//! An [`Account`] owns one client's balances and its own history of retained
//! deposit/withdrawal records. Its single entry point, [`Account::execute`],
//! applies a transaction or fails without touching the balances. The whole
//! transition relation is written down as the spec function [`spec_execute`],
//! which `execute` is proved to implement exactly.

use vstd::prelude::*;

use crate::transaction::{Amount, ClientId, Transaction, TransactionId, TransactionType};

verus! {

/// The per-transaction failure taxonomy of the core. Every failure is
/// terminal for that one transaction and leaves the account unchanged.
#[derive(Copy, Clone, Debug, PartialEq, Eq, Structural)]
pub enum Error {
    AccountLocked,
    InsufficientFunds,
    TransactionNotFound,
    AlreadyDisputed,
    NotUnderDispute,
    InvalidDisputeTarget,
}

/// One client's balance state together with its own transaction history.
#[derive(Debug)]
pub struct Account {
    pub client_id: ClientId,
    /// Retained deposit/withdrawal records, unique by transaction id.
    pub transactions: Vec<Transaction>,
    pub available: Amount,
    pub held: Amount,
    pub total: Amount,
    pub locked: bool,
}

/// The mathematical model of an account: balances as unbounded integers and
/// the history as a sequence of records.
#[verifier::ext_equal]
pub struct AccountModel {
    pub client_id: ClientId,
    pub transactions: Seq<Transaction>,
    pub available: int,
    pub held: int,
    pub total: int,
    pub locked: bool,
}

impl View for Account {
    type V = AccountModel;

    open spec fn view(&self) -> AccountModel {
        AccountModel {
            client_id: self.client_id,
            transactions: self.transactions@,
            available: self.available as int,
            held: self.held as int,
            total: self.total as int,
            locked: self.locked,
        }
    }
}

/// The amount carried by a record, as an integer; zero when absent.
pub open spec fn amount_of(t: Transaction) -> int {
    match t.amount {
        Some(a) => a as int,
        None => 0,
    }
}

/// What a record contributes to the held balance: its amount while it is
/// under dispute, nothing otherwise.
pub open spec fn contribution(t: Transaction) -> int {
    if t.under_dispute {
        amount_of(t)
    } else {
        0
    }
}

/// The sum of the amounts of all records currently under dispute.
pub open spec fn held_sum(s: Seq<Transaction>) -> int
    decreases s.len(),
{
    if s.len() == 0 {
        0
    } else {
        held_sum(s.drop_last()) + contribution(s.last())
    }
}

/// A record as the history may retain it: a deposit or a withdrawal carrying
/// its amount, and never a withdrawal under dispute.
pub open spec fn stored_ok(t: Transaction) -> bool {
    &&& t.amount is Some
    &&& (t.transaction_type == TransactionType::Deposit || t.transaction_type
        == TransactionType::Withdrawal)
    &&& (t.transaction_type == TransactionType::Withdrawal ==> !t.under_dispute)
}

/// Whether the history holds a record with the given id.
pub open spec fn history_contains(s: Seq<Transaction>, id: TransactionId) -> bool {
    exists|i: int| 0 <= i < s.len() && s[i].transaction_id == id
}

/// The index of the record with the given id; meaningful only when
/// `history_contains` holds, in which case unique ids make it unambiguous.
pub open spec fn history_index(s: Seq<Transaction>, id: TransactionId) -> int {
    choose|i: int| 0 <= i < s.len() && s[i].transaction_id == id
}

impl AccountModel {
    /// Well-formedness of an account.
    ///
    /// The balance equation `total == available + held` holds exactly, all
    /// balances are non-negative machine integers, every retained record is a
    /// deposit or withdrawal with its amount present, ids are unique, and —
    /// while the account is unlocked — the held balance equals the sum of the
    /// amounts under dispute. A chargeback freezes the account while leaving
    /// its record flagged, so the last equation is owed only of unlocked
    /// accounts; a locked account is never mutated again.
    pub open spec fn wf(self) -> bool {
        &&& self.total == self.available + self.held
        &&& 0 <= self.available
        &&& 0 <= self.held
        &&& self.total <= u64::MAX
        &&& forall|i: int|
            0 <= i < self.transactions.len() ==> stored_ok(#[trigger] self.transactions[i])
        &&& forall|i: int, j: int|
            0 <= i < j < self.transactions.len() ==> (#[trigger] self.transactions[i]).transaction_id
                != (#[trigger] self.transactions[j]).transaction_id
        &&& (!self.locked ==> self.held == held_sum(self.transactions))
    }
}

/// The state of a freshly created account: zero balances, empty history,
/// unlocked.
pub open spec fn empty_account(client_id: ClientId) -> AccountModel {
    AccountModel {
        client_id,
        transactions: Seq::empty(),
        available: 0,
        held: 0,
        total: 0,
        locked: false,
    }
}

/// What a deposit does: credit the amount and retain the record.
pub open spec fn spec_deposit(a: AccountModel, t: Transaction) -> (AccountModel, Result<
    (),
    Error,
>) {
    (
        AccountModel {
            available: a.available + amount_of(t),
            total: a.total + amount_of(t),
            transactions: a.transactions.push(t),
            ..a
        },
        Ok(()),
    )
}

/// What a withdrawal does: debit the amount and retain the record, unless
/// the available balance is too small.
pub open spec fn spec_withdraw(a: AccountModel, t: Transaction) -> (AccountModel, Result<
    (),
    Error,
>) {
    let amount = amount_of(t);
    if a.available < amount {
        (a, Err(Error::InsufficientFunds))
    } else {
        (
            AccountModel {
                available: a.available - amount,
                total: a.total - amount,
                transactions: a.transactions.push(t),
                ..a
            },
            Ok(()),
        )
    }
}

/// What a dispute does: move the referenced deposit's amount from available
/// to held and flag the record, or fail.
pub open spec fn spec_dispute(a: AccountModel, t: Transaction) -> (AccountModel, Result<
    (),
    Error,
>) {
    if !history_contains(a.transactions, t.transaction_id) {
        (a, Err(Error::TransactionNotFound))
    } else {
        let i = history_index(a.transactions, t.transaction_id);
        let referenced = a.transactions[i];
        if referenced.under_dispute {
            (a, Err(Error::AlreadyDisputed))
        } else {
            match referenced.transaction_type {
                TransactionType::Deposit => {
                    let amount = amount_of(referenced);
                    if a.available < amount {
                        (a, Err(Error::InsufficientFunds))
                    } else {
                        (
                            AccountModel {
                                available: a.available - amount,
                                held: a.held + amount,
                                transactions: a.transactions.update(
                                    i,
                                    Transaction { under_dispute: true, ..referenced },
                                ),
                                ..a
                            },
                            Ok(()),
                        )
                    }
                },
                _ => (a, Err(Error::InvalidDisputeTarget)),
            }
        }
    }
}

/// What a resolve does: move the disputed deposit's amount back from held to
/// available and clear the flag, or fail.
pub open spec fn spec_resolve(a: AccountModel, t: Transaction) -> (AccountModel, Result<
    (),
    Error,
>) {
    if !history_contains(a.transactions, t.transaction_id) {
        (a, Err(Error::TransactionNotFound))
    } else {
        let i = history_index(a.transactions, t.transaction_id);
        let referenced = a.transactions[i];
        if !referenced.under_dispute {
            (a, Err(Error::NotUnderDispute))
        } else {
            match referenced.transaction_type {
                TransactionType::Deposit => {
                    let amount = amount_of(referenced);
                    (
                        AccountModel {
                            available: a.available + amount,
                            held: a.held - amount,
                            transactions: a.transactions.update(
                                i,
                                Transaction { under_dispute: false, ..referenced },
                            ),
                            ..a
                        },
                        Ok(()),
                    )
                },
                _ => (a, Err(Error::InvalidDisputeTarget)),
            }
        }
    }
}

/// What a chargeback does: withdraw the disputed amount from held and total
/// and freeze the account, or fail. The record stays flagged: a charged-back
/// transaction is never un-disputed, since the account is now frozen.
pub open spec fn spec_chargeback(a: AccountModel, t: Transaction) -> (AccountModel, Result<
    (),
    Error,
>) {
    if !history_contains(a.transactions, t.transaction_id) {
        (a, Err(Error::TransactionNotFound))
    } else {
        let i = history_index(a.transactions, t.transaction_id);
        let referenced = a.transactions[i];
        if !referenced.under_dispute {
            (a, Err(Error::NotUnderDispute))
        } else {
            let amount = amount_of(referenced);
            (
                AccountModel { held: a.held - amount, total: a.total - amount, locked: true, ..a },
                Ok(()),
            )
        }
    }
}

/// The whole transition relation of an account: a locked account rejects
/// everything; otherwise the transaction is dispatched by kind.
pub open spec fn spec_execute(a: AccountModel, t: Transaction) -> (AccountModel, Result<
    (),
    Error,
>) {
    if a.locked {
        (a, Err(Error::AccountLocked))
    } else {
        match t.transaction_type {
            TransactionType::Deposit => spec_deposit(a, t),
            TransactionType::Withdrawal => spec_withdraw(a, t),
            TransactionType::Dispute => spec_dispute(a, t),
            TransactionType::Resolve => spec_resolve(a, t),
            TransactionType::Chargeback => spec_chargeback(a, t),
        }
    }
}

/// What an unlocked account asks of an incoming transaction before it can be
/// executed: a deposit or withdrawal carries its amount, is not pre-flagged,
/// and bears a fresh id (ids are globally unique by the input contract), and
/// a deposit must not push the total past the machine word.
pub open spec fn admissible(a: AccountModel, t: Transaction) -> bool {
    &&& ((t.transaction_type == TransactionType::Deposit || t.transaction_type
        == TransactionType::Withdrawal) ==> {
        &&& t.amount is Some
        &&& !t.under_dispute
        &&& !history_contains(a.transactions, t.transaction_id)
    })
    &&& (t.transaction_type == TransactionType::Deposit ==> a.total + amount_of(t) <= u64::MAX)
}

/// The dispute sum of a history is never negative.
pub proof fn lemma_held_sum_nonneg(s: Seq<Transaction>)
    ensures
        held_sum(s) >= 0,
    decreases s.len(),
{
    if s.len() != 0 {
        lemma_held_sum_nonneg(s.drop_last());
    }
}

/// Appending a record adds exactly its contribution to the dispute sum.
pub proof fn lemma_held_sum_push(s: Seq<Transaction>, t: Transaction)
    ensures
        held_sum(s.push(t)) == held_sum(s) + contribution(t),
{
    assert(s.push(t).drop_last() =~= s);
    assert(s.push(t).last() == t);
}

/// Replacing one record swaps its contribution in the dispute sum.
pub proof fn lemma_held_sum_update(s: Seq<Transaction>, i: int, t: Transaction)
    requires
        0 <= i < s.len(),
    ensures
        held_sum(s.update(i, t)) == held_sum(s) - contribution(s[i]) + contribution(t),
    decreases s.len(),
{
    let s2 = s.update(i, t);
    if i == s.len() - 1 {
        assert(s2.drop_last() =~= s.drop_last());
        assert(s2.last() == t);
    } else {
        assert(s2.drop_last() =~= s.drop_last().update(i, t));
        lemma_held_sum_update(s.drop_last(), i, t);
        assert(s.drop_last()[i] == s[i]);
        assert(s2.last() == s.last());
    }
}

/// The dispute sum covers each single disputed record.
pub proof fn lemma_held_sum_at_least(s: Seq<Transaction>, i: int)
    requires
        0 <= i < s.len(),
        s[i].under_dispute,
    ensures
        held_sum(s) >= amount_of(s[i]),
    decreases s.len(),
{
    if i == s.len() - 1 {
        lemma_held_sum_nonneg(s.drop_last());
    } else {
        lemma_held_sum_at_least(s.drop_last(), i);
        assert(s.drop_last()[i] == s[i]);
    }
}

/// With unique ids, any index holding the looked-up id is the index the
/// lookup denotes.
pub proof fn lemma_history_index_of(s: Seq<Transaction>, id: TransactionId, i: int)
    requires
        0 <= i < s.len(),
        s[i].transaction_id == id,
        forall|p: int, q: int|
            0 <= p < q < s.len() ==> (#[trigger] s[p]).transaction_id != (
            #[trigger] s[q]).transaction_id,
    ensures
        history_contains(s, id),
        history_index(s, id) == i,
{
    assert(history_contains(s, id));
    let j = history_index(s, id);
    assert(0 <= j < s.len() && s[j].transaction_id == id);
    if i < j {
        assert(s[i].transaction_id != s[j].transaction_id);
    }
    if j < i {
        assert(s[j].transaction_id != s[i].transaction_id);
    }
}

/// Depositing into a well-formed account yields a well-formed account.
pub proof fn lemma_spec_deposit_wf(a: AccountModel, t: Transaction)
    requires
        a.wf(),
        t.transaction_type == TransactionType::Deposit,
        t.amount is Some,
        !t.under_dispute,
        !history_contains(a.transactions, t.transaction_id),
        a.total + amount_of(t) <= u64::MAX,
    ensures
        spec_deposit(a, t).0.wf(),
{
    let s2 = a.transactions.push(t);
    lemma_held_sum_push(a.transactions, t);
    assert forall|i: int| 0 <= i < s2.len() implies stored_ok(#[trigger] s2[i]) by {
        if i < a.transactions.len() {
            assert(stored_ok(a.transactions[i]));
        }
    };
    assert forall|i: int, j: int| 0 <= i < j < s2.len() implies (
    #[trigger] s2[i]).transaction_id != (#[trigger] s2[j]).transaction_id by {
        if j == a.transactions.len() {
            if a.transactions[i].transaction_id == t.transaction_id {
                assert(history_contains(a.transactions, t.transaction_id));
            }
        } else {
            assert(a.transactions[i].transaction_id != a.transactions[j].transaction_id);
        }
    };
}

/// Withdrawing from a well-formed account yields a well-formed account.
pub proof fn lemma_spec_withdraw_wf(a: AccountModel, t: Transaction)
    requires
        a.wf(),
        t.transaction_type == TransactionType::Withdrawal,
        t.amount is Some,
        !t.under_dispute,
        !history_contains(a.transactions, t.transaction_id),
    ensures
        spec_withdraw(a, t).0.wf(),
{
    if a.available >= amount_of(t) {
        let s2 = a.transactions.push(t);
        lemma_held_sum_push(a.transactions, t);
        assert forall|i: int| 0 <= i < s2.len() implies stored_ok(#[trigger] s2[i]) by {
            if i < a.transactions.len() {
                assert(stored_ok(a.transactions[i]));
            }
        };
        assert forall|i: int, j: int| 0 <= i < j < s2.len() implies (
        #[trigger] s2[i]).transaction_id != (#[trigger] s2[j]).transaction_id by {
            if j == a.transactions.len() {
                if a.transactions[i].transaction_id == t.transaction_id {
                    assert(history_contains(a.transactions, t.transaction_id));
                }
            } else {
                assert(a.transactions[i].transaction_id != a.transactions[j].transaction_id);
            }
        };
    }
}

/// Disputing on a well-formed, unlocked account yields a well-formed account.
pub proof fn lemma_spec_dispute_wf(a: AccountModel, t: Transaction)
    requires
        a.wf(),
        !a.locked,
    ensures
        spec_dispute(a, t).0.wf(),
{
    if history_contains(a.transactions, t.transaction_id) {
        let i = history_index(a.transactions, t.transaction_id);
        assert(0 <= i < a.transactions.len() && a.transactions[i].transaction_id
            == t.transaction_id);
        let referenced = a.transactions[i];
        assert(stored_ok(referenced));
        if !referenced.under_dispute && referenced.transaction_type == TransactionType::Deposit
            && a.available >= amount_of(referenced) {
            let flagged = Transaction { under_dispute: true, ..referenced };
            let s2 = a.transactions.update(i, flagged);
            lemma_held_sum_update(a.transactions, i, flagged);
            assert forall|p: int| 0 <= p < s2.len() implies stored_ok(#[trigger] s2[p]) by {
                if p != i {
                    assert(stored_ok(a.transactions[p]));
                }
            };
            assert forall|p: int, q: int| 0 <= p < q < s2.len() implies (
            #[trigger] s2[p]).transaction_id != (#[trigger] s2[q]).transaction_id by {
                assert(s2[p].transaction_id == a.transactions[p].transaction_id);
                assert(s2[q].transaction_id == a.transactions[q].transaction_id);
                assert(a.transactions[p].transaction_id != a.transactions[q].transaction_id);
            };
        }
    }
}

/// Resolving on a well-formed, unlocked account yields a well-formed account.
pub proof fn lemma_spec_resolve_wf(a: AccountModel, t: Transaction)
    requires
        a.wf(),
        !a.locked,
    ensures
        spec_resolve(a, t).0.wf(),
{
    if history_contains(a.transactions, t.transaction_id) {
        let i = history_index(a.transactions, t.transaction_id);
        assert(0 <= i < a.transactions.len() && a.transactions[i].transaction_id
            == t.transaction_id);
        let referenced = a.transactions[i];
        assert(stored_ok(referenced));
        if referenced.under_dispute && referenced.transaction_type == TransactionType::Deposit {
            lemma_held_sum_at_least(a.transactions, i);
            let cleared = Transaction { under_dispute: false, ..referenced };
            let s2 = a.transactions.update(i, cleared);
            lemma_held_sum_update(a.transactions, i, cleared);
            assert forall|p: int| 0 <= p < s2.len() implies stored_ok(#[trigger] s2[p]) by {
                if p != i {
                    assert(stored_ok(a.transactions[p]));
                }
            };
            assert forall|p: int, q: int| 0 <= p < q < s2.len() implies (
            #[trigger] s2[p]).transaction_id != (#[trigger] s2[q]).transaction_id by {
                assert(s2[p].transaction_id == a.transactions[p].transaction_id);
                assert(s2[q].transaction_id == a.transactions[q].transaction_id);
                assert(a.transactions[p].transaction_id != a.transactions[q].transaction_id);
            };
        }
    }
}

/// A chargeback on a well-formed, unlocked account yields a well-formed
/// account. The held balance stays covered because the charged-back amount
/// was part of the dispute sum.
pub proof fn lemma_spec_chargeback_wf(a: AccountModel, t: Transaction)
    requires
        a.wf(),
        !a.locked,
    ensures
        spec_chargeback(a, t).0.wf(),
{
    if history_contains(a.transactions, t.transaction_id) {
        let i = history_index(a.transactions, t.transaction_id);
        assert(0 <= i < a.transactions.len() && a.transactions[i].transaction_id
            == t.transaction_id);
        let referenced = a.transactions[i];
        assert(stored_ok(referenced));
        if referenced.under_dispute {
            lemma_held_sum_at_least(a.transactions, i);
        }
    }
}

impl Account {
    /// A fresh account for the given client: zero balances, empty history,
    /// unlocked.
    pub fn new(client_id: ClientId) -> (account: Account)
        ensures
            account@ == empty_account(client_id),
            account@.wf(),
    {
        let account = Account {
            client_id,
            transactions: Vec::new(),
            available: 0,
            held: 0,
            total: 0,
            locked: false,
        };
        proof {
            assert(account@.transactions =~= empty_account(client_id).transactions);
            assert(account@ =~= empty_account(client_id));
        }
        account
    }

    /// The position of the retained record with the given id, if any.
    fn find_index(&self, transaction_id: TransactionId) -> (r: Option<usize>)
        ensures
            match r {
                Some(i) => i < self.transactions.len() && self@.transactions[i as int].transaction_id
                    == transaction_id,
                None => !history_contains(self@.transactions, transaction_id),
            },
    {
        let mut i: usize = 0;
        while i < self.transactions.len()
            invariant
                i <= self.transactions.len(),
                forall|j: int|
                    0 <= j < i ==> (#[trigger] self@.transactions[j]).transaction_id
                        != transaction_id,
            decreases self.transactions.len() - i,
        {
            if self.transactions[i].transaction_id == transaction_id {
                return Some(i);
            }
            i += 1;
        }
        None
    }

    /// The retained record with the given id, if any.
    pub fn find_transaction(&self, transaction_id: TransactionId) -> (r: Option<Transaction>)
        requires
            self@.wf(),
        ensures
            match r {
                Some(t) => history_contains(self@.transactions, transaction_id) && t
                    == self@.transactions[history_index(self@.transactions, transaction_id)],
                None => !history_contains(self@.transactions, transaction_id),
            },
    {
        match self.find_index(transaction_id) {
            Some(i) => {
                proof {
                    lemma_history_index_of(self@.transactions, transaction_id, i as int);
                }
                Some(self.transactions[i])
            },
            None => None,
        }
    }

    /// Whether `execute` accepts this transaction's shape on this account:
    /// the machine-limit guard a caller tests before executing. Locked
    /// accounts accept every shape (and then reject the execution itself).
    pub fn admits(&self, transaction: &Transaction) -> (b: bool)
        requires
            self@.wf(),
        ensures
            b == (!self@.locked ==> admissible(self@, *transaction)),
    {
        if self.locked {
            return true;
        }
        match transaction.transaction_type {
            TransactionType::Deposit | TransactionType::Withdrawal => {
                if transaction.under_dispute {
                    return false;
                }
                match self.find_index(transaction.transaction_id) {
                    Some(i) => {
                        proof {
                            assert(history_contains(self@.transactions, transaction.transaction_id));
                        }
                        false
                    },
                    None => match transaction.amount {
                        None => false,
                        Some(amount) => {
                            if matches!(transaction.transaction_type, TransactionType::Deposit) {
                                self.total <= u64::MAX - amount
                            } else {
                                true
                            }
                        },
                    },
                }
            },
            _ => true,
        }
    }

    fn handle_deposit(&mut self, transaction: Transaction) -> (r: Result<(), Error>)
        requires
            old(self)@.wf(),
            transaction.transaction_type == TransactionType::Deposit,
            admissible(old(self)@, transaction),
        ensures
            final(self)@ == spec_deposit(old(self)@, transaction).0,
            r == spec_deposit(old(self)@, transaction).1,
            final(self)@.wf(),
    {
        let ghost a0 = old(self)@;
        let amount = transaction.amount.unwrap();
        self.available = self.available + amount;
        self.total = self.total + amount;
        self.transactions.push(transaction);
        proof {
            lemma_spec_deposit_wf(a0, transaction);
            assert(self@ =~= spec_deposit(a0, transaction).0);
        }
        Ok(())
    }

    fn handle_withdraw(&mut self, transaction: Transaction) -> (r: Result<(), Error>)
        requires
            old(self)@.wf(),
            transaction.transaction_type == TransactionType::Withdrawal,
            admissible(old(self)@, transaction),
        ensures
            final(self)@ == spec_withdraw(old(self)@, transaction).0,
            r == spec_withdraw(old(self)@, transaction).1,
            final(self)@.wf(),
    {
        let ghost a0 = old(self)@;
        let amount = transaction.amount.unwrap();
        if self.available < amount {
            return Err(Error::InsufficientFunds);
        }
        self.available = self.available - amount;
        self.total = self.total - amount;
        self.transactions.push(transaction);
        proof {
            lemma_spec_withdraw_wf(a0, transaction);
            assert(self@ =~= spec_withdraw(a0, transaction).0);
        }
        Ok(())
    }

    fn handle_dispute(&mut self, transaction: Transaction) -> (r: Result<(), Error>)
        requires
            old(self)@.wf(),
            !old(self).locked,
        ensures
            final(self)@ == spec_dispute(old(self)@, transaction).0,
            r == spec_dispute(old(self)@, transaction).1,
            final(self)@.wf(),
    {
        let ghost a0 = old(self)@;
        match self.find_index(transaction.transaction_id) {
            None => Err(Error::TransactionNotFound),
            Some(i) => {
                proof {
                    lemma_history_index_of(a0.transactions, transaction.transaction_id, i as int);
                    assert(stored_ok(a0.transactions[i as int]));
                }
                let referenced = self.transactions[i];
                if referenced.under_dispute {
                    return Err(Error::AlreadyDisputed);
                }
                match referenced.transaction_type {
                    TransactionType::Deposit => {
                        let amount = referenced.amount.unwrap();
                        if self.available < amount {
                            return Err(Error::InsufficientFunds);
                        }
                        self.available = self.available - amount;
                        self.held = self.held + amount;
                        self.transactions[i].under_dispute = true;
                        proof {
                            lemma_spec_dispute_wf(a0, transaction);
                            assert(self@.transactions =~= a0.transactions.update(
                                i as int,
                                Transaction { under_dispute: true, ..referenced },
                            ));
                            assert(self@ =~= spec_dispute(a0, transaction).0);
                        }
                        Ok(())
                    },
                    _ => Err(Error::InvalidDisputeTarget),
                }
            },
        }
    }

    fn handle_resolve(&mut self, transaction: Transaction) -> (r: Result<(), Error>)
        requires
            old(self)@.wf(),
            !old(self).locked,
        ensures
            final(self)@ == spec_resolve(old(self)@, transaction).0,
            r == spec_resolve(old(self)@, transaction).1,
            final(self)@.wf(),
    {
        let ghost a0 = old(self)@;
        match self.find_index(transaction.transaction_id) {
            None => Err(Error::TransactionNotFound),
            Some(i) => {
                proof {
                    lemma_history_index_of(a0.transactions, transaction.transaction_id, i as int);
                    assert(stored_ok(a0.transactions[i as int]));
                }
                let referenced = self.transactions[i];
                if !referenced.under_dispute {
                    return Err(Error::NotUnderDispute);
                }
                match referenced.transaction_type {
                    TransactionType::Deposit => {
                        let amount = referenced.amount.unwrap();
                        proof {
                            lemma_held_sum_at_least(a0.transactions, i as int);
                        }
                        self.available = self.available + amount;
                        self.held = self.held - amount;
                        self.transactions[i].under_dispute = false;
                        proof {
                            lemma_spec_resolve_wf(a0, transaction);
                            assert(self@.transactions =~= a0.transactions.update(
                                i as int,
                                Transaction { under_dispute: false, ..referenced },
                            ));
                            assert(self@ =~= spec_resolve(a0, transaction).0);
                        }
                        Ok(())
                    },
                    _ => Err(Error::InvalidDisputeTarget),
                }
            },
        }
    }

    fn handle_chargeback(&mut self, transaction: Transaction) -> (r: Result<(), Error>)
        requires
            old(self)@.wf(),
            !old(self).locked,
        ensures
            final(self)@ == spec_chargeback(old(self)@, transaction).0,
            r == spec_chargeback(old(self)@, transaction).1,
            final(self)@.wf(),
    {
        let ghost a0 = old(self)@;
        match self.find_index(transaction.transaction_id) {
            None => Err(Error::TransactionNotFound),
            Some(i) => {
                proof {
                    lemma_history_index_of(a0.transactions, transaction.transaction_id, i as int);
                    assert(stored_ok(a0.transactions[i as int]));
                }
                let referenced = self.transactions[i];
                if !referenced.under_dispute {
                    return Err(Error::NotUnderDispute);
                }
                let amount = referenced.amount.unwrap();
                proof {
                    lemma_held_sum_at_least(a0.transactions, i as int);
                }
                self.held = self.held - amount;
                self.total = self.total - amount;
                self.locked = true;
                proof {
                    lemma_spec_chargeback_wf(a0, transaction);
                    assert(self@ =~= spec_chargeback(a0, transaction).0);
                }
                Ok(())
            },
        }
    }

    /// Apply one transaction: the single entry point of the state machine.
    ///
    /// A locked account rejects everything with `AccountLocked`; otherwise
    /// the transaction is dispatched by kind. On failure the account is
    /// unchanged. The result and the new state are exactly those of
    /// [`spec_execute`], and well-formedness is preserved.
    pub fn execute(&mut self, transaction: Transaction) -> (r: Result<(), Error>)
        requires
            old(self)@.wf(),
            !old(self).locked ==> admissible(old(self)@, transaction),
        ensures
            final(self)@ == spec_execute(old(self)@, transaction).0,
            r == spec_execute(old(self)@, transaction).1,
            final(self)@.wf(),
            r is Err ==> final(self)@ == old(self)@,
    {
        if self.locked {
            return Err(Error::AccountLocked);
        }
        match transaction.transaction_type {
            TransactionType::Deposit => self.handle_deposit(transaction)?,
            TransactionType::Withdrawal => self.handle_withdraw(transaction)?,
            TransactionType::Dispute => self.handle_dispute(transaction)?,
            TransactionType::Resolve => self.handle_resolve(transaction)?,
            TransactionType::Chargeback => self.handle_chargeback(transaction)?,
        }
        // The fatal internal-consistency check: statically discharged, so a
        // violation is impossible rather than detected at run time.
        let consistent = self.check_consistency();
        assert(consistent);
        Ok(())
    }

    /// The balance-equation check `total == available + held`. With exact
    /// fixed-point arithmetic one equation carries the whole check; under
    /// `wf` it always returns true, which `execute` asserts after every
    /// successful dispatch.
    pub fn check_consistency(&self) -> (consistent: bool)
        ensures
            consistent == (self@.total == self@.available + self@.held),
    {
        self.available <= self.total && self.total - self.available == self.held
    }
}

} // verus!
