use ledger::{Account, Error, Registry, Transaction, TransactionType};

fn amt(value: f64) -> u64 {
    (value * 10000.0).round() as u64
}

fn record(
    transaction_type: TransactionType,
    client_id: u16,
    transaction_id: u32,
    amount: Option<f64>,
) -> Transaction {
    Transaction {
        transaction_type,
        client_id,
        transaction_id,
        amount: amount.map(amt),
        under_dispute: false,
    }
}

fn account_of(registry: &Registry, client_id: u16) -> &Account {
    registry
        .accounts
        .iter()
        .find(|account| account.client_id == client_id)
        .expect("no account for client")
}

fn check(account: &Account, available: f64, held: f64, total: f64, locked: bool) {
    assert_eq!(account.available, amt(available));
    assert_eq!(account.held, amt(held));
    assert_eq!(account.total, amt(total));
    assert_eq!(account.locked, locked);
}

/// Feed one record through the registry the way the adapter does: test the
/// guard, then process.
fn feed(registry: &mut Registry, transaction: Transaction) -> Result<(), Error> {
    assert!(registry.admits(&transaction));
    registry.process(transaction)
}

#[test]
fn deposits_then_covered_withdrawal() {
    let mut registry = Registry::new();
    assert!(feed(&mut registry, record(TransactionType::Deposit, 1, 1, Some(1.0))).is_ok());
    check(account_of(&registry, 1), 1.0, 0.0, 1.0, false);
    assert!(feed(&mut registry, record(TransactionType::Deposit, 1, 3, Some(2.0))).is_ok());
    assert!(feed(&mut registry, record(TransactionType::Withdrawal, 1, 4, Some(1.5))).is_ok());
    check(account_of(&registry, 1), 1.5, 0.0, 1.5, false);
}

#[test]
fn dispute_resolve_chargeback_redispute() {
    let mut registry = Registry::new();
    assert!(feed(&mut registry, record(TransactionType::Deposit, 3, 6, Some(5.0))).is_ok());
    assert!(feed(&mut registry, record(TransactionType::Deposit, 3, 7, Some(1.017))).is_ok());
    assert!(feed(&mut registry, record(TransactionType::Dispute, 3, 7, None)).is_ok());
    check(account_of(&registry, 3), 5.0, 1.017, 6.017, false);
    assert!(feed(&mut registry, record(TransactionType::Resolve, 3, 7, None)).is_ok());
    check(account_of(&registry, 3), 6.017, 0.0, 6.017, false);
    // The resolve cleared the flag, so the chargeback finds nothing disputed.
    assert_eq!(
        feed(&mut registry, record(TransactionType::Chargeback, 3, 7, None)),
        Err(Error::NotUnderDispute)
    );
    assert!(feed(&mut registry, record(TransactionType::Dispute, 3, 7, None)).is_ok());
    check(account_of(&registry, 3), 5.0, 1.017, 6.017, false);
}

#[test]
fn chargeback_locks_and_rejects_everything_after() {
    let mut registry = Registry::new();
    assert!(feed(&mut registry, record(TransactionType::Deposit, 4, 8, Some(3.0))).is_ok());
    assert!(feed(&mut registry, record(TransactionType::Deposit, 4, 9, Some(4.0))).is_ok());
    assert!(feed(&mut registry, record(TransactionType::Dispute, 4, 8, None)).is_ok());
    check(account_of(&registry, 4), 4.0, 3.0, 7.0, false);
    assert!(feed(&mut registry, record(TransactionType::Chargeback, 4, 8, None)).is_ok());
    check(account_of(&registry, 4), 4.0, 0.0, 4.0, true);
    // Every later transaction for client 4 fails and changes nothing.
    assert_eq!(
        feed(&mut registry, record(TransactionType::Deposit, 4, 10, Some(1.0))),
        Err(Error::AccountLocked)
    );
    assert_eq!(
        feed(&mut registry, record(TransactionType::Withdrawal, 4, 11, Some(1.0))),
        Err(Error::AccountLocked)
    );
    assert_eq!(
        feed(&mut registry, record(TransactionType::Dispute, 4, 9, None)),
        Err(Error::AccountLocked)
    );
    assert_eq!(
        feed(&mut registry, record(TransactionType::Resolve, 4, 8, None)),
        Err(Error::AccountLocked)
    );
    assert_eq!(
        feed(&mut registry, record(TransactionType::Chargeback, 4, 8, None)),
        Err(Error::AccountLocked)
    );
    check(account_of(&registry, 4), 4.0, 0.0, 4.0, true);
}

#[test]
fn missing_amount_never_reaches_a_ledger() {
    let mut registry = Registry::new();
    let faulty = Transaction {
        transaction_type: TransactionType::Deposit,
        client_id: 9,
        transaction_id: 1,
        amount: None,
        under_dispute: false,
    };
    // The record needs an amount but carries none: the adapter's guards
    // reject it before any account is created or touched.
    assert!(faulty.requires_amount() && faulty.amount.is_none());
    assert!(!registry.admits(&faulty));
    assert!(registry.accounts.is_empty());

    let faulty_withdrawal = Transaction {
        transaction_type: TransactionType::Withdrawal,
        client_id: 9,
        transaction_id: 2,
        amount: None,
        under_dispute: false,
    };
    assert!(faulty_withdrawal.requires_amount() && faulty_withdrawal.amount.is_none());
    assert!(!registry.admits(&faulty_withdrawal));
    assert!(registry.accounts.is_empty());
}

#[test]
fn registry_orders_accounts_by_client_id() {
    let mut registry = Registry::new();
    assert!(feed(&mut registry, record(TransactionType::Deposit, 7, 1, Some(1.0))).is_ok());
    assert!(feed(&mut registry, record(TransactionType::Deposit, 2, 2, Some(2.0))).is_ok());
    assert!(feed(&mut registry, record(TransactionType::Deposit, 5, 3, Some(3.0))).is_ok());
    assert!(feed(&mut registry, record(TransactionType::Deposit, 2, 4, Some(0.5))).is_ok());
    let clients: Vec<u16> = registry.accounts.iter().map(|a| a.client_id).collect();
    assert_eq!(clients, vec![2, 5, 7]);
    check(account_of(&registry, 2), 2.5, 0.0, 2.5, false);
}

#[test]
fn each_error_variant_has_its_input() {
    let mut account = Account::new(0);
    assert_eq!(
        account.execute(record(TransactionType::Dispute, 0, 99, None)),
        Err(Error::TransactionNotFound)
    );
    assert!(account.execute(record(TransactionType::Deposit, 0, 1, Some(2.0))).is_ok());
    assert_eq!(
        account.execute(record(TransactionType::Withdrawal, 0, 2, Some(3.0))),
        Err(Error::InsufficientFunds)
    );
    assert!(account.execute(record(TransactionType::Withdrawal, 0, 3, Some(1.5))).is_ok());
    // Disputing the deposit would drive available negative now.
    assert_eq!(
        account.execute(record(TransactionType::Dispute, 0, 1, None)),
        Err(Error::InsufficientFunds)
    );
    assert_eq!(
        account.execute(record(TransactionType::Dispute, 0, 3, None)),
        Err(Error::InvalidDisputeTarget)
    );
    assert_eq!(
        account.execute(record(TransactionType::Resolve, 0, 1, None)),
        Err(Error::NotUnderDispute)
    );
    assert_eq!(
        account.execute(record(TransactionType::Chargeback, 0, 1, None)),
        Err(Error::NotUnderDispute)
    );
    check(&account, 0.5, 0.0, 0.5, false);
}

#[test]
fn duplicate_ids_and_overflowing_deposits_are_not_admitted() {
    let mut registry = Registry::new();
    let huge = Transaction {
        transaction_type: TransactionType::Deposit,
        client_id: 1,
        transaction_id: 1,
        amount: Some(u64::MAX),
        under_dispute: false,
    };
    assert!(registry.admits(&huge));
    assert!(registry.process(huge).is_ok());
    assert_eq!(account_of(&registry, 1).total, u64::MAX);
    // One more unit would push the total past the machine word.
    let one_more = Transaction {
        transaction_type: TransactionType::Deposit,
        client_id: 1,
        transaction_id: 2,
        amount: Some(1),
        under_dispute: false,
    };
    assert!(!registry.admits(&one_more));
    // A deposit reusing a retained id is refused: ids are globally unique.
    let mut registry2 = Registry::new();
    assert!(feed(&mut registry2, record(TransactionType::Deposit, 1, 1, Some(1.0))).is_ok());
    let duplicate = record(TransactionType::Deposit, 1, 1, Some(1.0));
    assert!(!registry2.admits(&duplicate));
}

#[test]
fn dispute_then_resolve_restores_balances_exactly() {
    let mut account = Account::new(0);
    assert!(account.execute(record(TransactionType::Deposit, 0, 1, Some(1.017))).is_ok());
    assert!(account.execute(record(TransactionType::Deposit, 0, 2, Some(3.5))).is_ok());
    let before = (account.available, account.held, account.total);
    assert!(account.execute(record(TransactionType::Dispute, 0, 1, None)).is_ok());
    assert!(account.execute(record(TransactionType::Resolve, 0, 1, None)).is_ok());
    assert_eq!(before, (account.available, account.held, account.total));
    assert!(!account.find_transaction(1).unwrap().under_dispute);
}

#[test]
fn full_stream_matches_expected_snapshot() {
    // The records of a whole run, already past the adapter's structural
    // parsing, in input order.
    let records = vec![
        record(TransactionType::Deposit, 1, 1, Some(1.0)),
        record(TransactionType::Deposit, 2, 2, Some(2.0)),
        record(TransactionType::Deposit, 1, 3, Some(2.0)),
        record(TransactionType::Withdrawal, 1, 4, Some(1.5)),
        record(TransactionType::Withdrawal, 2, 5, Some(3.0)),
        record(TransactionType::Deposit, 3, 6, Some(5.0)),
        record(TransactionType::Deposit, 3, 7, Some(1.017)),
        record(TransactionType::Dispute, 3, 7, None),
        record(TransactionType::Resolve, 3, 7, None),
        record(TransactionType::Chargeback, 3, 7, None),
        record(TransactionType::Dispute, 3, 7, None),
        record(TransactionType::Deposit, 4, 8, Some(3.0)),
        record(TransactionType::Deposit, 4, 9, Some(4.0)),
        record(TransactionType::Dispute, 4, 8, None),
        record(TransactionType::Chargeback, 4, 8, None),
    ];
    let mut registry = Registry::new();
    for transaction in records {
        // Failures are warnings at the adapter; the run continues.
        let _ = feed(&mut registry, transaction);
    }
    let clients: Vec<u16> = registry.accounts.iter().map(|a| a.client_id).collect();
    assert_eq!(clients, vec![1, 2, 3, 4]);
    check(account_of(&registry, 1), 1.5, 0.0, 1.5, false);
    check(account_of(&registry, 2), 2.0, 0.0, 2.0, false);
    check(account_of(&registry, 3), 5.0, 1.017, 6.017, false);
    check(account_of(&registry, 4), 4.0, 0.0, 4.0, true);
}

#[test]
fn consistency_check_holds_along_a_run() {
    let mut account = Account::new(0);
    assert!(account.check_consistency());
    assert!(account.execute(record(TransactionType::Deposit, 0, 1, Some(2.0))).is_ok());
    assert!(account.check_consistency());
    assert!(account.execute(record(TransactionType::Dispute, 0, 1, None)).is_ok());
    assert!(account.check_consistency());
    assert!(account.execute(record(TransactionType::Chargeback, 0, 1, None)).is_ok());
    assert!(account.check_consistency());
}
