use payments_ledger::{Client, ClientError, Error, Transaction, TransactionT, TransactionsDispatcher};

fn tx(tt: TransactionT, client: u16, id: u32, amount: Option<u64>) -> Transaction {
    Transaction::new(tt, client, id, amount)
}

fn balances(td: &TransactionsDispatcher, id: u16) -> (u64, u64, u64, bool) {
    let c = td.get_account(id).unwrap();
    (c.available, c.held, c.total, c.locked)
}

#[test]
fn test_process_transactions() {
    let ts = vec![
        tx(TransactionT::Deposit, 1, 0, Some(200_000)),
        tx(TransactionT::Dispute, 1, 0, None),
        tx(TransactionT::Resolve, 1, 0, None),
        tx(TransactionT::Withdrawal, 1, 1, Some(200_000)),
        tx(TransactionT::Deposit, 1, 2, Some(1_000)),
        tx(TransactionT::Dispute, 1, 2, None),
        tx(TransactionT::Chargeback, 1, 2, None),
    ];
    let mut td = TransactionsDispatcher::new();
    for i in 0..ts.len() {
        td.process_transactions(&ts[i]).unwrap();
    }
    assert_eq!(td.client_count(), 1);
    let mut clients = td.accounts();
    let c = clients.pop().unwrap();
    assert_eq!(c.total, 0);
}

#[test]
fn dispute_lifecycle_scenario_step_by_step() {
    let mut td = TransactionsDispatcher::new();
    td.process_transactions(&tx(TransactionT::Deposit, 1, 0, Some(200_000))).unwrap();
    assert_eq!(balances(&td, 1), (200_000, 0, 200_000, false));
    td.process_transactions(&tx(TransactionT::Dispute, 1, 0, None)).unwrap();
    assert_eq!(balances(&td, 1), (0, 200_000, 200_000, false));
    td.process_transactions(&tx(TransactionT::Resolve, 1, 0, None)).unwrap();
    assert_eq!(balances(&td, 1), (200_000, 0, 200_000, false));
    td.process_transactions(&tx(TransactionT::Withdrawal, 1, 1, Some(200_000))).unwrap();
    assert_eq!(balances(&td, 1), (0, 0, 0, false));
    td.process_transactions(&tx(TransactionT::Deposit, 1, 2, Some(1_000))).unwrap();
    assert_eq!(balances(&td, 1), (1_000, 0, 1_000, false));
    td.process_transactions(&tx(TransactionT::Dispute, 1, 2, None)).unwrap();
    assert_eq!(balances(&td, 1), (0, 1_000, 1_000, false));
    td.process_transactions(&tx(TransactionT::Chargeback, 1, 2, None)).unwrap();
    assert_eq!(balances(&td, 1), (0, 0, 0, true));
}

#[test]
fn balances_stay_consistent_after_each_transaction() {
    let ts = vec![
        tx(TransactionT::Deposit, 5, 10, Some(70_000)),
        tx(TransactionT::Withdrawal, 5, 11, Some(90_000)),
        tx(TransactionT::Deposit, 6, 12, Some(3)),
        tx(TransactionT::Dispute, 5, 10, None),
        tx(TransactionT::Withdrawal, 5, 13, Some(1)),
        tx(TransactionT::Resolve, 5, 10, None),
        tx(TransactionT::Withdrawal, 5, 14, Some(20_000)),
    ];
    let mut td = TransactionsDispatcher::new();
    for t in &ts {
        let _ = td.process_transactions(t);
        for c in td.accounts() {
            assert_eq!(c.total, c.available + c.held);
        }
    }
    assert_eq!(balances(&td, 5), (50_000, 0, 50_000, false));
    assert_eq!(balances(&td, 6), (3, 0, 3, false));
}

#[test]
fn first_transaction_creates_one_account_and_later_ones_reuse_it() {
    let mut td = TransactionsDispatcher::new();
    assert_eq!(td.client_count(), 0);
    assert_eq!(td.get_account(7), None);
    td.process_transactions(&tx(TransactionT::Deposit, 7, 1, Some(5))).unwrap();
    assert_eq!(td.client_count(), 1);
    td.process_transactions(&tx(TransactionT::Deposit, 7, 2, Some(6))).unwrap();
    assert_eq!(td.client_count(), 1);
    assert_eq!(balances(&td, 7), (11, 0, 11, false));
}

#[test]
fn failed_transaction_of_new_client_creates_a_zero_account() {
    let mut td = TransactionsDispatcher::new();
    assert_eq!(td.process_transactions(&tx(TransactionT::Dispute, 8, 1, None)), Err(Error::TransactionNotFound));
    assert_eq!(td.get_account(8), Some(Client { id: 8, available: 0, held: 0, total: 0, locked: false }));
}

#[test]
fn locked_account_rejects_everything() {
    let mut td = TransactionsDispatcher::new();
    td.process_transactions(&tx(TransactionT::Deposit, 2, 1, Some(100))).unwrap();
    td.process_transactions(&tx(TransactionT::Deposit, 2, 2, Some(40))).unwrap();
    td.process_transactions(&tx(TransactionT::Dispute, 2, 1, None)).unwrap();
    td.process_transactions(&tx(TransactionT::Dispute, 2, 2, None)).unwrap();
    td.process_transactions(&tx(TransactionT::Chargeback, 2, 1, None)).unwrap();
    let locked = balances(&td, 2);
    assert_eq!(locked, (0, 40, 40, true));
    let later = vec![
        tx(TransactionT::Deposit, 2, 3, Some(10)),
        tx(TransactionT::Withdrawal, 2, 4, Some(1)),
        tx(TransactionT::Dispute, 2, 1, None),
        tx(TransactionT::Resolve, 2, 2, None),
        tx(TransactionT::Chargeback, 2, 2, None),
    ];
    for t in &later {
        assert_eq!(td.process_transactions(t), Err(Error::AccountLocked));
        assert_eq!(balances(&td, 2), locked);
    }
}

#[test]
fn resolve_or_chargeback_without_open_dispute_fails() {
    let mut td = TransactionsDispatcher::new();
    td.process_transactions(&tx(TransactionT::Deposit, 1, 1, Some(100))).unwrap();
    assert_eq!(td.process_transactions(&tx(TransactionT::Resolve, 1, 1, None)), Err(Error::DisputeNotFound));
    assert_eq!(td.process_transactions(&tx(TransactionT::Chargeback, 1, 1, None)), Err(Error::DisputeNotFound));
    assert_eq!(td.process_transactions(&tx(TransactionT::Resolve, 1, 99, None)), Err(Error::DisputeNotFound));
    assert_eq!(balances(&td, 1), (100, 0, 100, false));
    td.process_transactions(&tx(TransactionT::Dispute, 1, 1, None)).unwrap();
    td.process_transactions(&tx(TransactionT::Resolve, 1, 1, None)).unwrap();
    assert_eq!(td.process_transactions(&tx(TransactionT::Chargeback, 1, 1, None)), Err(Error::DisputeNotFound));
    assert_eq!(balances(&td, 1), (100, 0, 100, false));
}

#[test]
fn second_dispute_of_same_transaction_fails() {
    let mut td = TransactionsDispatcher::new();
    td.process_transactions(&tx(TransactionT::Deposit, 1, 1, Some(100))).unwrap();
    td.process_transactions(&tx(TransactionT::Deposit, 1, 2, Some(100))).unwrap();
    td.process_transactions(&tx(TransactionT::Dispute, 1, 1, None)).unwrap();
    assert_eq!(td.process_transactions(&tx(TransactionT::Dispute, 1, 1, None)), Err(Error::AlreadyDisputed));
    assert_eq!(balances(&td, 1), (100, 100, 200, false));
}

#[test]
fn dispute_of_another_clients_transaction_is_not_found() {
    let mut td = TransactionsDispatcher::new();
    td.process_transactions(&tx(TransactionT::Deposit, 1, 1, Some(100))).unwrap();
    td.process_transactions(&tx(TransactionT::Deposit, 2, 2, Some(100))).unwrap();
    assert_eq!(td.process_transactions(&tx(TransactionT::Dispute, 2, 1, None)), Err(Error::TransactionNotFound));
    td.process_transactions(&tx(TransactionT::Dispute, 1, 1, None)).unwrap();
    assert_eq!(td.process_transactions(&tx(TransactionT::Resolve, 2, 1, None)), Err(Error::DisputeNotFound));
    assert_eq!(td.process_transactions(&tx(TransactionT::Chargeback, 2, 1, None)), Err(Error::DisputeNotFound));
    assert_eq!(balances(&td, 1), (0, 100, 100, false));
    assert_eq!(balances(&td, 2), (100, 0, 100, false));
}

#[test]
fn dispute_before_its_transaction_is_not_found() {
    let mut td = TransactionsDispatcher::new();
    assert_eq!(td.process_transactions(&tx(TransactionT::Dispute, 1, 4, None)), Err(Error::TransactionNotFound));
    td.process_transactions(&tx(TransactionT::Deposit, 1, 4, Some(9))).unwrap();
    assert_eq!(balances(&td, 1), (9, 0, 9, false));
}

#[test]
fn failed_operations_report_the_account_error() {
    let mut td = TransactionsDispatcher::new();
    td.process_transactions(&tx(TransactionT::Deposit, 1, 1, Some(100))).unwrap();
    assert_eq!(
        td.process_transactions(&tx(TransactionT::Withdrawal, 1, 2, Some(101))),
        Err(Error::AccountError(ClientError::InsufficientFunds))
    );
    td.process_transactions(&tx(TransactionT::Withdrawal, 1, 3, Some(60))).unwrap();
    assert_eq!(
        td.process_transactions(&tx(TransactionT::Dispute, 1, 1, None)),
        Err(Error::AccountError(ClientError::InsufficientFunds))
    );
    assert_eq!(td.process_transactions(&tx(TransactionT::Resolve, 1, 1, None)), Err(Error::DisputeNotFound));
    assert_eq!(balances(&td, 1), (40, 0, 40, false));
    // the refused withdrawal left no history entry to dispute
    assert_eq!(td.process_transactions(&tx(TransactionT::Dispute, 1, 2, None)), Err(Error::TransactionNotFound));
}

#[test]
fn deposit_overflow_is_refused() {
    let mut td = TransactionsDispatcher::new();
    td.process_transactions(&tx(TransactionT::Deposit, 1, 1, Some(u64::MAX))).unwrap();
    assert_eq!(
        td.process_transactions(&tx(TransactionT::Deposit, 1, 2, Some(1))),
        Err(Error::AccountError(ClientError::BalanceOverflow))
    );
    assert_eq!(balances(&td, 1), (u64::MAX, 0, u64::MAX, false));
}

#[test]
fn repeated_dispute_and_resolve_cycles_do_not_drift() {
    let mut td = TransactionsDispatcher::new();
    td.process_transactions(&tx(TransactionT::Deposit, 1, 1, Some(1_000))).unwrap();
    td.process_transactions(&tx(TransactionT::Deposit, 1, 2, Some(2_000))).unwrap();
    for _ in 0..1000 {
        td.process_transactions(&tx(TransactionT::Dispute, 1, 1, None)).unwrap();
        td.process_transactions(&tx(TransactionT::Resolve, 1, 1, None)).unwrap();
    }
    assert_eq!(balances(&td, 1), (3_000, 0, 3_000, false));
}

#[test]
fn accounts_are_listed_by_ascending_client_id() {
    let mut td = TransactionsDispatcher::new();
    td.process_transactions(&tx(TransactionT::Deposit, 65535, 1, Some(1))).unwrap();
    td.process_transactions(&tx(TransactionT::Deposit, 3, 2, Some(2))).unwrap();
    td.process_transactions(&tx(TransactionT::Deposit, 0, 3, Some(3))).unwrap();
    let ids: Vec<u16> = td.accounts().iter().map(|c| c.id).collect();
    assert_eq!(ids, vec![0, 3, 65535]);
}

#[test]
fn disputed_withdrawal_holds_its_amount() {
    let mut td = TransactionsDispatcher::new();
    td.process_transactions(&tx(TransactionT::Deposit, 1, 1, Some(100))).unwrap();
    td.process_transactions(&tx(TransactionT::Withdrawal, 1, 2, Some(30))).unwrap();
    td.process_transactions(&tx(TransactionT::Dispute, 1, 2, None)).unwrap();
    assert_eq!(balances(&td, 1), (40, 30, 70, false));
}
