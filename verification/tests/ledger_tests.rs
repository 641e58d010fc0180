//! Behaviour of the ledger state machine on concrete entry streams.

use ledger::ledger::Account;
use ledger::ledger::Entry;
use ledger::ledger::EntryState;
use ledger::ledger::EntryType;
use ledger::ledger::LedgerError;
use ledger::ledger::State;
use ledger::report::render_output;

fn dep(client: u16, id: u32, units: u64) -> Entry {
    Entry { typ: EntryType::Deposit, client, id, amount: Some(units) }
}

fn wd(client: u16, id: u32, units: u64) -> Entry {
    Entry { typ: EntryType::Withdrawal, client, id, amount: Some(units) }
}

fn op(typ: EntryType, client: u16, id: u32) -> Entry {
    Entry { typ, client, id, amount: None }
}

fn acct(st: &State, client: u16) -> Account {
    st.account_of(client).expect("account should exist")
}

#[test]
fn is_tx_and_is_op_partition_the_kinds() {
    assert!(EntryType::Deposit.is_tx());
    assert!(EntryType::Withdrawal.is_tx());
    assert!(!EntryType::Dispute.is_tx());
    assert!(!EntryType::Resolve.is_tx());
    assert!(!EntryType::Chargeback.is_tx());
    assert!(!EntryType::Deposit.is_op());
    assert!(!EntryType::Withdrawal.is_op());
    assert!(EntryType::Dispute.is_op());
    assert!(EntryType::Resolve.is_op());
    assert!(EntryType::Chargeback.is_op());
}

#[test]
fn deposit_credits_available() {
    let mut st = State::new();
    assert!(st.apply(dep(1, 1, 100000)).is_ok());
    let a = acct(&st, 1);
    assert_eq!(a.available, 100000);
    assert_eq!(a.held, 0);
    assert!(!a.locked);
    let rec = st.transaction_of(1).unwrap();
    assert_eq!(rec.state, EntryState::Processed);
    assert_eq!(rec.amount, 100000);
    assert_eq!(rec.client, 1);
}

#[test]
fn withdrawal_is_rejected_iff_it_would_go_negative() {
    let mut st = State::new();
    assert!(st.apply(dep(1, 1, 100000)).is_ok());
    // Exactly the balance: accepted.
    assert!(st.apply(wd(1, 2, 100000)).is_ok());
    assert_eq!(acct(&st, 1).available, 0);
    // One unit more than the balance: rejected, no mutation.
    assert_eq!(st.apply(wd(1, 3, 1)), Err(LedgerError::InsufficientFunds));
    assert_eq!(acct(&st, 1).available, 0);
    // The failed withdrawal is still recorded as Failed.
    assert_eq!(st.transaction_of(3).unwrap().state, EntryState::Failed);
}

#[test]
fn missing_amount_is_rejected_without_mutation() {
    let mut st = State::new();
    let e = Entry { typ: EntryType::Deposit, client: 1, id: 1, amount: None };
    assert_eq!(st.apply(e), Err(LedgerError::MissingAmount));
    assert!(st.account_of(1).is_none());
    assert!(st.transaction_of(1).is_none());
}

#[test]
fn duplicate_transaction_id_is_rejected() {
    let mut st = State::new();
    assert!(st.apply(dep(1, 7, 50000)).is_ok());
    assert_eq!(st.apply(dep(1, 7, 50000)), Err(LedgerError::DuplicateTransactionId));
    assert_eq!(st.apply(wd(2, 7, 10000)), Err(LedgerError::DuplicateTransactionId));
    assert_eq!(acct(&st, 1).available, 50000);
    assert!(st.account_of(2).is_none());
}

#[test]
fn operation_on_unknown_transaction_is_rejected() {
    let mut st = State::new();
    assert_eq!(st.apply(op(EntryType::Dispute, 1, 9)), Err(LedgerError::TransactionNotFound));
    assert_eq!(st.apply(op(EntryType::Resolve, 1, 9)), Err(LedgerError::TransactionNotFound));
    assert_eq!(st.apply(op(EntryType::Chargeback, 1, 9)), Err(LedgerError::TransactionNotFound));
}

#[test]
fn cross_client_operation_is_rejected() {
    let mut st = State::new();
    assert!(st.apply(dep(1, 1, 100000)).is_ok());
    assert_eq!(st.apply(op(EntryType::Dispute, 2, 1)), Err(LedgerError::CrossClientOperation));
    let a = acct(&st, 1);
    assert_eq!(a.available, 100000);
    assert_eq!(a.held, 0);
}

#[test]
fn dispute_requires_processed_or_resolved() {
    let mut st = State::new();
    assert!(st.apply(dep(1, 1, 100000)).is_ok());
    // A failed withdrawal cannot be disputed.
    assert_eq!(st.apply(wd(1, 2, 900000)), Err(LedgerError::InsufficientFunds));
    assert_eq!(st.apply(op(EntryType::Dispute, 1, 2)), Err(LedgerError::InvalidStateForOperation));
    // An already disputed transaction cannot be disputed again.
    assert!(st.apply(op(EntryType::Dispute, 1, 1)).is_ok());
    let before = acct(&st, 1);
    assert_eq!(st.apply(op(EntryType::Dispute, 1, 1)), Err(LedgerError::InvalidStateForOperation));
    assert_eq!(acct(&st, 1), before);
}

#[test]
fn resolve_and_chargeback_require_disputed() {
    let mut st = State::new();
    assert!(st.apply(dep(1, 1, 100000)).is_ok());
    assert_eq!(st.apply(op(EntryType::Resolve, 1, 1)), Err(LedgerError::InvalidStateForOperation));
    assert_eq!(
        st.apply(op(EntryType::Chargeback, 1, 1)),
        Err(LedgerError::InvalidStateForOperation)
    );
    let a = acct(&st, 1);
    assert_eq!(a.available, 100000);
    assert_eq!(a.held, 0);
    assert!(!a.locked);
}

#[test]
fn dispute_moves_funds_to_held() {
    let mut st = State::new();
    assert!(st.apply(dep(1, 1, 100000)).is_ok());
    assert!(st.apply(op(EntryType::Dispute, 1, 1)).is_ok());
    let a = acct(&st, 1);
    assert_eq!(a.available, 0);
    assert_eq!(a.held, 100000);
    assert_eq!(st.transaction_of(1).unwrap().state, EntryState::Disputed);
}

#[test]
fn disputing_a_spent_deposit_drives_available_negative() {
    let mut st = State::new();
    assert!(st.apply(dep(1, 1, 100000)).is_ok());
    assert!(st.apply(wd(1, 2, 100000)).is_ok());
    assert!(st.apply(op(EntryType::Dispute, 1, 1)).is_ok());
    let a = acct(&st, 1);
    assert_eq!(a.available, -100000);
    assert_eq!(a.held, 100000);
}

#[test]
fn resolve_then_dispute_is_reentrant_and_chargeback_locks() {
    let mut st = State::new();
    assert!(st.apply(dep(1, 1, 100000)).is_ok());
    assert!(st.apply(op(EntryType::Dispute, 1, 1)).is_ok());
    // Resolve returns the hold, and the record may be disputed again.
    assert!(st.apply(op(EntryType::Resolve, 1, 1)).is_ok());
    assert_eq!(st.transaction_of(1).unwrap().state, EntryState::Resolved);
    assert!(st.apply(op(EntryType::Dispute, 1, 1)).is_ok());
    // Chargeback after the cycle succeeds and locks the account.
    assert!(st.apply(op(EntryType::Chargeback, 1, 1)).is_ok());
    let a = acct(&st, 1);
    assert_eq!(a.available, 0);
    assert_eq!(a.held, 0);
    assert!(a.locked);
    assert_eq!(st.transaction_of(1).unwrap().state, EntryState::Chargeback);
}

#[test]
fn chargeback_is_terminal() {
    let mut st = State::new();
    assert!(st.apply(dep(1, 1, 100000)).is_ok());
    assert!(st.apply(op(EntryType::Dispute, 1, 1)).is_ok());
    assert!(st.apply(op(EntryType::Chargeback, 1, 1)).is_ok());
    let before = acct(&st, 1);
    assert_eq!(st.apply(op(EntryType::Dispute, 1, 1)), Err(LedgerError::InvalidStateForOperation));
    assert_eq!(st.apply(op(EntryType::Resolve, 1, 1)), Err(LedgerError::InvalidStateForOperation));
    assert_eq!(
        st.apply(op(EntryType::Chargeback, 1, 1)),
        Err(LedgerError::InvalidStateForOperation)
    );
    assert_eq!(acct(&st, 1), before);
}

#[test]
fn deposit_past_the_representable_range_is_rejected() {
    let mut st = State::new();
    assert!(st.apply(dep(1, 1, 9_000_000_000_000_000_000)).is_ok());
    assert_eq!(
        st.apply(dep(1, 2, 9_000_000_000_000_000_000)),
        Err(LedgerError::BalanceOverflow)
    );
    assert_eq!(acct(&st, 1).available, 9_000_000_000_000_000_000);
    assert!(st.transaction_of(2).is_none());
}

#[test]
fn scenario_single_client_full_cycle() {
    // Client 1 deposits 10, a withdrawal of 15 is rejected, the deposit is
    // disputed, resolved, disputed again and finally charged back.
    let mut st = State::new();
    assert!(st.apply(dep(1, 1, 100000)).is_ok());
    let a = acct(&st, 1);
    assert_eq!((a.available, a.held), (100000, 0));

    assert_eq!(st.apply(wd(1, 2, 150000)), Err(LedgerError::InsufficientFunds));
    assert_eq!(acct(&st, 1).available, 100000);

    assert!(st.apply(op(EntryType::Dispute, 1, 1)).is_ok());
    let a = acct(&st, 1);
    assert_eq!((a.available, a.held), (0, 100000));

    assert!(st.apply(op(EntryType::Resolve, 1, 1)).is_ok());
    let a = acct(&st, 1);
    assert_eq!((a.available, a.held), (100000, 0));

    assert!(st.apply(op(EntryType::Dispute, 1, 1)).is_ok());
    let a = acct(&st, 1);
    assert_eq!((a.available, a.held), (0, 100000));

    assert!(st.apply(op(EntryType::Chargeback, 1, 1)).is_ok());
    let a = acct(&st, 1);
    assert_eq!((a.available, a.held, a.locked), (0, 0, true));

    let out = String::from_utf8(render_output(&st)).unwrap();
    assert_eq!(out, "client,available,held,total,locked\n1,0,0,0,true\n");
}

#[test]
fn output_lists_clients_in_order_of_first_appearance() {
    let mut st = State::new();
    assert!(st.apply(dep(2, 1, 15000)).is_ok());
    assert!(st.apply(dep(1, 2, 100000)).is_ok());
    assert!(st.apply(wd(2, 3, 5000)).is_ok());
    let out = String::from_utf8(render_output(&st)).unwrap();
    assert_eq!(out, "client,available,held,total,locked\n2,1,0,1,false\n1,10,0,10,false\n");
}
