//! Building entries from raw record fields, and driving the ledger from
//! parsed records end to end.

use ledger::input::parse_entry;
use ledger::ledger::EntryType;
use ledger::ledger::LedgerError;
use ledger::ledger::State;
use ledger::report::render_output;

#[test]
fn parse_entry_builds_a_deposit() {
    let e = parse_entry(b"deposit", b"1", b"42", Some(b"1.5")).unwrap();
    assert_eq!(e.typ, EntryType::Deposit);
    assert_eq!(e.client, 1);
    assert_eq!(e.id, 42);
    assert_eq!(e.amount, Some(15000));
}

#[test]
fn parse_entry_recognises_every_kind() {
    assert_eq!(parse_entry(b"deposit", b"1", b"1", Some(b"1")).unwrap().typ, EntryType::Deposit);
    assert_eq!(
        parse_entry(b"withdrawal", b"1", b"1", Some(b"1")).unwrap().typ,
        EntryType::Withdrawal
    );
    assert_eq!(parse_entry(b"dispute", b"1", b"1", None).unwrap().typ, EntryType::Dispute);
    assert_eq!(parse_entry(b"resolve", b"1", b"1", None).unwrap().typ, EntryType::Resolve);
    assert_eq!(parse_entry(b"chargeback", b"1", b"1", None).unwrap().typ, EntryType::Chargeback);
}

#[test]
fn parse_entry_treats_an_empty_amount_as_absent() {
    let e = parse_entry(b"dispute", b"3", b"9", Some(b"")).unwrap();
    assert_eq!(e.typ, EntryType::Dispute);
    assert_eq!(e.amount, None);
}

#[test]
fn parse_entry_rejects_bad_fields() {
    assert_eq!(parse_entry(b"transfer", b"1", b"1", Some(b"1")), Err(LedgerError::MalformedEntry));
    assert_eq!(parse_entry(b"Deposit", b"1", b"1", Some(b"1")), Err(LedgerError::MalformedEntry));
    assert_eq!(parse_entry(b"deposit", b"", b"1", Some(b"1")), Err(LedgerError::MalformedEntry));
    assert_eq!(parse_entry(b"deposit", b"x", b"1", Some(b"1")), Err(LedgerError::MalformedEntry));
    // Client ids are sixteen-bit, transaction ids thirty-two-bit.
    assert_eq!(
        parse_entry(b"deposit", b"65536", b"1", Some(b"1")),
        Err(LedgerError::MalformedEntry)
    );
    assert_eq!(parse_entry(b"deposit", b"65535", b"4294967295", Some(b"1")).unwrap().id,
        4294967295);
    assert_eq!(
        parse_entry(b"deposit", b"1", b"4294967296", Some(b"1")),
        Err(LedgerError::MalformedEntry)
    );
    assert_eq!(
        parse_entry(b"deposit", b"1", b"1", Some(b"1.23456")),
        Err(LedgerError::MalformedEntry)
    );
    assert_eq!(parse_entry(b"deposit", b"1", b"1", Some(b"-1")), Err(LedgerError::MalformedEntry));
}

#[test]
fn parsed_records_drive_the_ledger() {
    let rows: Vec<(&[u8], &[u8], &[u8], Option<&[u8]>)> = vec![
        (b"deposit", b"1", b"1", Some(b"2.5")),
        (b"deposit", b"2", b"2", Some(b"1.0")),
        (b"withdrawal", b"1", b"3", Some(b"0.5")),
        (b"dispute", b"2", b"2", None),
        (b"chargeback", b"2", b"2", None),
    ];
    let mut st = State::new();
    for (t, c, x, a) in rows {
        let e = parse_entry(t, c, x, a).unwrap();
        let _ = st.apply(e);
    }
    let one = st.account_of(1).unwrap();
    assert_eq!(one.available, 20000);
    assert!(!one.locked);
    let two = st.account_of(2).unwrap();
    assert_eq!(two.available, 0);
    assert_eq!(two.held, 0);
    assert!(two.locked);
    let out = String::from_utf8(render_output(&st)).unwrap();
    assert_eq!(out, "client,available,held,total,locked\n1,2,0,2,false\n2,0,0,0,true\n");
}
