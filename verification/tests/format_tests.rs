//! The decimal numeral renderer and parsers on concrete values.

use ledger::ledger::Account;
use ledger::numfmt::parse_amount;
use ledger::numfmt::parse_balance;
use ledger::numfmt::parse_uint;
use ledger::numfmt::render_units;
use ledger::report::render_row;

fn rendered(v: i64) -> String {
    String::from_utf8(render_units(v)).unwrap()
}

#[test]
fn render_whole_numbers_without_fraction() {
    assert_eq!(rendered(0), "0");
    assert_eq!(rendered(100000), "10");
    assert_eq!(rendered(-100000), "-10");
    assert_eq!(rendered(10000), "1");
}

#[test]
fn render_fractions_with_four_digits() {
    assert_eq!(rendered(123456), "12.3456");
    assert_eq!(rendered(105000), "10.5000");
    assert_eq!(rendered(1), "0.0001");
    assert_eq!(rendered(-5), "-0.0005");
    assert_eq!(rendered(-123456), "-12.3456");
}

#[test]
fn parse_amount_accepts_up_to_four_fractional_digits() {
    assert_eq!(parse_amount(b"10"), Some(100000));
    assert_eq!(parse_amount(b"10.5"), Some(105000));
    assert_eq!(parse_amount(b"10.50"), Some(105000));
    assert_eq!(parse_amount(b"0.0001"), Some(1));
    assert_eq!(parse_amount(b"12.3456"), Some(123456));
    assert_eq!(parse_amount(b"0"), Some(0));
    assert_eq!(parse_amount(b"007"), Some(70000));
}

#[test]
fn parse_amount_rejects_malformed_numerals() {
    assert_eq!(parse_amount(b""), None);
    assert_eq!(parse_amount(b"."), None);
    assert_eq!(parse_amount(b"1."), None);
    assert_eq!(parse_amount(b".5"), None);
    assert_eq!(parse_amount(b"1.23456"), None);
    assert_eq!(parse_amount(b"1.2.3"), None);
    assert_eq!(parse_amount(b"abc"), None);
    assert_eq!(parse_amount(b"-1"), None);
    assert_eq!(parse_amount(b"1 "), None);
    assert_eq!(parse_amount(b"99999999999999999999999999999999"), None);
}

#[test]
fn parse_balance_handles_signs_and_range() {
    assert_eq!(parse_balance(b"10"), Some(100000));
    assert_eq!(parse_balance(b"-10"), Some(-100000));
    assert_eq!(parse_balance(b"-0.0001"), Some(-1));
    assert_eq!(parse_balance(b"-"), None);
    assert_eq!(parse_balance(b"--1"), None);
    assert_eq!(parse_balance(b"99999999999999999999999999999999"), None);
}

#[test]
fn rendering_then_parsing_returns_the_same_count() {
    let samples: Vec<i64> = vec![
        0,
        1,
        -1,
        9999,
        10000,
        10001,
        -9999,
        -10000,
        100000,
        123456,
        -123456,
        i64::MAX,
        i64::MIN,
        i64::MAX - 3,
        i64::MIN + 7,
    ];
    for v in samples {
        let bytes = render_units(v);
        assert_eq!(parse_balance(&bytes), Some(v));
    }
}

#[test]
fn snapshot_row_round_trips() {
    let a = Account { available: -123456, held: 500000, locked: true };
    let row = String::from_utf8(render_row(7, &a)).unwrap();
    let line = row.strip_suffix('\n').unwrap();
    let fields: Vec<&str> = line.split(',').collect();
    assert_eq!(fields.len(), 5);
    assert_eq!(parse_uint(fields[0].as_bytes()), Some(7));
    assert_eq!(parse_balance(fields[1].as_bytes()), Some(-123456));
    assert_eq!(parse_balance(fields[2].as_bytes()), Some(500000));
    assert_eq!(parse_balance(fields[3].as_bytes()), Some(376544));
    assert_eq!(fields[4], "true");
}

#[test]
fn parse_uint_reads_plain_integers() {
    assert_eq!(parse_uint(b"0"), Some(0));
    assert_eq!(parse_uint(b"65535"), Some(65535));
    assert_eq!(parse_uint(b"4294967295"), Some(4294967295));
    assert_eq!(parse_uint(b""), None);
    assert_eq!(parse_uint(b"1.0"), None);
    assert_eq!(parse_uint(b"12x"), None);
    assert_eq!(parse_uint(b"18446744073709551615"), Some(u64::MAX));
    assert_eq!(parse_uint(b"18446744073709551616"), None);
}
