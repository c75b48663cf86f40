use ledger::amount::{amount_from_parts, parse_amount, Amount};
use ledger::input::{handle_record, parse_args, parse_csv, parse_record, parse_u32, InputError};
use ledger::models::{Command, Ledger};

fn dec(mantissa: i128, scale: u32) -> Amount {
    amount_from_parts(mantissa, scale).unwrap()
}

fn row(fields: &[&str]) -> Vec<String> {
    fields.iter().map(|f| f.to_string()).collect()
}

#[test]
fn end_to_end_scenario() {
    let records = vec![
        row(&["deposit", "1", "1", "100.0"]),
        row(&["deposit", "2", "2", "50.0"]),
        row(&["withdrawal", "1", "3", "20.0"]),
        row(&["dispute", "1", "1"]),
        row(&["chargeback", "1", "1"]),
    ];
    let mut ledger = Ledger::new();
    assert_eq!(parse_csv(&mut ledger, &records), Ok(()));
    let one = ledger.accounts[&1];
    assert_eq!(one.available, Amount::from_whole(80));
    assert_eq!(one.held, Amount::from_whole(0));
    assert_eq!(one.total, Amount::from_whole(80));
    assert!(!one.locked);
    let two = ledger.accounts[&2];
    assert_eq!(two.available, Amount::from_whole(50));
    assert_eq!(two.held, Amount::from_whole(0));
    assert_eq!(two.total, Amount::from_whole(50));
    assert!(!two.locked);
    assert_eq!(ledger.accounts.len(), 2);
}

#[test]
fn parse_csv_stops_at_first_error() {
    let records = vec![
        row(&["deposit", "1", "1", "5"]),
        row(&["refund", "1", "2", "1"]),
        row(&["deposit", "1", "3", "5"]),
    ];
    let mut ledger = Ledger::new();
    assert_eq!(parse_csv(&mut ledger, &records), Err(InputError::InvalidTxType));
    assert_eq!(ledger.accounts[&1].total, Amount::from_whole(5));
    assert!(!ledger.transactions.contains_key(&3));
}

#[test]
fn record_errors() {
    assert_eq!(parse_record(&row(&["deposit", "1"])), Err(InputError::IllformedRecord));
    assert_eq!(parse_record(&row(&["deposit", "1", "2"])), Err(InputError::IllformedRecord));
    assert_eq!(parse_record(&row(&["deposit", "x", "2", "1"])), Err(InputError::InvalidClientID));
    assert_eq!(parse_record(&row(&["deposit", "1", "-2", "1"])), Err(InputError::InvalidTxID));
    assert_eq!(parse_record(&row(&["deposit", "1", "2", "one"])), Err(InputError::InvalidAmount));
    assert_eq!(parse_record(&row(&["transfer", "1", "2", "1"])), Err(InputError::InvalidTxType));
    assert_eq!(parse_record(&row(&["bogus", "x", "2"])), Err(InputError::InvalidClientID));
}

#[test]
fn record_commands() {
    assert_eq!(
        parse_record(&row(&["deposit", "1", "2", "1.5"])),
        Ok(Command::Deposit { client: 1, tx: 2, amount: dec(15, 1) })
    );
    assert_eq!(
        parse_record(&row(&["withdrawal", "+3", "4", "2"])),
        Ok(Command::Withdrawal { client: 3, tx: 4, amount: Amount::from_whole(2) })
    );
    assert_eq!(parse_record(&row(&["dispute", "1", "2", ""])), Ok(Command::Dispute { client: 1, tx: 2 }));
    assert_eq!(parse_record(&row(&["resolve", "1", "2"])), Ok(Command::Resolve { client: 1, tx: 2 }));
    assert_eq!(
        parse_record(&row(&["deposit", "1", "2", "0.0000000001"])),
        Ok(Command::Deposit { client: 1, tx: 2, amount: dec(1, 10) })
    );
    assert_eq!(
        parse_record(&row(&["chargeback", "4294967295", "0"])),
        Ok(Command::Chargeback { client: 4294967295, tx: 0 })
    );
}

#[test]
fn balance_out_of_range() {
    let mut ledger = Ledger::new();
    let big = dec(i128::MAX, 0);
    assert_eq!(ledger.apply(&Command::Deposit { client: 1, tx: 1, amount: big }), Ok(()));
    let r = ledger.apply(&Command::Deposit { client: 1, tx: 2, amount: dec(1, 0) });
    assert_eq!(r, Err(InputError::BalanceOutOfRange));
    assert_eq!(ledger.accounts[&1].total, big);
    assert!(!ledger.transactions.contains_key(&2));
    assert!(!ledger.admits(&Command::Deposit { client: 1, tx: 3, amount: dec(1, 0) }));
    assert!(ledger.admits(&Command::Deposit { client: 2, tx: 3, amount: dec(1, 0) }));
}

#[test]
fn tiny_deposit_is_applied() {
    let mut ledger = Ledger::new();
    assert_eq!(handle_record(&mut ledger, &row(&["deposit", "1", "2", "0.0000000001"])), Ok(()));
    let a = ledger.accounts[&1];
    assert_eq!(a.available, dec(1, 10));
    assert_eq!(a.available.mantissa(), 1);
    assert_eq!(a.available.scale(), 10);
    assert_eq!(handle_record(&mut ledger, &row(&["deposit", "1", "3", "2.5"])), Ok(()));
    assert_eq!(ledger.accounts[&1].total, dec(25_000_000_001, 10));
}

#[test]
fn handle_record_applies_one_record() {
    let mut ledger = Ledger::new();
    assert_eq!(handle_record(&mut ledger, &row(&["deposit", "9", "1", "2.25"])), Ok(()));
    assert_eq!(ledger.accounts[&9].available, dec(225, 2));
    assert_eq!(handle_record(&mut ledger, &row(&["withdrawal", "9", "2", "x"])), Err(InputError::InvalidAmount));
    assert_eq!(ledger.transactions.len(), 1);
}

#[test]
fn u32_reading() {
    assert_eq!(parse_u32("0"), Some(0));
    assert_eq!(parse_u32("42"), Some(42));
    assert_eq!(parse_u32("+7"), Some(7));
    assert_eq!(parse_u32("007"), Some(7));
    assert_eq!(parse_u32("4294967295"), Some(4294967295));
    assert_eq!(parse_u32("4294967296"), None);
    assert_eq!(parse_u32("99999999999x"), None);
    assert_eq!(parse_u32(""), None);
    assert_eq!(parse_u32("+"), None);
    assert_eq!(parse_u32("-1"), None);
    assert_eq!(parse_u32(" 1"), None);
    assert_eq!(parse_u32("1.0"), None);
}

#[test]
fn amount_reading() {
    let hundred = parse_amount("100.0").unwrap();
    assert_eq!(hundred, Amount::from_whole(100));
    assert_eq!(hundred.mantissa(), 1000);
    assert_eq!(hundred.scale(), 1);
    assert_eq!(parse_amount("1.5"), Some(dec(15, 1)));
    assert_eq!(parse_amount("-0.25"), Some(dec(-25, 2)));
    assert_eq!(parse_amount("0.0000000001"), Some(dec(1, 10)));
    assert_eq!(parse_amount("0.0000000000000000000000000001"), Some(dec(1, 28)));
    assert_eq!(parse_amount("2.5000000000000"), Some(dec(25, 1)));
    assert_eq!(parse_amount("79228162514264337593543950335").map(|a| a.mantissa()), Some(79228162514264337593543950335));
    assert_eq!(parse_amount("abc"), None);
    assert_eq!(parse_amount(""), None);
}

#[test]
fn amount_parts() {
    assert_eq!(amount_from_parts(15, 1).map(|a| (a.mantissa(), a.scale())), Some((15, 1)));
    assert_eq!(amount_from_parts(-3, 0), Some(Amount::from_whole(-3)));
    assert_eq!(amount_from_parts(20, 10), Some(dec(2, 9)));
    assert!(amount_from_parts(1, 28).is_some());
    assert!(amount_from_parts(1, 29).is_none());
}

#[test]
fn amount_arithmetic() {
    let a = Amount::from_whole(3);
    let b = dec(5, 1);
    let s = a.checked_add(&b).unwrap();
    assert_eq!((s.mantissa(), s.scale()), (35, 1));
    let d = a.checked_sub(&b).unwrap();
    assert_eq!((d.mantissa(), d.scale()), (25, 1));
    assert_eq!(dec(1, 28).checked_add(&dec(-1, 28)), Some(Amount::zero()));
    assert!(dec(i128::MAX, 0).checked_add(&dec(1, 0)).is_none());
    assert!(dec(i128::MIN, 0).checked_sub(&dec(1, 0)).is_none());
    // the whole part cannot be carried at 28 places
    assert!(dec(79228162514264337593543950335, 0).checked_add(&dec(1, 28)).is_none());
    assert!(a.ge(&b));
    assert!(!b.ge(&a));
    assert!(dec(10, 1).ge(&dec(100, 2)) && dec(100, 2).ge(&dec(10, 1)));
    assert!(dec(i128::MAX, 0).ge(&dec(1, 28)));
    assert!(!dec(i128::MIN, 0).ge(&dec(-1, 28)));
    assert!(dec(1, 28).ge(&dec(i128::MIN, 0)));
    assert_eq!(dec(10, 1), dec(1000, 3));
    assert_ne!(dec(10, 1), dec(1001, 3));
}

#[test]
fn trimming_keeps_the_value() {
    let a = dec(1_000_000_000_000_000_000_000_000_000_000, 10);
    let t = a.trimmed();
    assert_eq!(t, a);
    assert_eq!((t.mantissa(), t.scale()), (100_000_000_000_000_000_000, 0));
    let b = dec(-12_300, 3).trimmed();
    assert_eq!((b.mantissa(), b.scale()), (-123, 1));
    let c = dec(500, 0).trimmed();
    assert_eq!((c.mantissa(), c.scale()), (500, 0));
}

#[test]
fn argument_count() {
    assert_eq!(parse_args(Vec::new()), Err(InputError::TooManyArgs));
    assert_eq!(parse_args(row(&["prog"])), Err(InputError::NoEnoughArgs));
    assert_eq!(parse_args(row(&["prog", "in.csv"])), Ok(row(&["prog", "in.csv"])));
    assert_eq!(parse_args(row(&["prog", "a", "b"])), Err(InputError::TooManyArgs));
}
