use rex_ledger::ledger::Ledger;
use rex_ledger::errors::{FaultField, LedgerError};
use rex_ledger::money::{format_cents, format_cents_short, parse_amount};

fn cash_bank_ledger() -> Ledger {
    Ledger::new(2022, 4, vec!["Cash".to_string(), "Bank".to_string()]).unwrap()
}

#[test]
fn new_rejects_bad_configuration() {
    let empty_span = Ledger::new(2022, 0, vec!["Cash".to_string()]);
    assert_eq!(empty_span.err(), Some(LedgerError::OutOfRange));

    let no_methods = Ledger::new(2022, 4, Vec::new());
    assert_eq!(
        no_methods.err(),
        Some(LedgerError::Validation(FaultField::Method))
    );

    let duplicate = Ledger::new(2022, 4, vec!["Cash".to_string(), "Cash".to_string()]);
    assert_eq!(
        duplicate.err(),
        Some(LedgerError::Validation(FaultField::Method))
    );
}

#[test]
fn add_rejects_unknown_kind() {
    let mut ledger = cash_bank_ledger();
    let r = ledger.add_tx("2022-07-19", "d", "Cash", "1.00", "Loan");
    assert_eq!(r, Err(LedgerError::Validation(FaultField::Kind)));
    assert_eq!(ledger.all_time_balance(), vec![0i128, 0i128]);
}

#[test]
fn add_rejects_malformed_dates() {
    let mut ledger = cash_bank_ledger();
    for bad in ["2022-7-19", "19-07-2022", "2022/07/19", "2022-13-01", "2022-07-32", "2022-00-10", "2022-07-00", ""] {
        let r = ledger.add_tx(bad, "d", "Cash", "1.00", "Income");
        assert_eq!(r, Err(LedgerError::Validation(FaultField::Date)));
    }
    assert_eq!(ledger.all_time_balance(), vec![0i128, 0i128]);
}

#[test]
fn add_rejects_unregistered_methods() {
    let mut ledger = cash_bank_ledger();

    let r = ledger.add_tx("2022-07-19", "d", "Wallet", "1.00", "Income");
    assert_eq!(r, Err(LedgerError::Validation(FaultField::Method)));

    // a transfer needs two registered, distinct methods
    let r = ledger.add_tx("2022-07-19", "d", "Cash to Wallet", "1.00", "Transfer");
    assert_eq!(r, Err(LedgerError::Validation(FaultField::Method)));
    let r = ledger.add_tx("2022-07-19", "d", "Cash to Cash", "1.00", "Transfer");
    assert_eq!(r, Err(LedgerError::Validation(FaultField::Method)));
    let r = ledger.add_tx("2022-07-19", "d", "Cash", "1.00", "Transfer");
    assert_eq!(r, Err(LedgerError::Validation(FaultField::Method)));

    assert_eq!(ledger.all_time_balance(), vec![0i128, 0i128]);
}

#[test]
fn add_rejects_bad_amounts() {
    let mut ledger = cash_bank_ledger();
    for bad in ["", "abc", "-5", "1.234", "1.", ".5", "0", "0.00", "12a", "1,50"] {
        let r = ledger.add_tx("2022-07-19", "d", "Cash", bad, "Income");
        assert_eq!(r, Err(LedgerError::Validation(FaultField::Amount)));
    }
    assert_eq!(ledger.all_time_balance(), vec![0i128, 0i128]);
}

#[test]
fn add_rejects_dates_outside_span() {
    let mut ledger = cash_bank_ledger();

    let r = ledger.add_tx("2021-12-31", "d", "Cash", "1.00", "Income");
    assert_eq!(r, Err(LedgerError::OutOfRange));

    // the configured span 2022..=2025 ends at month index 48
    let r = ledger.add_tx("2026-01-01", "d", "Cash", "1.00", "Income");
    assert_eq!(r, Err(LedgerError::OutOfRange));

    let r = ledger.add_tx("2025-12-31", "d", "Cash", "1.00", "Income");
    assert!(r.is_ok());
    assert_eq!(ledger.all_time_balance(), vec![100i128, 0i128]);
    assert_eq!(ledger.balance_as_of(48), vec![100i128, 0i128]);
    assert_eq!(ledger.balance_as_of(47), vec![0i128, 0i128]);
}

#[test]
fn delete_unknown_id_fails() {
    let mut ledger = cash_bank_ledger();
    assert_eq!(ledger.delete_tx(0), Err(LedgerError::NotFound));
    assert_eq!(ledger.delete_tx(1), Err(LedgerError::NotFound));
    assert!(ledger.get_tx(1).is_err());
}

#[test]
fn amount_forms_parse_exactly() {
    let mut ledger = cash_bank_ledger();

    ledger.add_tx("2022-07-19", "d", "Cash", "1.0", "Income").unwrap();
    assert_eq!(ledger.all_time_balance(), vec![100i128, 0i128]);

    ledger.add_tx("2022-07-19", "d", "Cash", "007", "Income").unwrap();
    assert_eq!(ledger.all_time_balance(), vec![800i128, 0i128]);

    ledger.add_tx("2022-07-19", "d", "Cash", "0.01", "Income").unwrap();
    assert_eq!(ledger.all_time_balance(), vec![801i128, 0i128]);
}

#[test]
fn parse_amount_exact_values() {
    assert_eq!(parse_amount("159.00"), Some(15900));
    assert_eq!(parse_amount("159"), Some(15900));
    assert_eq!(parse_amount("1.5"), Some(150));
    assert_eq!(parse_amount("0.07"), Some(7));
    assert_eq!(parse_amount("0"), None);
    assert_eq!(parse_amount("0.0"), None);
    assert_eq!(parse_amount("92233720368547758.07"), Some(i64::MAX));
    assert_eq!(parse_amount("92233720368547758.08"), None);
    assert_eq!(parse_amount("99999999999999999999"), None);
}

#[test]
fn balance_text_keeps_two_decimals() {
    assert_eq!(format_cents(0), "0.00");
    assert_eq!(format_cents(5), "0.05");
    assert_eq!(format_cents(-15900), "-159.00");
    assert_eq!(format_cents(12055), "120.55");
    assert_eq!(format_cents(-7), "-0.07");
}

#[test]
fn balance_text_short_trims_zeros() {
    assert_eq!(format_cents_short(0), "0");
    assert_eq!(format_cents_short(-15900), "-159");
    assert_eq!(format_cents_short(15919), "159.19");
    assert_eq!(format_cents_short(12050), "120.5");
    assert_eq!(format_cents_short(5), "0.05");
    assert_eq!(format_cents_short(-10), "-0.1");
}

#[test]
fn trimmed_balances_appear_in_last_balances() {
    let mut ledger = cash_bank_ledger();

    ledger.add_tx("2022-07-19", "d", "Cash", "120.50", "Income").unwrap();
    ledger.add_tx("2022-07-19", "d", "Bank", "0.05", "Income").unwrap();
    assert_eq!(
        ledger.get_last_balances(),
        vec!["120.5".to_string(), "0.05".to_string()]
    );
}
