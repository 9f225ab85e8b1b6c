use rex_ledger::ledger::{Ledger, TxOp};
use rex_ledger::errors::LedgerError;

fn cash_bank_ledger() -> Ledger {
    Ledger::new(2022, 4, vec!["Cash".to_string(), "Bank".to_string()]).unwrap()
}

#[test]
fn expense_income_all_time_scenario() {
    let mut ledger = cash_bank_ledger();

    ledger
        .add_tx("2022-07-19", "desc", "Cash", "159.00", "Expense")
        .unwrap();
    assert_eq!(ledger.all_time_balance(), vec![-15900i128, 0i128]);

    ledger
        .add_tx("2022-07-19", "desc", "Bank", "159.19", "Income")
        .unwrap();
    assert_eq!(ledger.all_time_balance(), vec![-15900i128, 15919i128]);

    ledger.delete_tx(1).unwrap();
    assert_eq!(ledger.all_time_balance(), vec![0i128, 15919i128]);
}

#[test]
fn transfer_pair_scenario() {
    let mut ledger = cash_bank_ledger();

    ledger
        .add_tx("2022-07-19", "move", "Cash to Bank", "159.00", "Transfer")
        .unwrap();
    ledger
        .add_tx("2022-07-19", "move back", "Bank to Cash", "159.00", "Transfer")
        .unwrap();
    assert_eq!(ledger.all_time_balance(), vec![0i128, 0i128]);

    ledger.delete_tx(1).unwrap();
    assert_eq!(ledger.all_time_balance(), vec![15900i128, -15900i128]);
}

#[test]
fn transfer_conserves_pair_total() {
    let mut ledger = cash_bank_ledger();

    ledger
        .add_tx("2022-03-01", "seed", "Cash", "500.00", "Income")
        .unwrap();
    let before = ledger.all_time_balance();
    let total_before = before[0] + before[1];

    ledger
        .add_tx("2022-05-02", "move", "Cash to Bank", "120.25", "Transfer")
        .unwrap();
    let after = ledger.all_time_balance();

    assert_eq!(after[0], 50000 - 12025);
    assert_eq!(after[1], 12025);
    assert_eq!(after[0] + after[1], total_before);
}

#[test]
fn cascade_starts_at_transaction_month() {
    let mut ledger = cash_bank_ledger();

    // month index of 2022-07 is 7: rows 1..=6 stay zero, 7..=48 move
    ledger
        .add_tx("2022-07-19", "d", "Cash", "10.00", "Income")
        .unwrap();

    for m in 1..7usize {
        assert_eq!(ledger.balance_as_of(m), vec![0i128, 0i128]);
    }
    for m in 7..49usize {
        assert_eq!(ledger.balance_as_of(m), vec![1000i128, 0i128]);
    }
    assert_eq!(ledger.all_time_balance(), vec![1000i128, 0i128]);
}

#[test]
fn cascade_second_year_month_index() {
    let mut ledger = cash_bank_ledger();

    // 2023-02 is month index 14
    ledger
        .add_tx("2023-02-03", "d", "Bank", "7.50", "Income")
        .unwrap();

    assert_eq!(ledger.balance_as_of(13), vec![0i128, 0i128]);
    assert_eq!(ledger.balance_as_of(14), vec![0i128, 750i128]);
    assert_eq!(ledger.get_last_time_balance(2, 1), vec![0i128, 750i128]);
}

#[test]
fn order_independence_two_months() {
    let mut first = cash_bank_ledger();
    let mut second = cash_bank_ledger();

    first
        .add_tx("2022-03-10", "a", "Cash", "40.00", "Income")
        .unwrap();
    first
        .add_tx("2022-09-04", "b", "Bank", "25.00", "Expense")
        .unwrap();

    second
        .add_tx("2022-09-04", "b", "Bank", "25.00", "Expense")
        .unwrap();
    second
        .add_tx("2022-03-10", "a", "Cash", "40.00", "Income")
        .unwrap();

    for m in 1..49usize {
        assert_eq!(first.balance_as_of(m), second.balance_as_of(m));
    }
    assert_eq!(first.all_time_balance(), second.all_time_balance());
}

#[test]
fn zero_sum_reversal_restores_all_rows() {
    let mut ledger = cash_bank_ledger();

    ledger
        .add_tx("2022-02-01", "keep", "Cash", "33.40", "Income")
        .unwrap();
    let mut before = Vec::new();
    for m in 1..49usize {
        before.push(ledger.balance_as_of(m));
    }
    let before_all = ledger.all_time_balance();

    let id = ledger
        .add_tx("2023-06-15", "temp", "Cash to Bank", "12.34", "Transfer")
        .unwrap();
    ledger.delete_tx(id).unwrap();

    for m in 1..49usize {
        assert_eq!(ledger.balance_as_of(m), before[m - 1]);
    }
    assert_eq!(ledger.all_time_balance(), before_all);
}

#[test]
fn double_delete_fails_and_keeps_state() {
    let mut ledger = cash_bank_ledger();

    ledger
        .add_tx("2022-07-19", "d", "Cash", "5.00", "Income")
        .unwrap();
    ledger
        .add_tx("2022-08-19", "d", "Bank", "6.00", "Income")
        .unwrap();

    ledger.delete_tx(1).unwrap();
    let after_first = ledger.all_time_balance();

    assert_eq!(ledger.delete_tx(1), Err(LedgerError::NotFound));
    assert_eq!(ledger.all_time_balance(), after_first);
    assert_eq!(ledger.all_time_balance(), vec![0i128, 600i128]);
}

#[test]
fn ids_are_not_reused_after_delete() {
    let mut ledger = cash_bank_ledger();

    let id1 = ledger
        .add_tx("2022-07-19", "d", "Cash", "5.00", "Income")
        .unwrap();
    assert_eq!(id1, 1);
    ledger.delete_tx(id1).unwrap();

    let id2 = ledger
        .add_tx("2022-07-19", "d", "Cash", "5.00", "Income")
        .unwrap();
    assert_eq!(id2, 2);
    assert!(ledger.get_tx(1).is_err());
    assert!(ledger.get_tx(2).is_ok());
}

#[test]
fn get_tx_returns_stored_fields() {
    let mut ledger = cash_bank_ledger();

    let id = ledger
        .add_tx("2023-11-05", "groceries", "Cash", "42.07", "Expense")
        .unwrap();
    let t = ledger.get_tx(id).unwrap();
    assert_eq!(t.year, 2023);
    assert_eq!(t.month, 11);
    assert_eq!(t.day, 5);
    assert_eq!(t.details, "groceries");
    assert_eq!(t.op, TxOp::Expense(0));
    assert_eq!(t.amount, 4207);
    assert_eq!(t.month_idx, 23);
}

#[test]
fn changes_for_reports_applied_deltas() {
    let mut ledger = cash_bank_ledger();

    let id1 = ledger
        .add_tx("2022-07-19", "d", "Cash", "159.00", "Expense")
        .unwrap();
    let id2 = ledger
        .add_tx("2022-07-20", "d", "Cash to Bank", "10.00", "Transfer")
        .unwrap();

    assert_eq!(ledger.changes_for(id1), vec![-15900i64, 0i64]);
    assert_eq!(ledger.changes_for(id2), vec![-1000i64, 1000i64]);
    // an absent id means "nothing selected": the all-zero row, not an error
    assert_eq!(ledger.changes_for(99), vec![0i64, 0i64]);

    ledger.delete_tx(id1).unwrap();
    assert_eq!(ledger.changes_for(id1), vec![0i64, 0i64]);
}

#[test]
fn register_method_extends_rows_with_zero() {
    let mut ledger = cash_bank_ledger();

    ledger
        .add_tx("2022-07-19", "d", "Cash", "159.00", "Expense")
        .unwrap();
    ledger.register_method("Card".to_string()).unwrap();

    assert_eq!(
        ledger.get_all_tx_methods(),
        vec!["Cash".to_string(), "Bank".to_string(), "Card".to_string()]
    );
    assert_eq!(ledger.all_time_balance(), vec![-15900i128, 0i128, 0i128]);
    assert_eq!(ledger.balance_as_of(7), vec![-15900i128, 0i128, 0i128]);
    assert_eq!(ledger.changes_for(1), vec![-15900i64, 0i64, 0i64]);

    // the new method takes transactions like any other
    ledger
        .add_tx("2022-08-01", "d", "Card", "3.00", "Income")
        .unwrap();
    assert_eq!(ledger.all_time_balance(), vec![-15900i128, 0i128, 300i128]);
}

#[test]
fn row_difference_equals_month_changes() {
    let mut ledger = cash_bank_ledger();

    ledger
        .add_tx("2022-03-15", "d", "Cash", "20.00", "Income")
        .unwrap();
    ledger
        .add_tx("2022-07-01", "d", "Cash to Bank", "8.00", "Transfer")
        .unwrap();

    for m in 2..49usize {
        let here = ledger.balance_as_of(m);
        let before = ledger.balance_as_of(m - 1);
        let diff: Vec<i128> = vec![here[0] - before[0], here[1] - before[1]];
        let expected = match m {
            3 => vec![2000i128, 0i128],
            7 => vec![-800i128, 800i128],
            _ => vec![0i128, 0i128],
        };
        assert_eq!(diff, expected);
    }
}

#[test]
fn terminal_row_equals_last_month() {
    let mut ledger = cash_bank_ledger();

    ledger
        .add_tx("2024-09-30", "d", "Bank", "11.11", "Income")
        .unwrap();
    ledger
        .add_tx("2022-01-01", "d", "Cash", "2.00", "Expense")
        .unwrap();

    assert_eq!(ledger.all_time_balance(), ledger.balance_as_of(48));
}

#[test]
fn register_method_rejects_duplicates() {
    let mut ledger = cash_bank_ledger();
    let r = ledger.register_method("Cash".to_string());
    assert!(r.is_err());
    assert_eq!(ledger.get_all_tx_methods().len(), 2);
}
