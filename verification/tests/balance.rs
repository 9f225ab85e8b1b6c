use rex_ledger::ledger::Ledger;

fn test_ledger() -> Ledger {
    Ledger::new(2022, 16, vec!["test1".to_string(), "test 2".to_string()]).unwrap()
}

#[test]
fn check_last_balances_1() {
    let ledger = test_ledger();
    let data = ledger.get_last_balances();
    let expected_data = vec!["0".to_string(), "0".to_string()];
    assert_eq!(data, expected_data);
}

#[test]
fn check_last_balances_2() {
    let mut ledger = test_ledger();

    ledger
        .add_tx("2022-07-19", "Testing transaction", "test1", "159.00", "Expense")
        .unwrap();
    ledger
        .add_tx("2022-07-19", "Testing transaction", "test 2", "159.19", "Income")
        .unwrap();

    let data = ledger.get_last_balances();
    let expected_data = vec!["-159".to_string(), "159.19".to_string()];

    ledger.delete_tx(1).unwrap();

    let data_2 = ledger.get_last_balances();
    let expected_data_2 = vec!["0".to_string(), "159.19".to_string()];

    assert_eq!(data, expected_data);
    assert_eq!(data_2, expected_data_2);
}

#[test]
fn check_last_balances_3() {
    let mut ledger = test_ledger();

    ledger
        .add_tx(
            "2022-07-19",
            "Testing transaction",
            "test1 to test 2",
            "159.00",
            "Transfer",
        )
        .unwrap();
    ledger
        .add_tx(
            "2022-07-19",
            "Testing transaction",
            "test 2 to test1",
            "159.00",
            "Transfer",
        )
        .unwrap();

    let data = ledger.get_last_balances();
    let expected_data = vec!["0".to_string(), "0".to_string()];

    ledger.delete_tx(1).unwrap();

    let data_2 = ledger.get_last_balances();
    let expected_data_2 = vec!["159".to_string(), "-159".to_string()];

    assert_eq!(data, expected_data);
    assert_eq!(data_2, expected_data_2);
}

#[test]
fn check_last_month_balance_1() {
    let ledger = test_ledger();
    let data = ledger.get_last_time_balance(6, 1);
    let expected_data = vec![0i128, 0i128];
    assert_eq!(data, expected_data);
}

#[test]
fn check_last_balance_id() {
    let ledger = test_ledger();
    let data = ledger.get_last_balance_id();
    assert_eq!(data, 193);
}

#[test]
fn check_last_month_balance_2() {
    let mut ledger = test_ledger();

    ledger
        .add_tx("2022-07-19", "Testing transaction", "test1", "100.00", "Income")
        .unwrap();
    ledger
        .add_tx("2022-07-19", "Testing transaction", "test 2", "100.00", "Income")
        .unwrap();
    ledger
        .add_tx("2022-08-19", "Testing transaction", "test1", "100.00", "Income")
        .unwrap();
    ledger
        .add_tx("2022-09-19", "Testing transaction", "test1", "100.00", "Income")
        .unwrap();
    ledger
        .add_tx("2022-10-19", "Testing transaction", "test1", "100.00", "Income")
        .unwrap();

    let data_1 = ledger.get_last_time_balance(8, 0);
    let expected_data_1 = vec![20000i128, 10000i128];

    ledger.delete_tx(1).unwrap();
    ledger.delete_tx(2).unwrap();

    let data_2 = ledger.get_last_time_balance(10, 3);
    let expected_data_2 = vec![30000i128, 0i128];

    ledger
        .add_tx("2028-08-19", "Testing transaction", "test1", "100.00", "Income")
        .unwrap();
    ledger
        .add_tx("2025-09-19", "Testing transaction", "test1", "100.00", "Income")
        .unwrap();
    ledger
        .add_tx("2025-10-19", "Testing transaction", "test1", "100.00", "Income")
        .unwrap();

    let data_3 = ledger.get_last_time_balance(10, 4);
    let expected_data_3 = vec![50000i128, 0i128];

    assert_eq!(data_1, expected_data_1);
    assert_eq!(data_2, expected_data_2);
    assert_eq!(data_3, expected_data_3);
}

fn leap_year(y: u32) -> bool {
    y % 4 == 0 && (y % 100 != 0 || y % 400 == 0)
}

fn days_in_month(y: u32, m: u32) -> u32 {
    match m {
        1 | 3 | 5 | 7 | 8 | 10 | 12 => 31,
        4 | 6 | 9 | 11 => 30,
        _ => {
            if leap_year(y) {
                29
            } else {
                28
            }
        }
    }
}

fn add_days(date: (u32, u32, u32), n: u32) -> (u32, u32, u32) {
    let (mut y, mut m, mut d) = date;
    for _ in 0..n {
        if d < days_in_month(y, m) {
            d += 1;
        } else if m < 12 {
            m += 1;
            d = 1;
        } else {
            y += 1;
            m = 1;
            d = 1;
        }
    }
    (y, m, d)
}

#[test]
fn check_balance_all_day() {
    let mut ledger = test_ledger();

    let mut current_date: (u32, u32, u32) = (2022, 1, 1);
    let ending_date: (u32, u32, u32) = (2037, 12, 31);

    let mut total_days: u32 = 0;
    let mut total_amount: i64 = 0;

    let details = "Test Transaction";
    let amount = "1.0";
    let tx_method = "test1";
    let tx_type = "Income";

    loop {
        if current_date > ending_date {
            break;
        }
        let date = format!(
            "{:04}-{:02}-{:02}",
            current_date.0, current_date.1, current_date.2
        );
        ledger
            .add_tx(&date, details, tx_method, amount, tx_type)
            .unwrap();
        current_date = add_days(current_date, 28);
        total_amount += 1;
        total_days += 1;
    }

    let data = ledger.get_last_balances();
    let expected = vec![total_amount.to_string(), "0".to_string()];
    assert_eq!(data, expected);

    let mut delete_id_num = total_days;

    loop {
        if delete_id_num == 0 {
            break;
        }
        ledger.delete_tx(delete_id_num).unwrap();
        delete_id_num -= 1;
    }

    let data_1 = ledger.get_last_balances();
    let data_2 = ledger.get_last_time_balance(12, 3);

    let expected_data_1 = vec!["0".to_string(), "0".to_string()];
    let expected_data_2 = vec![0i128, 0i128];

    assert_eq!(data_1, expected_data_1);
    assert_eq!(data_2, expected_data_2);
}
