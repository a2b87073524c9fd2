use ledgerbot::expense_period::ExpensePeriod;

#[test]
fn test_new_valid() {
    let period = ExpensePeriod::new(2024, 3).unwrap();
    assert_eq!(period.year, 2024);
    assert_eq!(period.month, 3);
}

#[test]
fn test_new_invalid_month() {
    assert!(ExpensePeriod::new(2024, 0).is_err());
    assert!(ExpensePeriod::new(2024, 13).is_err());
    assert!(ExpensePeriod::new(2024, 100).is_err());
}

#[test]
fn expense_period_test_from_string_valid() {
    let period = ExpensePeriod::from_string("2024-03").unwrap();
    assert_eq!(period.year, 2024);
    assert_eq!(period.month, 3);

    let period2 = ExpensePeriod::from_string("2024-12").unwrap();
    assert_eq!(period2.year, 2024);
    assert_eq!(period2.month, 12);
}

#[test]
fn test_from_string_invalid() {
    assert!(ExpensePeriod::from_string("2024").is_err());
    assert!(ExpensePeriod::from_string("2024-13").is_err());
    assert!(ExpensePeriod::from_string("invalid").is_err());
    assert!(ExpensePeriod::from_string("2024-00").is_err());
}

#[test]
fn test_to_string() {
    let period = ExpensePeriod::new(2024, 3).unwrap();
    assert_eq!(period.to_string(), "2024-03");

    let period2 = ExpensePeriod::new(2024, 12).unwrap();
    assert_eq!(period2.to_string(), "2024-12");
}

#[test]
fn expense_period_test_display() {
    let period = ExpensePeriod::new(2024, 3).unwrap();
    assert_eq!(period.to_string(), "2024-03");
}

#[test]
fn test_next_month() {
    let period = ExpensePeriod::new(2024, 3).unwrap();
    let next = period.next_month();
    assert_eq!(next.year, 2024);
    assert_eq!(next.month, 4);

    let dec = ExpensePeriod::new(2024, 12).unwrap();
    let next_year = dec.next_month();
    assert_eq!(next_year.year, 2025);
    assert_eq!(next_year.month, 1);
}

#[test]
fn test_prev_month() {
    let period = ExpensePeriod::new(2024, 3).unwrap();
    let prev = period.prev_month();
    assert_eq!(prev.year, 2024);
    assert_eq!(prev.month, 2);

    let jan = ExpensePeriod::new(2024, 1).unwrap();
    let prev_year = jan.prev_month();
    assert_eq!(prev_year.year, 2023);
    assert_eq!(prev_year.month, 12);
}

#[test]
fn expense_period_test_ordering() {
    let p1 = ExpensePeriod::new(2024, 1).unwrap();
    let p2 = ExpensePeriod::new(2024, 2).unwrap();
    let p3 = ExpensePeriod::new(2025, 1).unwrap();

    assert!(p1 < p2);
    assert!(p2 < p3);
    assert!(p1 < p3);
    assert_eq!(p1, p1);
}

#[test]
fn expense_period_messages_and_signs() {
    assert_eq!(
        ExpensePeriod::new(2024, 13).unwrap_err(),
        "Invalid month: 13. Must be between 1 and 12"
    );
    assert_eq!(
        ExpensePeriod::from_string("2024").unwrap_err(),
        "Invalid period format: '2024'. Expected format: YYYY-MM"
    );
    assert_eq!(ExpensePeriod::from_string("x-03").unwrap_err(), "Invalid year: 'x'");
    assert_eq!(ExpensePeriod::from_string("2024-+").unwrap_err(), "Invalid month: '+'");
    // str::parse accepts a leading plus sign
    assert_eq!(ExpensePeriod::from_string("+2024-+3").unwrap(), ExpensePeriod { year: 2024, month: 3 });
    // the year is padded to four characters, the sign included
    assert_eq!(ExpensePeriod { year: -5, month: 7 }.to_string(), "-005-07");
    assert_eq!(ExpensePeriod { year: 12345, month: 11 }.to_string(), "12345-11");
    assert!(ExpensePeriod::from_string("2147483648-01").is_err());
}

#[test]
fn expense_period_roundtrip_and_steps() {
    for (y, m) in [(0, 1), (7, 12), (2024, 6), (99999, 3)] {
        let p = ExpensePeriod::new(y, m).unwrap();
        assert_eq!(ExpensePeriod::from_string(&p.to_string()).unwrap(), p);
        assert_eq!(p.next_month().prev_month(), p);
        assert_eq!(p.prev_month().next_month(), p);
        assert!(p < p.next_month());
    }
}
