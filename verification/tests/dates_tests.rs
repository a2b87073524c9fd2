use ledgerbot::dates::{format_expenses_chronological, format_timestamp, CalendarDate, ListedExpense};
use ledgerbot::expense_period::ExpensePeriod;

fn listed(description: &str, amount: f64, timestamp: i64) -> ListedExpense {
    ListedExpense { timestamp, description: description.to_string(), amount: amount.to_string() }
}

fn listed_2(description: &str, amount: f64, timestamp: i64) -> ListedExpense {
    ListedExpense { timestamp, description: description.to_string(), amount: format!("{:.2}", amount) }
}

#[test]
fn test_from_date() {
    let date = CalendarDate::from_ymd_opt(2024, 3, 15).unwrap();
    let period = ExpensePeriod::from_date(date);
    assert_eq!(period.year, 2024);
    assert_eq!(period.month, 3);
}

#[test]
fn test_contains_date() {
    let period = ExpensePeriod::new(2024, 3).unwrap();
    let date_in = CalendarDate::from_ymd_opt(2024, 3, 15).unwrap();
    assert!(period.contains_date(date_in));
    let date_out = CalendarDate::from_ymd_opt(2024, 4, 1).unwrap();
    assert!(!period.contains_date(date_out));
    let date_out2 = CalendarDate::from_ymd_opt(2023, 3, 15).unwrap();
    assert!(!period.contains_date(date_out2));
}

#[test]
fn calendar_dates_are_checked() {
    assert!(CalendarDate::from_ymd_opt(2024, 2, 29).is_some());
    assert!(CalendarDate::from_ymd_opt(2023, 2, 29).is_none());
    assert!(CalendarDate::from_ymd_opt(2024, 13, 1).is_none());
    let d = CalendarDate::from_ymd_opt(1999, 12, 31).unwrap();
    assert_eq!((d.year(), d.month(), d.day()), (1999, 12, 31));
}

#[test]
fn timestamps_print_as_utc_dates() {
    assert_eq!(format_timestamp(1609459200), "2021-01-01");
    assert_eq!(format_timestamp(1609545599), "2021-01-01");
    assert_eq!(format_timestamp(0), "1970-01-01");
    assert_eq!(format_timestamp(-1), "1969-12-31");
}

#[test]
fn list_test_format_expenses_chronological() {
    let expenses = vec![
        listed("Lunch", 12.00, 1609545600),
        listed("Coffee", 5.50, 1609459200),
        listed("Dinner", 25.00, 1609632000),
    ];
    let result = format_expenses_chronological(&expenses);
    assert_eq!(result, "2021-01-01 Coffee 5.5\n2021-01-02 Lunch 12\n2021-01-03 Dinner 25\n");
}

#[test]
fn list_test_format_expenses_chronological_empty() {
    let expenses = Vec::new();
    let result = format_expenses_chronological(&expenses);
    assert_eq!(result, "No expenses recorded yet.");
}

#[test]
fn parser_test_format_expenses_chronological() {
    let expenses = vec![
        listed_2("Lunch", 12.00, 1609545600),
        listed_2("Coffee", 5.50, 1609459200),
        listed_2("Dinner", 25.00, 1609632000),
    ];
    let result = format_expenses_chronological(&expenses);
    assert!(result.contains("2021-01-01 Coffee 5.50"));
    assert!(result.contains("2021-01-02 Lunch 12.00"));
    assert!(result.contains("2021-01-03 Dinner 25.00"));
    let coffee_pos = result.find("Coffee").unwrap();
    let lunch_pos = result.find("Lunch").unwrap();
    let dinner_pos = result.find("Dinner").unwrap();
    assert!(coffee_pos < lunch_pos);
    assert!(lunch_pos < dinner_pos);
}

#[test]
fn parser_test_format_expenses_chronological_empty() {
    let result = format_expenses_chronological(&Vec::new());
    assert_eq!(result, "No expenses recorded yet.");
}

#[test]
fn same_time_keeps_given_order() {
    let expenses = vec![listed("B", 1.0, 100), listed("A", 2.0, 50), listed("C", 3.0, 100)];
    assert_eq!(
        format_expenses_chronological(&expenses),
        "1970-01-01 A 2\n1970-01-01 B 1\n1970-01-01 C 3\n"
    );
}

#[test]
fn calendar_dates_must_exist() {
    assert!(CalendarDate::from_ymd_opt(2021, 2, 30).is_none());
    assert!(CalendarDate::from_ymd_opt(2021, 13, 1).is_none());
    assert!(CalendarDate::from_ymd_opt(2024, 2, 29).is_some());
    assert!(CalendarDate::from_ymd_opt(2023, 2, 29).is_none());
}

#[test]
fn same_time_expenses_keep_their_order() {
    let e = |d: &str, a: &str, t: i64| ListedExpense { timestamp: t, description: d.to_string(), amount: a.to_string() };
    let listed = format_expenses_chronological(&vec![e("B", "2", 86400), e("A", "1", 0), e("C", "3", 86400)]);
    assert_eq!(listed, "1970-01-01 A 1\n1970-01-02 B 2\n1970-01-02 C 3\n");
}
