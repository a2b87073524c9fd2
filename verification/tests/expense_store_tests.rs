use ledgerbot::dates::CalendarDate;
use ledgerbot::expense_period::ExpensePeriod;
use ledgerbot::expense_store::{Expense, ExpenseStorage};
use rust_decimal::Decimal;

fn period(year: i32, month: u32) -> ExpensePeriod {
    ExpensePeriod::new(year, month).unwrap()
}

fn expense(y: i32, m: u32, d: u32, description: &str, cents: i64) -> Expense {
    Expense::new(
        CalendarDate::from_ymd_opt(y, m, d).unwrap(),
        description.to_string(),
        Decimal::new(cents, 2),
    )
}

#[test]
fn expenses_are_appended_per_period() {
    let mut store = ExpenseStorage::new();
    store.add_expenses(period(2024, 3), vec![expense(2024, 3, 1, "Coffee", 350)]);
    store.add_expenses(period(2024, 3), vec![expense(2024, 3, 2, "Lunch", 1200)]);
    store.add_expenses(period(2024, 4), vec![expense(2024, 4, 9, "Taxi", 2000)]);
    let march = store.get_expenses(period(2024, 3));
    assert_eq!(march.len(), 2);
    assert_eq!(march[0].description, "Coffee");
    assert_eq!(march[1].description, "Lunch");
    assert_eq!(march[1].amount, Decimal::new(1200, 2));
    assert!(store.get_expenses(period(2024, 5)).is_empty());
    store.clear_expenses(period(2024, 3));
    assert!(store.get_expenses(period(2024, 3)).is_empty());
    assert_eq!(store.get_expenses(period(2024, 4)).len(), 1);
}

#[test]
fn periods_are_listed_in_order() {
    let mut store = ExpenseStorage::new();
    for p in [period(2024, 11), period(2023, 12), period(2024, 2), period(2024, 10)] {
        store.add_expenses(p, vec![expense(2024, 1, 1, "x", 1)]);
    }
    let listed = store.list_periods();
    assert_eq!(listed, vec![period(2023, 12), period(2024, 2), period(2024, 10), period(2024, 11)]);
    assert!(ExpenseStorage::new().list_periods().is_empty());
}

#[test]
fn all_expenses_follow_the_periods() {
    let mut store = ExpenseStorage::new();
    store.add_expenses(period(2024, 5), vec![expense(2024, 5, 3, "May", 100)]);
    store.add_expenses(
        period(2024, 1),
        vec![expense(2024, 1, 7, "Jan a", 100), expense(2024, 1, 8, "Jan b", 200)],
    );
    let all = store.get_all_expenses();
    let seen: Vec<(ExpensePeriod, String)> =
        all.iter().map(|(p, e)| (*p, e.description.clone())).collect();
    assert_eq!(
        seen,
        vec![
            (period(2024, 1), "Jan a".to_string()),
            (period(2024, 1), "Jan b".to_string()),
            (period(2024, 5), "May".to_string()),
        ]
    );
}

#[test]
fn expense_dates_and_timestamps() {
    let e = Expense::from_timestamp(1609545600 + 3600, "Lunch".to_string(), Decimal::new(12, 0));
    assert_eq!((e.date.year(), e.date.month(), e.date.day()), (2021, 1, 2));
    assert_eq!(e.timestamp(), 1609545600);
    let d = CalendarDate::from_timestamp(-1);
    assert_eq!((d.year(), d.month(), d.day()), (1969, 12, 31));
    assert_eq!(d.midnight_timestamp(), -86400);
}
