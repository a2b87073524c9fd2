use ledgerbot::callbacks::words_pattern;
use ledgerbot::regex_ops::{check_pattern, compile_patterns, find_matching_pattern};
use ledgerbot::report::{
    assign_categories, assign_compiled, check_category_conflicts, check_compiled_conflicts, compile_categories,
    render_plain_report, render_report, report_layout, CategoryFilters, ExpenseLine, ReportSection,
};

fn strings(v: &[&str]) -> Vec<String> {
    v.iter().map(|s| s.to_string()).collect()
}

fn cat(name: &str, patterns: &[&str]) -> CategoryFilters {
    CategoryFilters { name: name.to_string(), patterns: strings(patterns) }
}

fn day(date: &str) -> i64 {
    match date {
        "2024-01-05" => 1704412800,
        "2024-01-06" => 1704499200,
        "2024-01-07" => 1704585600,
        _ => panic!("unknown test date"),
    }
}

fn line(date: &str, description: &str, amount: &str) -> ExpenseLine {
    ExpenseLine {
        timestamp: day(date),
        description: description.to_string(),
        amount: amount.to_string(),
    }
}

#[test]
fn matching_pattern_skips_invalid_filters() {
    let compiled = compile_patterns(&strings(&["(", "(?i)coffee", "tea"]));
    let kept: Vec<&str> = compiled.iter().map(|c| c.as_str()).collect();
    assert_eq!(kept, vec!["(?i)coffee", "tea"]);
    assert_eq!(find_matching_pattern(&compiled, "Morning Coffee"), Some(0));
    assert_eq!(find_matching_pattern(&compiled, "green tea"), Some(1));
    assert_eq!(find_matching_pattern(&compiled, "bread"), None);
    assert_eq!(find_matching_pattern(&Vec::new(), "bread"), None);
}

#[test]
fn pattern_errors_carry_the_regex_message() {
    assert_eq!(check_pattern("(?i)coffee"), None);
    let e = check_pattern("(").expect("an unclosed group does not compile");
    assert!(e.contains("unclosed group"));
}

#[test]
fn compiled_categories_keep_names_and_valid_filters() {
    let cats = vec![cat("Food", &["(?i)coffee", "["]), cat("Empty", &[])];
    let compiled = compile_categories(&cats);
    assert_eq!(compiled.len(), 2);
    assert_eq!(compiled[0].name, "Food");
    assert_eq!(compiled[0].patterns.len(), 1);
    assert_eq!(compiled[0].patterns[0].as_str(), "(?i)coffee");
    assert_eq!(compiled[1].name, "Empty");
    assert!(compiled[1].patterns.is_empty());
}

#[test]
fn assignment_against_compiled_categories() {
    let compiled = compile_categories(&vec![cat("Food", &["lunch"]), cat("Drinks", &["(?i)coffee", "lunch"])]);
    let descriptions = strings(&["Coffee", "lunch box", "Books"]);
    assert_eq!(assign_compiled(&descriptions, &compiled), vec![Some(1), Some(0), None]);
    assert_eq!(assign_compiled(&Vec::new(), &compiled), Vec::<Option<usize>>::new());
}

#[test]
fn conflicts_against_compiled_categories() {
    let compiled = compile_categories(&vec![cat("Food", &["(?i)coffee"]), cat("Drinks", &["Cof"])]);
    let lines = vec![line("2024-01-06", "Tea", "2")];
    assert_eq!(check_compiled_conflicts(&lines, &compiled), Ok(()));
    let lines = vec![line("2024-01-06", "Coffee", "2")];
    let expected = "❌ *Category Conflicts Detected*\n\n\
                    The following expenses match multiple categories\\.\n\
                    Please adjust your filters to avoid overlapping categories\\.\n\n\
                    📝 *Expense:* 2024\\-01\\-06 Coffee 2\n\
                    *Matching categories:*\n\
                    \x20 • Food \\(filter: `\\(?i\\)coffee`\\)\n\
                    \x20 • Drinks \\(filter: `Cof`\\)\n\n";
    assert_eq!(check_compiled_conflicts(&lines, &compiled), Err(expected.to_string()));
}

#[test]
fn regex_escape_quotes_meta_characters() {
    let words = vec!["a.b".to_string(), "plain".to_string(), "c++ (x)".to_string()];
    assert_eq!(words_pattern(&words, "(?i)(", ")"), "(?i)(a\\.b|plain|c\\+\\+ \\(x\\))");
}

#[test]
fn first_matching_category_wins() {
    let cats = vec![
        cat("Food", &["(?i)coffee", "lunch"]),
        cat("Drinks", &["(?i)coffee"]),
        cat("Transport", &["(?i)taxi", "["]),
    ];
    let descriptions = strings(&["Coffee at work", "Taxi home", "lunch", "Books"]);
    let assignment = assign_categories(&descriptions, &cats);
    assert_eq!(assignment, vec![Some(0), Some(2), Some(0), None]);
}

#[test]
fn layout_sorts_categories_and_puts_other_last() {
    let cats = vec![cat("Zoo", &["zoo"]), cat("Apples", &["apple"]), cat("Unused", &["nothing"])];
    let assignment = vec![Some(0), None, Some(1), Some(0), None];
    let groups = report_layout(&assignment, &cats);
    assert_eq!(groups.len(), 3);
    assert_eq!(groups[0].category, Some(1));
    assert_eq!(groups[0].name, "Apples");
    assert_eq!(groups[0].members, vec![2]);
    assert_eq!(groups[1].category, Some(0));
    assert_eq!(groups[1].name, "Zoo");
    assert_eq!(groups[1].members, vec![0, 3]);
    assert_eq!(groups[2].category, None);
    assert_eq!(groups[2].name, "Other");
    assert_eq!(groups[2].members, vec![1, 4]);
}

#[test]
fn layout_without_uncategorized_has_no_other() {
    let cats = vec![cat("Food", &["x"])];
    let groups = report_layout(&vec![Some(0)], &cats);
    assert_eq!(groups.len(), 1);
    assert_eq!(groups[0].name, "Food");
    assert!(report_layout(&Vec::new(), &cats).is_empty());
}

#[test]
fn render_empty_report() {
    assert_eq!(render_report(&Vec::new(), "0"), "No expenses recorded yet.");
}

#[test]
fn render_report_escapes_values() {
    let sections = vec![
        ReportSection {
            name: "Food".to_string(),
            lines: vec![line("2024-01-05", "Coffee", "5.5"), line("2024-01-06", "Lunch", "12")],
            subtotal: "17.5".to_string(),
        },
        ReportSection {
            name: "Other".to_string(),
            lines: vec![line("2024-01-07", "Book-store", "3")],
            subtotal: "3".to_string(),
        },
    ];
    let expected = "*Food*:\n  • 2024\\-01\\-05 Coffee 5\\.5\n  • 2024\\-01\\-06 Lunch 12\n  *Subtotal: 17\\.5*\n\n\
                    *Other*:\n  • 2024\\-01\\-07 Book\\-store 3\n  *Subtotal: 3*\n\n\
                    *Total: 20\\.5*";
    assert_eq!(render_report(&sections, "20.5"), expected);
}

#[test]
fn no_conflicts_is_ok() {
    let cats = vec![cat("Food", &["(?i)coffee"]), cat("Transport", &["(?i)taxi"])];
    let lines = vec![line("2024-01-05", "Coffee", "5"), line("2024-01-05", "Taxi", "7")];
    assert_eq!(check_category_conflicts(&lines, &cats), Ok(()));
    assert_eq!(check_category_conflicts(&Vec::new(), &cats), Ok(()));
}

#[test]
fn conflicts_are_listed() {
    let cats = vec![
        cat("Food", &["tea", "(?i)coffee"]),
        cat("Drinks", &["(?i)coffee"]),
        cat("Transport", &["(?i)taxi"]),
    ];
    let lines = vec![line("2024-01-05", "Coffee", "5.5"), line("2024-01-06", "Taxi", "7")];
    let expected = "❌ *Category Conflicts Detected*\n\n\
                    The following expenses match multiple categories\\.\n\
                    Please adjust your filters to avoid overlapping categories\\.\n\n\
                    📝 *Expense:* 2024\\-01\\-05 Coffee 5\\.5\n\
                    *Matching categories:*\n\
                    \x20 • Food \\(filter: `\\(?i\\)coffee`\\)\n\
                    \x20 • Drinks \\(filter: `\\(?i\\)coffee`\\)\n\n";
    assert_eq!(check_category_conflicts(&lines, &cats), Err(expected.to_string()));
}

#[test]
fn layout_lists_each_expense_once() {
    let cats = vec![cat("B", &["b"]), cat("A", &["a"]), cat("C", &["c"])];
    let assignment = vec![Some(2), None, Some(0), Some(2), Some(1), None, Some(0)];
    let groups = report_layout(&assignment, &cats);
    for i in 0..assignment.len() {
        let holders: Vec<_> = groups.iter().filter(|g| g.members.contains(&i)).collect();
        assert_eq!(holders.len(), 1);
        assert_eq!(holders[0].category, assignment[i]);
    }
}

#[test]
fn render_plain_report_layout() {
    assert_eq!(render_plain_report(&Vec::new(), "0.00"), "No expenses recorded yet.");
    let sections = vec![ReportSection {
        name: "Food".to_string(),
        lines: vec![line("2024-01-05", "Coffee", "5.50"), line("2024-01-06", "Lunch", "12.00")],
        subtotal: "17.50".to_string(),
    }];
    assert_eq!(
        render_plain_report(&sections, "17.50"),
        "Food:\n  • Coffee - 5.50 (2024-01-05)\n  • Lunch - 12.00 (2024-01-06)\n  Subtotal: 17.50_\n\nTotal: 17.50"
    );
}
