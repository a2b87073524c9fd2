use ledgerbot::report::CategoryFilters;
use ledgerbot::suggestions::extract_words;

fn food(patterns: &[&str]) -> Vec<CategoryFilters> {
    vec![CategoryFilters {
        name: "Food".to_string(),
        patterns: patterns.iter().map(|p| p.to_string()).collect(),
    }]
}

fn descriptions(v: &[&str]) -> Vec<String> {
    v.iter().map(|s| s.to_string()).collect()
}

fn check_four_expenses(words: &[String]) {
    assert!(words.contains(&"coffee".to_string()));
    assert!(words.contains(&"starbucks".to_string()));
    assert!(words.contains(&"bus".to_string()));
    assert!(words.contains(&"ticket".to_string()));
    assert!(words.contains(&"taxi".to_string()));
    assert!(words.contains(&"ride".to_string()));
    assert!(!words.contains(&"lunch".to_string()));
    assert!(!words.contains(&"restaurant".to_string()));
}

#[test]
fn extract_words_test_extract_words() {
    let expenses =
        descriptions(&["Coffee at Starbucks", "Lunch at restaurant", "Bus ticket", "Taxi ride"]);
    let words = extract_words(&expenses, &food(&["(?i)lunch"]));
    check_four_expenses(&words);
}

#[test]
fn extract_words_test_extract_words_empty() {
    let words = extract_words(&Vec::new(), &Vec::new());
    assert_eq!(words.len(), 0);
}

#[test]
fn extract_words_test_extract_words_all_categorized() {
    let words = extract_words(&descriptions(&["Coffee", "Lunch"]), &food(&["(?i).*"]));
    assert_eq!(words.len(), 0);
}

#[test]
fn parser_test_extract_words() {
    let expenses =
        descriptions(&["Coffee at Starbucks", "Lunch at restaurant", "Bus ticket", "Taxi ride"]);
    let words = extract_words(&expenses, &food(&["(?i)lunch"]));
    check_four_expenses(&words);
}

#[test]
fn parser_test_extract_words_empty() {
    let words = extract_words(&Vec::new(), &Vec::new());
    assert_eq!(words.len(), 0);
}

#[test]
fn parser_test_extract_words_all_categorized() {
    let words = extract_words(&descriptions(&["Coffee", "Lunch"]), &food(&["(?i).*"]));
    assert_eq!(words.len(), 0);
}

#[test]
fn extracted_words_are_sorted_cleaned_and_unique() {
    let words = extract_words(
        &descriptions(&["Taxi, TAXI! (airport)", "a b ok", "Éclair «café»"]),
        &Vec::new(),
    );
    assert_eq!(words, descriptions(&["airport", "café", "ok", "taxi", "éclair"]));
}

#[test]
fn chosen_words_come_first_when_merging() {
    let descriptions = vec!["Coffee beans".to_string(), "Taxi home".to_string(), "coffee".to_string()];
    let categories = vec![ledgerbot::report::CategoryFilters {
        name: "Transport".to_string(),
        patterns: vec!["(?i)taxi".to_string()],
    }];
    let merged = ledgerbot::suggestions::extract_and_merge_words(
        &descriptions,
        &categories,
        Some(vec!["zebra".to_string(), "coffee".to_string()]),
    );
    assert_eq!(merged, vec!["zebra".to_string(), "coffee".to_string(), "beans".to_string()]);
    let fresh = ledgerbot::suggestions::extract_and_merge_words(&descriptions, &categories, None);
    assert_eq!(fresh, vec!["beans".to_string(), "coffee".to_string()]);
}

#[test]
fn words_against_compiled_categories() {
    let compiled = ledgerbot::report::compile_categories(&food(&["(?i)lunch", "("]));
    let words = ledgerbot::suggestions::extract_compiled_words(
        &descriptions(&["Lunch at work", "Taxi, home!", "a b"]),
        &compiled,
    );
    assert_eq!(words, vec!["home".to_string(), "taxi".to_string()]);
}
