use ledgerbot::category::Category;

#[test]
fn category_test_from_string_valid() {
    let cat = Category::from_string("Food").unwrap();
    assert_eq!(cat, Category::Category("Food".to_string()));

    let cat2 = Category::from_string("Transport").unwrap();
    assert_eq!(cat2, Category::Category("Transport".to_string()));
}

#[test]
fn test_from_string_none() {
    let cat = Category::from_string("<none>").unwrap();
    assert_eq!(cat, Category::Summary);
}

#[test]
fn test_from_string_other() {
    let cat = Category::from_string("<other>").unwrap();
    assert_eq!(cat, Category::Other);
}

#[test]
fn test_from_string_invalid_spaces() {
    assert!(Category::from_string("Food and Drinks").is_err());
    assert!(Category::from_string("My Category").is_err());
}

#[test]
fn test_from_string_invalid_special_chars() {
    assert!(Category::from_string("Food*").is_err());
    assert!(Category::from_string("Food_").is_err());
    assert!(Category::from_string("Food[1]").is_err());
    assert!(Category::from_string("Food.2").is_err());
}

#[test]
fn test_from_string_empty() {
    assert!(Category::from_string("").is_err());
}

#[test]
fn category_test_display() {
    let cat = Category::Category("Food".to_string());
    assert_eq!(cat.to_string(), "Food");

    let none = Category::Summary;
    assert_eq!(none.to_string(), "<none>");

    let other = Category::Other;
    assert_eq!(other.to_string(), "<other>");
}

#[test]
fn test_as_str() {
    let cat = Category::Category("Food".to_string());
    assert_eq!(cat.as_str(), "Food");

    let none = Category::Summary;
    assert_eq!(none.as_str(), "<none>");

    let other = Category::Other;
    assert_eq!(other.as_str(), "<other>");
}

#[test]
fn test_is_none() {
    let cat = Category::Category("Food".to_string());
    assert!(!cat.is_none());

    let none = Category::Summary;
    assert!(none.is_none());

    let other = Category::Other;
    assert!(!other.is_none());
}

#[test]
fn test_is_other() {
    let cat = Category::Category("Food".to_string());
    assert!(!cat.is_other());

    let none = Category::Summary;
    assert!(!none.is_other());

    let other = Category::Other;
    assert!(other.is_other());
}

#[test]
fn category_test_fromstr_trait() {
    let cat: Category = "Food".parse().unwrap();
    assert_eq!(cat, Category::Category("Food".to_string()));

    let none: Category = "<none>".parse().unwrap();
    assert_eq!(none, Category::Summary);

    let other: Category = "<other>".parse().unwrap();
    assert_eq!(other, Category::Other);
}

#[test]
fn test_default() {
    let cat = Category::default();
    assert_eq!(cat, Category::Other);
}

#[test]
fn category_test_ordering() {
    let cat1 = Category::Category("A".to_string());
    let cat2 = Category::Category("B".to_string());
    let none = Category::Summary;
    let other = Category::Other;

    assert!(cat1 < cat2);
    assert!(cat1 < none);
    assert!(none < other);
    assert!(other > cat1);
}

#[test]
fn category_error_messages() {
    assert_eq!(Category::from_string("").unwrap_err(), "Category name cannot be empty");
    assert_eq!(
        Category::from_string("My Category").unwrap_err(),
        "Category name 'My Category' cannot contain spaces. Use a single word."
    );
    // the first forbidden character in the checking order is reported
    assert_eq!(
        Category::from_string("a.b*").unwrap_err(),
        "Category name 'a.b*' cannot contain special character '*'"
    );
    assert!(Category::from_string("a\u{3000}b").is_err());
    let err: Result<Category, _> = "x!".parse();
    assert_eq!(
        err.unwrap_err().to_string(),
        "Category name 'x!' cannot contain special character '!'"
    );
}

#[test]
fn category_text_roundtrip() {
    for s in ["Food", "<none>", "<other>", "Éclair"] {
        let c = Category::from_string(s).unwrap();
        assert_eq!(Category::from_string(c.as_str()).unwrap(), c);
    }
}
