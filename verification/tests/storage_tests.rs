use ledgerbot::category::Category;
use ledgerbot::category_store::{
    format_categories_to_string, parse_categories_from_string, CategoryData, CategoryStorage,
};
use ledgerbot::report::CategoryFilters;
use ledgerbot::user_lists::{
    FollowersStorage, FollowersStorageReadTrait, FollowersStorageTrait, ShareStorage,
    ShareStorageReadTrait, ShareStorageTrait,
};
use ledgerbot::username::{ShareUsername, TelegramUsername};

fn named(n: &str) -> Category {
    Category::Category(n.to_string())
}

fn filters_of(store: &CategoryStorage, name: &str) -> Option<Vec<String>> {
    let cats = store.get_categories().unwrap();
    cats.into_iter().find(|c| c.name == name).map(|c| c.patterns)
}

#[test]
fn test_add_and_get_shares() {
    let mut storage = ShareStorage::new(Vec::new());
    let user1 = ShareUsername::from_string("@alice").unwrap();
    let user2 = ShareUsername::from_string("@bobby").unwrap();
    storage.add_share(&user1).unwrap();
    let shares = storage.get_shares().unwrap();
    assert_eq!(shares.len(), 1);
    assert_eq!(shares[0].as_str(), "@alice");
    storage.add_share(&user2).unwrap();
    let shares = storage.get_shares().unwrap();
    assert_eq!(shares.len(), 2);
}

#[test]
fn test_add_duplicate_share() {
    let mut storage = ShareStorage::new(Vec::new());
    let user1 = ShareUsername::from_string("@alice").unwrap();
    storage.add_share(&user1).unwrap();
    let result = storage.add_share(&user1);
    assert!(result.is_err());
    assert_eq!(
        result.unwrap_err().as_str(),
        "ℹ️ Username `@alice` is already in the share list\\."
    );
}

#[test]
fn test_remove_share() {
    let mut storage = ShareStorage::new(Vec::new());
    let user1 = ShareUsername::from_string("@alice").unwrap();
    storage.add_share(&user1).unwrap();
    storage.remove_share(&user1).unwrap();
    let shares = storage.get_shares().unwrap();
    assert_eq!(shares.len(), 0);
}

#[test]
fn test_remove_nonexistent_share() {
    let mut storage = ShareStorage::new(Vec::new());
    let user1 = ShareUsername::from_string("@alice").unwrap();
    let result = storage.remove_share(&user1);
    assert!(result.is_err());
    assert_eq!(result.unwrap_err().as_str(), "❌ Username `@alice` is not in the share list\\.");
}

#[test]
fn shares_skip_invalid_stored_entries_and_replace() {
    let mut storage =
        ShareStorage::new(vec!["@alice".to_string(), "bad".to_string(), "@carol_1".to_string()]);
    let shares = storage.get_shares().unwrap();
    assert_eq!(shares.len(), 2);
    assert_eq!(shares[1].as_str(), "@carol_1");
    storage.replace_shares(vec![ShareUsername::from_string("@zelda").unwrap()]).unwrap();
    assert_eq!(storage.stored(), vec!["@zelda".to_string()]);
}

#[test]
fn test_add_and_get_followers() {
    let mut storage = FollowersStorage::new(Vec::new());
    let user1 = TelegramUsername::from_string("@alice").unwrap();
    let user2 = TelegramUsername::from_string("@bobby").unwrap();
    storage.add_follower(&user1).unwrap();
    let followers = storage.get_followers().unwrap();
    assert_eq!(followers.len(), 1);
    assert_eq!(followers[0].as_str(), "@alice");
    storage.add_follower(&user2).unwrap();
    assert_eq!(storage.get_followers().unwrap().len(), 2);
}

#[test]
fn test_add_duplicate_follower() {
    let mut storage = FollowersStorage::new(Vec::new());
    let user1 = TelegramUsername::from_string("@alice").unwrap();
    storage.add_follower(&user1).unwrap();
    assert!(storage.add_follower(&user1).is_err());
}

#[test]
fn test_remove_follower() {
    let mut storage = FollowersStorage::new(Vec::new());
    let user1 = TelegramUsername::from_string("@alice").unwrap();
    storage.add_follower(&user1).unwrap();
    storage.remove_follower(&user1).unwrap();
    assert_eq!(storage.get_followers().unwrap().len(), 0);
}

#[test]
fn test_remove_nonexistent_follower() {
    let mut storage = FollowersStorage::new(Vec::new());
    let user1 = TelegramUsername::from_string("@alice").unwrap();
    let result = storage.remove_follower(&user1);
    assert_eq!(
        result.unwrap_err().as_str(),
        "❌ Username `@alice` is not in the follower list\\."
    );
}

#[test]
fn test_category_data_yaml_serialization() {
    let filters: CategoryData = vec!["restaurant".to_string(), "grocery".to_string()];
    let yaml_str = serde_yaml::to_string(&filters).expect("Failed to serialize to YAML");
    assert!(yaml_str.contains("- restaurant"));
    assert!(yaml_str.contains("- grocery"));
    let deserialized: CategoryData =
        serde_yaml::from_str(&yaml_str).expect("Failed to deserialize from YAML");
    assert_eq!(deserialized, filters);
}

#[test]
fn test_category_data_empty() {
    let category_data: CategoryData = Vec::new();
    let yaml_str = serde_yaml::to_string(&category_data).expect("Failed to serialize empty data");
    assert!(yaml_str.contains("[]"));
    let deserialized: CategoryData =
        serde_yaml::from_str(&yaml_str).expect("Failed to deserialize empty data");
    assert!(deserialized.is_empty());
}

#[test]
fn categories_add_filter_remove_rename() {
    let mut store = CategoryStorage::new();
    store.add_category(&named("Food")).unwrap();
    assert_eq!(filters_of(&store, "Food"), Some(vec![]));
    assert_eq!(
        store.add_category(&named("Food")).unwrap_err().as_str(),
        "ℹ️ Category `Food` already exists\\. Use /add\\_filter to add more patterns or /categories to view all\\."
    );
    assert_eq!(
        store.add_category(&Category::Other).unwrap_err().as_str(),
        "❌ Cannot add category `<other\\>`\\. This is a special category\\. Only named categories can be stored\\."
    );
    store.add_category_filter(&named("Food"), "(?i)lunch".to_string()).unwrap();
    store.add_category_filter(&named("Food"), "tea".to_string()).unwrap();
    assert_eq!(
        filters_of(&store, "Food"),
        Some(vec!["(?i)lunch".to_string(), "tea".to_string()])
    );
    assert_eq!(
        store.add_category_filter(&named("Food"), "tea".to_string()).unwrap_err().as_str(),
        "Filter `tea` already exists in category `Food`"
    );
    assert_eq!(
        store.add_category_filter(&named("Cars"), "x".to_string()).unwrap_err().as_str(),
        "Category Cars not exists"
    );
    store.remove_category_filter(&named("Food"), "tea").unwrap();
    assert_eq!(filters_of(&store, "Food"), Some(vec!["(?i)lunch".to_string()]));
    assert_eq!(
        store.remove_category_filter(&named("Food"), "tea").unwrap_err().as_str(),
        "Filter `tea` does not exist in category `Food`"
    );
    store.add_category(&named("Fun")).unwrap();
    assert_eq!(
        store.rename_category(&named("Food"), &named("Fun")).unwrap_err().as_str(),
        "Category Fun already exists"
    );
    store.rename_category(&named("Food"), &named("Meals")).unwrap();
    assert_eq!(filters_of(&store, "Food"), None);
    assert_eq!(filters_of(&store, "Meals"), Some(vec!["(?i)lunch".to_string()]));
    store.remove_category(&named("Fun")).unwrap();
    assert_eq!(store.get_categories().unwrap().len(), 1);
    assert_eq!(
        store.remove_category(&named("Fun")).unwrap_err().as_str(),
        "Category Fun not exists"
    );
    assert_eq!(
        store.remove_category(&Category::Summary).unwrap_err().as_str(),
        "❌ Cannot remove category `<none\\>`\\. Only named categories can be stored\\."
    );
}

#[test]
fn categories_replace_last_wins() {
    let mut store = CategoryStorage::new();
    store.add_category(&named("Old")).unwrap();
    store
        .replace_categories(vec![
            CategoryFilters { name: "A".to_string(), patterns: vec!["a".to_string()] },
            CategoryFilters { name: "B".to_string(), patterns: vec![] },
            CategoryFilters { name: "A".to_string(), patterns: vec!["z".to_string()] },
        ])
        .unwrap();
    assert_eq!(filters_of(&store, "Old"), None);
    assert_eq!(filters_of(&store, "A"), Some(vec!["z".to_string()]));
    assert_eq!(filters_of(&store, "B"), Some(vec![]));
}

fn entry(name: &str, patterns: &[&str]) -> CategoryFilters {
    CategoryFilters {
        name: name.to_string(),
        patterns: patterns.iter().map(|p| p.to_string()).collect(),
    }
}

#[test]
fn categories_file_format() {
    let text = format_categories_to_string(&vec![
        entry("Food", &["(?i)lunch", "pizza"]),
        entry("Empty", &[]),
    ]);
    assert_eq!(text, "[Food]\n(?i)lunch\npizza\n\n[Empty]\n\n");
}

#[test]
fn categories_file_roundtrip() {
    let es = vec![entry("Food", &["(?i)lunch", "pizza"]), entry("Fun", &["movie"]), entry("Empty", &[])];
    let back = parse_categories_from_string(&format_categories_to_string(&es));
    assert_eq!(back.len(), 3);
    for e in &es {
        let found = back.iter().find(|b| b.name == e.name).unwrap();
        assert_eq!(found.patterns, e.patterns);
    }
}

#[test]
fn categories_file_parse_details() {
    let back = parse_categories_from_string(
        "orphan\r\n  [A]  \r\n  a1  \r\n\r\n[B]\nb1\n[A]\na2",
    );
    assert_eq!(back.len(), 2);
    assert_eq!(back[0].name, "A");
    assert_eq!(back[0].patterns, vec!["a1".to_string(), "a2".to_string()]);
    assert_eq!(back[1].name, "B");
    assert_eq!(back[1].patterns, vec!["b1".to_string()]);
}

#[test]
fn categories_file_header_shaped_filter() {
    let text = format_categories_to_string(&vec![entry("Digits", &["[0-9]"])]);
    let back = parse_categories_from_string(&text);
    assert_eq!(back.len(), 2);
    assert_eq!(back[0].name, "Digits");
    assert!(back[0].patterns.is_empty());
    assert_eq!(back[1].name, "0-9");
}

#[test]
fn removing_a_new_category_restores_the_store() {
    let mut store = CategoryStorage::new();
    store.add_category(&named("Food")).unwrap();
    store.add_category_filter(&named("Food"), "(?i)tea".to_string()).unwrap();
    let before = store.get_categories().unwrap().len();
    store.add_category(&named("Fun")).unwrap();
    assert_eq!(filters_of(&store, "Fun"), Some(vec![]));
    store.remove_category(&named("Fun")).unwrap();
    assert_eq!(store.get_categories().unwrap().len(), before);
    assert_eq!(filters_of(&store, "Fun"), None);
    assert_eq!(filters_of(&store, "Food"), Some(vec!["(?i)tea".to_string()]));
}
