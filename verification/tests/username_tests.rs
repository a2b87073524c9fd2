use ledgerbot::username::{ShareUsername, TelegramUsername};

#[test]
fn share_username_test_valid_username() {
    let username = ShareUsername::from_string("@user123").unwrap();
    assert_eq!(username.as_str(), "@user123");

    let username2 = ShareUsername::from_string("@Alice_Bot").unwrap();
    assert_eq!(username2.as_str(), "@Alice_Bot");
}

#[test]
fn share_username_test_missing_at_sign() {
    let result = ShareUsername::from_string("user123");
    assert!(result.is_err());
    assert!(result.unwrap_err().contains("must start with '@'"));
}

#[test]
fn share_username_test_too_short() {
    let result = ShareUsername::from_string("@abc");
    assert!(result.is_err());
    assert!(result.unwrap_err().contains("too short"));
}

#[test]
fn share_username_test_too_long() {
    let result = ShareUsername::from_string("@abcdefghijklmnopqrstuvwxyz1234567");
    assert!(result.is_err());
    assert!(result.unwrap_err().contains("too long"));
}

#[test]
fn share_username_test_invalid_characters() {
    assert!(ShareUsername::from_string("@user-name").is_err());
    assert!(ShareUsername::from_string("@user.name").is_err());
    assert!(ShareUsername::from_string("@user@name").is_err());
    assert!(ShareUsername::from_string("@user name").is_err());
}

#[test]
fn share_username_test_valid_edge_cases() {
    assert!(ShareUsername::from_string("@abcde").is_ok());
    assert!(ShareUsername::from_string("@abcdefghijklmnopqrstuvwxyz123456").is_ok());
    assert!(ShareUsername::from_string("@Test_User_123").is_ok());
}

#[test]
fn share_username_test_fromstr_trait() {
    let username: ShareUsername = "@user123".parse().unwrap();
    assert_eq!(username.as_str(), "@user123");

    let result: Result<ShareUsername, _> = "invalid".parse();
    assert!(result.is_err());
}

#[test]
fn share_username_test_display() {
    let username = ShareUsername::from_string("@user123").unwrap();
    assert_eq!(username.to_string(), "@user123");
}

#[test]
fn share_username_test_ordering() {
    let user1 = ShareUsername::from_string("@alice").unwrap();
    let user2 = ShareUsername::from_string("@bobby").unwrap();
    assert!(user1 < user2);
}

#[test]
fn telegram_username_test_valid_username() {
    let username = TelegramUsername::from_string("@user123").unwrap();
    assert_eq!(username.as_str(), "@user123");

    let username2 = TelegramUsername::from_string("@Alice_Bot").unwrap();
    assert_eq!(username2.as_str(), "@Alice_Bot");
}

#[test]
fn telegram_username_test_missing_at_sign() {
    let result = TelegramUsername::from_string("user123");
    assert!(result.is_err());
    let err = result.unwrap_err();
    assert!(err.to_string().contains("must start"));
}

#[test]
fn telegram_username_test_too_short() {
    let result = TelegramUsername::from_string("@abc");
    assert!(result.is_err());
    let err = result.unwrap_err();
    assert!(err.to_string().contains("too short"));
}

#[test]
fn telegram_username_test_too_long() {
    let result = TelegramUsername::from_string("@abcdefghijklmnopqrstuvwxyz1234567");
    assert!(result.is_err());
    let err = result.unwrap_err();
    assert!(err.to_string().contains("too long"));
}

#[test]
fn telegram_username_test_invalid_characters() {
    assert!(TelegramUsername::from_string("@user-name").is_err());
    assert!(TelegramUsername::from_string("@user.name").is_err());
    assert!(TelegramUsername::from_string("@user@name").is_err());
    assert!(TelegramUsername::from_string("@user name").is_err());
}

#[test]
fn telegram_username_test_valid_edge_cases() {
    assert!(TelegramUsername::from_string("@abcde").is_ok());
    assert!(TelegramUsername::from_string("@abcdefghijklmnopqrstuvwxyz123456").is_ok());
    assert!(TelegramUsername::from_string("@Test_User_123").is_ok());
}

#[test]
fn telegram_username_test_fromstr_trait() {
    let username: TelegramUsername = "@user123".parse().unwrap();
    assert_eq!(username.as_str(), "@user123");

    let result: Result<TelegramUsername, _> = "invalid".parse();
    assert!(result.is_err());
}

#[test]
fn telegram_username_test_display() {
    let username = TelegramUsername::from_string("@user123").unwrap();
    assert_eq!(username.to_string(), "@user123");
}

#[test]
fn telegram_username_test_ordering() {
    let user1 = TelegramUsername::from_string("@alice").unwrap();
    let user2 = TelegramUsername::from_string("@bobby").unwrap();
    assert!(user1 < user2);
}

#[test]
fn username_exact_messages() {
    assert_eq!(
        ShareUsername::from_string("@user-name").unwrap_err(),
        "Username '@user-name' contains invalid character '-'. Only letters, digits, and underscores are allowed."
    );
    assert_eq!(
        TelegramUsername::from_string("user.1").unwrap_err().to_string(),
        "Username `user\\.1` must start with `@`\\. Example: @username"
    );
    assert_eq!(
        TelegramUsername::from_string("@user-name").unwrap_err().to_string(),
        "Username `@user\\-name` contains invalid character `\\-`\\. Only letters, digits, and underscores are allowed\\."
    );
    // the length is counted in bytes: three two-byte letters pass the length check
    assert!(ShareUsername::from_string("@ééé").unwrap_err().contains("invalid character 'é'"));
    assert_eq!(ShareUsername::default().as_str(), "@_____");
    assert_eq!(TelegramUsername::default().as_str(), "@_____");
}

#[test]
fn default_usernames_pass_the_checks() {
    let t = TelegramUsername::default();
    assert!(TelegramUsername::from_string(t.as_str()).is_ok());
    let s = ShareUsername::default();
    assert!(ShareUsername::from_string(s.as_str()).is_ok());
    assert!("@valid_name".parse::<TelegramUsername>().is_ok());
    assert!("nope".parse::<ShareUsername>().is_err());
}
