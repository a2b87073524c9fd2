use ledgerbot::batch::batch_items;
use ledgerbot::command::{Command, CommandParseError};
use ledgerbot::expense_line::ParsedExpense;
use ledgerbot::message::{parse_expenses, try_parse_expenses};

fn amount(e: &ParsedExpense) -> f64 {
    e.amount.parse::<f64>().unwrap()
}

fn triple(e: &ParsedExpense) -> (String, f64, i64) {
    (e.description.clone(), amount(e), e.timestamp)
}

#[test]
fn test_parse_expenses_with_date() {
    let text = "2024-10-05 Coffee 5.50\n2024-10-06 Lunch 12.00";
    let timestamp = 1609459200;
    let (expenses, commands, _) = parse_expenses(text, None, timestamp);

    assert_eq!(expenses.len(), 2);
    assert_eq!(expenses[0].description, "Coffee".to_string());
    assert_eq!(amount(&expenses[0]), 5.50);
    assert_ne!(expenses[0].timestamp, timestamp);
    assert_eq!(expenses[1].description, "Lunch".to_string());
    assert_eq!(amount(&expenses[1]), 12.00);
    assert_eq!(commands.len(), 0);
}

#[test]
fn test_parse_expenses_with_different_date_formats() {
    let text = "2024-10-05 Coffee 5.50\n2024-10-06 Tea 3.00";
    let timestamp = 1609459200;
    let (expenses, commands, _) = parse_expenses(text, None, timestamp);

    assert_eq!(expenses.len(), 2);
    assert_eq!(expenses[0].description, "Coffee".to_string());
    assert_eq!(expenses[1].description, "Tea".to_string());
    for expense in &expenses {
        assert_ne!(expense.timestamp, timestamp);
    }
    assert_eq!(commands.len(), 0);
}

#[test]
fn test_parse_expenses_without_date() {
    let text = "Coffee 5.50\nLunch 12.00";
    let timestamp = 1609459200;
    let (expenses, commands, _) = parse_expenses(text, None, timestamp);

    assert_eq!(expenses.len(), 2);
    assert_eq!(triple(&expenses[0]), ("Coffee".to_string(), 5.50, timestamp));
    assert_eq!(triple(&expenses[1]), ("Lunch".to_string(), 12.00, timestamp));
    assert_eq!(commands.len(), 0);
}

#[test]
fn test_parse_expenses_mixed_with_and_without_date() {
    let text = "2024-10-05 Coffee 5.50\nLunch 12.00\n2024-10-06 Dinner 15.00";
    let timestamp = 1609459200;
    let (expenses, commands, _) = parse_expenses(text, None, timestamp);

    assert_eq!(expenses.len(), 3);
    assert_eq!(expenses[0].description, "Coffee".to_string());
    assert_ne!(expenses[0].timestamp, timestamp);
    assert_eq!(expenses[1].description, "Lunch".to_string());
    assert_eq!(expenses[1].timestamp, timestamp);
    assert_eq!(expenses[2].description, "Dinner".to_string());
    assert_ne!(expenses[2].timestamp, timestamp);
    assert_eq!(commands.len(), 0);
}

#[test]
fn test_parse_expenses_with_bot_name() {
    let text = "@testbot Coffee 5.50\ntestbot Lunch 12.00\nBus ticket 2.75";
    let timestamp = 1609459200;
    let (expenses, commands, _) = parse_expenses(text, Some("testbot"), timestamp);

    assert_eq!(expenses.len(), 3);
    assert_eq!(triple(&expenses[0]), ("Coffee".to_string(), 5.50, timestamp));
    assert_eq!(triple(&expenses[1]), ("Lunch".to_string(), 12.00, timestamp));
    assert_eq!(triple(&expenses[2]), ("Bus ticket".to_string(), 2.75, timestamp));
    assert_eq!(commands.len(), 0);
}

#[test]
fn test_parse_expenses_with_commands() {
    let text = "/help\nCoffee 5.50\n/report\nLunch 12.00";
    let timestamp = 1609459200;
    let (expenses, commands, _) = parse_expenses(text, None, timestamp);

    assert_eq!(expenses.len(), 2);
    assert_eq!(triple(&expenses[0]), ("Coffee".to_string(), 5.50, timestamp));
    assert_eq!(triple(&expenses[1]), ("Lunch".to_string(), 12.00, timestamp));
    assert_eq!(commands.len(), 2);
    assert_eq!(commands[0], Command::Help);
    assert_eq!(commands[1], Command::Report);
}

#[test]
fn test_parse_expenses_mixed() {
    let text = "@mybot Coffee 5.50\n/help\nmybot Lunch 12.00\nBus ticket 2.75\n/report";
    let timestamp = 1609459200;
    let (expenses, commands, _) = parse_expenses(text, Some("mybot"), timestamp);

    assert_eq!(expenses.len(), 3);
    assert_eq!(triple(&expenses[0]), ("Coffee".to_string(), 5.50, timestamp));
    assert_eq!(triple(&expenses[1]), ("Lunch".to_string(), 12.00, timestamp));
    assert_eq!(triple(&expenses[2]), ("Bus ticket".to_string(), 2.75, timestamp));
    assert_eq!(commands.len(), 2);
    assert_eq!(commands[0], Command::Help);
    assert_eq!(commands[1], Command::Report);
}

#[test]
fn test_parse_expenses_case_insensitive_bot_name() {
    let text = "@TESTBOT Coffee 5.50\nTestBot Lunch 12.00";
    let timestamp = 1609459200;
    let (expenses, commands, _) = parse_expenses(text, Some("testbot"), timestamp);

    assert_eq!(expenses.len(), 2);
    assert_eq!(triple(&expenses[0]), ("Coffee".to_string(), 5.50, timestamp));
    assert_eq!(triple(&expenses[1]), ("Lunch".to_string(), 12.00, timestamp));
    assert_eq!(commands.len(), 0);
}

#[test]
fn test_parse_commands_with_bot_name() {
    let text = "@mybot /help\nmybot /report\n/clear";
    let timestamp = 1609459200;
    let (expenses, commands, _) = parse_expenses(text, Some("mybot"), timestamp);

    assert_eq!(expenses.len(), 0);
    assert_eq!(commands.len(), 3);
    assert_eq!(commands[0], Command::Help);
    assert_eq!(commands[1], Command::Report);
    assert_eq!(commands[2], Command::Clear);
}

#[test]
fn test_parse_commands_from_keyboard_buttons() {
    let text = "📋 /report";
    let timestamp = 1609459200;
    let (expenses, commands, _) = parse_expenses(text, None, timestamp);

    assert_eq!(expenses.len(), 0);
    assert_eq!(commands.len(), 1);
    assert_eq!(commands[0], Command::Report);

    let text2 = "🗑️ /clear";
    let (expenses2, commands2, _) = parse_expenses(text2, None, timestamp);

    assert_eq!(expenses2.len(), 0);
    assert_eq!(commands2.len(), 1);
    assert_eq!(commands2[0], Command::Clear);

    let text3 = "📂 /categories";
    let (expenses3, commands3, _) = parse_expenses(text3, None, timestamp);

    assert_eq!(expenses3.len(), 0);
    assert_eq!(commands3.len(), 1);
    assert_eq!(commands3[0], Command::Categories);
}

#[test]
fn test_parse_commands_with_missing_parameters() {
    let text = "\
        /add_category\n\
        /add_filter\n\
        /remove_category\n\
        /remove_filter\n\
        /add_category Food\n\
        Coffee 5.50\n\
    ";
    let timestamp = 1609459200;
    let (expenses, commands, _) = parse_expenses(text, None, timestamp);

    assert_eq!(expenses.len(), 1);
    assert_eq!(triple(&expenses[0]), ("Coffee".to_string(), 5.50, timestamp));

    assert_eq!(commands.len(), 5);
    assert_eq!(commands[0], Command::AddCategory { name: None });
    assert_eq!(commands[1], Command::AddFilter { category: None, pattern: None });
    assert_eq!(commands[2], Command::RemoveCategory { name: None });
    assert_eq!(commands[3], Command::RemoveFilter { category: None, position: None });
    assert_eq!(commands[4], Command::AddCategory { name: Some("Food".to_string()) });
}

#[test]
fn commands_with_arguments_parse() {
    let text = "/add_category Food\n/add_filter Food (?i)lunch\n/remove_category Transport\n\
                /remove_filter Food 2\n/edit_filter Food 1 (?i)tea\n/start\n/list";
    let (expenses, commands, errors) = parse_expenses(text, None, 0);
    assert!(expenses.is_empty());
    assert!(errors.is_empty());
    assert_eq!(
        commands,
        vec![
            Command::AddCategory { name: Some("Food".to_string()) },
            Command::AddFilter {
                category: Some("Food".to_string()),
                pattern: Some("(?i)lunch".to_string())
            },
            Command::RemoveCategory { name: Some("Transport".to_string()) },
            Command::RemoveFilter { category: Some("Food".to_string()), position: Some(2) },
            Command::EditFilter {
                category: Some("Food".to_string()),
                position: Some(1),
                pattern: Some("(?i)tea".to_string())
            },
            Command::Start,
            Command::List,
        ]
    );
}

#[test]
fn bad_position_is_reported() {
    let (_, commands, errors) = parse_expenses("/remove_filter Food (?i)coffee", None, 0);
    assert!(commands.is_empty());
    assert_eq!(
        errors,
        vec![CommandParseError::IncorrectFormat(
            "Position must be a number, got '(?i)coffee'".to_string()
        )]
    );
    assert_eq!(errors[0].to_string(), "Position must be a number, got '(?i)coffee'");
}

#[test]
fn unknown_command_and_wrong_bot_name() {
    let (_, commands, errors) = parse_expenses("/frobnicate\n/help@otherbot\n/help@MyBot", Some("mybot"), 0);
    assert_eq!(commands, vec![Command::Help]);
    assert_eq!(
        errors,
        vec![
            CommandParseError::UnknownCommand("/frobnicate".to_string()),
            CommandParseError::WrongBotName("otherbot".to_string()),
        ]
    );
    assert_eq!(errors[0].to_string(), "Unknown command: /frobnicate");
    assert_eq!(errors[1].to_string(), "Wrong bot name: otherbot");
}

#[test]
fn command_parse_direct() {
    assert_eq!(Command::parse("/help extra words", ""), Ok(Command::Help));
    assert_eq!(
        Command::parse("/add_filter Food  two spaces\nsecond line", ""),
        Ok(Command::AddFilter {
            category: Some("Food".to_string()),
            pattern: Some(" two spaces".to_string())
        })
    );
    assert_eq!(
        Command::parse("/edit_filter Food x", ""),
        Err(CommandParseError::IncorrectFormat("Position must be a number, got 'x'".to_string()))
    );
    assert_eq!(
        Command::parse("/edit_filter Food", ""),
        Ok(Command::EditFilter { category: Some("Food".to_string()), position: None, pattern: None })
    );
    assert_eq!(
        Command::parse("/expense 2024-10-05 Coffee 5.50", ""),
        Ok(Command::Expense {
            date: Some("2024-10-05".to_string()),
            description: Some("Coffee".to_string()),
            amount: Some("5.50".to_string())
        })
    );
    assert_eq!(
        Command::parse("/expense Tea 3", ""),
        Ok(Command::Expense {
            date: None,
            description: Some("Tea".to_string()),
            amount: Some("3".to_string())
        })
    );
}

#[test]
fn command_to_string() {
    assert_eq!(Command::Start.to_string(), "/start");
    assert_eq!(Command::ClearCategories.to_string(), "/clear_categories");
    assert_eq!(Command::AddCategory { name: None }.to_string(), "/add_category <name>");
    assert_eq!(
        Command::AddFilter { category: Some("Food".to_string()), pattern: None }.to_string(),
        "/add_filter Food <pattern>"
    );
    assert_eq!(
        Command::RemoveFilter { category: None, position: Some(3) }.to_string(),
        "/remove_filter <category> 3"
    );
    assert_eq!(
        Command::EditFilter { category: Some("Food".to_string()), position: None, pattern: Some("x".to_string()) }
            .to_string(),
        "/edit_filter Food <position> x"
    );
    assert_eq!(
        Command::Expense { date: None, description: None, amount: None }.to_string(),
        "/expense <date> <description> <amount>"
    );
}

#[test]
fn expense_line_grammar_edges() {
    // the last word must be an amount
    let (e, _, _) = parse_expenses("Coffee five", None, 7);
    assert!(e.is_empty());
    // a single word is no expense
    let (e, _, _) = parse_expenses("12.5", None, 7);
    assert!(e.is_empty());
    // fractions need digits on both sides
    let (e, _, _) = parse_expenses("Coffee 5.\nTea .5\nJuice 1.2.3", None, 7);
    assert!(e.is_empty());
    // a non-existent date keeps the message time
    let (e, _, _) = parse_expenses("2024-13-45 Coffee 5", None, 7);
    assert_eq!(triple(&e[0]), ("Coffee".to_string(), 5.0, 7));
    // the description keeps its inner spaces
    let (e, _, _) = parse_expenses("  Bus   ticket  2.75  ", None, 7);
    assert_eq!(triple(&e[0]), ("Bus   ticket".to_string(), 2.75, 7));
    // a date followed only by an amount and three spaces gives an empty description
    let (e, _, _) = parse_expenses("2024-10-05   5", None, 7);
    assert_eq!(e[0].description, "");
    assert_eq!(e[0].timestamp, 1728086400);
    // a date with a single space before the amount is no dated line; it is a plain one
    let (e, _, _) = parse_expenses("2024-10-05 5", None, 7);
    assert_eq!(triple(&e[0]), ("2024-10-05".to_string(), 5.0, 7));
}

#[test]
fn checked_parse_agrees() {
    let r = try_parse_expenses("@bot Coffee 5", Some("bot"), 3).unwrap();
    assert_eq!(r.0.len(), 1);
    assert_eq!(r.0[0].description, "Coffee");
}

#[test]
fn timestamp_of_date_reads_calendar_dates() {
    assert_eq!(ledgerbot::expense_line::timestamp_of_date("2021-01-02"), Some(1609545600));
    assert_eq!(ledgerbot::expense_line::timestamp_of_date("1970-01-01"), Some(0));
    assert_eq!(ledgerbot::expense_line::timestamp_of_date("2021-02-30"), None);
    assert_eq!(ledgerbot::expense_line::timestamp_of_date("yesterday"), None);
}

#[test]
fn non_ascii_digits_follow_the_line_grammar() {
    let ts = 1609459200;
    let (expenses, commands, errors) = parse_expenses("Tea ٣\nTea ٣ 5", None, ts);
    assert!(commands.is_empty() && errors.is_empty());
    assert_eq!(expenses.len(), 1);
    assert_eq!(triple(&expenses[0]), ("Tea ٣".to_string(), 5.0, ts));
    let (dated, _, _) = parse_expenses("٢٠٢٤-١٠-٠٥ Tea 5", None, ts);
    assert_eq!(dated.len(), 1);
    assert_eq!(triple(&dated[0]), ("Tea".to_string(), 5.0, ts));
}

#[test]
fn a_command_text_reads_back_alone() {
    let cmds = vec![
        Command::Report,
        Command::AddCategory { name: Some("Food".to_string()) },
        Command::AddFilter { category: Some("Food".to_string()), pattern: Some("(?i)lunch box".to_string()) },
        Command::RemoveFilter { category: Some("Food".to_string()), position: Some(12) },
        Command::EditFilter { category: Some("Food".to_string()), position: Some(0), pattern: Some("tea".to_string()) },
    ];
    for c in cmds {
        let (expenses, commands, errors) = parse_expenses(&c.to_string(), None, 42);
        assert!(expenses.is_empty() && errors.is_empty());
        assert_eq!(commands, vec![c]);
    }
}

#[test]
fn batch_items_keep_the_message_order_of_kinds() {
    let ts = 1609459200;
    let (e, c, r) = parse_expenses("2021-01-02 Tea 3\nCoffee 5\n/list\n/nosuch", None, ts);
    let items = batch_items(e, c, r, ts);
    assert_eq!(items.len(), 4);
    assert_eq!(
        items[0],
        Ok(Command::Expense { date: Some("2021-01-02".to_string()), description: Some("Tea".to_string()), amount: Some("3".to_string()) })
    );
    assert_eq!(items[1], Ok(Command::Expense { date: None, description: Some("Coffee".to_string()), amount: Some("5".to_string()) }));
    assert_eq!(items[2], Ok(Command::List));
    assert_eq!(items[3], Err("Unknown command: /nosuch".to_string()));
}
