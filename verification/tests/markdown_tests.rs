use ledgerbot::markdown_string::{
    markdown_format, markdown_string, validate_markdownv2_format, MarkdownFormatError,
    MarkdownString,
};

fn md(s: &str) -> MarkdownString {
    MarkdownString::from(s)
}

#[test]
fn test_compile_time_validation() {
    let scan = validate_markdownv2_format("Hello *{}*").unwrap();
    assert!(scan.asterisks % 2 == 0, "Unmatched asterisks in markdown format string");
}

#[test]
fn test_markdownv2_format_patterns() {
    let valid_patterns = [
        "Simple text",
        "With *bold* text",
        "With _italic_ text",
        "With `code` text",
        "With ~strikethrough~ text",
        "With ||spoiler|| text",
        "*{}* and _{}_ and `{}`",
        "**Bold** text",
        "__Italic__ text",
        "~~Strikethrough~~ text",
        "Link: [text](url)",
        "Code block: ```code```",
        "Mixed: *bold* and `code`",
        "Escaped \\! exclamation",
        "Escaped \\. period",
        "Escaped \\- dash",
        "Escaped \\+ plus",
        "Escaped \\= equals",
        "Format placeholder: {}",
    ];
    for pattern in valid_patterns {
        let scan = validate_markdownv2_format(pattern).unwrap();
        assert!(scan.asterisks % 2 == 0, "Pattern '{}' has unmatched asterisks", pattern);
        assert!(scan.underscores % 2 == 0, "Pattern '{}' has unmatched underscores", pattern);
        assert!(scan.backticks % 2 == 0, "Pattern '{}' has unmatched backticks", pattern);
        assert!(scan.tildes % 2 == 0, "Pattern '{}' has unmatched tildes", pattern);
        assert!(scan.pipes % 2 == 0, "Pattern '{}' has unmatched pipes", pattern);
        assert!(scan.brackets == 0, "Pattern '{}' has unmatched square brackets", pattern);
        assert!(scan.parens == 0, "Pattern '{}' has unmatched parentheses", pattern);
    }
}

#[test]
fn markdown_validation_rejections() {
    assert_eq!(validate_markdownv2_format("*unmatched bold"), Err(MarkdownFormatError::UnbalancedAsterisks));
    assert_eq!(validate_markdownv2_format("Hello!"), Err(MarkdownFormatError::UnescapedReserved('!')));
    assert_eq!(validate_markdownv2_format("_unmatched italic"), Err(MarkdownFormatError::UnbalancedUnderscores));
    assert_eq!(validate_markdownv2_format("`unmatched code"), Err(MarkdownFormatError::UnbalancedBackticks));
    assert_eq!(validate_markdownv2_format("~unmatched strike"), Err(MarkdownFormatError::UnbalancedTildes));
    assert_eq!(validate_markdownv2_format("||unmatched spoiler|"), Err(MarkdownFormatError::UnbalancedPipes));
    assert_eq!(validate_markdownv2_format("[unmatched link"), Err(MarkdownFormatError::UnclosedSquareBracket));
    assert_eq!(validate_markdownv2_format("[text](unmatched url"), Err(MarkdownFormatError::UnclosedParenthesis));
    assert_eq!(validate_markdownv2_format("a] b"), Err(MarkdownFormatError::UnmatchedClosingBracket));
    assert_eq!(validate_markdownv2_format("code `a.b!` fine"), Ok(validate_markdownv2_format("code `a.b!` fine").unwrap()));
    assert_eq!(validate_markdownv2_format("{x}"), Err(MarkdownFormatError::UnescapedReserved('{')));
}

#[test]
fn test_escape_constructor() {
    let markdown = MarkdownString::escape("Hello world");
    assert_eq!(markdown.as_str(), "Hello world");

    let markdown = MarkdownString::escape("Hello! *bold* _italic_ `code`");
    assert_eq!(markdown.as_str(), "Hello\\! \\*bold\\* \\_italic\\_ \\`code\\`");

    let markdown = MarkdownString::escape("!.-+=>#{}[]()~|");
    assert_eq!(markdown.as_str(), "\\!\\.\\-\\+\\=\\>\\#\\{\\}\\[\\]\\(\\)\\~\\|");
}

#[test]
fn test_new_constructor() {
    let markdown = MarkdownString::new();
    assert_eq!(markdown.as_str(), "");
    let escaped_empty = MarkdownString::escape("");
    assert_eq!(markdown.as_str(), escaped_empty.as_str());
}

#[test]
fn test_default_constructor() {
    let markdown = MarkdownString::default();
    assert_eq!(markdown.as_str(), "");

    let new_markdown = MarkdownString::new();
    assert_eq!(markdown.as_str(), new_markdown.as_str());

    let default_markdown: MarkdownString = Default::default();
    assert_eq!(default_markdown.as_str(), "");
}

#[test]
fn test_escape_with_different_input_types() {
    let markdown = MarkdownString::escape("test");
    assert_eq!(markdown.as_str(), "test");

    let markdown = MarkdownString::escape(&"test".to_string());
    assert_eq!(markdown.as_str(), "test");

    let markdown = MarkdownString::escape(&42.to_string());
    assert_eq!(markdown.as_str(), "42");
}

#[test]
fn test_markdown_macro_basic() {
    let markdown = markdown_string("Hello *world*\\!", &[]).unwrap();
    assert_eq!(markdown.as_str(), "Hello *world*\\!");
}

#[test]
fn test_markdown_macro_with_arguments() {
    let name = "John";
    let markdown = markdown_string("Hello *{}*\\!", &[name]).unwrap();
    assert_eq!(markdown.as_str(), "Hello *John*\\!");
}

#[test]
fn test_markdown_macro_with_special_chars_in_args() {
    let text = "special! chars* here_";
    let markdown = markdown_string("Message: `{}`", &[text]).unwrap();
    assert_eq!(markdown.as_str(), "Message: `special\\! chars\\* here\\_`");
}

#[test]
fn test_markdown_macro_complex() {
    let user = "Alice";
    let amount = 100;
    let category = "food*";
    let amount_text = amount.to_string();
    let markdown = markdown_string(
        "*User:* {} \n*Amount:* {} \n*Category:* `{}`",
        &[user, &amount_text, category],
    )
    .unwrap();
    assert_eq!(
        markdown.as_str(),
        "*User:* Alice \n*Amount:* 100 \n*Category:* `food\\*`"
    );
}

#[test]
fn markdown_string_argument_count_and_braces() {
    assert_eq!(markdown_string("a {} b", &[]).unwrap_err(), MarkdownFormatError::MissingArgument);
    assert_eq!(markdown_string("a b", &["x"]).unwrap_err(), MarkdownFormatError::UnusedArgument);
    assert_eq!(markdown_string("`{{}}` {}", &["x"]).unwrap().as_str(), "`{}` x");
    assert_eq!(markdown_string("a\\! {", &[]).unwrap_err(), MarkdownFormatError::UnescapedReserved('{'));
}

#[test]
fn test_display_trait() {
    let markdown = MarkdownString::escape("Hello!");
    assert_eq!(markdown.to_string(), "Hello\\!");
}

#[test]
fn test_as_ref_trait() {
    let markdown = MarkdownString::escape("Hello!");
    let s: &str = markdown.as_str();
    assert_eq!(s, "Hello\\!");
}

#[test]
fn test_into_string() {
    let markdown = MarkdownString::escape("Hello!");
    let s: String = markdown.into_string();
    assert_eq!(s, "Hello\\!");
}

#[test]
fn test_from_trait() {
    let markdown = MarkdownString::escape("Hello!");
    let s: String = markdown.into();
    assert_eq!(s, "Hello\\!");
}

#[test]
fn test_from_string_into_markdownstring() {
    let s = "Hello *world*".to_string();
    let markdown: MarkdownString = s.into();
    assert_eq!(markdown.as_str(), "Hello \\*world\\*");
}

#[test]
fn test_from_str_into_markdownstring() {
    let s = "Hello *world*";
    let markdown: MarkdownString = s.into();
    assert_eq!(markdown.as_str(), "Hello \\*world\\*");
}

#[test]
fn test_add_operation() {
    let part1 = MarkdownString::escape("Hello ");
    let part2 = MarkdownString::escape("world!");
    let combined = part1.concat(&part2);
    assert_eq!(combined.as_str(), "Hello world\\!");

    let part1 = MarkdownString::escape("Prefix ");
    let part2 = MarkdownString::test_template("*bold*");
    let combined = part1.concat(&part2);
    assert_eq!(combined.as_str(), "Prefix *bold*");

    let part1 = MarkdownString::test_template("*Important:* ");
    let part2 = MarkdownString::escape("user input!");
    let combined = part1.concat(&part2);
    assert_eq!(combined.as_str(), "*Important:* user input\\!");

    let part1 = MarkdownString::test_template("Start ");
    let part2 = MarkdownString::test_template("End");
    let combined = part1.concat(&part2);
    assert_eq!(combined.as_str(), "Start End");

    let part1 = MarkdownString::escape("User: ");
    let part2 = MarkdownString::escape("Alice");
    let part3 = MarkdownString::test_template(" said: *");
    let part4 = MarkdownString::escape("Hello!");
    let part5 = MarkdownString::test_template("*");
    let combined = part1.concat(&part2).concat(&part3).concat(&part4).concat(&part5);
    assert_eq!(combined.as_str(), "User: Alice said: *Hello\\!*");
}

#[test]
fn test_direct_construction() {
    let markdown = MarkdownString::test_template("Hello *world* with `code`!");
    assert_eq!(markdown.as_str(), "Hello *world* with `code`!");

    let template = MarkdownString::test_template("Template with {} placeholder");
    assert_eq!(template.as_str(), "Template with {} placeholder");
}

#[test]
fn test_usage_patterns_comparison() {
    let user_input = "User typed: Hello *world*!";
    let safe_content = MarkdownString::escape(user_input);
    assert_eq!(safe_content.as_str(), "User typed: Hello \\*world\\*\\!");

    let template = MarkdownString::test_template("Message: *{}* with balance ${}");
    let formatted = markdown_format(&template, &[md("Alice"), md("50.00")]);
    assert_eq!(formatted.as_str(), "Message: *Alice* with balance $50\\.00");

    let string_content: MarkdownString = "Content with *markdown*".into();
    assert_eq!(string_content.as_str(), "Content with \\*markdown\\*");

    let direct = MarkdownString::test_template("Pre-validated *content*");
    assert_eq!(direct.as_str(), "Pre-validated *content*");

    let input = "Hello *bold* text!";
    let escaped = MarkdownString::escape(input);
    let direct = MarkdownString::test_template(input);
    assert_eq!(escaped.as_str(), "Hello \\*bold\\* text\\!");
    assert_eq!(direct.as_str(), "Hello *bold* text!");
}

#[test]
fn test_markdown_format_with_markdownstring_args() {
    let template = MarkdownString::test_template("User: {} said: {}");
    let username = MarkdownString::escape("Alice*");
    let pre_formatted = MarkdownString::test_template("*Important message*");
    let result = markdown_format(&template, &[username, pre_formatted]);
    assert_eq!(result.as_str(), "User: Alice\\* said: *Important message*");
}

#[test]
fn test_markdown_format_mixed_argument_types() {
    let template = MarkdownString::test_template("Mixed: {} and {} and {}");
    let string_arg = "Hello!";
    let markdown_arg = MarkdownString::escape("*bold*");
    let number_arg = 42;
    let result = markdown_format(
        &template,
        &[md(string_arg), markdown_arg, md(&number_arg.to_string())],
    );
    assert_eq!(result.as_str(), "Mixed: Hello\\! and \\*bold\\* and 42");
}

#[test]
fn test_clone_and_eq() {
    let markdown1 = MarkdownString::escape("Hello!");
    let markdown2 = markdown1.clone();
    assert_eq!(markdown1, markdown2);
}

#[test]
fn test_real_world_usage() {
    let user = "Alice";
    let amount = "50.00";
    let category = "groceries & food!";
    let date = "2024-12-10";

    let escaped_description =
        MarkdownString::escape(&format!("User {} spent ${} on {}", user, amount, category));
    assert_eq!(
        escaped_description.as_str(),
        "User Alice spent $50\\.00 on groceries & food\\!"
    );

    let formatted_notification = markdown_string(
        "💰 *Expense Added*\n\n*User:* {}\n*Amount:* ${}\n*Category:* `{}`\n*Date:* {}",
        &[user, amount, category, date],
    )
    .unwrap();
    let expected = "💰 *Expense Added*\n\n*User:* Alice\n*Amount:* $50\\.00\n*Category:* `groceries & food\\!`\n*Date:* 2024\\-12\\-10";
    assert_eq!(formatted_notification.as_str(), expected);
}

#[test]
fn test_markdown_format_macro_basic() {
    let template = MarkdownString::test_template("Hello *{}*\\!");
    let name = "John";
    let result = markdown_format(&template, &[md(name)]);
    assert_eq!(result.as_str(), "Hello *John*\\!");
}

#[test]
fn test_markdown_format_macro_with_special_chars() {
    let template = MarkdownString::test_template("Message: `{}`");
    let text = "special! chars* here_";
    let result = markdown_format(&template, &[md(text)]);
    assert_eq!(result.as_str(), "Message: `special\\! chars\\* here\\_`");
}

#[test]
fn test_markdown_format_macro_complex() {
    let template =
        MarkdownString::test_template("*User:* {} \n*Amount:* ${} \n*Category:* `{}`");
    let user = "Alice";
    let amount = 100.50;
    let category = "food & drinks!";
    let result = markdown_format(&template, &[md(user), md(&amount.to_string()), md(category)]);
    assert_eq!(
        result.as_str(),
        "*User:* Alice \n*Amount:* $100\\.5 \n*Category:* `food & drinks\\!`"
    );
}

#[test]
fn test_markdown_format_macro_no_args() {
    let template = MarkdownString::test_template("Simple message without placeholders\\.");
    let result = markdown_format(&template, &[]);
    assert_eq!(result.as_str(), "Simple message without placeholders\\.");
}

#[test]
fn test_markdown_format_macro_multiple_same_placeholder() {
    let template = MarkdownString::test_template("Hello {}\\! Nice to meet you, {}\\.");
    let name = "Bob*";
    let result = markdown_format(&template, &[md(name), md(name)]);
    assert_eq!(result.as_str(), "Hello Bob\\*\\! Nice to meet you, Bob\\*\\.");
}

#[test]
fn test_markdown_format_with_valid_markdown_template() {
    let template = MarkdownString::test_template("Hello *{}*\\! Your balance is ${}");
    let name = "Alice";
    let balance = 42.50;
    let result = markdown_format(&template, &[md(name), md(&balance.to_string())]);
    assert_eq!(result.as_str(), "Hello *Alice*\\! Your balance is $42\\.5");
}

#[test]
fn test_markdown_format_vs_markdown_macro() {
    let user = "Alice";
    let amount = "50.00";

    let direct_result = markdown_string("*User:* {} spent ${}", &[user, amount]).unwrap();

    let template = MarkdownString::test_template("*User:* {} spent ${}");
    let format_result = markdown_format(&template, &[md(user), md(amount)]);

    assert_eq!(direct_result.as_str(), format_result.as_str());
    assert_eq!(format_result.as_str(), "*User:* Alice spent $50\\.00");
}

#[test]
fn test_markdown_format_with_escaped_template() {
    let safe_content = "Hello! This is safe content: *bold* _italic_";
    let escaped_template = MarkdownString::escape(safe_content);
    let result = markdown_format(&escaped_template, &[]);
    assert_eq!(
        result.as_str(),
        "Hello\\! This is safe content: \\*bold\\* \\_italic\\_"
    );
}

#[test]
fn test_markdown_format_example_usage() {
    let template = MarkdownString::test_template("Hello *{}*\\! Your balance is: ${}\\.");
    let name = "Alice & Bob";
    let balance = 123.45;
    let result = markdown_format(&template, &[md(name), md(&balance.to_string())]);
    let expected = "Hello *Alice & Bob*\\! Your balance is: $123\\.45\\.";
    assert_eq!(result.as_str(), expected);
}

#[test]
fn test_markdown_format_with_into_trait() {
    let markdown_template = MarkdownString::test_template("Using MarkdownString: {}");
    let result1 = markdown_format(&markdown_template, &[md("test")]);
    assert_eq!(result1.as_str(), "Using MarkdownString: test");

    let direct_template = MarkdownString::test_template("Using direct template: {}");
    let result2 = markdown_format(&direct_template, &[md("test")]);
    assert_eq!(result2.as_str(), "Using direct template: test");

    let safe_content = "Safe user content with *special* chars".to_string();
    let result3 = markdown_format(&safe_content.into(), &[]);
    assert_eq!(result3.as_str(), "Safe user content with \\*special\\* chars");

    let safe_str = "Another safe string with !exclamation";
    let result4 = markdown_format(&safe_str.into(), &[]);
    assert_eq!(result4.as_str(), "Another safe string with \\!exclamation");

    let string_with_placeholders = "This {} won't work as template".to_string();
    let result5 = markdown_format(&string_with_placeholders.into(), &[md("arg")]);
    assert_eq!(result5.as_str(), "This \\{\\} won't work as template");

    let proper_template = MarkdownString::test_template("Proper *{}* template with `{}`");
    let result6 = markdown_format(&proper_template, &[md("bold"), md("code")]);
    assert_eq!(result6.as_str(), "Proper *bold* template with `code`");
}

#[test]
fn escaped_text_always_validates() {
    for s in ["Hello! *bold* _it_", "a\\b {x} [y](z) `c` ~t~ |p| #1 +2 -3 =4 >5 .6", "\\*", ""] {
        let escaped = ledgerbot::markdown_string::escape_text(s);
        assert!(ledgerbot::markdown_string::validate_markdownv2_format(&escaped).is_ok(), "{}", escaped);
    }
}
