use ledgerbot::callbacks::{callback_decision, parse_callback, toggle_word, CallbackAction, CallbackStep};
use ledgerbot::filters::{
    add_filter_decision, decide_add_filter, decide_edit_filter, edit_filter_decision, remove_filter_decision,
    FilterDecision,
};
use ledgerbot::category_store::{CategoryReply, FilterOutcome};
use ledgerbot::command::Command;
use ledgerbot::menus::{
    categories_listing, filter_menu, filters_for_removal_screen, remove_category_screen, word_suggestions,
    ButtonAction, MenuKind, Screen,
};
use ledgerbot::report::CategoryFilters;

fn s(x: &str) -> String {
    x.to_string()
}

fn cats() -> Vec<CategoryFilters> {
    vec![
        CategoryFilters { name: s("Food"), patterns: vec![s("(?i)lunch"), s("tea")] },
        CategoryFilters { name: s("Empty"), patterns: vec![] },
    ]
}

fn reply(d: FilterDecision) -> String {
    match d {
        FilterDecision::Reply(m) => m,
        _ => panic!("expected a reply"),
    }
}

#[test]
fn add_filter_outcomes() {
    match add_filter_decision(&cats(), Some(s("Food")), Some(s("(?i)coffee"))) {
        FilterDecision::Add { category, pattern, reply } => {
            assert_eq!(category, "Food");
            assert_eq!(pattern, "(?i)coffee");
            assert_eq!(reply, "✅ Filter `\\(?i\\)coffee` added to category `Food`\\.");
        }
        _ => panic!("expected an addition"),
    }
    assert_eq!(
        reply(add_filter_decision(&cats(), Some(s("Cars")), Some(s("x")))),
        "❌ Category `Cars` does not exist\\. Create it first with /add\\_category Cars"
    );
    assert!(reply(add_filter_decision(&cats(), Some(s("Food")), Some(s("(")))).starts_with("❌ Invalid regex pattern: "));
    assert!(matches!(add_filter_decision(&cats(), None, None), FilterDecision::ShowMenu));
    assert_eq!(
        reply(add_filter_decision(&cats(), Some(s("Food")), None)),
        "❌ Missing pattern\\. Usage: /add\\_filter Food pattern"
    );
    assert_eq!(
        reply(add_filter_decision(&cats(), None, Some(s("x")))),
        "❌ Missing category\\. Usage: /add\\_filter category pattern"
    );
}

#[test]
fn remove_filter_outcomes() {
    match remove_filter_decision(&cats(), Some(s("Food")), Some(1)) {
        FilterDecision::Remove { category, pattern, reply } => {
            assert_eq!(category, "Food");
            assert_eq!(pattern, "tea");
            assert_eq!(reply, "✅ Filter **\\#1** \\(`tea`\\) removed from category `Food`\\.");
        }
        _ => panic!("expected a removal"),
    }
    assert_eq!(
        reply(remove_filter_decision(&cats(), Some(s("Food")), Some(2))),
        "❌ Invalid position `2`\\. Category `Food` has **2** filter\\(s\\) \\(indexed 0\\-1\\)\\."
    );
    assert_eq!(
        reply(remove_filter_decision(&cats(), Some(s("Empty")), Some(0))),
        "❌ Invalid position `0`\\. Category `Empty` has **0** filter\\(s\\) \\(indexed 0\\-0\\)\\."
    );
    assert_eq!(
        reply(remove_filter_decision(&cats(), Some(s("Cars")), Some(0))),
        "❌ Category `Cars` does not exist\\."
    );
    assert_eq!(
        reply(remove_filter_decision(&cats(), Some(s("Food")), None)),
        "❌ Missing position\\. Usage: /remove\\_filter Food 0"
    );
    assert_eq!(
        reply(remove_filter_decision(&cats(), None, Some(3))),
        "❌ Missing category\\. Usage: /remove\\_filter category 0"
    );
    assert!(matches!(remove_filter_decision(&cats(), None, None), FilterDecision::ShowMenu));
}

#[test]
fn edit_filter_outcomes() {
    match edit_filter_decision(&cats(), Some(s("Food")), Some(0), Some(s("dinner"))) {
        FilterDecision::Replace { category, position, old_pattern, new_pattern, reply } => {
            assert_eq!(category, "Food");
            assert_eq!(position, 0);
            assert_eq!(old_pattern, "(?i)lunch");
            assert_eq!(new_pattern, "dinner");
            assert_eq!(
                reply,
                "✅ Filter **\\#0** updated in category `Food`\\.\n**Old:** `\\(?i\\)lunch`\n**New:** `dinner`"
            );
        }
        _ => panic!("expected a replacement"),
    }
    assert_eq!(
        reply(edit_filter_decision(&cats(), Some(s("Food")), Some(5), Some(s("(")))),
        "❌ Invalid position `5`\\. Category `Food` has **2** filter\\(s\\) \\(indexed 0\\-1\\)\\."
    );
    assert!(reply(edit_filter_decision(&cats(), Some(s("Food")), Some(0), Some(s("(")))).starts_with("❌ Invalid regex pattern: "));
    assert_eq!(
        reply(edit_filter_decision(&cats(), Some(s("Food")), Some(1), None)),
        "❌ Missing pattern\\. Usage: /edit\\_filter Food 1 new\\_pattern"
    );
    assert_eq!(
        reply(edit_filter_decision(&cats(), Some(s("Food")), None, Some(s("x")))),
        "❌ Missing position\\. Usage: /edit\\_filter Food 0 new\\_pattern"
    );
    assert_eq!(
        reply(edit_filter_decision(&cats(), None, Some(1), None)),
        "❌ Missing category\\. Usage: /edit\\_filter category 0 new\\_pattern"
    );
    assert!(matches!(edit_filter_decision(&cats(), None, None, None), FilterDecision::ShowMenu));
}

fn callback_of(a: &ButtonAction) -> String {
    match a {
        ButtonAction::Callback(c) => c.encode(),
        ButtonAction::InlineQuery(q) => format!("query:{}", q),
    }
}

#[test]
fn category_menus() {
    match filter_menu(MenuKind::RemoveFilter, &cats()) {
        Screen::Markdown { text, rows } => {
            assert!(text.starts_with("🗑️ **Select category to remove filter:**"));
            assert_eq!(rows.len(), 1);
            assert_eq!(rows[0][0].label, "🗑️ Food");
            assert_eq!(callback_of(&rows[0][0].action), "remove_filter_cat:Food");
        }
        _ => panic!("expected a menu"),
    }
    match filter_menu(MenuKind::AddFilter, &cats()) {
        Screen::Markdown { text, rows } => {
            assert_eq!(text, "🔧 **Select category to add filter:**");
            assert_eq!(rows.len(), 2);
            assert_eq!(callback_of(&rows[1][0].action), "add_filter_cat:Empty");
        }
        _ => panic!("expected a menu"),
    }
    match filter_menu(MenuKind::EditFilter, &vec![cats()[1].clone_shallow()]) {
        Screen::Plain(t) => assert_eq!(t, "No filters defined in any category."),
        _ => panic!("expected text"),
    }
    match filter_menu(MenuKind::AddFilter, &Vec::new()) {
        Screen::Plain(t) => {
            assert_eq!(t, "No categories available\\. Create a category first with /add\\_category <name>")
        }
        _ => panic!("expected text"),
    }
    match filter_menu(MenuKind::RemoveFilter, &Vec::new()) {
        Screen::Plain(t) => assert_eq!(t, "No categories available."),
        _ => panic!("expected text"),
    }
}

trait CloneShallow {
    fn clone_shallow(&self) -> CategoryFilters;
}

impl CloneShallow for CategoryFilters {
    fn clone_shallow(&self) -> CategoryFilters {
        CategoryFilters { name: self.name.clone(), patterns: self.patterns.clone() }
    }
}

#[test]
fn suggestion_page() {
    let words: Vec<String> = (0..25).map(|i| format!("w{:02}", i)).collect();
    let selected = vec![s("w01"), s("a.b")];
    match word_suggestions(&s("Food"), &words, &selected, 0) {
        Screen::Markdown { text, rows } => {
            assert_eq!(
                text,
                "💡 *Select word\\(s\\) for filter 'Food'*\n\n*Selected:* w01 \\| a\\.b\n\nPage 1/2 \\(25 words total\\)\n\nClick words to add/remove them\\. When done, click 'Apply Filter'\\."
            );
            assert_eq!(rows.len(), 6);
            assert_eq!(rows[0].len(), 4);
            assert_eq!(rows[0][1].label, "✓ w01");
            assert_eq!(rows[0][2].label, "w02");
            assert_eq!(callback_of(&rows[0][2].action), "toggle_word:Food:w02");
            let control = &rows[5];
            assert_eq!(control[0].label, "◁");
            assert_eq!(callback_of(&control[0].action), "noop");
            assert_eq!(control[1].label, "▶️");
            assert_eq!(callback_of(&control[1].action), "page_next:Food");
            assert_eq!(control[2].label, "✅ Apply");
            assert_eq!(
                callback_of(&control[2].action),
                "query:/add_filter Food (?i)\\b(w01|a\\.b)\\b"
            );
            assert_eq!(control[3].label, "↩️ Back");
            assert_eq!(callback_of(&control[3].action), "cmd_add_filter");
        }
        _ => panic!("expected a page"),
    }
    match word_suggestions(&s("Food"), &words, &Vec::new(), 20) {
        Screen::Markdown { text, rows } => {
            assert!(text.contains("*Selected:* \\(none selected\\)"));
            assert!(text.contains("Page 2/2 \\(25 words total\\)"));
            assert_eq!(rows.len(), 3);
            assert_eq!(rows[0].len(), 4);
            assert_eq!(rows[1].len(), 1);
            assert_eq!(rows[1][0].label, "w24");
            let control = &rows[2];
            assert_eq!(control[0].label, "◀️");
            assert_eq!(callback_of(&control[0].action), "page_prev:Food");
            assert_eq!(control[1].label, "\u{fe0f}▷");
            assert_eq!(callback_of(&control[2].action), "query:/add_filter Food ");
        }
        _ => panic!("expected a page"),
    }
}

#[test]
fn callbacks_parse_and_step() {
    assert_eq!(parse_callback("remove_cat:Food"), Some(CallbackAction::RemoveCategory(s("Food"))));
    assert_eq!(
        parse_callback("toggle_word:Food:a:b"),
        Some(CallbackAction::ToggleWord { category: s("Food"), word: s("a:b") })
    );
    assert_eq!(parse_callback("toggle_word:Food"), None);
    assert_eq!(
        parse_callback("remove_filter_cat:Food"),
        Some(CallbackAction::RemoveFilterCategory(s("Food")))
    );
    assert_eq!(
        parse_callback("remove_filter:Food:(?i)x"),
        Some(CallbackAction::RemoveFilter { category: s("Food"), pattern: s("(?i)x") })
    );
    assert_eq!(parse_callback("cmd_back_to_help"), Some(CallbackAction::CmdBackToHelp));
    assert_eq!(parse_callback("noop"), Some(CallbackAction::Noop));
    assert_eq!(parse_callback("edit_filter_cat:Food"), None);
    assert_eq!(parse_callback("whatever"), None);

    let sel = vec![s("tea"), s("coffee")];
    assert_eq!(toggle_word(&sel, &s("tea")), vec![s("coffee")]);
    assert_eq!(toggle_word(&sel, &s("milk")), vec![s("tea"), s("coffee"), s("milk")]);

    match callback_decision(&CallbackAction::PagePrev(s("Food")), &sel, 10) {
        CallbackStep::SetPageOffset(c, o) => {
            assert_eq!(c, "Food");
            assert_eq!(o, 0);
        }
        _ => panic!(),
    }
    match callback_decision(&CallbackAction::PageNext(s("Food")), &sel, 20) {
        CallbackStep::SetPageOffset(_, o) => assert_eq!(o, 40),
        _ => panic!(),
    }
    match callback_decision(&CallbackAction::ApplyWords(s("Food")), &vec![s("c++"), s("tea")], 0) {
        CallbackStep::ApplyFilter(c, p) => {
            assert_eq!(c, "Food");
            assert_eq!(p, "(?i)(c\\+\\+|tea)");
        }
        _ => panic!(),
    }
    assert!(matches!(
        callback_decision(&CallbackAction::ApplyWords(s("Food")), &Vec::new(), 0),
        CallbackStep::Nothing
    ));
    match callback_decision(&CallbackAction::ToggleWord { category: s("Food"), word: s("tea") }, &sel, 0) {
        CallbackStep::SetSelection(_, v) => assert_eq!(v, vec![s("coffee")]),
        _ => panic!(),
    }
    for a in [
        CallbackAction::RemoveCategory(s("A")),
        CallbackAction::AddFilterCategory(s("A")),
        CallbackAction::ToggleWord { category: s("A"), word: s("w") },
        CallbackAction::PagePrev(s("A")),
        CallbackAction::PageNext(s("A")),
        CallbackAction::ApplyWords(s("A")),
        CallbackAction::RemoveFilterCategory(s("A")),
        CallbackAction::RemoveFilter { category: s("A"), pattern: s("p:q") },
        CallbackAction::CmdList,
        CallbackAction::CmdReport,
        CallbackAction::CmdClear,
        CallbackAction::CmdCategories,
        CallbackAction::CmdRemoveCategory,
        CallbackAction::CmdAddFilter,
        CallbackAction::CmdRemoveFilter,
        CallbackAction::CmdBackToHelp,
        CallbackAction::Noop,
    ] {
        assert_eq!(parse_callback(&a.encode()), Some(a.clone()));
    }
}

fn store_of(list: Vec<CategoryFilters>) -> ledgerbot::category_store::CategoryStorage {
    let mut st = ledgerbot::category_store::CategoryStorage::new();
    st.replace_categories(list).unwrap();
    st
}

fn patterns_of(st: &ledgerbot::category_store::CategoryStorage, name: &str) -> Vec<String> {
    st.get_categories().unwrap().into_iter().find(|c| c.name == name).unwrap().patterns
}

#[test]
fn edited_filter_keeps_its_place() {
    let mut st = store_of(vec![CategoryFilters {
        name: s("Food"),
        patterns: vec![s("a"), s("b"), s("c")],
    }]);
    let cats = st.get_categories().unwrap();
    let d = edit_filter_decision(&cats, Some(s("Food")), Some(1), Some(s("x")));
    match st.apply_filter_decision(d) {
        FilterOutcome::Reply(t) => assert!(t.starts_with("✅ Filter **\\#1** updated")),
        FilterOutcome::ShowMenu => panic!("expected a reply"),
    }
    assert_eq!(patterns_of(&st, "Food"), vec![s("a"), s("x"), s("c")]);
    let bad = st.replace_category_filter(&ledgerbot::category::Category::Category(s("Food")), 3, s("y"));
    assert!(bad.unwrap_err().as_str().starts_with("❌ Invalid position `3`"));
    let d = add_filter_decision(&st.get_categories().unwrap(), Some(s("Food")), Some(s("a")));
    match st.apply_filter_decision(d) {
        FilterOutcome::Reply(t) => assert_eq!(t, "✅ Filter `a` added to category `Food`\\."),
        FilterOutcome::ShowMenu => panic!("expected a reply"),
    }
    assert_eq!(patterns_of(&st, "Food"), vec![s("a"), s("x"), s("c")]);
    assert!(matches!(
        st.apply_filter_decision(remove_filter_decision(&cats, None, None)),
        FilterOutcome::ShowMenu
    ));
}

#[test]
fn category_screens_and_listing() {
    assert_eq!(categories_listing(&vec![]), "No categories defined.");
    assert_eq!(
        categories_listing(&cats()),
        "/add_category Food\n/add_filter Food (?i)lunch\n/add_filter Food tea\n/add_category Empty\n"
    );
    match remove_category_screen(&cats()) {
        Screen::Markdown { text, rows } => {
            assert_eq!(text, "🗑️ *Select category to remove:*");
            assert_eq!(rows.len(), 2);
            assert_eq!(rows[1][0].label, "🗑️ Empty");
            assert_eq!(callback_of(&rows[1][0].action), "remove_cat:Empty");
        }
        Screen::Plain(_) => panic!("expected a menu"),
    }
    assert!(matches!(remove_category_screen(&vec![]), Screen::Plain(t) if t == "No categories available."));
    match filters_for_removal_screen(&cats(), "Food") {
        Screen::Markdown { text, rows } => {
            assert_eq!(text, "🗑️ *Filters of category 'Food':*");
            assert_eq!(rows.len(), 3);
            assert_eq!(rows[0][0].label, "🗑️ (?i)lunch");
            assert_eq!(callback_of(&rows[1][0].action), "remove_filter:Food:tea");
            assert_eq!(callback_of(&rows[2][0].action), "cmd_remove_filter");
        }
        Screen::Plain(_) => panic!("expected a menu"),
    }
    assert!(matches!(filters_for_removal_screen(&cats(), "Fun"), Screen::Plain(t) if t == "Category Fun not found."));
}

#[test]
fn add_filter_follows_the_compile_outcome() {
    match decide_add_filter(&cats(), Some(s("Food")), Some(s("x+")), None) {
        FilterDecision::Add { category, pattern, reply } => {
            assert_eq!(category, "Food");
            assert_eq!(pattern, "x+");
            assert_eq!(reply, "✅ Filter `x\\+` added to category `Food`\\.");
        }
        _ => panic!("expected an addition"),
    }
    assert_eq!(
        reply(decide_add_filter(&cats(), Some(s("Food")), Some(s("x+")), Some(s("too big")))),
        "❌ Invalid regex pattern: too big"
    );
    assert_eq!(
        reply(decide_add_filter(&cats(), Some(s("Cars")), Some(s("x")), Some(s("ignored")))),
        "❌ Category `Cars` does not exist\\. Create it first with /add\\_category Cars"
    );
}

#[test]
fn edit_filter_follows_the_compile_outcome() {
    match decide_edit_filter(&cats(), Some(s("Food")), Some(1), Some(s("green")), None) {
        FilterDecision::Replace { category, position, old_pattern, new_pattern, .. } => {
            assert_eq!((category.as_str(), position), ("Food", 1));
            assert_eq!((old_pattern.as_str(), new_pattern.as_str()), ("tea", "green"));
        }
        _ => panic!("expected a replacement"),
    }
    assert_eq!(
        reply(decide_edit_filter(&cats(), Some(s("Food")), Some(1), Some(s("(")), Some(s("unclosed group")))),
        "❌ Invalid regex pattern: unclosed group"
    );
    assert!(reply(decide_edit_filter(&cats(), Some(s("Food")), Some(2), Some(s("x")), Some(s("e"))))
        .starts_with("❌ Invalid position `2`"));
}

#[test]
fn category_commands_reply_and_change_the_store() {
    let mut st = store_of(vec![]);
    match st.add_category_command(None) {
        CategoryReply::Text(t) => assert_eq!(
            t,
            format!("❌ Missing category name. Usage: {}", Command::AddCategory { name: None }.to_string())
        ),
        _ => panic!("expected plain text"),
    }
    match st.add_category_command(Some(s("Food"))) {
        CategoryReply::Markdown(t) => assert_eq!(t, "✅ Category `Food` created\\."),
        _ => panic!("expected markdown"),
    }
    assert_eq!(patterns_of(&st, "Food"), Vec::<String>::new());
    match st.add_category_command(Some(s("Food"))) {
        CategoryReply::Markdown(t) => assert!(t.starts_with("ℹ️ Category `Food` already exists\\.")),
        _ => panic!("expected markdown"),
    }
    match st.add_category_command(Some(s("two words"))) {
        CategoryReply::Text(t) => {
            assert_eq!(t, "❌ Category name 'two words' cannot contain spaces. Use a single word.")
        }
        _ => panic!("expected plain text"),
    }
    match st.add_category_command(Some(s("<other>"))) {
        CategoryReply::Markdown(t) => assert!(t.starts_with("❌ Cannot add category `")),
        _ => panic!("expected markdown"),
    }
    assert!(matches!(st.remove_category_command(None), CategoryReply::ShowRemoveMenu));
    match st.remove_category_command(Some(s("Cars"))) {
        CategoryReply::Markdown(t) => assert_eq!(t, "Category Cars not exists"),
        _ => panic!("expected markdown"),
    }
    match st.remove_category_command(Some(s("Food"))) {
        CategoryReply::Markdown(t) => assert_eq!(t, "✅ Category `Food` removed\\."),
        _ => panic!("expected markdown"),
    }
    assert!(st.get_categories().unwrap().is_empty());
}
