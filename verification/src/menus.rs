//! The inline menus: choosing a category for a filter command, and the pages
//! of suggested words from which a filter is built.

use vstd::prelude::*;

use crate::callbacks::{escaped_words, join, words_pattern, CallbackAction, CallbackActionView};
use crate::command::{command_text, Command, CommandView};
use crate::markdown_string::{escape_into, markdown_escape};
use crate::numbers::{decimal_digits, decimal_digits_exec};
use crate::report::CategoryFilters;
use crate::text::{extend_range, extend_str, str_eq, string_from_chars};
use crate::words::string_views;

verus! {

/// What a button does when pressed.
pub enum ButtonAction {
    /// Sends this callback.
    Callback(CallbackAction),
    /// Puts this text into the input box of the chat.
    InlineQuery(String),
}

/// A labelled button.
pub struct Button {
    pub label: String,
    pub action: ButtonAction,
}

/// What a menu shows.
pub enum Screen {
    /// Plain text without a keyboard.
    Plain(String),
    /// MarkdownV2 text with rows of buttons.
    Markdown { text: String, rows: Vec<Vec<Button>> },
}

/// The view of a button action.
pub enum ButtonActionView {
    Callback(CallbackActionView),
    InlineQuery(Seq<char>),
}

/// The view of a button: label and action.
pub open spec fn button_view(b: Button) -> (Seq<char>, ButtonActionView) {
    (
        b.label@,
        match b.action {
            ButtonAction::Callback(a) => ButtonActionView::Callback(a@),
            ButtonAction::InlineQuery(q) => ButtonActionView::InlineQuery(q@),
        },
    )
}

/// The view of a row of buttons.
pub open spec fn row_view(r: Vec<Button>) -> Seq<(Seq<char>, ButtonActionView)> {
    r@.map_values(|b: Button| button_view(b))
}

/// The view of the rows of a keyboard.
pub open spec fn rows_view(rs: Seq<Vec<Button>>) -> Seq<Seq<(Seq<char>, ButtonActionView)>> {
    rs.map_values(|r: Vec<Button>| row_view(r))
}

/// The view of a screen.
pub enum ScreenView {
    Plain(Seq<char>),
    Markdown(Seq<char>, Seq<Seq<(Seq<char>, ButtonActionView)>>),
}

pub open spec fn screen_view(s: Screen) -> ScreenView {
    match s {
        Screen::Plain(t) => ScreenView::Plain(t@),
        Screen::Markdown { text, rows } => ScreenView::Markdown(text@, rows_view(rows@)),
    }
}

/// The three category menus.
pub enum MenuKind {
    AddFilter,
    RemoveFilter,
    EditFilter,
}

/// The icon of a menu's buttons.
pub open spec fn menu_icon(k: MenuKind) -> Seq<char> {
    match k {
        MenuKind::AddFilter => "🔧 "@,
        MenuKind::RemoveFilter => "🗑️ "@,
        MenuKind::EditFilter => "✏️ "@,
    }
}

/// The callback of a menu's button for a category.
pub open spec fn menu_action(k: MenuKind, c: Seq<char>) -> CallbackActionView {
    match k {
        MenuKind::AddFilter => CallbackActionView::AddFilterCategory(c),
        MenuKind::RemoveFilter => CallbackActionView::RemoveFilterCategory(c),
        MenuKind::EditFilter => CallbackActionView::EditFilterCategory(c),
    }
}

/// The categories a menu offers: all of them for adding a filter, those with
/// filters for removing or editing one.
pub open spec fn offered(k: MenuKind, cats: Seq<CategoryFilters>) -> Seq<CategoryFilters>
    decreases cats.len(),
{
    if cats.len() == 0 {
        Seq::empty()
    } else {
        let init = offered(k, cats.drop_last());
        if (k is AddFilter) || cats.last().patterns@.len() > 0 {
            init.push(cats.last())
        } else {
            init
        }
    }
}

/// One row per offered category: its icon and name, and its callback.
pub open spec fn menu_rows(k: MenuKind, cats: Seq<CategoryFilters>) -> Seq<
    Seq<(Seq<char>, ButtonActionView)>,
> {
    offered(k, cats).map_values(
        |c: CategoryFilters|
            seq![(menu_icon(k) + c.name@, ButtonActionView::Callback(menu_action(k, c.name@)))],
    )
}

/// The title of a menu.
pub open spec fn menu_title(k: MenuKind) -> Seq<char> {
    match k {
        MenuKind::AddFilter => "🔧 **Select category to add filter:**"@,
        MenuKind::RemoveFilter =>
            "🗑️ **Select category to remove filter:**\n\nClick a button to see filters for that category\\."@,
        MenuKind::EditFilter =>
            "✏️ **Select category to edit filter:**\n\nClick a button to see filters for that category\\."@,
    }
}

/// What a category menu shows: plain text when there is nothing to offer.
pub open spec fn menu_screen(k: MenuKind, cats: Seq<CategoryFilters>) -> ScreenView {
    if cats.len() == 0 {
        ScreenView::Plain(
            match k {
                MenuKind::AddFilter =>
                    "No categories available\\. Create a category first with /add\\_category <name>"@,
                _ => "No categories available."@,
            },
        )
    } else if offered(k, cats).len() == 0 {
        ScreenView::Plain("No filters defined in any category."@)
    } else {
        ScreenView::Markdown(menu_title(k), menu_rows(k, cats))
    }
}

fn menu_button(k: &MenuKind, name: &String) -> (r: Vec<Button>)
    ensures
        row_view(r) == seq![(menu_icon(*k) + name@, ButtonActionView::Callback(menu_action(*k, name@)))],
{
    let mut label: Vec<char> = Vec::new();
    let action = match k {
        MenuKind::AddFilter => {
            extend_str(&mut label, "🔧 ");
            CallbackAction::AddFilterCategory(name.clone())
        },
        MenuKind::RemoveFilter => {
            extend_str(&mut label, "🗑️ ");
            CallbackAction::RemoveFilterCategory(name.clone())
        },
        MenuKind::EditFilter => {
            extend_str(&mut label, "✏️ ");
            CallbackAction::EditFilterCategory(name.clone())
        },
    };
    extend_str(&mut label, name.as_str());
    let b = Button { label: string_from_chars(&label), action: ButtonAction::Callback(action) };
    let r = vec![b];
    assert(row_view(r) =~= seq![(menu_icon(*k) + name@, ButtonActionView::Callback(menu_action(*k, name@)))]);
    r
}

/// The screen of a category menu (`add_filter_menu`, `remove_filter_menu`,
/// `edit_filter_menu`).
pub fn filter_menu(kind: MenuKind, categories: &Vec<CategoryFilters>) -> (r: Screen)
    ensures
        screen_view(r) == menu_screen(kind, categories@),
{
    if categories.len() == 0 {
        return match kind {
            MenuKind::AddFilter => Screen::Plain(
                "No categories available\\. Create a category first with /add\\_category <name>".to_string(),
            ),
            _ => Screen::Plain("No categories available.".to_string()),
        };
    }
    let mut rows: Vec<Vec<Button>> = Vec::new();
    let ghost mut picked: Seq<CategoryFilters> = Seq::empty();
    let mut i: usize = 0;
    while i < categories.len()
        invariant
            i <= categories.len(),
            picked == offered(kind, categories@.subrange(0, i as int)),
            rows_view(rows@) == picked.map_values(
                |c: CategoryFilters|
                    seq![(menu_icon(kind) + c.name@, ButtonActionView::Callback(menu_action(kind, c.name@)))],
            ),
        decreases categories.len() - i,
    {
        assert(categories@.subrange(0, i + 1).drop_last() =~= categories@.subrange(0, i as int));
        let is_add = match kind {
            MenuKind::AddFilter => true,
            _ => false,
        };
        if is_add || categories[i].patterns.len() > 0 {
            let ghost before = rows_view(rows@);
            let row = menu_button(&kind, &categories[i].name);
            rows.push(row);
            proof {
                picked = picked.push(categories@[i as int]);
            }
            assert(rows_view(rows@) =~= before.push(row_view(row)));
            assert(rows_view(rows@) =~= picked.map_values(
                |c: CategoryFilters|
                    seq![(menu_icon(kind) + c.name@, ButtonActionView::Callback(menu_action(kind, c.name@)))],
            ));
        }
        i = i + 1;
    }
    assert(categories@.subrange(0, categories@.len() as int) =~= categories@);
    if rows.len() == 0 {
        return Screen::Plain("No filters defined in any category.".to_string());
    }
    let title = match kind {
        MenuKind::AddFilter => "🔧 **Select category to add filter:**".to_string(),
        MenuKind::RemoveFilter =>
            "🗑️ **Select category to remove filter:**\n\nClick a button to see filters for that category\\.".to_string(),
        MenuKind::EditFilter =>
            "✏️ **Select category to edit filter:**\n\nClick a button to see filters for that category\\.".to_string(),
    };
    Screen::Markdown { text: title, rows }
}

// ---------------------------------------------------------------------------
// Word suggestions
// ---------------------------------------------------------------------------
/// The words shown on the page that starts at `offset` (at most a page).
pub open spec fn page_words(words: Seq<Seq<char>>, offset: int) -> Seq<Seq<char>> {
    let lo = if offset < words.len() { offset } else { words.len() as int };
    let hi = if offset + 20 < words.len() { offset + 20 } else { words.len() as int };
    words.subrange(lo, hi)
}

/// A word's button: `✓ ` before a selected word; it toggles the word.
pub open spec fn word_button(w: Seq<char>, selected: Seq<Seq<char>>, category: Seq<char>) -> (
    Seq<char>,
    ButtonActionView,
) {
    (
        if selected.contains(w) {
            "✓ "@ + w
        } else {
            w
        },
        ButtonActionView::Callback(CallbackActionView::ToggleWord(category, w)),
    )
}

/// The words in rows of four.
pub open spec fn word_rows(ws: Seq<Seq<char>>, selected: Seq<Seq<char>>, category: Seq<char>) -> Seq<
    Seq<(Seq<char>, ButtonActionView)>,
> {
    Seq::new(
        ((ws.len() + 3) / 4) as nat,
        |r: int|
            ws.subrange(4 * r, if 4 * r + 4 < ws.len() { 4 * r + 4 } else { ws.len() as int }).map_values(
                |w: Seq<char>| word_button(w, selected, category),
            ),
    )
}

/// The text put into the input box by `Apply`: the `/add_filter` command with
/// the pattern `(?i)\b(w1|w2|...)\b` of the escaped selected words, or just
/// `/add_filter <category> ` when nothing is selected.
pub open spec fn apply_query(category: Seq<char>, selected: Seq<Seq<char>>) -> Seq<char> {
    if selected.len() > 0 {
        command_text(
            CommandView::AddFilter {
                category: Some(category),
                pattern: Some("(?i)\\b("@ + join(escaped_words(selected), "|"@) + ")\\b"@),
            },
        )
    } else {
        "/add_filter "@ + category + " "@
    }
}

/// The control row: previous page, next page, apply, back.
pub open spec fn control_row(
    category: Seq<char>,
    selected: Seq<Seq<char>>,
    offset: int,
    total: int,
) -> Seq<(Seq<char>, ButtonActionView)> {
    seq![
        if offset > 0 {
            ("◀️"@, ButtonActionView::Callback(CallbackActionView::PagePrev(category)))
        } else {
            ("◁"@, ButtonActionView::Callback(CallbackActionView::Noop))
        },
        if offset + 20 < total {
            ("▶️"@, ButtonActionView::Callback(CallbackActionView::PageNext(category)))
        } else {
            ("\u{fe0f}▷"@, ButtonActionView::Callback(CallbackActionView::Noop))
        },
        ("✅ Apply"@, ButtonActionView::InlineQuery(apply_query(category, selected))),
        ("↩️ Back"@, ButtonActionView::Callback(CallbackActionView::CmdAddFilter)),
    ]
}

/// The text above the word buttons.
pub open spec fn suggestions_text(
    category: Seq<char>,
    selected: Seq<Seq<char>>,
    offset: int,
    total: int,
) -> Seq<char> {
    "💡 *Select word\\(s\\) for filter '"@ + markdown_escape(category) + "'*\n\n*Selected:* "@ + (
    if selected.len() == 0 {
        markdown_escape("(none selected)"@)
    } else {
        markdown_escape(join(selected, " | "@))
    }) + "\n\nPage "@ + decimal_digits((offset / 20 + 1) as nat) + "/"@ + decimal_digits(
        ((total + 19) / 20) as nat,
    ) + " \\("@ + decimal_digits(total as nat)
        + " words total\\)\n\nClick words to add/remove them\\. When done, click 'Apply Filter'\\."@
}

fn push_num(out: &mut Vec<char>, n: usize)
    ensures
        final(out)@ == old(out)@ + decimal_digits(n as nat),
{
    let d = decimal_digits_exec(n as u64);
    extend_range(out, &d, 0, d.len());
    assert(d@.subrange(0, d@.len() as int) =~= d@);
}

fn contains_word(v: &Vec<String>, w: &String) -> (r: bool)
    ensures
        r == string_views(v@).contains(w@),
{
    let mut i: usize = 0;
    while i < v.len()
        invariant
            i <= v.len(),
            forall|k: int| 0 <= k < i ==> v@[k]@ != w@,
        decreases v.len() - i,
    {
        if str_eq(v[i].as_str(), w.as_str()) {
            assert(string_views(v@)[i as int] == w@);
            return true;
        }
        i = i + 1;
    }
    assert forall|k: int| 0 <= k < string_views(v@).len() implies string_views(v@)[k] != w@ by {
        assert(string_views(v@)[k] == v@[k]@);
    }
    false
}

fn join_text(ws: &Vec<String>, sep: &str) -> (r: String)
    ensures
        r@ == join(string_views(ws@), sep@),
{
    let ghost sv = string_views(ws@);
    let mut out: Vec<char> = Vec::new();
    let mut i: usize = 0;
    while i < ws.len()
        invariant
            i <= ws.len(),
            sv == string_views(ws@),
            out@ == join(sv.subrange(0, i as int), sep@),
        decreases ws.len() - i,
    {
        if i > 0 {
            extend_str(&mut out, sep);
        }
        extend_str(&mut out, ws[i].as_str());
        assert(sv[i as int] == ws@[i as int]@);
        assert(sv.subrange(0, i + 1).drop_last() =~= sv.subrange(0, i as int));
        assert(out@ =~= join(sv.subrange(0, i + 1), sep@));
        i = i + 1;
    }
    assert(sv.subrange(0, sv.len() as int) =~= sv);
    string_from_chars(&out)
}

fn word_button_exec(w: &String, selected: &Vec<String>, category: &String) -> (r: Button)
    ensures
        button_view(r) == word_button(w@, string_views(selected@), category@),
{
    let label = if contains_word(selected, w) {
        let mut out: Vec<char> = Vec::new();
        extend_str(&mut out, "✓ ");
        extend_str(&mut out, w.as_str());
        string_from_chars(&out)
    } else {
        w.clone()
    };
    Button {
        label,
        action: ButtonAction::Callback(
            CallbackAction::ToggleWord { category: category.clone(), word: w.clone() },
        ),
    }
}

fn apply_query_exec(category: &String, selected: &Vec<String>) -> (r: String)
    ensures
        r@ == apply_query(category@, string_views(selected@)),
{
    if selected.len() > 0 {
        let pattern = words_pattern(selected, "(?i)\\b(", ")\\b");
        Command::AddFilter { category: Some(category.clone()), pattern: Some(pattern) }.to_string()
    } else {
        let mut out: Vec<char> = Vec::new();
        extend_str(&mut out, "/add_filter ");
        extend_str(&mut out, category.as_str());
        extend_str(&mut out, " ");
        string_from_chars(&out)
    }
}

/// The page of word suggestions for building a filter of `category`: the
/// text with the selection and the page count, the page's words (twenty
/// per page, four per row, selected ones marked), and the control row.
pub fn word_suggestions(
    category: &String,
    words: &Vec<String>,
    selected: &Vec<String>,
    offset: usize,
) -> (r: Screen)
    requires
        offset <= usize::MAX - 20,
    ensures
        screen_view(r) == ScreenView::Markdown(
            suggestions_text(category@, string_views(selected@), offset as int, words@.len() as int),
            word_rows(page_words(string_views(words@), offset as int), string_views(selected@), category@)
                + seq![
                control_row(category@, string_views(selected@), offset as int, words@.len() as int),
            ],
        ),
{
    let total = words.len();
    let ghost wv = string_views(words@);
    let ghost sv = string_views(selected@);
    // the text
    let mut text: Vec<char> = Vec::new();
    extend_str(&mut text, "💡 *Select word\\(s\\) for filter '");
    escape_into(&mut text, category.as_str());
    extend_str(&mut text, "'*\n\n*Selected:* ");
    if selected.len() == 0 {
        escape_into(&mut text, "(none selected)");
    } else {
        let j = join_text(selected, " | ");
        escape_into(&mut text, j.as_str());
    }
    extend_str(&mut text, "\n\nPage ");
    push_num(&mut text, offset / 20 + 1);
    extend_str(&mut text, "/");
    let pages = total / 20 + if total % 20 > 0 {
        1
    } else {
        0
    };
    assert(pages == (total + 19) / 20);
    push_num(&mut text, pages);
    extend_str(&mut text, " \\(");
    push_num(&mut text, total);
    extend_str(
        &mut text,
        " words total\\)\n\nClick words to add/remove them\\. When done, click 'Apply Filter'\\.",
    );
    assert(text@ =~= suggestions_text(category@, sv, offset as int, total as int));
    // the words of the page
    let lo = if offset < total {
        offset
    } else {
        total
    };
    let hi = if offset + 20 < total {
        offset + 20
    } else {
        total
    };
    let ghost pw = page_words(wv, offset as int);
    assert(pw =~= wv.subrange(lo as int, hi as int));
    let n = hi - lo;
    let ghost expected = word_rows(pw, sv, category@);
    let mut rows: Vec<Vec<Button>> = Vec::new();
    let mut r: usize = 0;
    while 4 * r < n
        invariant
            lo <= hi <= total == words.len(),
            n == hi - lo,
            n <= 20,
            pw == wv.subrange(lo as int, hi as int),
            wv == string_views(words@),
            sv == string_views(selected@),
            expected == word_rows(pw, sv, category@),
            4 * r <= n + 3,
            rows@.len() == r,
            forall|t: int| 0 <= t < r ==> #[trigger] row_view(rows@[t]) == expected[t],
        decreases n + 3 - 4 * r,
    {
        let start = 4 * r;
        let end = if start + 4 < n {
            start + 4
        } else {
            n
        };
        let ghost want = pw.subrange(start as int, end as int).map_values(
            |w: Seq<char>| word_button(w, sv, category@),
        );
        let mut row: Vec<Button> = Vec::new();
        let mut k = start;
        while k < end
            invariant
                start <= k <= end <= n,
                lo + n <= words.len(),
                pw == wv.subrange(lo as int, hi as int),
                n == hi - lo,
                wv == string_views(words@),
                sv == string_views(selected@),
                want == pw.subrange(start as int, end as int).map_values(
                    |w: Seq<char>| word_button(w, sv, category@),
                ),
                row_view(row) == want.subrange(0, k - start),
            decreases end - k,
        {
            let ghost before = row_view(row);
            let b = word_button_exec(&words[lo + k], selected, category);
            assert(wv[lo + k] == words@[lo + k]@);
            assert(pw[k as int] == wv[lo + k]);
            row.push(b);
            assert(row_view(row) =~= before.push(button_view(b)));
            assert(row_view(row) =~= want.subrange(0, k + 1 - start));
            k = k + 1;
        }
        assert(want.subrange(0, end - start) =~= want);
        assert(expected[r as int] == want);
        let ghost rows_before = rows@;
        rows.push(row);
        proof {
            assert forall|t: int| 0 <= t < r + 1 implies #[trigger] row_view(rows@[t]) == expected[t] by {
                if t < r {
                    assert(rows@[t] == rows_before[t]);
                }
            }
        }
        r = r + 1;
    }
    assert(r == expected.len());
    // the control row
    let mut control: Vec<Button> = Vec::new();
    if offset > 0 {
        control.push(Button { label: "◀️".to_string(), action: ButtonAction::Callback(CallbackAction::PagePrev(category.clone())) });
    } else {
        control.push(Button { label: "◁".to_string(), action: ButtonAction::Callback(CallbackAction::Noop) });
    }
    if offset + 20 < total {
        control.push(Button { label: "▶️".to_string(), action: ButtonAction::Callback(CallbackAction::PageNext(category.clone())) });
    } else {
        control.push(Button { label: "\u{fe0f}▷".to_string(), action: ButtonAction::Callback(CallbackAction::Noop) });
    }
    control.push(Button { label: "✅ Apply".to_string(), action: ButtonAction::InlineQuery(apply_query_exec(category, selected)) });
    control.push(Button { label: "↩️ Back".to_string(), action: ButtonAction::Callback(CallbackAction::CmdAddFilter) });
    assert(row_view(control) =~= control_row(category@, sv, offset as int, total as int));
    let ghost before = rows@;
    rows.push(control);
    assert(rows_view(rows@) =~= expected + seq![control_row(category@, sv, offset as int, total as int)]) by {
        assert forall|t: int| 0 <= t < rows@.len() implies rows_view(rows@)[t] == (expected + seq![control_row(category@, sv, offset as int, total as int)])[t] by {
            if t < r {
                assert(rows@[t] == before[t]);
                assert(row_view(before[t]) == expected[t]);
            }
        }
    }
    Screen::Markdown { text: string_from_chars(&text), rows }
}

/// The button row that removes a category.
pub open spec fn remove_category_row(c: CategoryFilters) -> Seq<(Seq<char>, ButtonActionView)> {
    seq![("🗑️ "@ + c.name@, ButtonActionView::Callback(CallbackActionView::RemoveCategory(c.name@)))]
}

/// The button row that removes filter `p` of category `name`.
pub open spec fn remove_filter_row(name: Seq<char>, p: Seq<char>) -> Seq<(Seq<char>, ButtonActionView)> {
    seq![("🗑️ "@ + p, ButtonActionView::Callback(CallbackActionView::RemoveFilter(name, p)))]
}

/// The menu of categories to remove: one button per category, or plain
/// text when there is none.
pub open spec fn remove_category_screen_view(cats: Seq<CategoryFilters>) -> ScreenView {
    if cats.len() == 0 {
        ScreenView::Plain("No categories available."@)
    } else {
        ScreenView::Markdown(
            "🗑️ *Select category to remove:*"@,
            cats.map_values(|c: CategoryFilters| remove_category_row(c)),
        )
    }
}

/// The screen of a category's filters for removal: one button per filter,
/// then a back button; plain text when the category is not there.
pub open spec fn filters_for_removal_view(cats: Seq<CategoryFilters>, name: Seq<char>) -> ScreenView {
    match crate::filters::find_category(cats, name) {
        None => ScreenView::Plain("Category "@ + name + " not found."@),
        Some(k) => ScreenView::Markdown(
            "🗑️ *Filters of category '"@ + markdown_escape(name) + "':*"@,
            string_views(cats[k].patterns@).map_values(|p: Seq<char>| remove_filter_row(cats[k].name@, p))
                + seq![seq![("↩️ Back"@, ButtonActionView::Callback(CallbackActionView::CmdRemoveFilter))]],
        ),
    }
}

/// The commands that recreate one category: `/add_category` and one
/// `/add_filter` per filter, each on its own line.
pub open spec fn category_commands(c: CategoryFilters) -> Seq<char> {
    command_text(CommandView::AddCategory { name: Some(c.name@) }) + "\n"@ + filter_commands(
        c.name@,
        string_views(c.patterns@),
    )
}

/// `/add_filter <name> <p>` lines for the patterns.
pub open spec fn filter_commands(name: Seq<char>, ps: Seq<Seq<char>>) -> Seq<char>
    decreases ps.len(),
{
    if ps.len() == 0 {
        Seq::empty()
    } else {
        filter_commands(name, ps.drop_last()) + command_text(
            CommandView::AddFilter { category: Some(name), pattern: Some(ps.last()) },
        ) + "\n"@
    }
}

/// The commands of categories, in order.
pub open spec fn categories_commands(cats: Seq<CategoryFilters>) -> Seq<char>
    decreases cats.len(),
{
    if cats.len() == 0 {
        Seq::empty()
    } else {
        categories_commands(cats.drop_last()) + category_commands(cats.last())
    }
}

/// The `/categories` listing: the commands that recreate the categories, or
/// `No categories defined.`.
pub open spec fn categories_listing_text(cats: Seq<CategoryFilters>) -> Seq<char> {
    if cats.len() == 0 {
        "No categories defined."@
    } else {
        categories_commands(cats)
    }
}

/// The menu of categories to remove.
pub fn remove_category_screen(categories: &Vec<CategoryFilters>) -> (r: Screen)
    ensures
        screen_view(r) == remove_category_screen_view(categories@),
{
    if categories.len() == 0 {
        return Screen::Plain("No categories available.".to_string());
    }
    let mut rows: Vec<Vec<Button>> = Vec::new();
    let mut i: usize = 0;
    while i < categories.len()
        invariant
            i <= categories.len(),
            rows_view(rows@) == categories@.subrange(0, i as int).map_values(|c: CategoryFilters| remove_category_row(c)),
        decreases categories.len() - i,
    {
        let name = &categories[i].name;
        let mut label: Vec<char> = Vec::new();
        extend_str(&mut label, "🗑️ ");
        extend_str(&mut label, name.as_str());
        let row = vec![
            Button {
                label: string_from_chars(&label),
                action: ButtonAction::Callback(CallbackAction::RemoveCategory(name.clone())),
            },
        ];
        let ghost before = rows_view(rows@);
        assert(row@[0].label@ == "🗑️ "@ + name@);
        assert(row_view(row) =~= seq![("🗑️ "@ + name@, ButtonActionView::Callback(CallbackActionView::RemoveCategory(name@)))]);
        assert(row_view(row) == remove_category_row(categories@[i as int]));
        rows.push(row);
        assert(rows_view(rows@) =~= before.push(row_view(row)));
        assert(categories@.subrange(0, i + 1).map_values(|c: CategoryFilters| remove_category_row(c))
            =~= categories@.subrange(0, i as int).map_values(|c: CategoryFilters| remove_category_row(c)).push(
            remove_category_row(categories@[i as int]),
        ));
        i = i + 1;
    }
    assert(categories@.subrange(0, categories@.len() as int) =~= categories@);
    Screen::Markdown { text: "🗑️ *Select category to remove:*".to_string(), rows }
}

/// The filters of a category, each with a button that removes it.
pub fn filters_for_removal_screen(categories: &Vec<CategoryFilters>, name: &str) -> (r: Screen)
    ensures
        screen_view(r) == filters_for_removal_view(categories@, name@),
{
    let k = match crate::filters::find_category_exec(categories, name) {
        None => {
            let mut t: Vec<char> = Vec::new();
            extend_str(&mut t, "Category ");
            extend_str(&mut t, name);
            extend_str(&mut t, " not found.");
            return Screen::Plain(string_from_chars(&t));
        },
        Some(k) => k,
    };
    let c = &categories[k];
    let ghost cname = c.name@;
    let ghost ps = string_views(c.patterns@);
    let mut rows: Vec<Vec<Button>> = Vec::new();
    let mut i: usize = 0;
    while i < c.patterns.len()
        invariant
            i <= c.patterns.len(),
            ps == string_views(c.patterns@),
            cname == c.name@,
            rows_view(rows@) == ps.subrange(0, i as int).map_values(|q: Seq<char>| remove_filter_row(cname, q)),
        decreases c.patterns.len() - i,
    {
        let p = &c.patterns[i];
        let mut label: Vec<char> = Vec::new();
        extend_str(&mut label, "🗑️ ");
        extend_str(&mut label, p.as_str());
        let row = vec![
            Button {
                label: string_from_chars(&label),
                action: ButtonAction::Callback(
                    CallbackAction::RemoveFilter { category: c.name.clone(), pattern: p.clone() },
                ),
            },
        ];
        let ghost before = rows_view(rows@);
        assert(ps[i as int] == p@);
        assert(row@[0].label@ == "🗑️ "@ + p@);
        assert(row_view(row) =~= seq![("🗑️ "@ + p@, ButtonActionView::Callback(CallbackActionView::RemoveFilter(cname, p@)))]);
        assert(row_view(row) == remove_filter_row(cname, ps[i as int]));
        rows.push(row);
        assert(rows_view(rows@) =~= before.push(row_view(row)));
        assert(ps.subrange(0, i + 1).map_values(|q: Seq<char>| remove_filter_row(cname, q)) =~= ps.subrange(
            0,
            i as int,
        ).map_values(|q: Seq<char>| remove_filter_row(cname, q)).push(remove_filter_row(cname, ps[i as int])));
        i = i + 1;
    }
    assert(ps.subrange(0, ps.len() as int) =~= ps);
    let back = vec![
        Button {
            label: "↩️ Back".to_string(),
            action: ButtonAction::Callback(CallbackAction::CmdRemoveFilter),
        },
    ];
    let ghost before = rows_view(rows@);
    assert(back@[0].label@ == "↩️ Back"@);
    assert(row_view(back) =~= seq![("↩️ Back"@, ButtonActionView::Callback(CallbackActionView::CmdRemoveFilter))]);
    rows.push(back);
    assert(rows_view(rows@) =~= before.push(row_view(back)));
    let mut t: Vec<char> = Vec::new();
    extend_str(&mut t, "🗑️ *Filters of category '");
    escape_into(&mut t, name);
    extend_str(&mut t, "':*");
    proof {
        assert(cname == categories@[k as int].name@);
        assert(rows_view(rows@) =~= ps.map_values(|q: Seq<char>| remove_filter_row(cname, q)) + seq![
            seq![("↩️ Back"@, ButtonActionView::Callback(CallbackActionView::CmdRemoveFilter))],
        ]);
    }
    Screen::Markdown { text: string_from_chars(&t), rows }
}

/// The `/categories` listing (see `categories_listing_text`).
pub fn categories_listing(categories: &Vec<CategoryFilters>) -> (r: String)
    ensures
        r@ == categories_listing_text(categories@),
{
    if categories.len() == 0 {
        return "No categories defined.".to_string();
    }
    let mut out: Vec<char> = Vec::new();
    let mut i: usize = 0;
    while i < categories.len()
        invariant
            i <= categories.len(),
            out@ == categories_commands(categories@.subrange(0, i as int)),
        decreases categories.len() - i,
    {
        let c = &categories[i];
        assert(categories@.subrange(0, i + 1).drop_last() =~= categories@.subrange(0, i as int));
        let ghost base = out@;
        let head = Command::AddCategory { name: Some(c.name.clone()) }.to_string();
        extend_str(&mut out, head.as_str());
        extend_str(&mut out, "\n");
        let ghost mid = out@;
        let ghost ps = string_views(c.patterns@);
        let mut j: usize = 0;
        while j < c.patterns.len()
            invariant
                j <= c.patterns.len(),
                ps == string_views(c.patterns@),
                out@ == mid + filter_commands(c.name@, ps.subrange(0, j as int)),
            decreases c.patterns.len() - j,
        {
            let line = Command::AddFilter {
                category: Some(c.name.clone()),
                pattern: Some(c.patterns[j].clone()),
            }.to_string();
            extend_str(&mut out, line.as_str());
            extend_str(&mut out, "\n");
            proof {
                assert(ps.subrange(0, j + 1).drop_last() =~= ps.subrange(0, j as int));
                assert(ps[j as int] == c.patterns@[j as int]@);
                assert(out@ =~= mid + filter_commands(c.name@, ps.subrange(0, j + 1)));
            }
            j = j + 1;
        }
        assert(ps.subrange(0, ps.len() as int) =~= ps);
        assert(out@ =~= base + category_commands(*c));
        i = i + 1;
    }
    assert(categories@.subrange(0, categories@.len() as int) =~= categories@);
    string_from_chars(&out)
}

} // verus!
