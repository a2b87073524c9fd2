//! What the filter commands decide: `/add_filter`, `/remove_filter` and
//! `/edit_filter` against the chat's categories, with the MarkdownV2 replies.

use vstd::prelude::*;

use crate::command::{command_text, Command, CommandView};
use crate::markdown_string::{escape_into, markdown_escape};
use crate::numbers::{decimal_digits, decimal_digits_exec};
use crate::regex_ops::{check_pattern, regex_error_text};
use crate::report::CategoryFilters;
use crate::text::{extend_str, str_eq, string_from_chars};
use crate::words::string_views;

verus! {

/// What a filter command does.
pub enum FilterDecision {
    /// Send this MarkdownV2 reply; nothing changes.
    Reply(String),
    /// Show the category menu of the command (no arguments were given).
    ShowMenu,
    /// Add `pattern` to the filters of `category`, then send `reply`.
    Add { category: String, pattern: String, reply: String },
    /// Remove `pattern` from the filters of `category`, then send `reply`.
    Remove { category: String, pattern: String, reply: String },
    /// Put `new_pattern` in place of `old_pattern`, the filter at `position`
    /// of `category` (it keeps its place), then send `reply`.
    Replace {
        category: String,
        position: usize,
        old_pattern: String,
        new_pattern: String,
        reply: String,
    },
}

/// The view of a decision.
pub enum FilterDecisionView {
    Reply(Seq<char>),
    ShowMenu,
    Add { category: Seq<char>, pattern: Seq<char>, reply: Seq<char> },
    Remove { category: Seq<char>, pattern: Seq<char>, reply: Seq<char> },
    Replace {
        category: Seq<char>,
        position: usize,
        old_pattern: Seq<char>,
        new_pattern: Seq<char>,
        reply: Seq<char>,
    },
}

impl View for FilterDecision {
    type V = FilterDecisionView;

    open spec fn view(&self) -> FilterDecisionView {
        match self {
            FilterDecision::Reply(m) => FilterDecisionView::Reply(m@),
            FilterDecision::ShowMenu => FilterDecisionView::ShowMenu,
            FilterDecision::Add { category, pattern, reply } => FilterDecisionView::Add {
                category: category@,
                pattern: pattern@,
                reply: reply@,
            },
            FilterDecision::Remove { category, pattern, reply } => FilterDecisionView::Remove {
                category: category@,
                pattern: pattern@,
                reply: reply@,
            },
            FilterDecision::Replace { category, position, old_pattern, new_pattern, reply } =>
                FilterDecisionView::Replace {
                category: category@,
                position: *position,
                old_pattern: old_pattern@,
                new_pattern: new_pattern@,
                reply: reply@,
            },
        }
    }
}

/// The index of the first category named `name`.
pub open spec fn find_category(cats: Seq<CategoryFilters>, name: Seq<char>) -> Option<int>
    decreases cats.len(),
{
    if cats.len() == 0 {
        None
    } else {
        match find_category(cats.drop_last(), name) {
            Some(i) => Some(i),
            None => if cats.last().name@ == name {
                Some(cats.len() - 1)
            } else {
                None
            },
        }
    }
}

/// The decimal text of a number.
pub open spec fn num(n: nat) -> Seq<char> {
    decimal_digits(n)
}

pub open spec fn msg_does_not_exist_create(c: Seq<char>) -> Seq<char> {
    "❌ Category `"@ + markdown_escape(c) + "` does not exist\\. Create it first with "@
        + markdown_escape(command_text(CommandView::AddCategory { name: Some(c) }))
}

pub open spec fn msg_filter_added(p: Seq<char>, c: Seq<char>) -> Seq<char> {
    "✅ Filter `"@ + markdown_escape(p) + "` added to category `"@ + markdown_escape(c) + "`\\."@
}

/// The reply to a pattern that did not compile, with the compile error.
pub open spec fn msg_invalid_regex(error: Seq<char>) -> Seq<char> {
    "❌ Invalid regex pattern: "@ + markdown_escape(error)
}

pub open spec fn msg_usage(head: Seq<char>, c: CommandView) -> Seq<char> {
    head + markdown_escape(command_text(c))
}

pub open spec fn msg_does_not_exist(c: Seq<char>) -> Seq<char> {
    "❌ Category `"@ + markdown_escape(c) + "` does not exist\\."@
}

pub open spec fn msg_invalid_position(pos: nat, c: Seq<char>, n: nat) -> Seq<char> {
    "❌ Invalid position `"@ + markdown_escape(num(pos)) + "`\\. Category `"@ + markdown_escape(c)
        + "` has **"@ + markdown_escape(num(n)) + "** filter\\(s\\) \\(indexed 0\\-"@
        + markdown_escape(num(if n > 0 { (n - 1) as nat } else { 0 })) + "\\)\\."@
}

pub open spec fn msg_filter_removed(pos: nat, p: Seq<char>, c: Seq<char>) -> Seq<char> {
    "✅ Filter **\\#"@ + markdown_escape(num(pos)) + "** \\(`"@ + markdown_escape(p)
        + "`\\) removed from category `"@ + markdown_escape(c) + "`\\."@
}

pub open spec fn msg_filter_updated(pos: nat, c: Seq<char>, old: Seq<char>, new: Seq<char>) -> Seq<
    char,
> {
    "✅ Filter **\\#"@ + markdown_escape(num(pos)) + "** updated in category `"@ + markdown_escape(c)
        + "`\\.\n**Old:** `"@ + markdown_escape(old) + "`\n**New:** `"@ + markdown_escape(new)
        + "`"@
}

/// What `/add_filter` decides, given the compile error of the pattern
/// (`None`: it compiled).
pub open spec fn add_filter_spec(
    cats: Seq<CategoryFilters>,
    category: Option<Seq<char>>,
    pattern: Option<Seq<char>>,
    pattern_error: Option<Seq<char>>,
) -> FilterDecisionView {
    match (category, pattern) {
        (Some(c), Some(p)) => if find_category(cats, c) is None {
            FilterDecisionView::Reply(msg_does_not_exist_create(c))
        } else {
            match pattern_error {
                None => FilterDecisionView::Add {
                    category: c,
                    pattern: p,
                    reply: msg_filter_added(p, c),
                },
                Some(e) => FilterDecisionView::Reply(msg_invalid_regex(e)),
            }
        },
        (None, None) => FilterDecisionView::ShowMenu,
        (Some(c), None) => FilterDecisionView::Reply(
            msg_usage(
                "❌ Missing pattern\\. Usage: "@,
                CommandView::AddFilter { category: Some(c), pattern: Some("pattern"@) },
            ),
        ),
        (None, Some(_)) => FilterDecisionView::Reply(
            msg_usage(
                "❌ Missing category\\. Usage: "@,
                CommandView::AddFilter { category: Some("category"@), pattern: Some("pattern"@) },
            ),
        ),
    }
}

/// What `/remove_filter` decides (positions count from 0).
pub open spec fn remove_filter_spec(
    cats: Seq<CategoryFilters>,
    category: Option<Seq<char>>,
    position: Option<usize>,
) -> FilterDecisionView {
    match (category, position) {
        (Some(c), Some(pos)) => match find_category(cats, c) {
            None => FilterDecisionView::Reply(msg_does_not_exist(c)),
            Some(k) => {
                let ps = string_views(cats[k].patterns@);
                if pos >= ps.len() {
                    FilterDecisionView::Reply(msg_invalid_position(pos as nat, c, ps.len()))
                } else {
                    FilterDecisionView::Remove {
                        category: c,
                        pattern: ps[pos as int],
                        reply: msg_filter_removed(pos as nat, ps[pos as int], c),
                    }
                }
            },
        },
        (None, None) => FilterDecisionView::ShowMenu,
        (Some(c), None) => FilterDecisionView::Reply(
            msg_usage(
                "❌ Missing position\\. Usage: "@,
                CommandView::RemoveFilter { category: Some(c), position: Some(0) },
            ),
        ),
        (None, Some(_)) => FilterDecisionView::Reply(
            msg_usage(
                "❌ Missing category\\. Usage: "@,
                CommandView::RemoveFilter { category: Some("category"@), position: Some(0) },
            ),
        ),
    }
}

/// What `/edit_filter` decides (positions count from 0), given the compile
/// error of the new pattern (`None`: it compiled).
pub open spec fn edit_filter_spec(
    cats: Seq<CategoryFilters>,
    category: Option<Seq<char>>,
    position: Option<usize>,
    pattern: Option<Seq<char>>,
    pattern_error: Option<Seq<char>>,
) -> FilterDecisionView {
    match (category, position, pattern) {
        (Some(c), Some(pos), Some(p)) => match find_category(cats, c) {
            None => FilterDecisionView::Reply(msg_does_not_exist(c)),
            Some(k) => {
                let ps = string_views(cats[k].patterns@);
                if pos >= ps.len() {
                    FilterDecisionView::Reply(msg_invalid_position(pos as nat, c, ps.len()))
                } else {
                    match pattern_error {
                        None => FilterDecisionView::Replace {
                            category: c,
                            position: pos,
                            old_pattern: ps[pos as int],
                            new_pattern: p,
                            reply: msg_filter_updated(pos as nat, c, ps[pos as int], p),
                        },
                        Some(e) => FilterDecisionView::Reply(msg_invalid_regex(e)),
                    }
                }
            },
        },
        (None, None, None) => FilterDecisionView::ShowMenu,
        (Some(c), Some(pos), None) => FilterDecisionView::Reply(
            msg_usage(
                "❌ Missing pattern\\. Usage: "@,
                CommandView::EditFilter {
                    category: Some(c),
                    position: Some(pos),
                    pattern: Some("new_pattern"@),
                },
            ),
        ),
        (Some(c), None, _) => FilterDecisionView::Reply(
            msg_usage(
                "❌ Missing position\\. Usage: "@,
                CommandView::EditFilter {
                    category: Some(c),
                    position: Some(0),
                    pattern: Some("new_pattern"@),
                },
            ),
        ),
        (None, _, _) => FilterDecisionView::Reply(
            msg_usage(
                "❌ Missing category\\. Usage: "@,
                CommandView::EditFilter {
                    category: Some("category"@),
                    position: Some(0),
                    pattern: Some("new_pattern"@),
                },
            ),
        ),
    }
}

/// The view of an optional string.
pub open spec fn ov(o: Option<String>) -> Option<Seq<char>> {
    crate::command::opt_view(o)
}

/// The first category named `name`.
pub fn find_category_exec(cats: &Vec<CategoryFilters>, name: &str) -> (r: Option<usize>)
    ensures
        match r {
            Some(i) => find_category(cats@, name@) == Some(i as int) && i < cats.len(),
            None => find_category(cats@, name@) is None,
        },
{
    let mut i: usize = 0;
    while i < cats.len()
        invariant
            i <= cats.len(),
            find_category(cats@.subrange(0, i as int), name@) is None,
        decreases cats.len() - i,
    {
        assert(cats@.subrange(0, i + 1).drop_last() =~= cats@.subrange(0, i as int));
        if str_eq(cats[i].name.as_str(), name) {
            proof {
                lemma_find_category_prefix(cats@, i + 1, name@);
            }
            return Some(i);
        }
        i = i + 1;
    }
    assert(cats@.subrange(0, cats@.len() as int) =~= cats@);
    None
}

proof fn lemma_find_category_prefix(cats: Seq<CategoryFilters>, n: int, name: Seq<char>)
    requires
        0 <= n <= cats.len(),
        find_category(cats.subrange(0, n), name) is Some,
    ensures
        find_category(cats, name) == find_category(cats.subrange(0, n), name),
    decreases cats.len() - n,
{
    if n < cats.len() {
        assert(cats.subrange(0, n + 1).drop_last() =~= cats.subrange(0, n));
        lemma_find_category_prefix(cats, n + 1, name);
    } else {
        assert(cats.subrange(0, n) =~= cats);
    }
}

fn push_escaped_num(out: &mut Vec<char>, n: usize)
    ensures
        final(out)@ == old(out)@ + markdown_escape(num(n as nat)),
{
    let d = decimal_digits_exec(n as u64);
    let s = string_from_chars(&d);
    escape_into(out, s.as_str());
}

fn usage(head: &str, c: Command) -> (r: String)
    ensures
        r@ == msg_usage(head@, c@),
{
    let mut out: Vec<char> = Vec::new();
    extend_str(&mut out, head);
    let t = c.to_string();
    escape_into(&mut out, t.as_str());
    string_from_chars(&out)
}

fn does_not_exist(c: &str) -> (r: String)
    ensures
        r@ == msg_does_not_exist(c@),
{
    let mut out: Vec<char> = Vec::new();
    extend_str(&mut out, "❌ Category `");
    escape_into(&mut out, c);
    extend_str(&mut out, "` does not exist\\.");
    string_from_chars(&out)
}

fn invalid_regex(e: &str) -> (r: String)
    ensures
        r@ == msg_invalid_regex(e@),
{
    let mut out: Vec<char> = Vec::new();
    extend_str(&mut out, "❌ Invalid regex pattern: ");
    escape_into(&mut out, e);
    string_from_chars(&out)
}

pub(crate) fn invalid_position(pos: usize, c: &str, n: usize) -> (r: String)
    ensures
        r@ == msg_invalid_position(pos as nat, c@, n as nat),
{
    let mut out: Vec<char> = Vec::new();
    extend_str(&mut out, "❌ Invalid position `");
    push_escaped_num(&mut out, pos);
    extend_str(&mut out, "`\\. Category `");
    escape_into(&mut out, c);
    extend_str(&mut out, "` has **");
    push_escaped_num(&mut out, n);
    extend_str(&mut out, "** filter\\(s\\) \\(indexed 0\\-");
    push_escaped_num(
        &mut out,
        if n > 0 {
            n - 1
        } else {
            0
        },
    );
    extend_str(&mut out, "\\)\\.");
    string_from_chars(&out)
}

/// Decides `/add_filter category pattern` once the pattern's compile error
/// (`None`: it compiled) is known: the category must exist and the pattern
/// must have compiled; with no argument the menu is shown; with one missing,
/// the usage is replied.
pub fn decide_add_filter(
    categories: &Vec<CategoryFilters>,
    category: Option<String>,
    pattern: Option<String>,
    pattern_error: Option<String>,
) -> (r: FilterDecision)
    ensures
        r@ == add_filter_spec(categories@, ov(category), ov(pattern), ov(pattern_error)),
{
    match (category, pattern) {
        (Some(c), Some(p)) => {
            if find_category_exec(categories, c.as_str()).is_none() {
                let mut out: Vec<char> = Vec::new();
                extend_str(&mut out, "❌ Category `");
                escape_into(&mut out, c.as_str());
                extend_str(&mut out, "` does not exist\\. Create it first with ");
                let t = Command::AddCategory { name: Some(c.clone()) }.to_string();
                escape_into(&mut out, t.as_str());
                return FilterDecision::Reply(string_from_chars(&out));
            }
            match pattern_error {
                None => {
                    let mut out: Vec<char> = Vec::new();
                    extend_str(&mut out, "✅ Filter `");
                    escape_into(&mut out, p.as_str());
                    extend_str(&mut out, "` added to category `");
                    escape_into(&mut out, c.as_str());
                    extend_str(&mut out, "`\\.");
                    let reply = string_from_chars(&out);
                    FilterDecision::Add { category: c, pattern: p, reply }
                },
                Some(e) => FilterDecision::Reply(invalid_regex(e.as_str())),
            }
        },
        (None, None) => FilterDecision::ShowMenu,
        (Some(c), None) => FilterDecision::Reply(
            usage(
                "❌ Missing pattern\\. Usage: ",
                Command::AddFilter { category: Some(c), pattern: Some("pattern".to_string()) },
            ),
        ),
        (None, Some(_)) => FilterDecision::Reply(
            usage(
                "❌ Missing category\\. Usage: ",
                Command::AddFilter {
                    category: Some("category".to_string()),
                    pattern: Some("pattern".to_string()),
                },
            ),
        ),
    }
}

/// Decides `/remove_filter category position`: the category must exist and
/// the position must index one of its filters.
pub fn remove_filter_decision(
    categories: &Vec<CategoryFilters>,
    category: Option<String>,
    position: Option<usize>,
) -> (r: FilterDecision)
    ensures
        r@ == remove_filter_spec(categories@, ov(category), position),
{
    match (category, position) {
        (Some(c), Some(pos)) => match find_category_exec(categories, c.as_str()) {
            None => FilterDecision::Reply(does_not_exist(c.as_str())),
            Some(k) => {
                let ps = &categories[k].patterns;
                proof {
                    assert(string_views(ps@).len() == ps@.len());
                }
                if pos >= ps.len() {
                    FilterDecision::Reply(invalid_position(pos, c.as_str(), ps.len()))
                } else {
                    let p = ps[pos].clone();
                    proof {
                        assert(string_views(ps@)[pos as int] == p@);
                    }
                    let mut out: Vec<char> = Vec::new();
                    extend_str(&mut out, "✅ Filter **\\#");
                    push_escaped_num(&mut out, pos);
                    extend_str(&mut out, "** \\(`");
                    escape_into(&mut out, p.as_str());
                    extend_str(&mut out, "`\\) removed from category `");
                    escape_into(&mut out, c.as_str());
                    extend_str(&mut out, "`\\.");
                    let reply = string_from_chars(&out);
                    FilterDecision::Remove { category: c, pattern: p, reply }
                }
            },
        },
        (None, None) => FilterDecision::ShowMenu,
        (Some(c), None) => FilterDecision::Reply(
            usage(
                "❌ Missing position\\. Usage: ",
                Command::RemoveFilter { category: Some(c), position: Some(0) },
            ),
        ),
        (None, Some(_)) => FilterDecision::Reply(
            usage(
                "❌ Missing category\\. Usage: ",
                Command::RemoveFilter { category: Some("category".to_string()), position: Some(0) },
            ),
        ),
    }
}

/// Decides `/edit_filter category position pattern` once the new pattern's
/// compile error (`None`: it compiled) is known: the category must exist, the
/// position must index one of its filters, and the new pattern must have
/// compiled.
pub fn decide_edit_filter(
    categories: &Vec<CategoryFilters>,
    category: Option<String>,
    position: Option<usize>,
    pattern: Option<String>,
    pattern_error: Option<String>,
) -> (r: FilterDecision)
    ensures
        r@ == edit_filter_spec(categories@, ov(category), position, ov(pattern), ov(pattern_error)),
{
    match (category, position, pattern) {
        (Some(c), Some(pos), Some(p)) => match find_category_exec(categories, c.as_str()) {
            None => FilterDecision::Reply(does_not_exist(c.as_str())),
            Some(k) => {
                let ps = &categories[k].patterns;
                proof {
                    assert(string_views(ps@).len() == ps@.len());
                }
                if pos >= ps.len() {
                    return FilterDecision::Reply(invalid_position(pos, c.as_str(), ps.len()));
                }
                match pattern_error {
                    None => {
                        let old = ps[pos].clone();
                        proof {
                            assert(string_views(ps@)[pos as int] == old@);
                        }
                        let mut out: Vec<char> = Vec::new();
                        extend_str(&mut out, "✅ Filter **\\#");
                        push_escaped_num(&mut out, pos);
                        extend_str(&mut out, "** updated in category `");
                        escape_into(&mut out, c.as_str());
                        extend_str(&mut out, "`\\.\n**Old:** `");
                        escape_into(&mut out, old.as_str());
                        extend_str(&mut out, "`\n**New:** `");
                        escape_into(&mut out, p.as_str());
                        extend_str(&mut out, "`");
                        let reply = string_from_chars(&out);
                        FilterDecision::Replace {
                            category: c,
                            position: pos,
                            old_pattern: old,
                            new_pattern: p,
                            reply,
                        }
                    },
                    Some(e) => FilterDecision::Reply(invalid_regex(e.as_str())),
                }
            },
        },
        (None, None, None) => FilterDecision::ShowMenu,
        (Some(c), Some(pos), None) => FilterDecision::Reply(
            usage(
                "❌ Missing pattern\\. Usage: ",
                Command::EditFilter {
                    category: Some(c),
                    position: Some(pos),
                    pattern: Some("new_pattern".to_string()),
                },
            ),
        ),
        (Some(c), None, _) => FilterDecision::Reply(
            usage(
                "❌ Missing position\\. Usage: ",
                Command::EditFilter {
                    category: Some(c),
                    position: Some(0),
                    pattern: Some("new_pattern".to_string()),
                },
            ),
        ),
        (None, _, _) => FilterDecision::Reply(
            usage(
                "❌ Missing category\\. Usage: ",
                Command::EditFilter {
                    category: Some("category".to_string()),
                    position: Some(0),
                    pattern: Some("new_pattern".to_string()),
                },
            ),
        ),
    }
}

/// Decides `/add_filter category pattern`: the category must exist and the
/// pattern must compile as a regular expression (it is compiled only then);
/// with no argument the menu is shown; with one missing, the usage is replied.
/// Whether the pattern compiles is the regex crate's outcome: the decision is
/// the one for a compiled pattern, or the one for its compile error.
pub fn add_filter_decision(
    categories: &Vec<CategoryFilters>,
    category: Option<String>,
    pattern: Option<String>,
) -> (r: FilterDecision)
    ensures
        r@ == add_filter_spec(categories@, ov(category), ov(pattern), None) || (ov(pattern) matches Some(
            p,
        ) && r@ == add_filter_spec(categories@, ov(category), ov(pattern), Some(regex_error_text(p)))),
{
    let mut outcome: Option<String> = None;
    if let Some(c) = &category {
        if let Some(p) = &pattern {
            if find_category_exec(categories, c.as_str()).is_some() {
                outcome = check_pattern(p.as_str());
            }
        }
    }
    decide_add_filter(categories, category, pattern, outcome)
}

/// Decides `/edit_filter category position pattern`: the category must exist,
/// the position must index one of its filters, and the new pattern must
/// compile (it is compiled only then). Whether it compiles is the regex
/// crate's outcome: the decision is the one for a compiled pattern, or the one
/// for its compile error.
pub fn edit_filter_decision(
    categories: &Vec<CategoryFilters>,
    category: Option<String>,
    position: Option<usize>,
    pattern: Option<String>,
) -> (r: FilterDecision)
    ensures
        r@ == edit_filter_spec(categories@, ov(category), position, ov(pattern), None) || (ov(
            pattern,
        ) matches Some(p) && r@ == edit_filter_spec(
            categories@,
            ov(category),
            position,
            ov(pattern),
            Some(regex_error_text(p)),
        )),
{
    let mut outcome: Option<String> = None;
    if let Some(c) = &category {
        if let (Some(pos), Some(p)) = (position, &pattern) {
            if let Some(k) = find_category_exec(categories, c.as_str()) {
                if pos < categories[k].patterns.len() {
                    outcome = check_pattern(p.as_str());
                }
            }
        }
    }
    decide_edit_filter(categories, category, position, pattern, outcome)
}

} // verus!
