//! The categories of a chat: named categories, each with its list of
//! regular-expression filters.

use vstd::prelude::*;

use crate::category::{category_parse, category_text, Category, CategoryView};
use crate::command::{command_text, Command, CommandView};
use crate::filters::{
    find_category, find_category_exec, invalid_position, msg_invalid_position, FilterDecision,
    FilterDecisionView,
};
use crate::markdown_string::{escape_into, markdown_escape, MarkdownString};
use crate::report::CategoryFilters;
use crate::lines::{lines_chars, lines_of, slice_chars, trim, trim_chars};
use crate::text::{chars_of, extend_str, str_eq, string_from_chars};
use crate::user_lists::remove_all;
use crate::words::string_views;

verus! {

/// The stored form of a category's filters: its list of patterns.
pub type CategoryData = Vec<String>;

/// The filters of a category as text.
pub open spec fn filter_views(c: CategoryFilters) -> Seq<Seq<char>> {
    string_views(c.patterns@)
}

/// The map from category names to filters; a later entry wins.
pub open spec fn entries_map(es: Seq<CategoryFilters>) -> Map<Seq<char>, Seq<Seq<char>>>
    decreases es.len(),
{
    if es.len() == 0 {
        Map::empty()
    } else {
        entries_map(es.drop_last()).insert(es.last().name@, filter_views(es.last()))
    }
}

/// No two entries share a name.
pub open spec fn unique_names(es: Seq<CategoryFilters>) -> bool {
    forall|i: int, j: int| 0 <= i < j < es.len() ==> es[i].name@ != es[j].name@
}

/// A name is in the map exactly when an entry has it, with that entry's
/// filters.
proof fn lemma_entries_map_index(es: Seq<CategoryFilters>, n: Seq<char>)
    requires
        unique_names(es),
    ensures
        entries_map(es).dom().contains(n) <==> find_category(es, n) is Some,
        find_category(es, n) matches Some(k) ==> 0 <= k < es.len() && es[k].name@ == n
            && entries_map(es)[n] == filter_views(es[k]),
    decreases es.len(),
{
    if es.len() > 0 {
        let init = es.drop_last();
        assert(unique_names(init)) by {
            assert forall|i: int, j: int| 0 <= i < j < init.len() implies init[i].name@
                != init[j].name@ by {
                assert(init[i] == es[i] && init[j] == es[j]);
            }
        }
        lemma_entries_map_index(init, n);
        if let Some(k) = find_category(init, n) {
            assert(es[k] == init[k]);
            assert(es.last().name@ != n) by {
                assert(es[k].name@ != es[es.len() - 1].name@);
            }
        }
    }
}

/// Replacing an entry by one of the same name replaces its filters.
proof fn lemma_entries_map_update(es: Seq<CategoryFilters>, k: int, e: CategoryFilters)
    requires
        unique_names(es),
        0 <= k < es.len(),
        e.name@ == es[k].name@,
    ensures
        unique_names(es.update(k, e)),
        entries_map(es.update(k, e)) == entries_map(es).insert(e.name@, filter_views(e)),
    decreases es.len(),
{
    let u = es.update(k, e);
    assert(unique_names(u)) by {
        assert forall|i: int, j: int| 0 <= i < j < u.len() implies u[i].name@ != u[j].name@ by {
            assert(u[i].name@ == es[i].name@ && u[j].name@ == es[j].name@);
        }
    }
    let init = es.drop_last();
    assert(unique_names(init)) by {
        assert forall|i: int, j: int| 0 <= i < j < init.len() implies init[i].name@
            != init[j].name@ by {
            assert(init[i] == es[i] && init[j] == es[j]);
        }
    }
    if k == es.len() - 1 {
        assert(u.drop_last() =~= init);
        lemma_entries_map_index(init, e.name@);
        if find_category(init, e.name@) is Some {
            let j = find_category(init, e.name@)->0;
            assert(es[j].name@ != es[k].name@);
        }
        assert(entries_map(u) =~= entries_map(es).insert(e.name@, filter_views(e)));
    } else {
        assert(u.drop_last() =~= init.update(k, e));
        lemma_entries_map_update(init, k, e);
        assert(es.last().name@ != e.name@) by {
            assert(es[k].name@ != es[es.len() - 1].name@);
        }
        assert(entries_map(u) =~= entries_map(es).insert(e.name@, filter_views(e)));
    }
}

/// Removing an entry removes its name.
proof fn lemma_entries_map_remove(es: Seq<CategoryFilters>, k: int)
    requires
        unique_names(es),
        0 <= k < es.len(),
    ensures
        unique_names(es.remove(k)),
        entries_map(es.remove(k)) == entries_map(es).remove(es[k].name@),
    decreases es.len(),
{
    let r = es.remove(k);
    assert(unique_names(r)) by {
        assert forall|i: int, j: int| 0 <= i < j < r.len() implies r[i].name@ != r[j].name@ by {
            let i2 = if i < k { i } else { i + 1 };
            let j2 = if j < k { j } else { j + 1 };
            assert(r[i] == es[i2] && r[j] == es[j2]);
        }
    }
    let init = es.drop_last();
    assert(unique_names(init)) by {
        assert forall|i: int, j: int| 0 <= i < j < init.len() implies init[i].name@
            != init[j].name@ by {
            assert(init[i] == es[i] && init[j] == es[j]);
        }
    }
    let n = es[k].name@;
    if k == es.len() - 1 {
        assert(r =~= init);
        lemma_entries_map_index(init, n);
        if find_category(init, n) is Some {
            let j = find_category(init, n)->0;
            assert(es[j].name@ != es[k].name@);
        }
        assert(entries_map(r) =~= entries_map(es).remove(n));
    } else {
        assert(r.drop_last() =~= init.remove(k));
        assert(r.last() == es.last());
        lemma_entries_map_remove(init, k);
        assert(es.last().name@ != n) by {
            assert(es[k].name@ != es[es.len() - 1].name@);
        }
        assert(entries_map(r) =~= entries_map(es).remove(n));
    }
}

/// Appending an entry with a new name keeps the names unique.
proof fn lemma_push_unique(es: Seq<CategoryFilters>, e: CategoryFilters)
    requires
        unique_names(es),
        find_category(es, e.name@) is None,
    ensures
        unique_names(es.push(e)),
{
    lemma_entries_map_index(es, e.name@);
    let p = es.push(e);
    assert forall|i: int, j: int| 0 <= i < j < p.len() implies p[i].name@ != p[j].name@ by {
        if j == es.len() {
            if p[i].name@ == e.name@ {
                lemma_find_category_some(es, i);
            }
        } else {
            assert(p[i] == es[i] && p[j] == es[j]);
        }
    }
}

/// A name held by an entry is found.
proof fn lemma_find_category_some(es: Seq<CategoryFilters>, i: int)
    requires
        0 <= i < es.len(),
    ensures
        find_category(es, es[i].name@) is Some,
    decreases es.len(),
{
    if i < es.len() - 1 {
        assert(es.drop_last()[i] == es[i]);
        lemma_find_category_some(es.drop_last(), i);
    }
}

// --- messages ---------------------------------------------------------------
pub open spec fn msg_special(head: Seq<char>, c: CategoryView, tail: Seq<char>) -> Seq<char> {
    head + markdown_escape(category_text(c)) + tail
}

pub open spec fn msg_not_exists(n: Seq<char>) -> Seq<char> {
    "Category "@ + markdown_escape(n) + " not exists"@
}

pub open spec fn msg_already_exists(n: Seq<char>) -> Seq<char> {
    "Category "@ + markdown_escape(n) + " already exists"@
}

pub open spec fn msg_category_exists(n: Seq<char>) -> Seq<char> {
    "ℹ️ Category `"@ + markdown_escape(n) + "` already exists\\. Use "@ + markdown_escape(
        "/add_filter"@,
    ) + " to add more patterns or "@ + markdown_escape("/categories"@) + " to view all\\."@
}

pub open spec fn msg_filter_exists(p: Seq<char>, n: Seq<char>) -> Seq<char> {
    "Filter `"@ + markdown_escape(p) + "` already exists in category `"@ + markdown_escape(n) + "`"@
}

pub open spec fn msg_filter_missing(p: Seq<char>, n: Seq<char>) -> Seq<char> {
    "Filter `"@ + markdown_escape(p) + "` does not exist in category `"@ + markdown_escape(n)
        + "`"@
}

fn message3(head: &str, a: &str, tail: &str) -> (r: MarkdownString)
    ensures
        r@ == head@ + markdown_escape(a@) + tail@,
{
    let mut out: Vec<char> = Vec::new();
    extend_str(&mut out, head);
    escape_into(&mut out, a);
    extend_str(&mut out, tail);
    MarkdownString::from_validated_string(string_from_chars(&out))
}

fn message5(head: &str, a: &str, mid: &str, b: &str, tail: &str) -> (r: MarkdownString)
    ensures
        r@ == head@ + markdown_escape(a@) + mid@ + markdown_escape(b@) + tail@,
{
    let mut out: Vec<char> = Vec::new();
    extend_str(&mut out, head);
    escape_into(&mut out, a);
    extend_str(&mut out, mid);
    escape_into(&mut out, b);
    extend_str(&mut out, tail);
    MarkdownString::from_validated_string(string_from_chars(&out))
}

// --- the store --------------------------------------------------------------
/// Filters after adding `p` to category `n`.
pub open spec fn with_filter(m: Map<Seq<char>, Seq<Seq<char>>>, n: Seq<char>, p: Seq<char>) -> Map<
    Seq<char>,
    Seq<Seq<char>>,
> {
    m.insert(n, m[n].push(p))
}

/// Filters after removing `p` from category `n`.
pub open spec fn without_filter(m: Map<Seq<char>, Seq<Seq<char>>>, n: Seq<char>, p: Seq<char>) -> Map<
    Seq<char>,
    Seq<Seq<char>>,
> {
    m.insert(n, remove_all(m[n], p))
}

/// Filters after putting `p` at index `i` of category `n`.
pub open spec fn with_filter_replaced(
    m: Map<Seq<char>, Seq<Seq<char>>>,
    n: Seq<char>,
    i: int,
    p: Seq<char>,
) -> Map<Seq<char>, Seq<Seq<char>>> {
    m.insert(n, m[n].update(i, p))
}

/// What carrying out a filter command's decision replies (`None`: show the
/// category menu) and the filters afterwards; a refused change replies the
/// store's error and changes nothing. Adding a filter that the category
/// already has leaves it as it is and still confirms the addition.
pub open spec fn filter_outcome(m: Map<Seq<char>, Seq<Seq<char>>>, d: FilterDecisionView) -> (
    Option<Seq<char>>,
    Map<Seq<char>, Seq<Seq<char>>>,
) {
    match d {
        FilterDecisionView::Reply(t) => (Some(t), m),
        FilterDecisionView::ShowMenu => (None, m),
        FilterDecisionView::Add { category: c, pattern: p, reply } => if !m.dom().contains(c) {
            (Some(msg_not_exists(c)), m)
        } else if m[c].contains(p) {
            (Some(reply), m)
        } else {
            (Some(reply), with_filter(m, c, p))
        },
        FilterDecisionView::Remove { category: c, pattern: p, reply } => if !m.dom().contains(c) {
            (Some(msg_not_exists(c)), m)
        } else if !m[c].contains(p) {
            (Some(msg_filter_missing(p, c)), m)
        } else {
            (Some(reply), without_filter(m, c, p))
        },
        FilterDecisionView::Replace { category: c, position: i, new_pattern: p, reply, .. } =>
            if !m.dom().contains(c) {
            (Some(msg_not_exists(c)), m)
        } else if i >= m[c].len() {
            (Some(msg_invalid_position(i as nat, c, m[c].len())), m)
        } else {
            (Some(reply), with_filter_replaced(m, c, i as int, p))
        },
    }
}

/// What `/add_category` and `/remove_category` answer.
pub enum CategoryReply {
    /// Plain text.
    Text(String),
    /// MarkdownV2 text.
    Markdown(String),
    /// Show the remove-category screen (no name was given).
    ShowRemoveMenu,
}

pub enum CategoryReplyView {
    Text(Seq<char>),
    Markdown(Seq<char>),
    ShowRemoveMenu,
}

impl View for CategoryReply {
    type V = CategoryReplyView;

    open spec fn view(&self) -> CategoryReplyView {
        match self {
            CategoryReply::Text(t) => CategoryReplyView::Text(t@),
            CategoryReply::Markdown(t) => CategoryReplyView::Markdown(t@),
            CategoryReply::ShowRemoveMenu => CategoryReplyView::ShowRemoveMenu,
        }
    }
}

/// What `/add_category name` does: the new categories and the reply. The
/// name must parse as a category; only a named category that does not exist
/// yet is added, with no filters.
pub open spec fn add_category_outcome(m: Map<Seq<char>, Seq<Seq<char>>>, name: Option<Seq<char>>) -> (
    Map<Seq<char>, Seq<Seq<char>>>,
    CategoryReplyView,
) {
    match name {
        None => (
            m,
            CategoryReplyView::Text(
                "❌ Missing category name. Usage: "@ + command_text(CommandView::AddCategory { name: None }),
            ),
        ),
        Some(s) => match category_parse(s) {
            Err(e) => (m, CategoryReplyView::Text("❌ "@ + e)),
            Ok(CategoryView::Named(n)) => if m.dom().contains(n) {
                (m, CategoryReplyView::Markdown(msg_category_exists(n)))
            } else {
                (
                    m.insert(n, Seq::empty()),
                    CategoryReplyView::Markdown("✅ Category `"@ + markdown_escape(s) + "` created\\."@),
                )
            },
            Ok(c) => (
                m,
                CategoryReplyView::Markdown(
                    msg_special(
                        "❌ Cannot add category `"@,
                        c,
                        "`\\. This is a special category\\. Only named categories can be stored\\."@,
                    ),
                ),
            ),
        },
    }
}

/// What `/remove_category name` does: the new categories and the reply. With
/// no name the remove-category screen is shown; otherwise the name must parse
/// as a named category that exists.
pub open spec fn remove_category_outcome(m: Map<Seq<char>, Seq<Seq<char>>>, name: Option<Seq<char>>) -> (
    Map<Seq<char>, Seq<Seq<char>>>,
    CategoryReplyView,
) {
    match name {
        None => (m, CategoryReplyView::ShowRemoveMenu),
        Some(s) => match category_parse(s) {
            Err(e) => (m, CategoryReplyView::Text("❌ "@ + e)),
            Ok(CategoryView::Named(n)) => if m.dom().contains(n) {
                (
                    m.remove(n),
                    CategoryReplyView::Markdown("✅ Category `"@ + markdown_escape(s) + "` removed\\."@),
                )
            } else {
                (m, CategoryReplyView::Markdown(msg_not_exists(n)))
            },
            Ok(c) => (
                m,
                CategoryReplyView::Markdown(
                    msg_special(
                        "❌ Cannot remove category `"@,
                        c,
                        "`\\. Only named categories can be stored\\."@,
                    ),
                ),
            ),
        },
    }
}

/// The result of carrying out a filter command: a MarkdownV2 reply, or the
/// category menu to show.
pub enum FilterOutcome {
    Reply(String),
    ShowMenu,
}

/// The categories of a chat.
pub struct CategoryStorage {
    entries: Vec<CategoryFilters>,
}

impl View for CategoryStorage {
    type V = Map<Seq<char>, Seq<Seq<char>>>;

    closed spec fn view(&self) -> Map<Seq<char>, Seq<Seq<char>>> {
        entries_map(self.entries@)
    }
}

impl CategoryStorage {
    #[verifier::type_invariant]
    spec fn names_unique(self) -> bool {
        unique_names(self.entries@)
    }

    /// No categories.
    pub fn new() -> (r: CategoryStorage)
        ensures
            r@ == Map::<Seq<char>, Seq<Seq<char>>>::empty(),
    {
        CategoryStorage { entries: Vec::new() }
    }

    /// The categories with their filters (one entry per name).
    pub fn get_categories(&self) -> (r: Result<Vec<CategoryFilters>, MarkdownString>)
        ensures
            r matches Ok(v) && entries_map(v@) == self@ && unique_names(v@),
    {
        proof {
            use_type_invariant(self);
        }
        let mut v: Vec<CategoryFilters> = Vec::new();
        let mut i: usize = 0;
        while i < self.entries.len()
            invariant
                i <= self.entries.len(),
                v@.len() == i,
                forall|k: int|
                    0 <= k < i ==> (#[trigger] v@[k]).name@ == self.entries@[k].name@ && filter_views(
                        v@[k],
                    ) == filter_views(self.entries@[k]),
            decreases self.entries.len() - i,
        {
            let e = &self.entries[i];
            let c = clone_entry(e);
            v.push(c);
            i = i + 1;
        }
        proof {
            lemma_same_entries(v@, self.entries@);
        }
        Ok(v)
    }

    /// Adds a named category with no filters; the special categories and an
    /// existing name are refused.
    pub fn add_category(&mut self, category: &Category) -> (r: Result<(), MarkdownString>)
        ensures
            match category@ {
                CategoryView::Named(n) => if old(self)@.dom().contains(n) {
                    r matches Err(e) && e@ == msg_category_exists(n) && final(self)@ == old(self)@
                } else {
                    r is Ok && final(self)@ == old(self)@.insert(n, Seq::empty())
                },
                _ => r matches Err(e) && e@ == msg_special(
                    "❌ Cannot add category `"@,
                    category@,
                    "`\\. This is a special category\\. Only named categories can be stored\\."@,
                ) && final(self)@ == old(self)@,
            },
    {
        proof {
            use_type_invariant(&*self);
        }
        let name = match category {
            Category::Category(n) => n,
            _ => {
                return Err(
                    message3(
                        "❌ Cannot add category `",
                        category.as_str(),
                        "`\\. This is a special category\\. Only named categories can be stored\\.",
                    ),
                );
            },
        };
        proof {
            lemma_entries_map_index(self.entries@, name@);
        }
        if find_category_exec(&self.entries, name.as_str()).is_some() {
            let mut out: Vec<char> = Vec::new();
            extend_str(&mut out, "ℹ️ Category `");
            escape_into(&mut out, name.as_str());
            extend_str(&mut out, "` already exists\\. Use ");
            escape_into(&mut out, "/add_filter");
            extend_str(&mut out, " to add more patterns or ");
            escape_into(&mut out, "/categories");
            extend_str(&mut out, " to view all\\.");
            return Err(MarkdownString::from_validated_string(string_from_chars(&out)));
        }
        let e = CategoryFilters { name: name.clone(), patterns: Vec::new() };
        proof {
            lemma_push_unique(self.entries@, e);
            assert(filter_views(e) =~= Seq::<Seq<char>>::empty());
            assert(self.entries@.push(e).drop_last() =~= self.entries@);
        }
        let mut es: Vec<CategoryFilters> = Vec::new();
        std::mem::swap(&mut es, &mut self.entries);
        es.push(e);
        self.entries = es;
        Ok(())
    }

    /// Adds a filter to a named category; a special category, a missing
    /// category and a filter already there are refused.
    pub fn add_category_filter(&mut self, category: &Category, regex_pattern: String) -> (r: Result<
        (),
        MarkdownString,
    >)
        ensures
            match category@ {
                CategoryView::Named(n) => if !old(self)@.dom().contains(n) {
                    r matches Err(e) && e@ == msg_not_exists(n) && final(self)@ == old(self)@
                } else if old(self)@[n].contains(regex_pattern@) {
                    r matches Err(e) && e@ == msg_filter_exists(regex_pattern@, n) && final(self)@
                        == old(self)@
                } else {
                    r is Ok && final(self)@ == with_filter(old(self)@, n, regex_pattern@)
                },
                _ => r matches Err(e) && e@ == msg_special(
                    "❌ Cannot add filters to category `"@,
                    category@,
                    "`\\. Only named categories can be stored\\."@,
                ) && final(self)@ == old(self)@,
            },
    {
        proof {
            use_type_invariant(&*self);
        }
        let name = match category {
            Category::Category(n) => n,
            _ => {
                return Err(
                    message3(
                        "❌ Cannot add filters to category `",
                        category.as_str(),
                        "`\\. Only named categories can be stored\\.",
                    ),
                );
            },
        };
        proof {
            lemma_entries_map_index(self.entries@, name@);
        }
        let k = match find_category_exec(&self.entries, name.as_str()) {
            Some(k) => k,
            None => {
                return Err(message3("Category ", name.as_str(), " not exists"));
            },
        };
        if contains_pattern(&self.entries[k].patterns, regex_pattern.as_str()) {
            return Err(
                message5(
                    "Filter `",
                    regex_pattern.as_str(),
                    "` already exists in category `",
                    name.as_str(),
                    "`",
                ),
            );
        }
        let mut ps = clone_patterns(&self.entries[k].patterns);
        let ghost before = string_views(ps@);
        ps.push(regex_pattern);
        assert(string_views(ps@) =~= before.push(regex_pattern@));
        let e = CategoryFilters { name: name.clone(), patterns: ps };
        proof {
            lemma_entries_map_update(self.entries@, k as int, e);
        }
        let mut es: Vec<CategoryFilters> = Vec::new();
        std::mem::swap(&mut es, &mut self.entries);
        es.set(k, e);
        self.entries = es;
        Ok(())
    }

    /// Puts a new filter in place of the filter at `position` of a named
    /// category, which keeps its place among the others; a special category,
    /// a missing category and a position past its filters are refused.
    pub fn replace_category_filter(
        &mut self,
        category: &Category,
        position: usize,
        regex_pattern: String,
    ) -> (r: Result<(), MarkdownString>)
        ensures
            match category@ {
                CategoryView::Named(n) => if !old(self)@.dom().contains(n) {
                    r matches Err(e) && e@ == msg_not_exists(n) && final(self)@ == old(self)@
                } else if position >= old(self)@[n].len() {
                    r matches Err(e) && e@ == msg_invalid_position(
                        position as nat,
                        n,
                        old(self)@[n].len(),
                    ) && final(self)@ == old(self)@
                } else {
                    r is Ok && final(self)@ == with_filter_replaced(
                        old(self)@,
                        n,
                        position as int,
                        regex_pattern@,
                    )
                },
                _ => r matches Err(e) && e@ == msg_special(
                    "❌ Cannot edit filters of category `"@,
                    category@,
                    "`\\. Only named categories can be stored\\."@,
                ) && final(self)@ == old(self)@,
            },
    {
        proof {
            use_type_invariant(&*self);
        }
        let name = match category {
            Category::Category(n) => n,
            _ => {
                return Err(
                    message3(
                        "❌ Cannot edit filters of category `",
                        category.as_str(),
                        "`\\. Only named categories can be stored\\.",
                    ),
                );
            },
        };
        proof {
            lemma_entries_map_index(self.entries@, name@);
        }
        let k = match find_category_exec(&self.entries, name.as_str()) {
            Some(k) => k,
            None => {
                return Err(message3("Category ", name.as_str(), " not exists"));
            },
        };
        let n = self.entries[k].patterns.len();
        if position >= n {
            return Err(
                MarkdownString::from_validated_string(invalid_position(position, name.as_str(), n)),
            );
        }
        let mut ps = clone_patterns(&self.entries[k].patterns);
        let ghost before = string_views(ps@);
        assert(ps@.len() == before.len() && before.len() == self.entries@[k as int].patterns@.len());
        ps.set(position, regex_pattern);
        assert(string_views(ps@) =~= before.update(position as int, regex_pattern@));
        let e = CategoryFilters { name: name.clone(), patterns: ps };
        proof {
            lemma_entries_map_update(self.entries@, k as int, e);
        }
        let mut es: Vec<CategoryFilters> = Vec::new();
        std::mem::swap(&mut es, &mut self.entries);
        es.set(k, e);
        self.entries = es;
        Ok(())
    }

    /// Carries out a filter command's decision on the categories (see
    /// `filter_outcome`); an edited filter keeps its place.
    pub fn apply_filter_decision(&mut self, decision: FilterDecision) -> (r: FilterOutcome)
        ensures
            (
                match r {
                    FilterOutcome::Reply(t) => Some(t@),
                    FilterOutcome::ShowMenu => None,
                },
                final(self)@,
            ) == filter_outcome(old(self)@, decision@),
    {
        match decision {
            FilterDecision::Reply(t) => FilterOutcome::Reply(t),
            FilterDecision::ShowMenu => FilterOutcome::ShowMenu,
            FilterDecision::Add { category, pattern, reply } => {
                proof {
                    use_type_invariant(&*self);
                    lemma_entries_map_index(self.entries@, category@);
                }
                let known = find_category_exec(&self.entries, category.as_str()).is_some();
                match self.add_category_filter(&Category::Category(category), pattern) {
                    Ok(()) => FilterOutcome::Reply(reply),
                    Err(e) => if known {
                        FilterOutcome::Reply(reply)
                    } else {
                        FilterOutcome::Reply(e.into_string())
                    },
                }
            },
            FilterDecision::Remove { category, pattern, reply } => {
                match self.remove_category_filter(&Category::Category(category), pattern.as_str()) {
                    Ok(()) => FilterOutcome::Reply(reply),
                    Err(e) => FilterOutcome::Reply(e.into_string()),
                }
            },
            FilterDecision::Replace { category, position, old_pattern: _, new_pattern, reply } => {
                match self.replace_category_filter(
                    &Category::Category(category),
                    position,
                    new_pattern,
                ) {
                    Ok(()) => FilterOutcome::Reply(reply),
                    Err(e) => FilterOutcome::Reply(e.into_string()),
                }
            },
        }
    }

    /// Runs `/add_category name` (see `add_category_outcome`).
    pub fn add_category_command(&mut self, name: Option<String>) -> (r: CategoryReply)
        ensures
            (final(self)@, r@) == add_category_outcome(old(self)@, crate::command::opt_view(name)),
    {
        match name {
            None => {
                let mut out: Vec<char> = Vec::new();
                extend_str(&mut out, "❌ Missing category name. Usage: ");
                let t = Command::AddCategory { name: None }.to_string();
                extend_str(&mut out, t.as_str());
                CategoryReply::Text(string_from_chars(&out))
            },
            Some(n) => match Category::from_string(n.as_str()) {
                Err(e) => {
                    let mut out: Vec<char> = Vec::new();
                    extend_str(&mut out, "❌ ");
                    extend_str(&mut out, e.as_str());
                    CategoryReply::Text(string_from_chars(&out))
                },
                Ok(c) => match self.add_category(&c) {
                    Ok(()) => CategoryReply::Markdown(message3("✅ Category `", n.as_str(), "` created\\.").into_string()),
                    Err(m) => CategoryReply::Markdown(m.into_string()),
                },
            },
        }
    }

    /// Runs `/remove_category name` (see `remove_category_outcome`).
    pub fn remove_category_command(&mut self, name: Option<String>) -> (r: CategoryReply)
        ensures
            (final(self)@, r@) == remove_category_outcome(old(self)@, crate::command::opt_view(name)),
    {
        match name {
            None => CategoryReply::ShowRemoveMenu,
            Some(n) => match Category::from_string(n.as_str()) {
                Err(e) => {
                    let mut out: Vec<char> = Vec::new();
                    extend_str(&mut out, "❌ ");
                    extend_str(&mut out, e.as_str());
                    CategoryReply::Text(string_from_chars(&out))
                },
                Ok(c) => match self.remove_category(&c) {
                    Ok(()) => CategoryReply::Markdown(message3("✅ Category `", n.as_str(), "` removed\\.").into_string()),
                    Err(m) => CategoryReply::Markdown(m.into_string()),
                },
            },
        }
    }

    /// Removes a filter from a named category; a special category, a missing
    /// category and a filter not there are refused.
    pub fn remove_category_filter(&mut self, category: &Category, regex_pattern: &str) -> (r: Result<
        (),
        MarkdownString,
    >)
        ensures
            match category@ {
                CategoryView::Named(n) => if !old(self)@.dom().contains(n) {
                    r matches Err(e) && e@ == msg_not_exists(n) && final(self)@ == old(self)@
                } else if !old(self)@[n].contains(regex_pattern@) {
                    r matches Err(e) && e@ == msg_filter_missing(regex_pattern@, n) && final(self)@
                        == old(self)@
                } else {
                    r is Ok && final(self)@ == without_filter(old(self)@, n, regex_pattern@)
                },
                _ => r matches Err(e) && e@ == msg_special(
                    "❌ Cannot remove filters from category `"@,
                    category@,
                    "`\\. Only named categories can be stored\\."@,
                ) && final(self)@ == old(self)@,
            },
    {
        proof {
            use_type_invariant(&*self);
        }
        let name = match category {
            Category::Category(n) => n,
            _ => {
                return Err(
                    message3(
                        "❌ Cannot remove filters from category `",
                        category.as_str(),
                        "`\\. Only named categories can be stored\\.",
                    ),
                );
            },
        };
        proof {
            lemma_entries_map_index(self.entries@, name@);
        }
        let k = match find_category_exec(&self.entries, name.as_str()) {
            Some(k) => k,
            None => {
                return Err(message3("Category ", name.as_str(), " not exists"));
            },
        };
        if !contains_pattern(&self.entries[k].patterns, regex_pattern) {
            return Err(
                message5(
                    "Filter `",
                    regex_pattern,
                    "` does not exist in category `",
                    name.as_str(),
                    "`",
                ),
            );
        }
        let ps = patterns_without(&self.entries[k].patterns, regex_pattern);
        let e = CategoryFilters { name: name.clone(), patterns: ps };
        proof {
            lemma_entries_map_update(self.entries@, k as int, e);
        }
        let mut es: Vec<CategoryFilters> = Vec::new();
        std::mem::swap(&mut es, &mut self.entries);
        es.set(k, e);
        self.entries = es;
        Ok(())
    }

    /// Removes a named category; a special category and a missing one are
    /// refused.
    pub fn remove_category(&mut self, category: &Category) -> (r: Result<(), MarkdownString>)
        ensures
            match category@ {
                CategoryView::Named(n) => if !old(self)@.dom().contains(n) {
                    r matches Err(e) && e@ == msg_not_exists(n) && final(self)@ == old(self)@
                } else {
                    r is Ok && final(self)@ == old(self)@.remove(n)
                },
                _ => r matches Err(e) && e@ == msg_special(
                    "❌ Cannot remove category `"@,
                    category@,
                    "`\\. Only named categories can be stored\\."@,
                ) && final(self)@ == old(self)@,
            },
    {
        proof {
            use_type_invariant(&*self);
        }
        let name = match category {
            Category::Category(n) => n,
            _ => {
                return Err(
                    message3(
                        "❌ Cannot remove category `",
                        category.as_str(),
                        "`\\. Only named categories can be stored\\.",
                    ),
                );
            },
        };
        proof {
            lemma_entries_map_index(self.entries@, name@);
        }
        let k = match find_category_exec(&self.entries, name.as_str()) {
            Some(k) => k,
            None => {
                return Err(message3("Category ", name.as_str(), " not exists"));
            },
        };
        proof {
            lemma_entries_map_remove(self.entries@, k as int);
        }
        let mut es: Vec<CategoryFilters> = Vec::new();
        std::mem::swap(&mut es, &mut self.entries);
        es.remove(k);
        self.entries = es;
        Ok(())
    }

    /// Renames a named category, keeping its filters; special categories, a
    /// missing old name and an existing new name are refused.
    pub fn rename_category(&mut self, old_category: &Category, new_category: &Category) -> (r:
        Result<(), MarkdownString>)
        ensures
            match (old_category@, new_category@) {
                (CategoryView::Named(o), CategoryView::Named(n)) => if !old(self)@.dom().contains(
                    o,
                ) {
                    r matches Err(e) && e@ == msg_not_exists(o) && final(self)@ == old(self)@
                } else if old(self)@.dom().contains(n) {
                    r matches Err(e) && e@ == msg_already_exists(n) && final(self)@ == old(self)@
                } else {
                    r is Ok && final(self)@ == old(self)@.remove(o).insert(n, old(self)@[o])
                },
                (CategoryView::Named(_), _) => r matches Err(e) && e@ == msg_special(
                    "❌ Cannot rename to category `"@,
                    new_category@,
                    "`\\. Only named categories can be stored\\."@,
                ) && final(self)@ == old(self)@,
                _ => r matches Err(e) && e@ == msg_special(
                    "❌ Cannot rename category `"@,
                    old_category@,
                    "`\\. Only named categories can be stored\\."@,
                ) && final(self)@ == old(self)@,
            },
    {
        proof {
            use_type_invariant(&*self);
        }
        let old_name = match old_category {
            Category::Category(n) => n,
            _ => {
                return Err(
                    message3(
                        "❌ Cannot rename category `",
                        old_category.as_str(),
                        "`\\. Only named categories can be stored\\.",
                    ),
                );
            },
        };
        let new_name = match new_category {
            Category::Category(n) => n,
            _ => {
                return Err(
                    message3(
                        "❌ Cannot rename to category `",
                        new_category.as_str(),
                        "`\\. Only named categories can be stored\\.",
                    ),
                );
            },
        };
        proof {
            lemma_entries_map_index(self.entries@, old_name@);
            lemma_entries_map_index(self.entries@, new_name@);
        }
        let k = match find_category_exec(&self.entries, old_name.as_str()) {
            Some(k) => k,
            None => {
                return Err(message3("Category ", old_name.as_str(), " not exists"));
            },
        };
        if find_category_exec(&self.entries, new_name.as_str()).is_some() {
            return Err(message3("Category ", new_name.as_str(), " already exists"));
        }
        let ps = clone_patterns(&self.entries[k].patterns);
        let e = CategoryFilters { name: new_name.clone(), patterns: ps };
        let ghost es0 = self.entries@;
        proof {
            lemma_push_unique(es0, e);
            assert(es0.push(e).drop_last() =~= es0);
            lemma_entries_map_remove(es0.push(e), k as int);
            assert(es0.push(e)[k as int] == es0[k as int]);
        }
        let mut es: Vec<CategoryFilters> = Vec::new();
        std::mem::swap(&mut es, &mut self.entries);
        es.push(e);
        es.remove(k);
        self.entries = es;
        proof {
            assert(entries_map(self.entries@) =~= entries_map(es0).remove(old_name@).insert(
                new_name@,
                entries_map(es0)[old_name@],
            ));
        }
        Ok(())
    }

    /// Replaces all categories; for a name given twice the later entry wins.
    pub fn replace_categories(&mut self, categories: Vec<CategoryFilters>) -> (r: Result<
        (),
        MarkdownString,
    >)
        ensures
            r is Ok,
            final(self)@ == entries_map(categories@),
    {
        let mut fresh = CategoryStorage { entries: Vec::new() };
        let mut i: usize = 0;
        while i < categories.len()
            invariant
                i <= categories.len(),
                fresh@ == entries_map(categories@.subrange(0, i as int)),
            decreases categories.len() - i,
        {
            assert(categories@.subrange(0, i + 1).drop_last() =~= categories@.subrange(0, i as int));
            fresh.set_entry(clone_entry(&categories[i]));
            i = i + 1;
        }
        assert(categories@.subrange(0, categories@.len() as int) =~= categories@);
        *self = fresh;
        Ok(())
    }

    /// Sets the filters of a category, adding it if it is new.
    fn set_entry(&mut self, e: CategoryFilters)
        ensures
            final(self)@ == old(self)@.insert(e.name@, filter_views(e)),
    {
        proof {
            use_type_invariant(&*self);
            lemma_entries_map_index(self.entries@, e.name@);
        }
        match find_category_exec(&self.entries, e.name.as_str()) {
            Some(k) => {
                proof {
                    lemma_entries_map_update(self.entries@, k as int, e);
                }
                let mut es: Vec<CategoryFilters> = Vec::new();
                std::mem::swap(&mut es, &mut self.entries);
                es.set(k, e);
                self.entries = es;
            },
            None => {
                proof {
                    lemma_push_unique(self.entries@, e);
                    assert(self.entries@.push(e).drop_last() =~= self.entries@);
                }
                let mut es: Vec<CategoryFilters> = Vec::new();
                std::mem::swap(&mut es, &mut self.entries);
                es.push(e);
                self.entries = es;
            },
        }
    }
}

proof fn lemma_same_entries(a: Seq<CategoryFilters>, b: Seq<CategoryFilters>)
    requires
        a.len() == b.len(),
        unique_names(b),
        forall|k: int|
            0 <= k < a.len() ==> (#[trigger] a[k]).name@ == b[k].name@ && filter_views(a[k])
                == filter_views(b[k]),
    ensures
        entries_map(a) == entries_map(b),
        unique_names(a),
    decreases a.len(),
{
    assert(unique_names(a)) by {
        assert forall|i: int, j: int| 0 <= i < j < a.len() implies a[i].name@ != a[j].name@ by {
            assert(a[i].name@ == b[i].name@ && a[j].name@ == b[j].name@);
        }
    }
    if a.len() > 0 {
        let a0 = a.drop_last();
        let b0 = b.drop_last();
        assert(unique_names(b0)) by {
            assert forall|i: int, j: int| 0 <= i < j < b0.len() implies b0[i].name@
                != b0[j].name@ by {
                assert(b0[i] == b[i] && b0[j] == b[j]);
            }
        }
        assert forall|k: int| 0 <= k < a0.len() implies (#[trigger] a0[k]).name@ == b0[k].name@
            && filter_views(a0[k]) == filter_views(b0[k]) by {
            assert(a0[k] == a[k] && b0[k] == b[k]);
        }
        lemma_same_entries(a0, b0);
        assert(a.last() == a[a.len() - 1]);
        assert(b.last() == b[b.len() - 1]);
    }
}

fn clone_patterns(ps: &Vec<String>) -> (r: Vec<String>)
    ensures
        string_views(r@) == string_views(ps@),
{
    let mut r: Vec<String> = Vec::new();
    let mut i: usize = 0;
    while i < ps.len()
        invariant
            i <= ps.len(),
            string_views(r@) == string_views(ps@).subrange(0, i as int),
        decreases ps.len() - i,
    {
        let ghost before = string_views(r@);
        r.push(ps[i].clone());
        assert(string_views(r@) =~= before.push(ps@[i as int]@));
        assert(string_views(ps@)[i as int] == ps@[i as int]@);
        assert(string_views(r@) =~= string_views(ps@).subrange(0, i + 1));
        i = i + 1;
    }
    assert(string_views(ps@).subrange(0, ps@.len() as int) =~= string_views(ps@));
    r
}

fn clone_entry(e: &CategoryFilters) -> (r: CategoryFilters)
    ensures
        r.name@ == e.name@,
        filter_views(r) == filter_views(*e),
{
    CategoryFilters { name: e.name.clone(), patterns: clone_patterns(&e.patterns) }
}

fn contains_pattern(v: &Vec<String>, s: &str) -> (r: bool)
    ensures
        r == string_views(v@).contains(s@),
{
    let mut i: usize = 0;
    while i < v.len()
        invariant
            i <= v.len(),
            forall|k: int| 0 <= k < i ==> v@[k]@ != s@,
        decreases v.len() - i,
    {
        if str_eq(v[i].as_str(), s) {
            assert(string_views(v@)[i as int] == s@);
            return true;
        }
        i = i + 1;
    }
    assert forall|k: int| 0 <= k < string_views(v@).len() implies string_views(v@)[k] != s@ by {
        assert(string_views(v@)[k] == v@[k]@);
    }
    false
}

fn patterns_without(v: &Vec<String>, s: &str) -> (r: Vec<String>)
    ensures
        string_views(r@) == remove_all(string_views(v@), s@),
{
    let ghost sv = string_views(v@);
    let mut r: Vec<String> = Vec::new();
    let mut i: usize = 0;
    while i < v.len()
        invariant
            i <= v.len(),
            sv == string_views(v@),
            string_views(r@) == remove_all(sv.subrange(0, i as int), s@),
        decreases v.len() - i,
    {
        assert(sv.subrange(0, i + 1).drop_last() =~= sv.subrange(0, i as int));
        assert(sv[i as int] == v@[i as int]@);
        if !str_eq(v[i].as_str(), s) {
            let ghost before = string_views(r@);
            r.push(v[i].clone());
            assert(string_views(r@) =~= before.push(v@[i as int]@));
        }
        i = i + 1;
    }
    assert(sv.subrange(0, sv.len() as int) =~= sv);
    r
}

// ---------------------------------------------------------------------------
// The categories file: `[name]` lines, each followed by its filters
// ---------------------------------------------------------------------------
/// A section header line: `[` ... `]`.
pub open spec fn is_header(l: Seq<char>) -> bool {
    l.len() > 0 && l[0] == '[' && l.last() == ']'
}

/// The categories read so far, and the category that filter lines go to.
pub type ReadState = (Map<Seq<char>, Seq<Seq<char>>>, Option<Seq<char>>);

/// Reading one line: blank lines are skipped; a header starts (or resumes) a
/// category; any other line, trimmed, is a filter of the current category
/// (and is dropped before the first header).
pub open spec fn read_line(st: ReadState, line: Seq<char>) -> ReadState {
    let l = trim(line);
    if l.len() == 0 {
        st
    } else if is_header(l) {
        let n = l.subrange(1, l.len() - 1);
        (
            if st.0.dom().contains(n) {
                st.0
            } else {
                st.0.insert(n, Seq::empty())
            },
            Some(n),
        )
    } else {
        match st.1 {
            Some(c) => (st.0.insert(c, st.0[c].push(l)), st.1),
            None => st,
        }
    }
}

/// Reading lines from a state.
pub open spec fn read_lines(st: ReadState, ls: Seq<Seq<char>>) -> ReadState
    decreases ls.len(),
{
    if ls.len() == 0 {
        st
    } else {
        read_line(read_lines(st, ls.drop_last()), ls.last())
    }
}

/// The categories a file holds.
pub open spec fn categories_from_text(content: Seq<char>) -> Map<Seq<char>, Seq<Seq<char>>> {
    read_lines((Map::empty(), None), lines_of(content)).0
}

/// The lines of the file: per category its header `[name]`, its filters,
/// and a blank line.
pub open spec fn file_lines(es: Seq<CategoryFilters>) -> Seq<Seq<char>>
    decreases es.len(),
{
    if es.len() == 0 {
        Seq::empty()
    } else {
        file_lines(es.drop_last()) + seq!["["@ + es.last().name@ + "]"@] + filter_views(es.last())
            + seq![Seq::<char>::empty()]
    }
}

/// Lines each followed by `\n`.
pub open spec fn terminated(ls: Seq<Seq<char>>) -> Seq<char>
    decreases ls.len(),
{
    if ls.len() == 0 {
        Seq::empty()
    } else {
        terminated(ls.drop_last()) + ls.last() + "\n"@
    }
}

/// The text of the categories file.
pub open spec fn categories_text(es: Seq<CategoryFilters>) -> Seq<char> {
    terminated(file_lines(es))
}

fn push_line_chars(out: &mut Vec<char>, s: &str)
    ensures
        final(out)@ == old(out)@ + s@ + "\n"@,
{
    extend_str(out, s);
    extend_str(out, "\n");
}

/// Writes the categories file.
pub fn format_categories_to_string(categories: &Vec<CategoryFilters>) -> (r: String)
    ensures
        r@ == categories_text(categories@),
{
    let mut out: Vec<char> = Vec::new();
    let mut i: usize = 0;
    while i < categories.len()
        invariant
            i <= categories.len(),
            out@ == terminated(file_lines(categories@.subrange(0, i as int))),
        decreases categories.len() - i,
    {
        let ghost pre = categories@.subrange(0, i as int);
        let ghost post = categories@.subrange(0, i + 1);
        assert(post.drop_last() =~= pre);
        let e = &categories[i];
        let ghost base = file_lines(pre) + seq!["["@ + e.name@ + "]"@];
        let mut header: Vec<char> = Vec::new();
        extend_str(&mut header, "[");
        extend_str(&mut header, e.name.as_str());
        extend_str(&mut header, "]");
        let hs = string_from_chars(&header);
        push_line_chars(&mut out, hs.as_str());
        proof {
            assert(base.drop_last() =~= file_lines(pre));
            assert(out@ =~= terminated(base));
        }
        let ghost ps = filter_views(*e);
        let mut j: usize = 0;
        while j < e.patterns.len()
            invariant
                j <= e.patterns@.len(),
                ps == filter_views(*e),
                out@ == terminated(base + ps.subrange(0, j as int)),
            decreases e.patterns.len() - j,
        {
            push_line_chars(&mut out, e.patterns[j].as_str());
            proof {
                assert(ps[j as int] == e.patterns@[j as int]@);
                assert((base + ps.subrange(0, j + 1)).drop_last() =~= base + ps.subrange(0, j as int));
            }
            j = j + 1;
        }
        push_line_chars(&mut out, "");
        proof {
            reveal_strlit("");
            assert(ps.subrange(0, ps.len() as int) =~= ps);
            let all = base + ps + seq![Seq::<char>::empty()];
            assert(all.drop_last() =~= base + ps);
            assert(all.last() == Seq::<char>::empty());
            assert(out@ =~= terminated(all));
            assert(post.last() == *e);
            assert(file_lines(post) =~= all);
        }
        i = i + 1;
    }
    assert(categories@.subrange(0, categories@.len() as int) =~= categories@);
    string_from_chars(&out)
}

/// Reads the categories file (one entry per name).
pub fn parse_categories_from_string(content: &str) -> (r: Vec<CategoryFilters>)
    ensures
        unique_names(r@),
        entries_map(r@) == categories_from_text(content@),
{
    let v = chars_of(content);
    let ls = lines_chars(&v);
    let ghost lv = ls@.map_values(|l: Vec<char>| l@);
    let mut es: Vec<CategoryFilters> = Vec::new();
    let mut current: Option<usize> = None;
    let mut i: usize = 0;
    while i < ls.len()
        invariant
            i <= ls.len(),
            lv == ls@.map_values(|l: Vec<char>| l@),
            lv == lines_of(content@),
            unique_names(es@),
            entries_map(es@) == read_lines((Map::empty(), None), lv.subrange(0, i as int)).0,
            match current {
                Some(k) => k < es@.len() && read_lines((Map::empty(), None), lv.subrange(0, i as int)).1
                    == Some(es@[k as int].name@),
                None => read_lines((Map::empty(), None), lv.subrange(0, i as int)).1 is None,
            },
        decreases ls.len() - i,
    {
        let ghost pre = lv.subrange(0, i as int);
        let ghost post = lv.subrange(0, i + 1);
        assert(post.drop_last() =~= pre);
        assert(post.last() == ls@[i as int]@);
        let l = trim_chars(&ls[i]);
        if l.len() == 0 {
        } else if l[0] == '[' && l[l.len() - 1] == ']' {
            let name = string_from_chars(&slice_chars(&l, 1, l.len() - 1));
            proof {
                lemma_entries_map_index(es@, name@);
            }
            match find_category_exec(&es, name.as_str()) {
                Some(k) => {
                    current = Some(k);
                },
                None => {
                    let e = CategoryFilters { name, patterns: Vec::new() };
                    proof {
                        lemma_push_unique(es@, e);
                        assert(es@.push(e).drop_last() =~= es@);
                        assert(filter_views(e) =~= Seq::<Seq<char>>::empty());
                    }
                    es.push(e);
                    current = Some(es.len() - 1);
                },
            }
        } else {
            match current {
                Some(k) => {
                    let ls_k = string_from_chars(&l);
                    let mut ps = clone_patterns(&es[k].patterns);
                    let ghost before = string_views(ps@);
                    ps.push(ls_k);
                    assert(string_views(ps@) =~= before.push(l@));
                    let e = CategoryFilters { name: es[k].name.clone(), patterns: ps };
                    proof {
                        lemma_entries_map_index(es@, es@[k as int].name@);
                        lemma_find_category_some(es@, k as int);
                        lemma_unique_find(es@, k as int);
                        lemma_entries_map_update(es@, k as int, e);
                    }
                    es.set(k, e);
                },
                None => {},
            }
        }
        i = i + 1;
    }
    assert(lv.subrange(0, lv.len() as int) =~= lv);
    es
}

/// A line that the file can carry as it is: no `\n` in it and no `\r` at its end.
pub open spec fn plain_line(l: Seq<char>) -> bool {
    &&& forall|i: int| 0 <= i < l.len() ==> l[i] != '\n'
    &&& !(l.len() > 0 && l.last() == '\r')
}

/// A filter the file gives back as it is: not empty, without surrounding white
/// space, on one line, and not in the shape of a header.
pub open spec fn storable_filter(p: Seq<char>) -> bool {
    &&& p.len() > 0
    &&& trim(p) == p
    &&& forall|i: int| 0 <= i < p.len() ==> p[i] != '\n'
    &&& !is_header(p)
}

/// An entry the file gives back: its name on one line, storable filters.
pub open spec fn storable_entry(e: CategoryFilters) -> bool {
    &&& forall|i: int| 0 <= i < e.name@.len() ==> e.name@[i] != '\n'
    &&& forall|j: int|
        0 <= j < filter_views(e).len() ==> storable_filter(#[trigger] filter_views(e)[j])
}

/// Entries the file gives back.
pub open spec fn storable_entries(es: Seq<CategoryFilters>) -> bool {
    forall|k: int| 0 <= k < es.len() ==> storable_entry(#[trigger] es[k])
}

/// `terminated` seen from the front.
proof fn lemma_terminated_first(ls: Seq<Seq<char>>)
    requires
        ls.len() > 0,
    ensures
        terminated(ls) == ls[0] + "\n"@ + terminated(ls.drop_first()),
    decreases ls.len(),
{
    if ls.len() == 1 {
        assert(ls.drop_last() =~= Seq::<Seq<char>>::empty());
        assert(ls.drop_first() =~= Seq::<Seq<char>>::empty());
        assert(terminated(ls) =~= ls[0] + "\n"@ + terminated(ls.drop_first()));
    } else {
        let dl = ls.drop_last();
        lemma_terminated_first(dl);
        assert(ls.drop_first().drop_last() =~= dl.drop_first());
        assert(ls.drop_first().last() == ls.last());
        assert(dl[0] == ls[0]);
        assert(terminated(ls) =~= ls[0] + "\n"@ + terminated(ls.drop_first()));
    }
}

/// Plain lines, each ended by `\n`, split back into the same lines.
proof fn lemma_lines_of_terminated(ls: Seq<Seq<char>>)
    requires
        forall|i: int| 0 <= i < ls.len() ==> plain_line(#[trigger] ls[i]),
    ensures
        lines_of(terminated(ls)) == ls,
    decreases ls.len(),
{
    reveal_strlit("\n");
    if ls.len() == 0 {
        assert(lines_of(Seq::<char>::empty()) =~= Seq::<Seq<char>>::empty());
    } else {
        let a = ls[0];
        let rest = ls.drop_first();
        assert forall|i: int| 0 <= i < rest.len() implies plain_line(#[trigger] rest[i]) by {
            assert(rest[i] == ls[i + 1]);
        }
        lemma_lines_of_terminated(rest);
        lemma_terminated_first(ls);
        assert(plain_line(ls[0]));
        let t = terminated(rest);
        let w = a + "\n"@ + t;
        crate::periods::lemma_find_newline_at(a, t, 0);
        assert(w.subrange(0, a.len() as int) =~= a);
        assert(w.subrange(a.len() + 1int, w.len() as int) =~= t);
        assert(crate::lines::strip_cr(a) == a);
        assert(lines_of(w) =~= seq![a] + lines_of(t));
        assert(seq![a] + rest =~= ls);
    }
}

/// Reading `a + b` is reading `a`, then `b`.
proof fn lemma_read_concat(st: ReadState, a: Seq<Seq<char>>, b: Seq<Seq<char>>)
    ensures
        read_lines(st, a + b) == read_lines(read_lines(st, a), b),
    decreases b.len(),
{
    if b.len() == 0 {
        assert(a + b =~= a);
    } else {
        assert((a + b).drop_last() =~= a + b.drop_last());
        assert((a + b).last() == b.last());
        lemma_read_concat(st, a, b.drop_last());
    }
}

/// Reading one line is `read_line`.
proof fn lemma_read_one(st: ReadState, l: Seq<char>)
    ensures
        read_lines(st, seq![l]) == read_line(st, l),
{
    assert(seq![l].drop_last() =~= Seq::<Seq<char>>::empty());
    assert(read_lines(st, Seq::<Seq<char>>::empty()) == st);
    assert(seq![l].last() == l);
}

/// Filter lines under a header are appended to its category.
proof fn lemma_read_filters(m: Map<Seq<char>, Seq<Seq<char>>>, n: Seq<char>, ps: Seq<Seq<char>>)
    requires
        m.dom().contains(n),
        forall|j: int| 0 <= j < ps.len() ==> storable_filter(#[trigger] ps[j]),
    ensures
        read_lines((m, Some(n)), ps) == (m.insert(n, m[n] + ps), Some(n)),
    decreases ps.len(),
{
    if ps.len() == 0 {
        assert(m.insert(n, m[n] + ps) =~= m);
    } else {
        let dl = ps.drop_last();
        lemma_read_filters(m, n, dl);
        let l = ps.last();
        assert(storable_filter(ps[ps.len() - 1]));
        assert(ps =~= dl.push(l));
        assert((m[n] + dl).push(l) =~= m[n] + ps);
        let mm = m.insert(n, m[n] + dl);
        assert(mm[n] == m[n] + dl);
        assert(mm.insert(n, mm[n].push(l)) =~= m.insert(n, m[n] + ps));
    }
}

/// The lines of the file are plain lines.
proof fn lemma_file_lines_plain(es: Seq<CategoryFilters>)
    requires
        storable_entries(es),
    ensures
        forall|i: int| 0 <= i < file_lines(es).len() ==> plain_line(#[trigger] file_lines(es)[i]),
    decreases es.len(),
{
    reveal_strlit("[");
    reveal_strlit("]");
    if es.len() > 0 {
        let dl = es.drop_last();
        assert(storable_entries(dl)) by {
            assert forall|k: int| 0 <= k < dl.len() implies dl[k] == es[k] by {}
        }
        lemma_file_lines_plain(dl);
        let e = es.last();
        let h = "["@ + e.name@ + "]"@;
        let ps = filter_views(e);
        assert(es[es.len() - 1] == e);
        assert(plain_line(h)) by {
            assert forall|i: int| 0 <= i < h.len() implies h[i] != '\n' by {
                if 1 <= i < h.len() - 1 {
                    assert(h[i] == e.name@[i - 1]);
                }
            }
        }
        let fl = file_lines(es);
        let a = file_lines(dl);
        assert forall|i: int| 0 <= i < fl.len() implies plain_line(#[trigger] fl[i]) by {
            if i < a.len() {
                assert(fl[i] == a[i]);
            } else if i == a.len() {
                assert(fl[i] == h);
            } else if i < a.len() + 1 + ps.len() {
                let j = i - a.len() - 1;
                assert(fl[i] == ps[j]);
                assert(storable_filter(ps[j]));
                lemma_plain_filter(ps[j]);
            } else {
                assert(fl[i] == Seq::<char>::empty());
            }
        }
    }
}

/// A storable filter is a plain line.
proof fn lemma_plain_filter(p: Seq<char>)
    requires
        storable_filter(p),
    ensures
        plain_line(p),
{
    if p.len() > 0 && p.last() == '\r' {
        assert(crate::lines::trim_end(crate::lines::trim_start(p)) == p);
        assert(crate::text::is_ws(p.last()));
        lemma_trim_end_last(crate::lines::trim_start(p));
    }
}

/// `trim_end` never ends in white space.
proof fn lemma_trim_end_last(s: Seq<char>)
    ensures
        crate::lines::trim_end(s).len() > 0 ==> !crate::text::is_ws(crate::lines::trim_end(s).last()),
    decreases s.len(),
{
    if s.len() > 0 && crate::text::is_ws(s.last()) {
        lemma_trim_end_last(s.drop_last());
    }
}

/// Reading the lines of the file gives the entries.
proof fn lemma_read_file_lines(es: Seq<CategoryFilters>)
    requires
        unique_names(es),
        storable_entries(es),
    ensures
        read_lines((Map::empty(), None), file_lines(es)).0 == entries_map(es),
    decreases es.len(),
{
    reveal_strlit("[");
    reveal_strlit("]");
    if es.len() > 0 {
        let dl = es.drop_last();
        assert(unique_names(dl)) by {
            assert forall|i: int, j: int| 0 <= i < j < dl.len() implies dl[i].name@
                != dl[j].name@ by {
                assert(dl[i] == es[i] && dl[j] == es[j]);
            }
        }
        assert(storable_entries(dl)) by {
            assert forall|k: int| 0 <= k < dl.len() implies dl[k] == es[k] by {}
        }
        lemma_read_file_lines(dl);
        let e = es.last();
        let n = e.name@;
        let h = "["@ + n + "]"@;
        let ps = filter_views(e);
        assert(es[es.len() - 1] == e);
        let a = file_lines(dl);
        let s0 = read_lines((Map::empty(), None), a);
        lemma_read_concat((Map::empty(), None), a + seq![h] + ps, seq![Seq::<char>::empty()]);
        lemma_read_concat((Map::empty(), None), a + seq![h], ps);
        lemma_read_concat((Map::empty(), None), a, seq![h]);
        lemma_read_one(s0, h);
        crate::lines::lemma_trim_unchanged(h);
        assert(is_header(h));
        assert(h.subrange(1, h.len() - 1) =~= n);
        lemma_entries_map_index(dl, n);
        if find_category(dl, n) is Some {
            let k = find_category(dl, n)->0;
            assert(es[k].name@ != es[es.len() - 1].name@);
        }
        let m1 = entries_map(dl).insert(n, Seq::empty());
        let s1 = read_line(s0, h);
        assert(s1 == (m1, Some(n)));
        lemma_read_filters(m1, n, ps);
        let s2 = read_lines(s1, ps);
        assert(m1[n] + ps =~= ps);
        lemma_read_one(s2, Seq::<char>::empty());
        assert(trim(Seq::<char>::empty()) =~= Seq::<char>::empty());
        assert(entries_map(dl).insert(n, Seq::empty()).insert(n, ps) =~= entries_map(es));
    }
}

/// Writing categories to the file and reading the file back gives the same
/// categories, when no two share a name, names hold no line break, and each
/// filter is non-empty, trimmed, on one line and not shaped like a header.
pub proof fn law_categories_file_roundtrip(es: Seq<CategoryFilters>)
    requires
        unique_names(es),
        storable_entries(es),
    ensures
        categories_from_text(categories_text(es)) == entries_map(es),
{
    lemma_file_lines_plain(es);
    lemma_lines_of_terminated(file_lines(es));
    lemma_read_file_lines(es);
}

/// In a list with unique names, an entry's name is found at its index.
proof fn lemma_unique_find(es: Seq<CategoryFilters>, k: int)
    requires
        unique_names(es),
        0 <= k < es.len(),
    ensures
        find_category(es, es[k].name@) == Some(k),
{
    lemma_find_category_some(es, k);
    lemma_entries_map_index(es, es[k].name@);
    let j = find_category(es, es[k].name@)->0;
    if j != k {
        if j < k {
            assert(es[j].name@ != es[k].name@);
        } else {
            assert(es[k].name@ != es[j].name@);
        }
    }
}

/// Removing a filter just added to a category that did not have it gives the
/// categories back.
pub proof fn law_remove_filter_undoes_add(
    m: Map<Seq<char>, Seq<Seq<char>>>,
    n: Seq<char>,
    p: Seq<char>,
)
    requires
        m.dom().contains(n),
        !m[n].contains(p),
    ensures
        without_filter(with_filter(m, n, p), n, p) == m,
{
    crate::user_lists::law_remove_undoes_add(m[n], p);
    assert(without_filter(with_filter(m, n, p), n, p) =~= m);
}

/// Adding a new category and removing it gives the categories back; a
/// category that was just added has no filters.
pub proof fn law_remove_category_undoes_add(m: Map<Seq<char>, Seq<Seq<char>>>, n: Seq<char>)
    requires
        !m.dom().contains(n),
    ensures
        m.insert(n, Seq::empty())[n] == Seq::<Seq<char>>::empty(),
        m.insert(n, Seq::empty()).remove(n) == m,
{
    assert(m.insert(n, Seq::empty()).remove(n) =~= m);
}

/// Editing a filter keeps its place: the new filter stands at the same
/// index, every other filter of the category keeps its index, and other
/// categories are unchanged.
pub proof fn law_edit_keeps_place(
    m: Map<Seq<char>, Seq<Seq<char>>>,
    n: Seq<char>,
    i: int,
    p: Seq<char>,
    other: Seq<char>,
)
    requires
        m.dom().contains(n),
        0 <= i < m[n].len(),
        other != n,
    ensures
        ({
            let r = with_filter_replaced(m, n, i, p);
            &&& r.dom() == m.dom()
            &&& r[n].len() == m[n].len()
            &&& r[n][i] == p
            &&& forall|j: int| 0 <= j < m[n].len() && j != i ==> #[trigger] r[n][j] == m[n][j]
            &&& m.dom().contains(other) ==> r[other] == m[other]
        }),
{
    assert(with_filter_replaced(m, n, i, p).dom() =~= m.dom());
}

/// Renaming a category and renaming it back gives the categories back.
pub proof fn law_rename_back(m: Map<Seq<char>, Seq<Seq<char>>>, o: Seq<char>, n: Seq<char>)
    requires
        m.dom().contains(o),
        !m.dom().contains(n),
    ensures
        ({
            let r = m.remove(o).insert(n, m[o]);
            &&& r.dom().contains(n)
            &&& !r.dom().contains(o)
            &&& r[n] == m[o]
            &&& r.remove(n).insert(o, r[n]) == m
        }),
{
    let r = m.remove(o).insert(n, m[o]);
    assert(r.remove(n).insert(o, r[n]) =~= m);
}

} // verus!
