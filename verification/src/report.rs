//! The expense report: expenses grouped by the categories whose filters match
//! their descriptions, and the check that no expense falls into two categories.

use vstd::prelude::*;

use crate::dates::{format_timestamp, timestamp_date_text, MAX_TIMESTAMP, MIN_TIMESTAMP};
use crate::markdown_string::{
    escape_into, escaped_outside_markup, joins_cleanly, lemma_escape_is_escaped, lemma_escape_marks,
    lemma_escape_stars, lemma_guarded_no_marks, lemma_marks_concat, marks,
    lemma_escaped_concat, lemma_plain_is_escaped, lemma_stars_concat, lemma_valid_when_stars_even,
    markdown_escape, markdown_validation, stars,
};
use crate::ordering::{lex_lt, str_lt};
use crate::regex_ops::{
    compile_patterns, compiled_subset, compiled_views, find_matching_pattern, first_matching_pattern,
    CompiledPattern,
};
use crate::text::{extend_str, string_from_chars};
use crate::words::string_views;

verus! {

/// A category name with its regular-expression filters, in order.
pub struct CategoryFilters {
    pub name: String,
    pub patterns: Vec<String>,
}

/// The filters of a category as text.
pub open spec fn pattern_views(c: CategoryFilters) -> Seq<Seq<char>> {
    string_views(c.patterns@)
}

/// A category name with the filters of it that compiled, in order.
pub struct CompiledCategory {
    pub name: String,
    pub patterns: Vec<CompiledPattern>,
}

impl View for CompiledCategory {
    type V = (Seq<char>, Seq<Seq<char>>);

    open spec fn view(&self) -> (Seq<char>, Seq<Seq<char>>) {
        (self.name@, compiled_views(self.patterns@))
    }
}

/// The views of compiled categories: each name with its compiled patterns.
pub open spec fn matchers(cs: Seq<CompiledCategory>) -> Seq<(Seq<char>, Seq<Seq<char>>)> {
    cs.map_values(|c: CompiledCategory| c@)
}

/// `m` is what compiling the filters of `cats` gives: one entry per category,
/// with its name and those of its filters that compiled, in order.
pub open spec fn compiled_from(cats: Seq<CategoryFilters>, m: Seq<(Seq<char>, Seq<Seq<char>>)>) -> bool {
    &&& m.len() == cats.len()
    &&& forall|k: int|
        0 <= k < m.len() ==> (#[trigger] m[k]).0 == cats[k].name@ && compiled_subset(
            pattern_views(cats[k]),
            m[k].1,
        )
}

/// Compiles the filters of every category; those that do not compile are
/// left out.
pub fn compile_categories(categories: &Vec<CategoryFilters>) -> (r: Vec<CompiledCategory>)
    ensures
        compiled_from(categories@, matchers(r@)),
{
    let mut r: Vec<CompiledCategory> = Vec::new();
    let mut k: usize = 0;
    while k < categories.len()
        invariant
            k <= categories.len(),
            r@.len() == k,
            forall|t: int|
                0 <= t < k ==> (#[trigger] r@[t])@.0 == categories@[t].name@ && compiled_subset(
                    pattern_views(categories@[t]),
                    r@[t]@.1,
                ),
        decreases categories.len() - k,
    {
        let patterns = compile_patterns(&categories[k].patterns);
        r.push(CompiledCategory { name: categories[k].name.clone(), patterns });
        k = k + 1;
    }
    assert(matchers(r@).len() == categories@.len());
    r
}

/// The index of the first category (in the given order) with a compiled
/// filter that matches `text`.
pub open spec fn category_index(cats: Seq<(Seq<char>, Seq<Seq<char>>)>, text: Seq<char>) -> Option<int>
    decreases cats.len(),
{
    if cats.len() == 0 {
        None
    } else if first_matching_pattern(cats.last().1, text) is Some {
        match category_index(cats.drop_last(), text) {
            Some(i) => Some(i),
            None => Some(cats.len() - 1),
        }
    } else {
        category_index(cats.drop_last(), text)
    }
}

/// `r` gives each description the index of its category (`None`:
/// uncategorized).
pub open spec fn assigned(
    r: Seq<Option<usize>>,
    cats: Seq<(Seq<char>, Seq<Seq<char>>)>,
    descriptions: Seq<String>,
) -> bool {
    &&& r.len() == descriptions.len()
    &&& forall|i: int|
        0 <= i < r.len() ==> match #[trigger] r[i] {
            Some(k) => category_index(cats, descriptions[i]@) == Some(k as int),
            None => category_index(cats, descriptions[i]@) is None,
        }
}

proof fn lemma_category_index_bounds(cats: Seq<(Seq<char>, Seq<Seq<char>>)>, text: Seq<char>)
    ensures
        category_index(cats, text) matches Some(i) ==> 0 <= i < cats.len(),
    decreases cats.len(),
{
    if cats.len() > 0 {
        lemma_category_index_bounds(cats.drop_last(), text);
    }
}

proof fn lemma_category_index_prefix(cats: Seq<(Seq<char>, Seq<Seq<char>>)>, k: int, text: Seq<char>)
    requires
        0 <= k < cats.len(),
    ensures
        category_index(cats.subrange(0, k + 1), text) == (match category_index(
            cats.subrange(0, k),
            text,
        ) {
            Some(i) => Some(i),
            None => if first_matching_pattern(cats[k].1, text) is Some {
                Some(k)
            } else {
                None
            },
        }),
{
    assert(cats.subrange(0, k + 1).drop_last() =~= cats.subrange(0, k));
}

/// For each description, the index of the first of the compiled categories
/// with a filter that matches it (`None`: uncategorized).
pub fn assign_compiled(descriptions: &Vec<String>, compiled: &Vec<CompiledCategory>) -> (r: Vec<
    Option<usize>,
>)
    ensures
        assigned(r@, matchers(compiled@), descriptions@),
{
    let ghost m = matchers(compiled@);
    let mut r: Vec<Option<usize>> = Vec::new();
    let mut i: usize = 0;
    while i < descriptions.len()
        invariant
            i <= descriptions.len(),
            m == matchers(compiled@),
            r@.len() == i,
            forall|t: int|
                0 <= t < i ==> match #[trigger] r@[t] {
                    Some(k) => category_index(m, descriptions@[t]@) == Some(k as int),
                    None => category_index(m, descriptions@[t]@) is None,
                },
        decreases descriptions.len() - i,
    {
        let d = descriptions[i].as_str();
        let mut found: Option<usize> = None;
        let mut k: usize = 0;
        assert(m.subrange(0, 0) =~= Seq::<(Seq<char>, Seq<Seq<char>>)>::empty());
        while k < compiled.len() && found.is_none()
            invariant
                k <= compiled.len(),
                m == matchers(compiled@),
                d@ == descriptions@[i as int]@,
                found is None ==> category_index(m.subrange(0, k as int), d@) is None,
                found matches Some(x) ==> category_index(m, d@) == Some(x as int),
            decreases compiled.len() - k,
        {
            proof {
                lemma_category_index_prefix(m, k as int, d@);
                assert(m[k as int].1 == compiled_views(compiled@[k as int].patterns@));
            }
            let hit = find_matching_pattern(&compiled[k].patterns, d);
            if hit.is_some() {
                found = Some(k);
                proof {
                    let pre = m.subrange(0, k + 1);
                    assert(category_index(pre, d@) == Some(k as int));
                    lemma_category_index_extend(m, k + 1, d@);
                }
            }
            k = k + 1;
        }
        if found.is_none() {
            assert(m.subrange(0, m.len() as int) =~= m);
        }
        r.push(found);
        i = i + 1;
    }
    r
}

/// For each description, the index of its category: the first category (in
/// the given order) with a filter that compiles and matches it (`None`:
/// uncategorized). Which filters compile is the regex crate's outcome; the
/// contract holds for the filters that did.
pub fn assign_categories(descriptions: &Vec<String>, categories: &Vec<CategoryFilters>) -> (r: Vec<
    Option<usize>,
>)
    ensures
        exists|m: Seq<(Seq<char>, Seq<Seq<char>>)>|
            #[trigger] compiled_from(categories@, m) && assigned(r@, m, descriptions@),
{
    let compiled = compile_categories(categories);
    let r = assign_compiled(descriptions, &compiled);
    assert(compiled_from(categories@, matchers(compiled@)));
    r
}

proof fn lemma_category_index_extend(cats: Seq<(Seq<char>, Seq<Seq<char>>)>, n: int, text: Seq<char>)
    requires
        0 <= n <= cats.len(),
        category_index(cats.subrange(0, n), text) is Some,
    ensures
        category_index(cats, text) == category_index(cats.subrange(0, n), text),
    decreases cats.len() - n,
{
    if n < cats.len() {
        lemma_category_index_prefix(cats, n, text);
        lemma_category_index_extend(cats, n + 1, text);
    } else {
        assert(cats.subrange(0, n) =~= cats);
    }
}

/// A block of the report: a category (`None` for `Other`), its name, and its
/// expenses by index.
pub struct ReportGroup {
    pub category: Option<usize>,
    pub name: String,
    pub members: Vec<usize>,
}

/// The indices `i` (in increasing order) with `assignment[i] == target`.
pub open spec fn members_of(assignment: Seq<Option<usize>>, target: Option<usize>) -> Seq<usize>
    decreases assignment.len(),
{
    if assignment.len() == 0 {
        Seq::empty()
    } else {
        let init = members_of(assignment.drop_last(), target);
        if assignment.last() == target {
            init.push((assignment.len() - 1) as usize)
        } else {
            init
        }
    }
}

fn collect_members(assignment: &Vec<Option<usize>>, target: Option<usize>) -> (r: Vec<usize>)
    ensures
        r@ == members_of(assignment@, target),
{
    let mut r: Vec<usize> = Vec::new();
    let mut i: usize = 0;
    while i < assignment.len()
        invariant
            i <= assignment.len(),
            r@ == members_of(assignment@.subrange(0, i as int), target),
        decreases assignment.len() - i,
    {
        assert(assignment@.subrange(0, i + 1).drop_last() =~= assignment@.subrange(0, i as int));
        if assignment[i] == target {
            r.push(i);
        }
        i = i + 1;
    }
    assert(assignment@.subrange(0, assignment@.len() as int) =~= assignment@);
    r
}

/// Every expense is listed in the group of its own category and in no other:
/// index `i` is a member for `target` exactly when the expense at `i` is
/// assigned to `target`.
pub proof fn law_report_partition(assignment: Seq<Option<usize>>, target: Option<usize>, i: usize)
    requires
        assignment.len() <= usize::MAX,
    ensures
        members_of(assignment, target).contains(i) <==> (i < assignment.len() && assignment[i as int]
            == target),
    decreases assignment.len(),
{
    if assignment.len() > 0 {
        let init = assignment.drop_last();
        law_report_partition(init, target, i);
        let m = members_of(init, target);
        lemma_members_below(init, target);
        let last = (assignment.len() - 1) as usize;
        if i < last {
            assert(init[i as int] == assignment[i as int]);
        }
        if assignment.last() == target {
            let mm = m.push(last);
            assert(members_of(assignment, target) == mm);
            if mm.contains(i) && i != last {
                let j = choose|j: int| 0 <= j < mm.len() && mm[j] == i;
                assert(j < m.len());
                assert(m[j] == i);
            }
            if i < assignment.len() && assignment[i as int] == target {
                if i == last {
                    assert(mm[m.len() as int] == i);
                } else {
                    let j = choose|j: int| 0 <= j < m.len() && m[j] == i;
                    assert(mm[j] == i);
                }
            }
        } else {
            assert(members_of(assignment, target) == m);
            if i >= last && m.contains(i) {
                let j = choose|j: int| 0 <= j < m.len() && m[j] == i;
                assert(m[j] < init.len());
            }
        }
    }
}

/// Members are indices of the assignment.
proof fn lemma_members_below(assignment: Seq<Option<usize>>, target: Option<usize>)
    requires
        assignment.len() <= usize::MAX,
    ensures
        forall|j: int|
            0 <= j < members_of(assignment, target).len() ==> #[trigger] members_of(
                assignment,
                target,
            )[j] < assignment.len(),
    decreases assignment.len(),
{
    if assignment.len() > 0 {
        let init = assignment.drop_last();
        lemma_members_below(init, target);
        let m = members_of(init, target);
        assert forall|j: int|
            0 <= j < members_of(assignment, target).len() implies #[trigger] members_of(
                assignment,
                target,
            )[j] < assignment.len() by {
            if j < m.len() {
                assert(members_of(assignment, target)[j] == m[j]);
            }
        }
    }
}

/// Whether some expense is assigned to category `k`.
pub open spec fn is_used(assignment: Seq<Option<usize>>, k: int) -> bool {
    exists|i: int| 0 <= i < assignment.len() && assignment[i] == Some(k as usize)
}

/// The category name of index `k`.
pub open spec fn name_of(cats: Seq<CategoryFilters>, k: int) -> Seq<char> {
    cats[k].name@
}

/// `keys` lists, without repetition and sorted by name, exactly the categories
/// below `limit` that received expenses.
pub open spec fn sorted_used_keys(
    assignment: Seq<Option<usize>>,
    cats: Seq<CategoryFilters>,
    keys: Seq<int>,
    limit: int,
) -> bool {
    &&& forall|g: int| 0 <= g < keys.len() ==> 0 <= #[trigger] keys[g] < limit && is_used(assignment, keys[g])
    &&& forall|c: int| 0 <= c < limit && is_used(assignment, c) ==> #[trigger] keys.contains(c)
    &&& forall|i: int, j: int|
        0 <= i < j < keys.len() ==> lex_lt(name_of(cats, #[trigger] keys[i]), name_of(cats, #[trigger] keys[j]))
}

/// The groups of the report whose key is a category (all but a final `Other`).
pub open spec fn group_keys(groups: Seq<ReportGroup>) -> Seq<int> {
    groups.map_values(|g: ReportGroup| (g.category->0) as int)
}

/// Whether each group carries its category's name and members.
pub open spec fn groups_filled(
    assignment: Seq<Option<usize>>,
    cats: Seq<CategoryFilters>,
    groups: Seq<ReportGroup>,
) -> bool {
    forall|g: int|
        0 <= g < groups.len() ==> (#[trigger] groups[g]).category is Some && groups[g].name@
            == name_of(cats, (groups[g].category->0) as int) && groups[g].members@ == members_of(
            assignment,
            groups[g].category,
        )
}

proof fn lemma_keys_insert(
    assignment: Seq<Option<usize>>,
    cats: Seq<CategoryFilters>,
    keys: Seq<int>,
    k: int,
    pos: int,
)
    requires
        0 <= k < cats.len(),
        forall|i: int, j: int| 0 <= i < j < cats.len() ==> cats[i].name@ != cats[j].name@,
        sorted_used_keys(assignment, cats, keys, k),
        is_used(assignment, k),
        0 <= pos <= keys.len(),
        forall|t: int| 0 <= t < pos ==> lex_lt(name_of(cats, #[trigger] keys[t]), name_of(cats, k)),
        pos < keys.len() ==> !lex_lt(name_of(cats, keys[pos]), name_of(cats, k)),
    ensures
        sorted_used_keys(assignment, cats, keys.insert(pos, k), k + 1),
{
    let nk = name_of(cats, k);
    if pos < keys.len() {
        crate::ordering::lemma_lex_total(name_of(cats, keys[pos]), nk);
        assert(keys[pos] != k);
        assert(name_of(cats, keys[pos]) != nk);
    }
    assert forall|t: int| pos <= t < keys.len() implies lex_lt(nk, name_of(cats, #[trigger] keys[t])) by {
        if t > pos {
            assert(lex_lt(name_of(cats, keys[pos]), name_of(cats, keys[t])));
            crate::ordering::lemma_lex_transitive(nk, name_of(cats, keys[pos]), name_of(cats, keys[t]));
        }
    }
    let nkeys = keys.insert(pos, k);
    assert forall|c: int| 0 <= c < k + 1 && is_used(assignment, c) implies #[trigger] nkeys.contains(c) by {
        if c == k {
            assert(nkeys[pos] == k);
        } else {
            assert(keys.contains(c));
            let g = choose|g: int| 0 <= g < keys.len() && keys[g] == c;
            if g < pos {
                assert(nkeys[g] == c);
            } else {
                assert(nkeys[g + 1] == c);
            }
        }
    }
    assert forall|i: int, j: int| 0 <= i < j < nkeys.len() implies lex_lt(
        name_of(cats, #[trigger] nkeys[i]),
        name_of(cats, #[trigger] nkeys[j]),
    ) by {
        if i < pos && j < pos {
            assert(nkeys[i] == keys[i] && nkeys[j] == keys[j]);
        } else if i < pos && j == pos {
            assert(nkeys[i] == keys[i]);
        } else if i < pos {
            assert(nkeys[i] == keys[i] && nkeys[j] == keys[j - 1]);
            crate::ordering::lemma_lex_transitive(name_of(cats, keys[i]), nk, name_of(cats, keys[j - 1]));
        } else if i == pos {
            assert(nkeys[j] == keys[j - 1]);
        } else {
            assert(nkeys[i] == keys[i - 1] && nkeys[j] == keys[j - 1]);
        }
    }
}

/// The layout of the report: one group per category that received expenses,
/// by category name in `String` order, then an `Other` group for the
/// uncategorized expenses if there are any. Category names must be distinct,
/// as the keys of a map are.
pub fn report_layout(assignment: &Vec<Option<usize>>, categories: &Vec<CategoryFilters>) -> (r: Vec<
    ReportGroup,
>)
    requires
        forall|i: int, j: int|
            0 <= i < j < categories@.len() ==> categories@[i].name@ != categories@[j].name@,
    ensures
        ({
            let named = if members_of(assignment@, None).len() > 0 {
                (r@.len() - 1) as int
            } else {
                r@.len() as int
            };
            &&& 0 <= named <= r@.len()
            &&& named < r@.len() ==> r@[named].category is None && r@[named].name@ == "Other"@
                && r@[named].members@ == members_of(assignment@, None)
            &&& groups_filled(assignment@, categories@, r@.subrange(0, named))
            &&& sorted_used_keys(
                assignment@,
                categories@,
                group_keys(r@.subrange(0, named)),
                categories@.len() as int,
            )
        }),
{
    let mut groups: Vec<ReportGroup> = Vec::new();
    let mut k: usize = 0;
    while k < categories.len()
        invariant
            k <= categories.len(),
            forall|i: int, j: int|
                0 <= i < j < categories@.len() ==> categories@[i].name@ != categories@[j].name@,
            groups_filled(assignment@, categories@, groups@),
            sorted_used_keys(assignment@, categories@, group_keys(groups@), k as int),
        decreases categories.len() - k,
    {
        let members = collect_members(assignment, Some(k));
        let ghost keys = group_keys(groups@);
        if members.len() > 0 {
            proof {
                lemma_members_nonempty_used(assignment@, Some(k));
            }
            let name = &categories[k].name;
            let mut pos: usize = 0;
            while pos < groups.len() && str_lt(groups[pos].name.as_str(), name.as_str())
                invariant
                    pos <= groups.len(),
                    keys == group_keys(groups@),
                    groups_filled(assignment@, categories@, groups@),
                    name@ == name_of(categories@, k as int),
                    forall|t: int| 0 <= t < pos ==> lex_lt(name_of(categories@, #[trigger] keys[t]), name@),
                decreases groups.len() - pos,
            {
                assert(groups@[pos as int].name@ == name_of(categories@, keys[pos as int]));
                pos = pos + 1;
            }
            proof {
                if pos < groups.len() {
                    assert(groups@[pos as int].name@ == name_of(categories@, keys[pos as int]));
                }
                lemma_keys_insert(assignment@, categories@, keys, k as int, pos as int);
            }
            let ghost old_groups = groups@;
            groups.insert(pos, ReportGroup { category: Some(k), name: name.clone(), members });
            proof {
                assert(group_keys(groups@) =~= keys.insert(pos as int, k as int));
                assert forall|g: int| 0 <= g < groups@.len() implies (#[trigger] groups@[g]).category is Some
                    && groups@[g].name@ == name_of(categories@, (groups@[g].category->0) as int)
                    && groups@[g].members@ == members_of(assignment@, groups@[g].category) by {
                    if g < pos {
                        assert(groups@[g] == old_groups[g]);
                    } else if g > pos {
                        assert(groups@[g] == old_groups[g - 1]);
                    }
                }
            }
        } else {
            proof {
                assert forall|c: int| 0 <= c < k + 1 && is_used(assignment@, c) implies #[trigger] keys.contains(c) by {
                    if c == k {
                        lemma_used_members_nonempty(assignment@, k as int);
                    }
                }
            }
        }
        k = k + 1;
    }
    let named_len = groups.len();
    let ghost pre = groups@;
    let others = collect_members(assignment, None);
    if others.len() > 0 {
        groups.push(ReportGroup { category: None, name: String::from_str("Other"), members: others });
        assert(groups@.subrange(0, named_len as int) =~= pre);
    } else {
        assert(groups@.subrange(0, named_len as int) =~= pre);
    }
    groups
}

proof fn lemma_members_nonempty_used(a: Seq<Option<usize>>, t: Option<usize>)
    requires
        members_of(a, t).len() > 0,
    ensures
        t matches Some(k) ==> is_used(a, k as int),
    decreases a.len(),
{
    if a.len() > 0 {
        if a.last() == t {
            if let Some(k) = t {
                assert(a[a.len() - 1] == Some(k));
            }
        } else {
            lemma_members_nonempty_used(a.drop_last(), t);
            if let Some(k) = t {
                let i = choose|i: int| 0 <= i < a.drop_last().len() && a.drop_last()[i] == Some(k);
                assert(a[i] == Some(k));
            }
        }
    }
}

proof fn lemma_used_members_nonempty(a: Seq<Option<usize>>, k: int)
    requires
        is_used(a, k),
    ensures
        members_of(a, Some(k as usize)).len() > 0,
    decreases a.len(),
{
    if a.len() > 0 && a.last() != Some(k as usize) {
        let i = choose|i: int| 0 <= i < a.len() && a[i] == Some(k as usize);
        assert(a.drop_last()[i] == Some(k as usize));
        lemma_used_members_nonempty(a.drop_last(), k);
    }
}


/// One expense as the report prints it: its Unix timestamp (printed as its
/// UTC date), description and amount (as text).
pub struct ExpenseLine {
    pub timestamp: i64,
    pub description: String,
    pub amount: String,
}

/// A section of the report: the category name, its expense lines and their
/// subtotal (as text).
pub struct ReportSection {
    pub name: String,
    pub lines: Vec<ExpenseLine>,
    pub subtotal: String,
}

/// Every timestamp is in chrono's range.
pub open spec fn lines_in_range(ls: Seq<ExpenseLine>) -> bool {
    forall|i: int| 0 <= i < ls.len() ==> MIN_TIMESTAMP <= #[trigger] ls[i].timestamp <= MAX_TIMESTAMP
}

/// `  • <date> <description> <amount>` with each part escaped.
pub open spec fn line_text(l: ExpenseLine) -> Seq<char> {
    "  • "@ + markdown_escape(timestamp_date_text(l.timestamp)) + " "@ + markdown_escape(l.description@) + " "@
        + markdown_escape(l.amount@) + "\n"@
}

pub open spec fn lines_text(ls: Seq<ExpenseLine>) -> Seq<char>
    decreases ls.len(),
{
    if ls.len() == 0 {
        Seq::empty()
    } else {
        lines_text(ls.drop_last()) + line_text(ls.last())
    }
}

/// A category block: bold name, the lines, the bold subtotal, a blank line.
pub open spec fn section_text(s: ReportSection) -> Seq<char> {
    "*"@ + markdown_escape(s.name@) + "*:\n"@ + lines_text(s.lines@) + "  *Subtotal: "@
        + markdown_escape(s.subtotal@) + "*\n\n"@
}

pub open spec fn sections_text(ss: Seq<ReportSection>) -> Seq<char>
    decreases ss.len(),
{
    if ss.len() == 0 {
        Seq::empty()
    } else {
        sections_text(ss.drop_last()) + section_text(ss.last())
    }
}

/// The whole report (MarkdownV2).
pub open spec fn report_text(ss: Seq<ReportSection>, total: Seq<char>) -> Seq<char> {
    if ss.len() == 0 {
        "No expenses recorded yet."@
    } else {
        sections_text(ss) + "*Total: "@ + markdown_escape(total) + "*"@
    }
}

/// The fixed pieces of the report need no backslash.
proof fn lemma_report_pieces_escaped()
    ensures
        escaped_outside_markup("*"@, false),
        escaped_outside_markup("*:\n"@, false),
        escaped_outside_markup("  • "@, false),
        escaped_outside_markup(" "@, false),
        escaped_outside_markup("\n"@, false),
        escaped_outside_markup("  *Subtotal: "@, false),
        escaped_outside_markup("*\n\n"@, false),
        escaped_outside_markup("*Total: "@, false),
{
    reveal_strlit("*");
    reveal_strlit("*:\n");
    reveal_strlit("  • ");
    reveal_strlit(" ");
    reveal_strlit("\n");
    reveal_strlit("  *Subtotal: ");
    reveal_strlit("*\n\n");
    reveal_strlit("*Total: ");
    lemma_plain_is_escaped("*"@, false);
    lemma_plain_is_escaped("*:\n"@, false);
    lemma_plain_is_escaped("  • "@, false);
    lemma_plain_is_escaped(" "@, false);
    lemma_plain_is_escaped("\n"@, false);
    lemma_plain_is_escaped("  *Subtotal: "@, false);
    lemma_plain_is_escaped("*\n\n"@, false);
    lemma_plain_is_escaped("*Total: "@, false);
}

proof fn lemma_line_escaped(l: ExpenseLine)
    ensures
        escaped_outside_markup(line_text(l), false),
{
    lemma_report_pieces_escaped();
    let e1 = markdown_escape(timestamp_date_text(l.timestamp));
    let e2 = markdown_escape(l.description@);
    let e3 = markdown_escape(l.amount@);
    lemma_escape_is_escaped(timestamp_date_text(l.timestamp), false);
    lemma_escape_is_escaped(l.description@, false);
    lemma_escape_is_escaped(l.amount@, false);
    lemma_escaped_concat("  • "@, e1, false);
    lemma_escaped_concat("  • "@ + e1, " "@, false);
    lemma_escaped_concat("  • "@ + e1 + " "@, e2, false);
    lemma_escaped_concat("  • "@ + e1 + " "@ + e2, " "@, false);
    lemma_escaped_concat("  • "@ + e1 + " "@ + e2 + " "@, e3, false);
    lemma_escaped_concat("  • "@ + e1 + " "@ + e2 + " "@ + e3, "\n"@, false);
}

proof fn lemma_lines_escaped(ls: Seq<ExpenseLine>)
    ensures
        escaped_outside_markup(lines_text(ls), false),
    decreases ls.len(),
{
    if ls.len() == 0 {
        lemma_plain_is_escaped(lines_text(ls), false);
    } else {
        lemma_lines_escaped(ls.drop_last());
        lemma_line_escaped(ls.last());
        lemma_escaped_concat(lines_text(ls.drop_last()), line_text(ls.last()), false);
    }
}

proof fn lemma_sections_escaped(ss: Seq<ReportSection>)
    ensures
        escaped_outside_markup(sections_text(ss), false),
    decreases ss.len(),
{
    if ss.len() == 0 {
        lemma_plain_is_escaped(sections_text(ss), false);
    } else {
        lemma_sections_escaped(ss.drop_last());
        let s = ss.last();
        lemma_report_pieces_escaped();
        let n = markdown_escape(s.name@);
        let t = markdown_escape(s.subtotal@);
        lemma_escape_is_escaped(s.name@, false);
        lemma_escape_is_escaped(s.subtotal@, false);
        lemma_lines_escaped(s.lines@);
        lemma_escaped_concat("*"@, n, false);
        lemma_escaped_concat("*"@ + n, "*:\n"@, false);
        lemma_escaped_concat("*"@ + n + "*:\n"@, lines_text(s.lines@), false);
        lemma_escaped_concat("*"@ + n + "*:\n"@ + lines_text(s.lines@), "  *Subtotal: "@, false);
        lemma_escaped_concat("*"@ + n + "*:\n"@ + lines_text(s.lines@) + "  *Subtotal: "@, t, false);
        lemma_escaped_concat(
            "*"@ + n + "*:\n"@ + lines_text(s.lines@) + "  *Subtotal: "@ + t,
            "*\n\n"@,
            false,
        );
        lemma_escaped_concat(sections_text(ss.drop_last()), section_text(s), false);
    }
}

/// In a report with at least one section, every character that MarkdownV2
/// reserves follows a backslash, except the `*` of the bold markup: category
/// names, dates, descriptions, amounts, subtotals and the total are all
/// escaped, whatever they hold.
pub proof fn law_report_escapes_reserved(sections: Seq<ReportSection>, total: Seq<char>)
    requires
        sections.len() > 0,
    ensures
        escaped_outside_markup(report_text(sections, total), false),
{
    lemma_sections_escaped(sections);
    lemma_report_pieces_escaped();
    lemma_escape_is_escaped(total, false);
    reveal_strlit("*");
    let e = markdown_escape(total);
    lemma_escaped_concat(sections_text(sections), "*Total: "@, false);
    lemma_escaped_concat(sections_text(sections) + "*Total: "@, e, false);
    lemma_escaped_concat(sections_text(sections) + "*Total: "@ + e, "*"@, false);
}

/// The counted `*` of the fixed pieces of the report.
proof fn lemma_report_piece_stars()
    ensures
        stars("*"@) == 1,
        stars("*:\n"@) == 1,
        stars("  • "@) == 0,
        stars(" "@) == 0,
        stars("\n"@) == 0,
        stars("  *Subtotal: "@) == 1,
        stars("*\n\n"@) == 1,
        stars("*Total: "@) == 1,
{
    reveal_strlit("*");
    reveal_strlit("*:\n");
    reveal_strlit("  • ");
    reveal_strlit(" ");
    reveal_strlit("\n");
    reveal_strlit("  *Subtotal: ");
    reveal_strlit("*\n\n");
    reveal_strlit("*Total: ");
    reveal_with_fuel(crate::markdown_string::mark_count, 14);
}

/// A line of the report holds no counted `*`, starts with a space and ends
/// with a line break.
proof fn lemma_line_stars(l: ExpenseLine)
    ensures
        stars(line_text(l)) == 0,
        line_text(l).len() > 0,
        line_text(l)[0] == ' ',
{
    lemma_report_piece_stars();
    reveal_strlit("  • ");
    reveal_strlit(" ");
    reveal_strlit("\n");
    let e1 = markdown_escape(timestamp_date_text(l.timestamp));
    let e2 = markdown_escape(l.description@);
    let e3 = markdown_escape(l.amount@);
    lemma_escape_stars(timestamp_date_text(l.timestamp));
    lemma_escape_stars(l.description@);
    lemma_escape_stars(l.amount@);
    let p0 = "  • "@;
    lemma_stars_concat(p0, e1);
    lemma_stars_concat(p0 + e1, " "@);
    lemma_stars_concat(p0 + e1 + " "@, e2);
    lemma_stars_concat(p0 + e1 + " "@ + e2, " "@);
    lemma_stars_concat(p0 + e1 + " "@ + e2 + " "@, e3);
    lemma_stars_concat(p0 + e1 + " "@ + e2 + " "@ + e3, "\n"@);
    assert((p0 + e1 + " "@ + e2 + " "@ + e3 + "\n"@)[0] == ' ');
}

proof fn lemma_lines_stars(ls: Seq<ExpenseLine>)
    ensures
        stars(lines_text(ls)) == 0,
        lines_text(ls).len() > 0 ==> lines_text(ls)[0] == ' ',
    decreases ls.len(),
{
    if ls.len() == 0 {
        assert(lines_text(ls).len() == 0);
    } else {
        lemma_lines_stars(ls.drop_last());
        lemma_line_stars(ls.last());
        lemma_stars_concat(lines_text(ls.drop_last()), line_text(ls.last()));
        if lines_text(ls.drop_last()).len() == 0 {
            assert(lines_text(ls) =~= line_text(ls.last()));
        }
    }
}

/// No backslash ends `x`.
pub open spec fn no_final_backslash(x: Seq<char>) -> bool {
    x.len() == 0 || x.last() != '\\'
}

/// A section of the report holds four counted `*`, starts with one and ends
/// with a line break.
proof fn lemma_section_stars(s: ReportSection)
    requires
        no_final_backslash(s.name@),
        no_final_backslash(s.subtotal@),
    ensures
        stars(section_text(s)) == 4,
        section_text(s).len() > 0,
        section_text(s)[0] == '*',
        section_text(s).last() == '\n',
{
    lemma_report_piece_stars();
    reveal_strlit("*");
    reveal_strlit("*:\n");
    reveal_strlit("  *Subtotal: ");
    reveal_strlit("*\n\n");
    let n = markdown_escape(s.name@);
    let t = markdown_escape(s.subtotal@);
    let ls = lines_text(s.lines@);
    lemma_escape_stars(s.name@);
    lemma_escape_stars(s.subtotal@);
    lemma_lines_stars(s.lines@);
    let a1 = "*"@ + n;
    let a2 = a1 + "*:\n"@;
    let a3 = a2 + ls;
    let a4 = a3 + "  *Subtotal: "@;
    let a5 = a4 + t;
    let a6 = a5 + "*\n\n"@;
    lemma_stars_concat("*"@, n);
    assert(joins_cleanly(a1, "*:\n"@, '*'));
    lemma_stars_concat(a1, "*:\n"@);
    assert(a2.last() == '\n');
    lemma_stars_concat(a2, ls);
    lemma_stars_concat(a3, "  *Subtotal: "@);
    lemma_stars_concat(a4, t);
    assert(joins_cleanly(a5, "*\n\n"@, '*'));
    lemma_stars_concat(a5, "*\n\n"@);
    assert(a6[0] == '*');
}

proof fn lemma_sections_stars(ss: Seq<ReportSection>)
    requires
        forall|i: int|
            0 <= i < ss.len() ==> no_final_backslash((#[trigger] ss[i]).name@) && no_final_backslash(
                ss[i].subtotal@,
            ),
    ensures
        stars(sections_text(ss)) == 4 * ss.len(),
        ss.len() > 0 ==> sections_text(ss).len() > 0 && sections_text(ss).last() == '\n',
    decreases ss.len(),
{
    if ss.len() > 0 {
        let init = ss.drop_last();
        assert forall|i: int| 0 <= i < init.len() implies no_final_backslash(
            (#[trigger] init[i]).name@,
        ) && no_final_backslash(init[i].subtotal@) by {
            assert(init[i] == ss[i]);
        }
        lemma_sections_stars(init);
        assert(ss[ss.len() - 1] == ss.last());
        lemma_section_stars(ss.last());
        lemma_stars_concat(sections_text(init), section_text(ss.last()));
    } else {
        assert(sections_text(ss).len() == 0);
    }
}

/// A report with at least one section is valid MarkdownV2 (the scan of
/// `validate_markdownv2_format` accepts it), whatever the dates, descriptions
/// and amounts hold, as long as no category name, subtotal or the total ends
/// with a backslash (the scan would then take the following `*` for an
/// escaped one).
pub proof fn law_report_is_valid_markdown(sections: Seq<ReportSection>, total: Seq<char>)
    requires
        sections.len() > 0,
        forall|i: int|
            0 <= i < sections.len() ==> no_final_backslash((#[trigger] sections[i]).name@)
                && no_final_backslash(sections[i].subtotal@),
        no_final_backslash(total),
    ensures
        markdown_validation(report_text(sections, total)) is Ok,
{
    law_report_escapes_reserved(sections, total);
    lemma_sections_stars(sections);
    lemma_report_piece_stars();
    reveal_strlit("*");
    reveal_strlit("*Total: ");
    lemma_escape_stars(total);
    let a = sections_text(sections);
    let e = markdown_escape(total);
    lemma_stars_concat(a, "*Total: "@);
    lemma_stars_concat(a + "*Total: "@, e);
    assert(joins_cleanly(a + "*Total: "@ + e, "*"@, '*'));
    lemma_stars_concat(a + "*Total: "@ + e, "*"@);
    assert(stars(report_text(sections, total)) == 4 * sections.len() + 2);
    lemma_valid_when_stars_even(report_text(sections, total));
}

fn push_line(out: &mut Vec<char>, l: &ExpenseLine)
    requires
        MIN_TIMESTAMP <= l.timestamp <= MAX_TIMESTAMP,
    ensures
        final(out)@ == old(out)@ + line_text(*l),
{
    let ghost start = out@;
    extend_str(out, "  • ");
    let date = format_timestamp(l.timestamp);
    escape_into(out, date.as_str());
    extend_str(out, " ");
    escape_into(out, l.description.as_str());
    extend_str(out, " ");
    escape_into(out, l.amount.as_str());
    extend_str(out, "\n");
    assert(out@ =~= start + line_text(*l));
}

fn push_section(out: &mut Vec<char>, s: &ReportSection)
    requires
        lines_in_range(s.lines@),
    ensures
        final(out)@ == old(out)@ + section_text(*s),
{
    let ghost start = out@;
    extend_str(out, "*");
    escape_into(out, s.name.as_str());
    extend_str(out, "*:\n");
    let ghost mid = out@;
    let mut i: usize = 0;
    while i < s.lines.len()
        invariant
            i <= s.lines@.len(),
            lines_in_range(s.lines@),
            out@ == mid + lines_text(s.lines@.subrange(0, i as int)),
        decreases s.lines.len() - i,
    {
        assert(s.lines@.subrange(0, i + 1).drop_last() =~= s.lines@.subrange(0, i as int));
        push_line(out, &s.lines[i]);
        i = i + 1;
        assert(out@ =~= mid + lines_text(s.lines@.subrange(0, i as int)));
    }
    assert(s.lines@.subrange(0, s.lines@.len() as int) =~= s.lines@);
    extend_str(out, "  *Subtotal: ");
    escape_into(out, s.subtotal.as_str());
    extend_str(out, "*\n\n");
    assert(out@ =~= start + section_text(*s));
}

/// Renders the report: each section (bold category name, one line per expense,
/// bold subtotal), then the bold total; all values are escaped for MarkdownV2.
/// With no section it is `No expenses recorded yet.`.
pub fn render_report(sections: &Vec<ReportSection>, total: &str) -> (r: String)
    requires
        forall|i: int| 0 <= i < sections@.len() ==> lines_in_range(#[trigger] sections@[i].lines@),
    ensures
        r@ == report_text(sections@, total@),
{
    if sections.len() == 0 {
        return String::from_str("No expenses recorded yet.");
    }
    let mut out: Vec<char> = Vec::new();
    let mut i: usize = 0;
    while i < sections.len()
        invariant
            i <= sections@.len(),
            forall|t: int| 0 <= t < sections@.len() ==> lines_in_range(#[trigger] sections@[t].lines@),
            out@ == sections_text(sections@.subrange(0, i as int)),
        decreases sections.len() - i,
    {
        assert(sections@.subrange(0, i + 1).drop_last() =~= sections@.subrange(0, i as int));
        push_section(&mut out, &sections[i]);
        i = i + 1;
    }
    assert(sections@.subrange(0, sections@.len() as int) =~= sections@);
    extend_str(&mut out, "*Total: ");
    escape_into(&mut out, total);
    extend_str(&mut out, "*");
    assert(out@ =~= report_text(sections@, total@));
    string_from_chars(&out)
}

/// A plain line: `  • <description> - <amount> (<date>)`.
pub open spec fn plain_line_text(l: ExpenseLine) -> Seq<char> {
    "  • "@ + l.description@ + " - "@ + l.amount@ + " ("@ + timestamp_date_text(l.timestamp)
        + ")\n"@
}

pub open spec fn plain_lines_text(ls: Seq<ExpenseLine>) -> Seq<char>
    decreases ls.len(),
{
    if ls.len() == 0 {
        Seq::empty()
    } else {
        plain_lines_text(ls.drop_last()) + plain_line_text(ls.last())
    }
}

/// A plain category block: name, the lines, the subtotal, a blank line.
pub open spec fn plain_section_text(s: ReportSection) -> Seq<char> {
    s.name@ + ":\n"@ + plain_lines_text(s.lines@) + "  Subtotal: "@ + s.subtotal@ + "_\n\n"@
}

pub open spec fn plain_sections_text(ss: Seq<ReportSection>) -> Seq<char>
    decreases ss.len(),
{
    if ss.len() == 0 {
        Seq::empty()
    } else {
        plain_sections_text(ss.drop_last()) + plain_section_text(ss.last())
    }
}

/// The whole report as plain text.
pub open spec fn plain_report_text(ss: Seq<ReportSection>, total: Seq<char>) -> Seq<char> {
    if ss.len() == 0 {
        "No expenses recorded yet."@
    } else {
        plain_sections_text(ss) + "Total: "@ + total
    }
}

fn push_plain_section(out: &mut Vec<char>, s: &ReportSection)
    requires
        lines_in_range(s.lines@),
    ensures
        final(out)@ == old(out)@ + plain_section_text(*s),
{
    let ghost start = out@;
    extend_str(out, s.name.as_str());
    extend_str(out, ":\n");
    let ghost mid = out@;
    let mut i: usize = 0;
    while i < s.lines.len()
        invariant
            i <= s.lines@.len(),
            lines_in_range(s.lines@),
            out@ == mid + plain_lines_text(s.lines@.subrange(0, i as int)),
        decreases s.lines.len() - i,
    {
        assert(s.lines@.subrange(0, i + 1).drop_last() =~= s.lines@.subrange(0, i as int));
        let l = &s.lines[i];
        let ghost before = out@;
        extend_str(out, "  • ");
        extend_str(out, l.description.as_str());
        extend_str(out, " - ");
        extend_str(out, l.amount.as_str());
        extend_str(out, " (");
        let date = format_timestamp(l.timestamp);
        extend_str(out, date.as_str());
        extend_str(out, ")\n");
        assert(out@ =~= before + plain_line_text(*l));
        i = i + 1;
        assert(out@ =~= mid + plain_lines_text(s.lines@.subrange(0, i as int)));
    }
    assert(s.lines@.subrange(0, s.lines@.len() as int) =~= s.lines@);
    extend_str(out, "  Subtotal: ");
    extend_str(out, s.subtotal.as_str());
    extend_str(out, "_\n\n");
    assert(out@ =~= start + plain_section_text(*s));
}

/// Renders the report as plain text: each section (category name, one line
/// `  • description - amount (date)` per expense, `  Subtotal: ..._`), then
/// `Total: ...`. With no section it is `No expenses recorded yet.`.
pub fn render_plain_report(sections: &Vec<ReportSection>, total: &str) -> (r: String)
    requires
        forall|i: int| 0 <= i < sections@.len() ==> lines_in_range(#[trigger] sections@[i].lines@),
    ensures
        r@ == plain_report_text(sections@, total@),
{
    if sections.len() == 0 {
        return String::from_str("No expenses recorded yet.");
    }
    let mut out: Vec<char> = Vec::new();
    let mut i: usize = 0;
    while i < sections.len()
        invariant
            i <= sections@.len(),
            forall|t: int| 0 <= t < sections@.len() ==> lines_in_range(#[trigger] sections@[t].lines@),
            out@ == plain_sections_text(sections@.subrange(0, i as int)),
        decreases sections.len() - i,
    {
        assert(sections@.subrange(0, i + 1).drop_last() =~= sections@.subrange(0, i as int));
        push_plain_section(&mut out, &sections[i]);
        i = i + 1;
    }
    assert(sections@.subrange(0, sections@.len() as int) =~= sections@);
    extend_str(&mut out, "Total: ");
    extend_str(&mut out, total);
    assert(out@ =~= plain_report_text(sections@, total@));
    string_from_chars(&out)
}

// ---------------------------------------------------------------------------
// Category conflicts
// ---------------------------------------------------------------------------
/// For each category (in order) whose filters match `text`: its name and the
/// first matching filter.
pub open spec fn matching_categories(cats: Seq<(Seq<char>, Seq<Seq<char>>)>, text: Seq<char>) -> Seq<
    (Seq<char>, Seq<char>),
>
    decreases cats.len(),
{
    if cats.len() == 0 {
        Seq::empty()
    } else {
        let init = matching_categories(cats.drop_last(), text);
        match first_matching_pattern(cats.last().1, text) {
            Some(p) => init.push((cats.last().0, p)),
            None => init,
        }
    }
}

pub open spec fn matches_text(ms: Seq<(Seq<char>, Seq<char>)>) -> Seq<char>
    decreases ms.len(),
{
    if ms.len() == 0 {
        Seq::empty()
    } else {
        matches_text(ms.drop_last()) + "  • "@ + markdown_escape(ms.last().0) + " \\(filter: `"@
            + markdown_escape(ms.last().1) + "`\\)\n"@
    }
}

/// The block describing one conflicting expense.
pub open spec fn conflict_block(l: ExpenseLine, ms: Seq<(Seq<char>, Seq<char>)>) -> Seq<char> {
    "📝 *Expense:* "@ + markdown_escape(timestamp_date_text(l.timestamp)) + " "@ + markdown_escape(l.description@) + " "@
        + markdown_escape(l.amount@) + "\n"@ + "*Matching categories:*\n"@ + matches_text(ms)
        + "\n"@
}

/// The blocks of all expenses matched by more than one category, in order.
pub open spec fn conflicts_text(lines: Seq<ExpenseLine>, cats: Seq<(Seq<char>, Seq<Seq<char>>)>) -> Seq<char>
    decreases lines.len(),
{
    if lines.len() == 0 {
        Seq::empty()
    } else {
        let ms = matching_categories(cats, lines.last().description@);
        conflicts_text(lines.drop_last(), cats) + if ms.len() > 1 {
            conflict_block(lines.last(), ms)
        } else {
            Seq::empty()
        }
    }
}

/// Whether some expense is matched by more than one category.
pub open spec fn has_conflict(lines: Seq<ExpenseLine>, cats: Seq<(Seq<char>, Seq<Seq<char>>)>) -> bool {
    exists|i: int|
        0 <= i < lines.len() && matching_categories(cats, (#[trigger] lines[i]).description@).len()
            > 1
}

/// The heading of the conflict report.
pub open spec fn conflicts_heading() -> Seq<char> {
    "❌ *Category Conflicts Detected*\n\n"@ + "The following expenses match multiple categories\\.\n"@
        + "Please adjust your filters to avoid overlapping categories\\.\n\n"@
}

/// The fixed pieces of the conflict message need no further backslash.
proof fn lemma_conflict_pieces_escaped()
    ensures
        escaped_outside_markup(conflicts_heading(), true),
        escaped_outside_markup("  • "@, true),
        escaped_outside_markup(" \\(filter: `"@, true),
        escaped_outside_markup("`\\)\n"@, true),
        escaped_outside_markup("📝 *Expense:* "@, true),
        escaped_outside_markup(" "@, true),
        escaped_outside_markup("\n"@, true),
        escaped_outside_markup("*Matching categories:*\n"@, true),
{
    reveal_strlit("❌ *Category Conflicts Detected*\n\n");
    reveal_strlit("The following expenses match multiple categories\\.\n");
    reveal_strlit("Please adjust your filters to avoid overlapping categories\\.\n\n");
    reveal_strlit("  • ");
    reveal_strlit(" \\(filter: `");
    reveal_strlit("`\\)\n");
    reveal_strlit("📝 *Expense:* ");
    reveal_strlit(" ");
    reveal_strlit("\n");
    reveal_strlit("*Matching categories:*\n");
    let h1 = "❌ *Category Conflicts Detected*\n\n"@;
    let h2 = "The following expenses match multiple categories\\.\n"@;
    let h3 = "Please adjust your filters to avoid overlapping categories\\.\n\n"@;
    lemma_plain_is_escaped(h1, true);
    assert(escaped_outside_markup(h2, true));
    assert(escaped_outside_markup(h3, true));
    lemma_escaped_concat(h1, h2, true);
    lemma_escaped_concat(h1 + h2, h3, true);
    lemma_plain_is_escaped("  • "@, true);
    assert(escaped_outside_markup(" \\(filter: `"@, true));
    assert(escaped_outside_markup("`\\)\n"@, true));
    lemma_plain_is_escaped("📝 *Expense:* "@, true);
    lemma_plain_is_escaped(" "@, true);
    lemma_plain_is_escaped("\n"@, true);
    lemma_plain_is_escaped("*Matching categories:*\n"@, true);
}

proof fn lemma_matches_escaped(ms: Seq<(Seq<char>, Seq<char>)>)
    ensures
        escaped_outside_markup(matches_text(ms), true),
    decreases ms.len(),
{
    if ms.len() == 0 {
        lemma_plain_is_escaped(matches_text(ms), true);
    } else {
        lemma_matches_escaped(ms.drop_last());
        lemma_conflict_pieces_escaped();
        let n = markdown_escape(ms.last().0);
        let p = markdown_escape(ms.last().1);
        lemma_escape_is_escaped(ms.last().0, true);
        lemma_escape_is_escaped(ms.last().1, true);
        let a = matches_text(ms.drop_last());
        lemma_escaped_concat(a, "  • "@, true);
        lemma_escaped_concat(a + "  • "@, n, true);
        lemma_escaped_concat(a + "  • "@ + n, " \\(filter: `"@, true);
        lemma_escaped_concat(a + "  • "@ + n + " \\(filter: `"@, p, true);
        lemma_escaped_concat(a + "  • "@ + n + " \\(filter: `"@ + p, "`\\)\n"@, true);
    }
}

proof fn lemma_conflict_block_escaped(l: ExpenseLine, ms: Seq<(Seq<char>, Seq<char>)>)
    ensures
        escaped_outside_markup(conflict_block(l, ms), true),
{
    lemma_conflict_pieces_escaped();
    lemma_matches_escaped(ms);
    let e1 = markdown_escape(timestamp_date_text(l.timestamp));
    let e2 = markdown_escape(l.description@);
    let e3 = markdown_escape(l.amount@);
    lemma_escape_is_escaped(timestamp_date_text(l.timestamp), true);
    lemma_escape_is_escaped(l.description@, true);
    lemma_escape_is_escaped(l.amount@, true);
    let h = "📝 *Expense:* "@;
    lemma_escaped_concat(h, e1, true);
    lemma_escaped_concat(h + e1, " "@, true);
    lemma_escaped_concat(h + e1 + " "@, e2, true);
    lemma_escaped_concat(h + e1 + " "@ + e2, " "@, true);
    lemma_escaped_concat(h + e1 + " "@ + e2 + " "@, e3, true);
    lemma_escaped_concat(h + e1 + " "@ + e2 + " "@ + e3, "\n"@, true);
    let b = h + e1 + " "@ + e2 + " "@ + e3 + "\n"@;
    lemma_escaped_concat(b, "*Matching categories:*\n"@, true);
    lemma_escaped_concat(b + "*Matching categories:*\n"@, matches_text(ms), true);
    lemma_escaped_concat(b + "*Matching categories:*\n"@ + matches_text(ms), "\n"@, true);
}

proof fn lemma_conflicts_escaped(lines: Seq<ExpenseLine>, cats: Seq<(Seq<char>, Seq<Seq<char>>)>)
    ensures
        escaped_outside_markup(conflicts_text(lines, cats), true),
    decreases lines.len(),
{
    if lines.len() == 0 {
        lemma_plain_is_escaped(conflicts_text(lines, cats), true);
    } else {
        lemma_conflicts_escaped(lines.drop_last(), cats);
        let ms = matching_categories(cats, lines.last().description@);
        let tail = if ms.len() > 1 {
            conflict_block(lines.last(), ms)
        } else {
            Seq::empty()
        };
        if ms.len() > 1 {
            lemma_conflict_block_escaped(lines.last(), ms);
        } else {
            lemma_plain_is_escaped(tail, true);
        }
        lemma_escaped_concat(conflicts_text(lines.drop_last(), cats), tail, true);
    }
}

/// The conflict message needs no further backslash, whatever the categories,
/// filters and expenses hold: every character that MarkdownV2 reserves follows
/// a backslash, except the `*` of the bold markup and the `` ` `` around each
/// filter.
pub proof fn law_conflict_message_escapes_reserved(
    lines: Seq<ExpenseLine>,
    cats: Seq<(Seq<char>, Seq<Seq<char>>)>,
)
    ensures
        escaped_outside_markup(conflicts_heading() + conflicts_text(lines, cats), true),
{
    lemma_conflict_pieces_escaped();
    lemma_conflicts_escaped(lines, cats);
    lemma_escaped_concat(conflicts_heading(), conflicts_text(lines, cats), true);
}

/// Both markup characters of the conflict message add up across a seam.
proof fn lemma_join_marks(a: Seq<char>, b: Seq<char>)
    requires
        joins_cleanly(a, b, '*'),
        joins_cleanly(a, b, '`'),
    ensures
        marks(a + b, '*') == marks(a, '*') + marks(b, '*'),
        marks(a + b, '`') == marks(a, '`') + marks(b, '`'),
{
    lemma_marks_concat(a, b, '*');
    lemma_marks_concat(a, b, '`');
}

/// The markup characters of the fixed pieces of the conflict message.
proof fn lemma_conflict_piece_marks()
    ensures
        marks(conflicts_heading(), '*') == 2,
        marks(conflicts_heading(), '`') == 0,
        marks("  • "@, '*') == 0,
        marks("  • "@, '`') == 0,
        marks(" \\(filter: `"@, '*') == 0,
        marks(" \\(filter: `"@, '`') == 1,
        marks("`\\)\n"@, '*') == 0,
        marks("`\\)\n"@, '`') == 1,
        marks("📝 *Expense:* "@, '*') == 2,
        marks("📝 *Expense:* "@, '`') == 0,
        marks(" "@, '*') == 0,
        marks(" "@, '`') == 0,
        marks("\n"@, '*') == 0,
        marks("\n"@, '`') == 0,
        marks("*Matching categories:*\n"@, '*') == 2,
        marks("*Matching categories:*\n"@, '`') == 0,
{
    let h1 = "❌ *Category Conflicts Detected*\n\n"@;
    let h2 = "The following expenses match multiple categories\\.\n"@;
    let h3 = "Please adjust your filters to avoid overlapping categories\\.\n\n"@;
    reveal_strlit("❌ *Category Conflicts Detected*\n\n");
    reveal_strlit("The following expenses match multiple categories\\.\n");
    reveal_strlit("Please adjust your filters to avoid overlapping categories\\.\n\n");
    reveal_strlit("  • ");
    reveal_strlit(" \\(filter: `");
    reveal_strlit("`\\)\n");
    reveal_strlit("📝 *Expense:* ");
    reveal_strlit(" ");
    reveal_strlit("\n");
    reveal_strlit("*Matching categories:*\n");
    lemma_guarded_no_marks(h2, h2.len(), '*');
    lemma_guarded_no_marks(h2, h2.len(), '`');
    lemma_guarded_no_marks(h3, h3.len(), '*');
    lemma_guarded_no_marks(h3, h3.len(), '`');
    assert(marks(h1, '*') == 2 && marks(h1, '`') == 0) by {
        reveal_with_fuel(crate::markdown_string::mark_count, 40);
    }
    lemma_join_marks(h1, h2);
    lemma_join_marks(h1 + h2, h3);
    assert(marks("*Matching categories:*\n"@, '*') == 2 && marks("*Matching categories:*\n"@, '`')
        == 0) by {
        reveal_with_fuel(crate::markdown_string::mark_count, 30);
    }
    reveal_with_fuel(crate::markdown_string::mark_count, 16);
}

/// No filter of the categories ends with a backslash.
pub open spec fn filters_without_final_backslash(cats: Seq<(Seq<char>, Seq<Seq<char>>)>) -> bool {
    forall|k: int, q: Seq<char>|
        0 <= k < cats.len() && #[trigger] cats[k].1.contains(q) ==> no_final_backslash(q)
}

proof fn lemma_first_match_is_listed(ps: Seq<Seq<char>>, text: Seq<char>)
    ensures
        first_matching_pattern(ps, text) matches Some(p) ==> ps.contains(p),
    decreases ps.len(),
{
    if ps.len() > 0 {
        lemma_first_match_is_listed(ps.drop_first(), text);
        if let Some(p) = first_matching_pattern(ps.drop_first(), text) {
            if first_matching_pattern(ps, text) == Some(p) && ps[0] != p {
                let j = choose|j: int| 0 <= j < ps.drop_first().len() && ps.drop_first()[j] == p;
                assert(ps[j + 1] == p);
            }
        }
    }
}

proof fn lemma_matches_unescaped_end(cats: Seq<(Seq<char>, Seq<Seq<char>>)>, text: Seq<char>)
    requires
        filters_without_final_backslash(cats),
    ensures
        forall|t: int|
            0 <= t < matching_categories(cats, text).len() ==> no_final_backslash(
                (#[trigger] matching_categories(cats, text)[t]).1,
            ),
    decreases cats.len(),
{
    if cats.len() > 0 {
        let init = cats.drop_last();
        assert(filters_without_final_backslash(init)) by {
            assert forall|k: int, q: Seq<char>|
                0 <= k < init.len() && #[trigger] init[k].1.contains(q) implies no_final_backslash(q) by {
                assert(init[k] == cats[k]);
            }
        }
        lemma_matches_unescaped_end(init, text);
        let last = cats.len() - 1;
        lemma_first_match_is_listed(cats.last().1, text);
        let m0 = matching_categories(init, text);
        let m = matching_categories(cats, text);
        assert forall|t: int| 0 <= t < m.len() implies no_final_backslash((#[trigger] m[t]).1) by {
            if t < m0.len() {
                assert(m[t] == m0[t]);
            } else {
                assert(cats[last] == cats.last());
            }
        }
    }
}

proof fn lemma_matches_marks(ms: Seq<(Seq<char>, Seq<char>)>)
    requires
        forall|t: int| 0 <= t < ms.len() ==> no_final_backslash((#[trigger] ms[t]).1),
    ensures
        marks(matches_text(ms), '*') == 0,
        marks(matches_text(ms), '`') == 2 * ms.len(),
        matches_text(ms).len() > 0 ==> matches_text(ms)[0] == ' ',
    decreases ms.len(),
{
    if ms.len() == 0 {
        assert(matches_text(ms).len() == 0);
    } else {
        let init = ms.drop_last();
        assert forall|t: int| 0 <= t < init.len() implies no_final_backslash((#[trigger] init[t]).1) by {
            assert(init[t] == ms[t]);
        }
        lemma_matches_marks(init);
        lemma_conflict_piece_marks();
        reveal_strlit("  • ");
        reveal_strlit(" \\(filter: `");
        reveal_strlit("`\\)\n");
        assert(ms[ms.len() - 1] == ms.last());
        let n = markdown_escape(ms.last().0);
        let p = markdown_escape(ms.last().1);
        lemma_escape_marks(ms.last().0, '*');
        lemma_escape_marks(ms.last().0, '`');
        lemma_escape_marks(ms.last().1, '*');
        lemma_escape_marks(ms.last().1, '`');
        let a0 = matches_text(init);
        let a1 = a0 + "  • "@;
        let a2 = a1 + n;
        let a3 = a2 + " \\(filter: `"@;
        let a4 = a3 + p;
        let a5 = a4 + "`\\)\n"@;
        lemma_join_marks(a0, "  • "@);
        lemma_join_marks(a1, n);
        lemma_join_marks(a2, " \\(filter: `"@);
        lemma_join_marks(a3, p);
        assert(joins_cleanly(a4, "`\\)\n"@, '`'));
        lemma_join_marks(a4, "`\\)\n"@);
        if a0.len() == 0 {
            assert(a5[0] == ' ');
        } else {
            assert(a5[0] == a0[0]);
        }
    }
}

proof fn lemma_conflict_block_marks(l: ExpenseLine, ms: Seq<(Seq<char>, Seq<char>)>)
    requires
        forall|t: int| 0 <= t < ms.len() ==> no_final_backslash((#[trigger] ms[t]).1),
    ensures
        marks(conflict_block(l, ms), '*') == 4,
        marks(conflict_block(l, ms), '`') == 2 * ms.len(),
        conflict_block(l, ms).len() > 0,
        conflict_block(l, ms)[0] != '*' && conflict_block(l, ms)[0] != '`',
        conflict_block(l, ms).last() == '\n',
{
    lemma_conflict_piece_marks();
    lemma_matches_marks(ms);
    reveal_strlit("📝 *Expense:* ");
    reveal_strlit(" ");
    reveal_strlit("\n");
    reveal_strlit("*Matching categories:*\n");
    let d = timestamp_date_text(l.timestamp);
    let e1 = markdown_escape(d);
    let e2 = markdown_escape(l.description@);
    let e3 = markdown_escape(l.amount@);
    lemma_escape_marks(d, '*');
    lemma_escape_marks(d, '`');
    lemma_escape_marks(l.description@, '*');
    lemma_escape_marks(l.description@, '`');
    lemma_escape_marks(l.amount@, '*');
    lemma_escape_marks(l.amount@, '`');
    let h = "📝 *Expense:* "@;
    let b1 = h + e1;
    let b2 = b1 + " "@;
    let b3 = b2 + e2;
    let b4 = b3 + " "@;
    let b5 = b4 + e3;
    let b6 = b5 + "\n"@;
    let b7 = b6 + "*Matching categories:*\n"@;
    let b8 = b7 + matches_text(ms);
    let b9 = b8 + "\n"@;
    lemma_join_marks(h, e1);
    lemma_join_marks(b1, " "@);
    lemma_join_marks(b2, e2);
    lemma_join_marks(b3, " "@);
    lemma_join_marks(b4, e3);
    lemma_join_marks(b5, "\n"@);
    assert(b6.last() == '\n');
    lemma_join_marks(b6, "*Matching categories:*\n"@);
    lemma_join_marks(b7, matches_text(ms));
    lemma_join_marks(b8, "\n"@);
    assert(b9[0] == h[0]);
}

proof fn lemma_conflicts_marks(lines: Seq<ExpenseLine>, cats: Seq<(Seq<char>, Seq<Seq<char>>)>)
    requires
        filters_without_final_backslash(cats),
    ensures
        marks(conflicts_text(lines, cats), '*') % 4 == 0,
        marks(conflicts_text(lines, cats), '`') % 2 == 0,
        conflicts_text(lines, cats).len() > 0 ==> conflicts_text(lines, cats)[0] != '*'
            && conflicts_text(lines, cats)[0] != '`' && conflicts_text(lines, cats).last() == '\n',
    decreases lines.len(),
{
    if lines.len() == 0 {
        assert(conflicts_text(lines, cats).len() == 0);
    } else {
        let init = lines.drop_last();
        lemma_conflicts_marks(init, cats);
        let ms = matching_categories(cats, lines.last().description@);
        let a = conflicts_text(init, cats);
        if ms.len() > 1 {
            lemma_matches_unescaped_end(cats, lines.last().description@);
            lemma_conflict_block_marks(lines.last(), ms);
            let b = conflict_block(lines.last(), ms);
            lemma_join_marks(a, b);
            if a.len() == 0 {
                assert(a + b == b);
            } else {
                assert((a + b)[0] == a[0]);
            }
        } else {
            assert(conflicts_text(lines, cats) == a + Seq::<char>::empty());
            assert(a + Seq::<char>::empty() == a);
        }
    }
}

/// The markup of the conflict message is balanced, whatever the expenses and
/// category names hold: it has an even number of `*` and of `` ` `` that the
/// scan counts, as long as no filter ends with a backslash (such a filter is
/// no valid regular expression; the scan would take the closing `` ` `` for an
/// escaped one).
pub proof fn law_conflict_message_markup_balanced(
    lines: Seq<ExpenseLine>,
    cats: Seq<(Seq<char>, Seq<Seq<char>>)>,
)
    requires
        filters_without_final_backslash(cats),
    ensures
        marks(conflicts_heading() + conflicts_text(lines, cats), '*') % 2 == 0,
        marks(conflicts_heading() + conflicts_text(lines, cats), '`') % 2 == 0,
{
    lemma_conflict_piece_marks();
    lemma_conflicts_marks(lines, cats);
    lemma_join_marks(conflicts_heading(), conflicts_text(lines, cats));
}

fn matching_categories_exec(cats: &Vec<CompiledCategory>, text: &str) -> (r: Vec<(String, String)>)
    ensures
        r@.map_values(|m: (String, String)| (m.0@, m.1@)) == matching_categories(matchers(cats@), text@),
{
    let ghost m = matchers(cats@);
    let mut r: Vec<(String, String)> = Vec::new();
    let mut k: usize = 0;
    while k < cats.len()
        invariant
            k <= cats@.len(),
            m == matchers(cats@),
            r@.map_values(|m: (String, String)| (m.0@, m.1@)) == matching_categories(
                m.subrange(0, k as int),
                text@,
            ),
        decreases cats.len() - k,
    {
        assert(m.subrange(0, k + 1).drop_last() =~= m.subrange(0, k as int));
        assert(m.subrange(0, k + 1).last() == m[k as int]);
        assert(m[k as int].1 == compiled_views(cats@[k as int].patterns@));
        match find_matching_pattern(&cats[k].patterns, text) {
            Some(i) => {
                let ghost before = r@;
                let p = cats[k].patterns[i].as_str().to_owned();
                r.push((cats[k].name.clone(), p));
                assert(r@.map_values(|m: (String, String)| (m.0@, m.1@)) =~= before.map_values(
                    |m: (String, String)| (m.0@, m.1@),
                ).push((m[k as int].0, compiled_views(cats@[k as int].patterns@)[i as int])));
            },
            None => {},
        }
        k = k + 1;
    }
    assert(m.subrange(0, m.len() as int) =~= m);
    r
}

fn push_matches(out: &mut Vec<char>, ms: &Vec<(String, String)>)
    ensures
        final(out)@ == old(out)@ + matches_text(ms@.map_values(|m: (String, String)| (m.0@, m.1@))),
{
    let ghost mid = out@;
    let ghost mv = ms@.map_values(|m: (String, String)| (m.0@, m.1@));
    let mut i: usize = 0;
    while i < ms.len()
        invariant
            i <= ms@.len(),
            mv == ms@.map_values(|m: (String, String)| (m.0@, m.1@)),
            out@ == mid + matches_text(mv.subrange(0, i as int)),
        decreases ms.len() - i,
    {
        assert(mv.subrange(0, i + 1).drop_last() =~= mv.subrange(0, i as int));
        extend_str(out, "  • ");
        escape_into(out, ms[i].0.as_str());
        extend_str(out, " \\(filter: `");
        escape_into(out, ms[i].1.as_str());
        extend_str(out, "`\\)\n");
        i = i + 1;
        assert(out@ =~= mid + matches_text(mv.subrange(0, i as int)));
    }
    assert(mv.subrange(0, mv.len() as int) =~= mv);
}

#[verifier::spinoff_prover]
fn push_conflict_block(out: &mut Vec<char>, l: &ExpenseLine, ms: &Vec<(String, String)>)
    requires
        MIN_TIMESTAMP <= l.timestamp <= MAX_TIMESTAMP,
    ensures
        final(out)@ == old(out)@ + conflict_block(
            *l,
            ms@.map_values(|m: (String, String)| (m.0@, m.1@)),
        ),
{
    let ghost start = out@;
    let date = format_timestamp(l.timestamp);
    extend_str(out, "📝 *Expense:* ");
    escape_into(out, date.as_str());
    extend_str(out, " ");
    escape_into(out, l.description.as_str());
    extend_str(out, " ");
    escape_into(out, l.amount.as_str());
    extend_str(out, "\n");
    extend_str(out, "*Matching categories:*\n");
    push_matches(out, ms);
    extend_str(out, "\n");
    assert(out@ =~= start + conflict_block(*l, ms@.map_values(|m: (String, String)| (m.0@, m.1@))));
}

/// Checks, against the compiled categories, that no expense is matched by more
/// than one category. If some are, returns the MarkdownV2 message that lists
/// each of them (date, description, amount) with every matching category and
/// the filter that matched.
pub fn check_compiled_conflicts(expenses: &Vec<ExpenseLine>, compiled: &Vec<CompiledCategory>) -> (r:
    Result<(), String>)
    requires
        lines_in_range(expenses@),
    ensures
        conflicts_outcome(r, expenses@, matchers(compiled@)),
{
    let ghost cm = matchers(compiled@);
    let mut out: Vec<char> = Vec::new();
    let mut found = false;
    let mut i: usize = 0;
    while i < expenses.len()
        invariant
            i <= expenses@.len(),
            lines_in_range(expenses@),
            cm == matchers(compiled@),
            out@ == conflicts_text(expenses@.subrange(0, i as int), cm),
            found == has_conflict(expenses@.subrange(0, i as int), cm),
        decreases expenses.len() - i,
    {
        let ghost pre = expenses@.subrange(0, i as int);
        let ghost post = expenses@.subrange(0, i + 1);
        assert(post.drop_last() =~= pre);
        assert(post.last() == expenses@[i as int]);
        let ms = matching_categories_exec(compiled, expenses[i].description.as_str());
        if ms.len() > 1 {
            push_conflict_block(&mut out, &expenses[i], &ms);
            found = true;
            assert(post[i as int] == expenses@[i as int]);
        } else {
            assert(out@ =~= conflicts_text(post, cm));
            proof {
                if has_conflict(post, cm) {
                    let t = choose|t: int|
                        0 <= t < post.len() && matching_categories(
                            cm,
                            (#[trigger] post[t]).description@,
                        ).len() > 1;
                    assert(t < pre.len());
                    assert(pre[t] == post[t]);
                }
            }
        }
        proof {
            if has_conflict(pre, cm) {
                let t = choose|t: int|
                    0 <= t < pre.len() && matching_categories(
                        cm,
                        (#[trigger] pre[t]).description@,
                    ).len() > 1;
                assert(post[t] == pre[t]);
            }
        }
        i = i + 1;
    }
    assert(expenses@.subrange(0, expenses@.len() as int) =~= expenses@);
    if !found {
        return Ok(());
    }
    let mut msg: Vec<char> = Vec::new();
    extend_str(&mut msg, "❌ *Category Conflicts Detected*\n\n");
    extend_str(&mut msg, "The following expenses match multiple categories\\.\n");
    extend_str(&mut msg, "Please adjust your filters to avoid overlapping categories\\.\n\n");
    crate::text::extend_range(&mut msg, &out, 0, out.len());
    assert(out@.subrange(0, out@.len() as int) =~= out@);
    assert(msg@ =~= conflicts_heading() + conflicts_text(expenses@, cm));
    Err(string_from_chars(&msg))
}

/// `r` answers the conflict check: `Ok` exactly when no expense is matched by
/// two categories, else the message listing the conflicts.
pub open spec fn conflicts_outcome(
    r: Result<(), String>,
    expenses: Seq<ExpenseLine>,
    cats: Seq<(Seq<char>, Seq<Seq<char>>)>,
) -> bool {
    &&& !has_conflict(expenses, cats) ==> r is Ok
    &&& has_conflict(expenses, cats) ==> (r matches Err(m) && m@ == conflicts_heading()
        + conflicts_text(expenses, cats))
}

/// Checks that no expense is matched by more than one category: the filters
/// are compiled (those that do not compile are left out) and each expense is
/// held against every category. If some expenses conflict, returns the
/// MarkdownV2 message that lists each of them (date, description, amount) with
/// every matching category and the filter that matched.
pub fn check_category_conflicts(expenses: &Vec<ExpenseLine>, categories: &Vec<CategoryFilters>) -> (r:
    Result<(), String>)
    requires
        lines_in_range(expenses@),
    ensures
        exists|m: Seq<(Seq<char>, Seq<Seq<char>>)>|
            #[trigger] compiled_from(categories@, m) && conflicts_outcome(r, expenses@, m),
{
    let compiled = compile_categories(categories);
    let r = check_compiled_conflicts(expenses, &compiled);
    assert(compiled_from(categories@, matchers(compiled@)));
    r
}

} // verus!
