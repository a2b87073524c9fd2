//! Inline-keyboard callbacks: the data strings that buttons carry, how they
//! are read back, and what each one does to the word selection of a category.

use vstd::prelude::*;

use crate::lines::{find_from, slice_chars, split_first, split_first_chars};
use crate::message::starts_with;
use crate::regex_ops::{regex_escape, regex_escape_spec};
use crate::text::{chars_of, extend_str, str_eq, string_from_chars};
use crate::words::string_views;

verus! {

/// What a button asks for.
#[derive(Clone, Debug, PartialEq, Eq)]
pub enum CallbackAction {
    /// `remove_cat:<category>`
    RemoveCategory(String),
    /// `add_filter_cat:<category>`
    AddFilterCategory(String),
    /// `toggle_word:<category>:<word>`
    ToggleWord { category: String, word: String },
    /// `page_prev:<category>`
    PagePrev(String),
    /// `page_next:<category>`
    PageNext(String),
    /// `apply_words:<category>`
    ApplyWords(String),
    /// `remove_filter_cat:<category>`
    RemoveFilterCategory(String),
    /// `remove_filter:<category>:<pattern>`
    RemoveFilter { category: String, pattern: String },
    /// `edit_filter_cat:<category>`
    EditFilterCategory(String),
    /// `cmd_list`
    CmdList,
    /// `cmd_report`
    CmdReport,
    /// `cmd_clear`
    CmdClear,
    /// `cmd_categories`
    CmdCategories,
    /// `cmd_remove_category`
    CmdRemoveCategory,
    /// `cmd_add_filter`
    CmdAddFilter,
    /// `cmd_remove_filter`
    CmdRemoveFilter,
    /// `cmd_back_to_help`
    CmdBackToHelp,
    /// `noop`: an inactive button.
    Noop,
}

/// The view of an action.
pub enum CallbackActionView {
    RemoveCategory(Seq<char>),
    AddFilterCategory(Seq<char>),
    ToggleWord(Seq<char>, Seq<char>),
    PagePrev(Seq<char>),
    PageNext(Seq<char>),
    ApplyWords(Seq<char>),
    RemoveFilterCategory(Seq<char>),
    RemoveFilter(Seq<char>, Seq<char>),
    EditFilterCategory(Seq<char>),
    CmdList,
    CmdReport,
    CmdClear,
    CmdCategories,
    CmdRemoveCategory,
    CmdAddFilter,
    CmdRemoveFilter,
    CmdBackToHelp,
    Noop,
}

impl View for CallbackAction {
    type V = CallbackActionView;

    open spec fn view(&self) -> CallbackActionView {
        match self {
            CallbackAction::RemoveCategory(c) => CallbackActionView::RemoveCategory(c@),
            CallbackAction::AddFilterCategory(c) => CallbackActionView::AddFilterCategory(c@),
            CallbackAction::ToggleWord { category, word } => CallbackActionView::ToggleWord(
                category@,
                word@,
            ),
            CallbackAction::PagePrev(c) => CallbackActionView::PagePrev(c@),
            CallbackAction::PageNext(c) => CallbackActionView::PageNext(c@),
            CallbackAction::ApplyWords(c) => CallbackActionView::ApplyWords(c@),
            CallbackAction::RemoveFilterCategory(c) => CallbackActionView::RemoveFilterCategory(c@),
            CallbackAction::RemoveFilter { category, pattern } => CallbackActionView::RemoveFilter(
                category@,
                pattern@,
            ),
            CallbackAction::EditFilterCategory(c) => CallbackActionView::EditFilterCategory(c@),
            CallbackAction::CmdList => CallbackActionView::CmdList,
            CallbackAction::CmdReport => CallbackActionView::CmdReport,
            CallbackAction::CmdClear => CallbackActionView::CmdClear,
            CallbackAction::CmdCategories => CallbackActionView::CmdCategories,
            CallbackAction::CmdRemoveCategory => CallbackActionView::CmdRemoveCategory,
            CallbackAction::CmdAddFilter => CallbackActionView::CmdAddFilter,
            CallbackAction::CmdRemoveFilter => CallbackActionView::CmdRemoveFilter,
            CallbackAction::CmdBackToHelp => CallbackActionView::CmdBackToHelp,
            CallbackAction::Noop => CallbackActionView::Noop,
        }
    }
}

/// The data string a button carries for an action.
pub open spec fn callback_text(a: CallbackActionView) -> Seq<char> {
    match a {
        CallbackActionView::RemoveCategory(c) => "remove_cat:"@ + c,
        CallbackActionView::AddFilterCategory(c) => "add_filter_cat:"@ + c,
        CallbackActionView::ToggleWord(c, w) => "toggle_word:"@ + c + ":"@ + w,
        CallbackActionView::PagePrev(c) => "page_prev:"@ + c,
        CallbackActionView::PageNext(c) => "page_next:"@ + c,
        CallbackActionView::ApplyWords(c) => "apply_words:"@ + c,
        CallbackActionView::RemoveFilterCategory(c) => "remove_filter_cat:"@ + c,
        CallbackActionView::RemoveFilter(c, p) => "remove_filter:"@ + c + ":"@ + p,
        CallbackActionView::EditFilterCategory(c) => "edit_filter_cat:"@ + c,
        CallbackActionView::CmdList => "cmd_list"@,
        CallbackActionView::CmdReport => "cmd_report"@,
        CallbackActionView::CmdClear => "cmd_clear"@,
        CallbackActionView::CmdCategories => "cmd_categories"@,
        CallbackActionView::CmdRemoveCategory => "cmd_remove_category"@,
        CallbackActionView::CmdAddFilter => "cmd_add_filter"@,
        CallbackActionView::CmdRemoveFilter => "cmd_remove_filter"@,
        CallbackActionView::CmdBackToHelp => "cmd_back_to_help"@,
        CallbackActionView::Noop => "noop"@,
    }
}

/// `s` without the prefix `p`, if it starts with it.
pub open spec fn strip_prefix(s: Seq<char>, p: Seq<char>) -> Option<Seq<char>> {
    if starts_with(s, p) {
        Some(s.subrange(p.len() as int, s.len() as int))
    } else {
        None
    }
}

/// `category:rest` split at the first colon.
pub open spec fn two_parts(s: Seq<char>) -> Option<(Seq<char>, Seq<char>)> {
    match split_first(s, ':').1 {
        Some(r) => Some((split_first(s, ':').0, r)),
        None => None,
    }
}

/// How the callback handler reads a data string, prefix by prefix in its
/// order; data it does not handle (including `edit_filter_cat:`) reads as
/// nothing.
pub open spec fn callback_parse(d: Seq<char>) -> Option<CallbackActionView> {
    if strip_prefix(d, "remove_cat:"@) is Some {
        Some(CallbackActionView::RemoveCategory(strip_prefix(d, "remove_cat:"@)->0))
    } else if strip_prefix(d, "add_filter_cat:"@) is Some {
        Some(CallbackActionView::AddFilterCategory(strip_prefix(d, "add_filter_cat:"@)->0))
    } else if strip_prefix(d, "toggle_word:"@) is Some {
        match two_parts(strip_prefix(d, "toggle_word:"@)->0) {
            Some((c, w)) => Some(CallbackActionView::ToggleWord(c, w)),
            None => None,
        }
    } else if strip_prefix(d, "page_prev:"@) is Some {
        Some(CallbackActionView::PagePrev(strip_prefix(d, "page_prev:"@)->0))
    } else if strip_prefix(d, "page_next:"@) is Some {
        Some(CallbackActionView::PageNext(strip_prefix(d, "page_next:"@)->0))
    } else if strip_prefix(d, "apply_words:"@) is Some {
        Some(CallbackActionView::ApplyWords(strip_prefix(d, "apply_words:"@)->0))
    } else if strip_prefix(d, "remove_filter_cat:"@) is Some {
        Some(CallbackActionView::RemoveFilterCategory(strip_prefix(d, "remove_filter_cat:"@)->0))
    } else if strip_prefix(d, "remove_filter:"@) is Some {
        match two_parts(strip_prefix(d, "remove_filter:"@)->0) {
            Some((c, p)) => Some(CallbackActionView::RemoveFilter(c, p)),
            None => None,
        }
    } else if d == "cmd_list"@ {
        Some(CallbackActionView::CmdList)
    } else if d == "cmd_report"@ {
        Some(CallbackActionView::CmdReport)
    } else if d == "cmd_clear"@ {
        Some(CallbackActionView::CmdClear)
    } else if d == "cmd_categories"@ {
        Some(CallbackActionView::CmdCategories)
    } else if d == "cmd_remove_category"@ {
        Some(CallbackActionView::CmdRemoveCategory)
    } else if d == "cmd_add_filter"@ {
        Some(CallbackActionView::CmdAddFilter)
    } else if d == "cmd_remove_filter"@ {
        Some(CallbackActionView::CmdRemoveFilter)
    } else if d == "cmd_back_to_help"@ {
        Some(CallbackActionView::CmdBackToHelp)
    } else if d == "noop"@ {
        Some(CallbackActionView::Noop)
    } else {
        None
    }
}

fn prefixed(p: &str, a: &String) -> (r: String)
    ensures
        r@ == p@ + a@,
{
    let mut out: Vec<char> = Vec::new();
    extend_str(&mut out, p);
    extend_str(&mut out, a.as_str());
    string_from_chars(&out)
}

fn prefixed_pair(p: &str, a: &String, b: &String) -> (r: String)
    ensures
        r@ == p@ + a@ + ":"@ + b@,
{
    let mut out: Vec<char> = Vec::new();
    extend_str(&mut out, p);
    extend_str(&mut out, a.as_str());
    extend_str(&mut out, ":");
    extend_str(&mut out, b.as_str());
    string_from_chars(&out)
}

impl CallbackAction {
    /// The data string of the button.
    pub fn encode(&self) -> (r: String)
        ensures
            r@ == callback_text(self@),
    {
        match self {
            CallbackAction::RemoveCategory(c) => prefixed("remove_cat:", c),
            CallbackAction::AddFilterCategory(c) => prefixed("add_filter_cat:", c),
            CallbackAction::ToggleWord { category, word } => prefixed_pair(
                "toggle_word:",
                category,
                word,
            ),
            CallbackAction::PagePrev(c) => prefixed("page_prev:", c),
            CallbackAction::PageNext(c) => prefixed("page_next:", c),
            CallbackAction::ApplyWords(c) => prefixed("apply_words:", c),
            CallbackAction::RemoveFilterCategory(c) => prefixed("remove_filter_cat:", c),
            CallbackAction::RemoveFilter { category, pattern } => prefixed_pair(
                "remove_filter:",
                category,
                pattern,
            ),
            CallbackAction::EditFilterCategory(c) => prefixed("edit_filter_cat:", c),
            CallbackAction::CmdList => "cmd_list".to_string(),
            CallbackAction::CmdReport => "cmd_report".to_string(),
            CallbackAction::CmdClear => "cmd_clear".to_string(),
            CallbackAction::CmdCategories => "cmd_categories".to_string(),
            CallbackAction::CmdRemoveCategory => "cmd_remove_category".to_string(),
            CallbackAction::CmdAddFilter => "cmd_add_filter".to_string(),
            CallbackAction::CmdRemoveFilter => "cmd_remove_filter".to_string(),
            CallbackAction::CmdBackToHelp => "cmd_back_to_help".to_string(),
            CallbackAction::Noop => "noop".to_string(),
        }
    }
}

fn strip_prefix_exec(v: &Vec<char>, p: &str) -> (r: Option<Vec<char>>)
    ensures
        match r {
            Some(t) => strip_prefix(v@, p@) == Some(t@),
            None => strip_prefix(v@, p@) is None,
        },
{
    let pv = chars_of(p);
    if pv.len() > v.len() {
        return None;
    }
    let mut i: usize = 0;
    while i < pv.len()
        invariant
            i <= pv.len() <= v.len(),
            pv@ == p@,
            forall|k: int| 0 <= k < i ==> v@[k] == pv@[k],
        decreases pv.len() - i,
    {
        if v[i] != pv[i] {
            assert(v@.subrange(0, pv@.len() as int)[i as int] != pv@[i as int]);
            return None;
        }
        i = i + 1;
    }
    assert(v@.subrange(0, pv@.len() as int) =~= pv@);
    Some(slice_chars(v, pv.len(), v.len()))
}

fn two_parts_exec(v: &Vec<char>) -> (r: Option<(String, String)>)
    ensures
        match r {
            Some((a, b)) => two_parts(v@) == Some((a@, b@)),
            None => two_parts(v@) is None,
        },
{
    let (a, rest) = split_first_chars(v, ':');
    match rest {
        Some(b) => Some((string_from_chars(&a), string_from_chars(&b))),
        None => None,
    }
}

fn owned(v: &Vec<char>) -> (r: String)
    ensures
        r@ == v@,
{
    string_from_chars(v)
}

/// Reads the data of a pressed button the way the callback handler does:
/// `None` for data it does not act on.
pub fn parse_callback(data: &str) -> (r: Option<CallbackAction>)
    ensures
        match r {
            Some(a) => callback_parse(data@) == Some(a@),
            None => callback_parse(data@) is None,
        },
{
    let v = chars_of(data);
    if let Some(t) = strip_prefix_exec(&v, "remove_cat:") {
        return Some(CallbackAction::RemoveCategory(owned(&t)));
    }
    if let Some(t) = strip_prefix_exec(&v, "add_filter_cat:") {
        return Some(CallbackAction::AddFilterCategory(owned(&t)));
    }
    if let Some(t) = strip_prefix_exec(&v, "toggle_word:") {
        return match two_parts_exec(&t) {
            Some((category, word)) => Some(CallbackAction::ToggleWord { category, word }),
            None => None,
        };
    }
    if let Some(t) = strip_prefix_exec(&v, "page_prev:") {
        return Some(CallbackAction::PagePrev(owned(&t)));
    }
    if let Some(t) = strip_prefix_exec(&v, "page_next:") {
        return Some(CallbackAction::PageNext(owned(&t)));
    }
    if let Some(t) = strip_prefix_exec(&v, "apply_words:") {
        return Some(CallbackAction::ApplyWords(owned(&t)));
    }
    if let Some(t) = strip_prefix_exec(&v, "remove_filter_cat:") {
        return Some(CallbackAction::RemoveFilterCategory(owned(&t)));
    }
    if let Some(t) = strip_prefix_exec(&v, "remove_filter:") {
        return match two_parts_exec(&t) {
            Some((category, pattern)) => Some(CallbackAction::RemoveFilter { category, pattern }),
            None => None,
        };
    }
    if str_eq(data, "cmd_list") {
        Some(CallbackAction::CmdList)
    } else if str_eq(data, "cmd_report") {
        Some(CallbackAction::CmdReport)
    } else if str_eq(data, "cmd_clear") {
        Some(CallbackAction::CmdClear)
    } else if str_eq(data, "cmd_categories") {
        Some(CallbackAction::CmdCategories)
    } else if str_eq(data, "cmd_remove_category") {
        Some(CallbackAction::CmdRemoveCategory)
    } else if str_eq(data, "cmd_add_filter") {
        Some(CallbackAction::CmdAddFilter)
    } else if str_eq(data, "cmd_remove_filter") {
        Some(CallbackAction::CmdRemoveFilter)
    } else if str_eq(data, "cmd_back_to_help") {
        Some(CallbackAction::CmdBackToHelp)
    } else if str_eq(data, "noop") {
        Some(CallbackAction::Noop)
    } else {
        None
    }
}

// ---------------------------------------------------------------------------
// The word selection of a category
// ---------------------------------------------------------------------------
/// The index of the first occurrence of `w` in `s`.
pub open spec fn first_index(s: Seq<Seq<char>>, w: Seq<char>) -> Option<int>
    decreases s.len(),
{
    if s.len() == 0 {
        None
    } else {
        match first_index(s.drop_last(), w) {
            Some(i) => Some(i),
            None => if s.last() == w {
                Some(s.len() - 1)
            } else {
                None
            },
        }
    }
}

/// A selected word is unselected (its first occurrence removed); any other
/// word is selected (appended).
pub open spec fn toggle(s: Seq<Seq<char>>, w: Seq<char>) -> Seq<Seq<char>> {
    match first_index(s, w) {
        Some(i) => s.remove(i),
        None => s.push(w),
    }
}

/// Toggles `word` in the selection.
pub fn toggle_word(selected: &Vec<String>, word: &String) -> (r: Vec<String>)
    ensures
        string_views(r@) == toggle(string_views(selected@), word@),
{
    let ghost sv = string_views(selected@);
    let mut i: usize = 0;
    while i < selected.len()
        invariant
            i <= selected.len(),
            sv == string_views(selected@),
            first_index(sv.subrange(0, i as int), word@) is None,
        decreases selected.len() - i,
    {
        assert(sv.subrange(0, i + 1).drop_last() =~= sv.subrange(0, i as int));
        if str_eq(selected[i].as_str(), word.as_str()) {
            proof {
                assert(sv.subrange(0, i + 1).last() == word@);
                lemma_first_index_prefix(sv, i + 1, word@);
            }
            let mut r: Vec<String> = Vec::new();
            let mut k: usize = 0;
            while k < selected.len()
                invariant
                    k <= selected.len(),
                    i < selected.len(),
                    sv == string_views(selected@),
                    string_views(r@) == (if k <= i {
                        sv.subrange(0, k as int)
                    } else {
                        sv.subrange(0, i as int) + sv.subrange(i + 1, k as int)
                    }),
                decreases selected.len() - k,
            {
                let ghost before = string_views(r@);
                if k != i {
                    r.push(selected[k].clone());
                    assert(string_views(r@) =~= before.push(selected@[k as int]@));
                }
                assert(sv[k as int] == selected@[k as int]@);
                proof {
                    if k < i {
                        assert(string_views(r@) =~= sv.subrange(0, k + 1));
                    } else if k == i {
                        assert(sv.subrange(0, i as int) + sv.subrange(i + 1, k + 1) =~= sv.subrange(
                            0,
                            i as int,
                        ));
                    } else {
                        assert(string_views(r@) =~= sv.subrange(0, i as int) + sv.subrange(
                            i + 1,
                            k + 1,
                        ));
                    }
                }
                k = k + 1;
            }
            assert(string_views(r@) =~= sv.remove(i as int));
            return r;
        }
        i = i + 1;
    }
    assert(sv.subrange(0, sv.len() as int) =~= sv);
    let mut r: Vec<String> = Vec::new();
    let mut k: usize = 0;
    while k < selected.len()
        invariant
            k <= selected.len(),
            sv == string_views(selected@),
            string_views(r@) == sv.subrange(0, k as int),
        decreases selected.len() - k,
    {
        let ghost before = string_views(r@);
        r.push(selected[k].clone());
        assert(string_views(r@) =~= before.push(selected@[k as int]@));
        assert(sv[k as int] == selected@[k as int]@);
        assert(string_views(r@) =~= sv.subrange(0, k + 1));
        k = k + 1;
    }
    let ghost before = string_views(r@);
    r.push(word.clone());
    assert(string_views(r@) =~= before.push(word@));
    assert(string_views(r@) =~= sv.push(word@));
    r
}

proof fn lemma_first_index_prefix(s: Seq<Seq<char>>, n: int, w: Seq<char>)
    requires
        0 <= n <= s.len(),
        first_index(s.subrange(0, n), w) is Some,
    ensures
        first_index(s, w) == first_index(s.subrange(0, n), w),
    decreases s.len() - n,
{
    if n < s.len() {
        assert(s.subrange(0, n + 1).drop_last() =~= s.subrange(0, n));
        lemma_first_index_prefix(s, n + 1, w);
    } else {
        assert(s.subrange(0, n) =~= s);
    }
}

/// The words joined with a separator.
pub open spec fn join(ws: Seq<Seq<char>>, sep: Seq<char>) -> Seq<char>
    decreases ws.len(),
{
    if ws.len() == 0 {
        Seq::empty()
    } else if ws.len() == 1 {
        ws[0]
    } else {
        join(ws.drop_last(), sep) + sep + ws.last()
    }
}

/// Each word escaped for a regular expression.
pub open spec fn escaped_words(ws: Seq<Seq<char>>) -> Seq<Seq<char>> {
    ws.map_values(|w: Seq<char>| regex_escape_spec(w))
}

/// `prefix + (escaped words joined by "|") + suffix`.
pub fn words_pattern(selected: &Vec<String>, prefix: &str, suffix: &str) -> (r: String)
    ensures
        r@ == prefix@ + join(escaped_words(string_views(selected@)), "|"@) + suffix@,
{
    let ghost ew = escaped_words(string_views(selected@));
    let mut out: Vec<char> = Vec::new();
    extend_str(&mut out, prefix);
    let ghost start = out@;
    let mut i: usize = 0;
    while i < selected.len()
        invariant
            i <= selected.len(),
            ew == escaped_words(string_views(selected@)),
            out@ == start + join(ew.subrange(0, i as int), "|"@),
        decreases selected.len() - i,
    {
        let e = regex_escape(selected[i].as_str());
        assert(ew[i as int] == e@);
        if i > 0 {
            extend_str(&mut out, "|");
        }
        extend_str(&mut out, e.as_str());
        assert(ew.subrange(0, i + 1).drop_last() =~= ew.subrange(0, i as int));
        assert(out@ =~= start + join(ew.subrange(0, i + 1), "|"@));
        i = i + 1;
    }
    assert(ew.subrange(0, ew.len() as int) =~= ew);
    extend_str(&mut out, suffix);
    string_from_chars(&out)
}

/// What the handler does for a pressed button, given the selection and page
/// offset stored for the category the button names.
pub enum CallbackStep {
    /// Remove the category, then show the remove-category menu.
    RemoveCategory(String),
    /// Clear the category's selection and page offset, then show its word
    /// suggestions.
    StartWordSelection(String),
    /// Store this selection for the category, then show its suggestions.
    SetSelection(String, Vec<String>),
    /// Store this page offset for the category, then show its suggestions.
    SetPageOffset(String, usize),
    /// Clear the category's selection and page offset, then run
    /// `/add_filter <category> <pattern>`.
    ApplyFilter(String, String),
    /// Show the filters of the category, for removal.
    ShowFiltersForRemoval(String),
    /// Remove the filter from the category, then show its filters again.
    RemoveFilter(String, String),
    /// Run the menu command of the button.
    Menu(CallbackAction),
    /// Do nothing.
    Nothing,
}

/// The view of a step.
pub enum CallbackStepView {
    RemoveCategory(Seq<char>),
    StartWordSelection(Seq<char>),
    SetSelection(Seq<char>, Seq<Seq<char>>),
    SetPageOffset(Seq<char>, usize),
    ApplyFilter(Seq<char>, Seq<char>),
    ShowFiltersForRemoval(Seq<char>),
    RemoveFilter(Seq<char>, Seq<char>),
    Menu(CallbackActionView),
    Nothing,
}

impl View for CallbackStep {
    type V = CallbackStepView;

    open spec fn view(&self) -> CallbackStepView {
        match self {
            CallbackStep::RemoveCategory(c) => CallbackStepView::RemoveCategory(c@),
            CallbackStep::StartWordSelection(c) => CallbackStepView::StartWordSelection(c@),
            CallbackStep::SetSelection(c, s) => CallbackStepView::SetSelection(c@, string_views(s@)),
            CallbackStep::SetPageOffset(c, o) => CallbackStepView::SetPageOffset(c@, *o),
            CallbackStep::ApplyFilter(c, p) => CallbackStepView::ApplyFilter(c@, p@),
            CallbackStep::ShowFiltersForRemoval(c) => CallbackStepView::ShowFiltersForRemoval(c@),
            CallbackStep::RemoveFilter(c, p) => CallbackStepView::RemoveFilter(c@, p@),
            CallbackStep::Menu(a) => CallbackStepView::Menu(a@),
            CallbackStep::Nothing => CallbackStepView::Nothing,
        }
    }
}

/// The words per page of suggestions.
pub const WORDS_PER_PAGE: usize = 20;

/// The step of an action: toggling edits the selection; paging moves the
/// offset by a page (not below zero); applying a non-empty selection adds the
/// filter `(?i)(w1|w2|...)` of the escaped words, an empty one does nothing.
pub open spec fn callback_step(a: CallbackActionView, selected: Seq<Seq<char>>, offset: usize) -> CallbackStepView {
    match a {
        CallbackActionView::RemoveCategory(c) => CallbackStepView::RemoveCategory(c),
        CallbackActionView::AddFilterCategory(c) => CallbackStepView::StartWordSelection(c),
        CallbackActionView::ToggleWord(c, w) => CallbackStepView::SetSelection(c, toggle(selected, w)),
        CallbackActionView::PagePrev(c) => CallbackStepView::SetPageOffset(
            c,
            if offset >= 20 {
                (offset - 20) as usize
            } else {
                0
            },
        ),
        CallbackActionView::PageNext(c) => CallbackStepView::SetPageOffset(c, (offset + 20) as usize),
        CallbackActionView::ApplyWords(c) => if selected.len() > 0 {
            CallbackStepView::ApplyFilter(c, "(?i)("@ + join(escaped_words(selected), "|"@) + ")"@)
        } else {
            CallbackStepView::Nothing
        },
        CallbackActionView::RemoveFilterCategory(c) => CallbackStepView::ShowFiltersForRemoval(c),
        CallbackActionView::RemoveFilter(c, p) => CallbackStepView::RemoveFilter(c, p),
        CallbackActionView::EditFilterCategory(_) => CallbackStepView::Nothing,
        CallbackActionView::Noop => CallbackStepView::Nothing,
        _ => CallbackStepView::Menu(a),
    }
}

/// Decides what a pressed button does (see `callback_step`).
pub fn callback_decision(action: &CallbackAction, selected: &Vec<String>, offset: usize) -> (r:
    CallbackStep)
    requires
        action@ matches CallbackActionView::PageNext(_) ==> offset <= usize::MAX - 20,
    ensures
        r@ == callback_step(action@, string_views(selected@), offset),
{
    match action {
        CallbackAction::RemoveCategory(c) => CallbackStep::RemoveCategory(c.clone()),
        CallbackAction::AddFilterCategory(c) => CallbackStep::StartWordSelection(c.clone()),
        CallbackAction::ToggleWord { category, word } => CallbackStep::SetSelection(
            category.clone(),
            toggle_word(selected, word),
        ),
        CallbackAction::PagePrev(c) => CallbackStep::SetPageOffset(
            c.clone(),
            if offset >= WORDS_PER_PAGE {
                offset - WORDS_PER_PAGE
            } else {
                0
            },
        ),
        CallbackAction::PageNext(c) => CallbackStep::SetPageOffset(c.clone(), offset + WORDS_PER_PAGE),
        CallbackAction::ApplyWords(c) => {
            if selected.len() > 0 {
                CallbackStep::ApplyFilter(c.clone(), words_pattern(selected, "(?i)(", ")"))
            } else {
                CallbackStep::Nothing
            }
        },
        CallbackAction::RemoveFilterCategory(c) => CallbackStep::ShowFiltersForRemoval(c.clone()),
        CallbackAction::RemoveFilter { category, pattern } => CallbackStep::RemoveFilter(
            category.clone(),
            pattern.clone(),
        ),
        CallbackAction::EditFilterCategory(_) => CallbackStep::Nothing,
        CallbackAction::Noop => CallbackStep::Nothing,
        CallbackAction::CmdList => CallbackStep::Menu(CallbackAction::CmdList),
        CallbackAction::CmdReport => CallbackStep::Menu(CallbackAction::CmdReport),
        CallbackAction::CmdClear => CallbackStep::Menu(CallbackAction::CmdClear),
        CallbackAction::CmdCategories => CallbackStep::Menu(CallbackAction::CmdCategories),
        CallbackAction::CmdRemoveCategory => CallbackStep::Menu(CallbackAction::CmdRemoveCategory),
        CallbackAction::CmdAddFilter => CallbackStep::Menu(CallbackAction::CmdAddFilter),
        CallbackAction::CmdRemoveFilter => CallbackStep::Menu(CallbackAction::CmdRemoveFilter),
        CallbackAction::CmdBackToHelp => CallbackStep::Menu(CallbackAction::CmdBackToHelp),
    }
}

/// The actions whose data string reads back as the same action: all but
/// `EditFilterCategory` (which the handler ignores), and with no `:` in the
/// category of a two-part action.
pub open spec fn reads_back(a: CallbackActionView) -> bool {
    match a {
        CallbackActionView::EditFilterCategory(_) => false,
        CallbackActionView::ToggleWord(c, _) => find_from(c, ':', 0) is None,
        CallbackActionView::RemoveFilter(c, _) => find_from(c, ':', 0) is None,
        _ => true,
    }
}

proof fn lemma_not_prefix(s: Seq<char>, p: Seq<char>, k: int)
    requires
        0 <= k < p.len(),
        k < s.len() ==> s[k] != p[k],
    ensures
        strip_prefix(s, p) is None,
{
    if p.len() <= s.len() && s.subrange(0, p.len() as int) == p {
        assert(s.subrange(0, p.len() as int)[k] == s[k]);
    }
}

proof fn lemma_prefix(p: Seq<char>, c: Seq<char>)
    ensures
        strip_prefix(p + c, p) == Some(c),
{
    assert((p + c).subrange(0, p.len() as int) =~= p);
    assert((p + c).subrange(p.len() as int, (p + c).len() as int) =~= c);
}

proof fn lemma_split_colon(c: Seq<char>, w: Seq<char>)
    requires
        find_from(c, ':', 0) is None,
    ensures
        two_parts(c + ":"@ + w) == Some((c, w)),
{
    reveal_strlit(":");
    let s = c + ":"@ + w;
    lemma_find_colon(c, w, 0);
    assert(s.subrange(0, c.len() as int) =~= c);
    assert(s.subrange(c.len() + 1int, s.len() as int) =~= w);
}

proof fn lemma_find_colon(c: Seq<char>, w: Seq<char>, k: int)
    requires
        0 <= k <= c.len(),
        find_from(c, ':', k) is None,
    ensures
        find_from(c + ":"@ + w, ':', k) == Some(c.len() as int),
    decreases c.len() - k,
{
    reveal_strlit(":");
    let s = c + ":"@ + w;
    if k < c.len() {
        assert(s[k] == c[k]);
        lemma_find_colon(c, w, k + 1);
    } else {
        assert(s[c.len() as int] == ':');
    }
}

/// A button's data string reads back as its action (`parse_callback` undoes
/// `encode`), for the actions of `reads_back`.
pub proof fn law_callback_roundtrip(a: CallbackActionView)
    requires
        reads_back(a),
    ensures
        callback_parse(callback_text(a)) == Some(a),
{
    reveal_strlit("remove_cat:");
    reveal_strlit("add_filter_cat:");
    reveal_strlit("toggle_word:");
    reveal_strlit("page_prev:");
    reveal_strlit("page_next:");
    reveal_strlit("apply_words:");
    reveal_strlit("remove_filter_cat:");
    reveal_strlit("remove_filter:");
    reveal_strlit(":");
    reveal_strlit("cmd_list");
    reveal_strlit("cmd_report");
    reveal_strlit("cmd_clear");
    reveal_strlit("cmd_categories");
    reveal_strlit("cmd_remove_category");
    reveal_strlit("cmd_add_filter");
    reveal_strlit("cmd_remove_filter");
    reveal_strlit("cmd_back_to_help");
    reveal_strlit("noop");
    let t = callback_text(a);
    match a {
        CallbackActionView::RemoveCategory(c) => {
            lemma_prefix("remove_cat:"@, c);
            assert(t == "remove_cat:"@ + c);
            assert(strip_prefix(t, "remove_cat:"@) == Some(c));
            assert(callback_parse(t) == Some(CallbackActionView::RemoveCategory(c)));
        },
        CallbackActionView::AddFilterCategory(c) => {
            lemma_not_prefix(t, "remove_cat:"@, 0);
            lemma_prefix("add_filter_cat:"@, c);
        },
        CallbackActionView::ToggleWord(c, w) => {
            lemma_not_prefix(t, "remove_cat:"@, 0);
            lemma_not_prefix(t, "add_filter_cat:"@, 0);
            assert(t == "toggle_word:"@ + (c + ":"@ + w));
            lemma_prefix("toggle_word:"@, c + ":"@ + w);
            lemma_split_colon(c, w);
        },
        CallbackActionView::PagePrev(c) => {
            lemma_not_prefix(t, "remove_cat:"@, 0);
            lemma_not_prefix(t, "add_filter_cat:"@, 0);
            lemma_not_prefix(t, "toggle_word:"@, 0);
            lemma_prefix("page_prev:"@, c);
        },
        CallbackActionView::PageNext(c) => {
            lemma_not_prefix(t, "remove_cat:"@, 0);
            lemma_not_prefix(t, "add_filter_cat:"@, 0);
            lemma_not_prefix(t, "toggle_word:"@, 0);
            lemma_not_prefix(t, "page_prev:"@, 5);
            lemma_prefix("page_next:"@, c);
        },
        CallbackActionView::ApplyWords(c) => {
            lemma_not_prefix(t, "remove_cat:"@, 0);
            lemma_not_prefix(t, "add_filter_cat:"@, 1);
            lemma_not_prefix(t, "toggle_word:"@, 0);
            lemma_not_prefix(t, "page_prev:"@, 0);
            lemma_not_prefix(t, "page_next:"@, 0);
            lemma_prefix("apply_words:"@, c);
        },
        CallbackActionView::RemoveFilterCategory(c) => {
            lemma_not_prefix(t, "remove_cat:"@, 7);
            lemma_not_prefix(t, "add_filter_cat:"@, 0);
            lemma_not_prefix(t, "toggle_word:"@, 0);
            lemma_not_prefix(t, "page_prev:"@, 0);
            lemma_not_prefix(t, "page_next:"@, 0);
            lemma_not_prefix(t, "apply_words:"@, 0);
            lemma_prefix("remove_filter_cat:"@, c);
        },
        CallbackActionView::RemoveFilter(c, p) => {
            lemma_not_prefix(t, "remove_cat:"@, 7);
            lemma_not_prefix(t, "add_filter_cat:"@, 0);
            lemma_not_prefix(t, "toggle_word:"@, 0);
            lemma_not_prefix(t, "page_prev:"@, 0);
            lemma_not_prefix(t, "page_next:"@, 0);
            lemma_not_prefix(t, "apply_words:"@, 0);
            lemma_not_prefix(t, "remove_filter_cat:"@, 13);
            assert(t == "remove_filter:"@ + (c + ":"@ + p));
            lemma_prefix("remove_filter:"@, c + ":"@ + p);
            lemma_split_colon(c, p);
        },
        CallbackActionView::EditFilterCategory(_) => {},
        _ => {
            lemma_not_prefix(t, "remove_cat:"@, 0);
            lemma_not_prefix(t, "add_filter_cat:"@, 0);
            lemma_not_prefix(t, "toggle_word:"@, 0);
            lemma_not_prefix(t, "page_prev:"@, 0);
            lemma_not_prefix(t, "page_next:"@, 0);
            lemma_not_prefix(t, "apply_words:"@, 0);
            lemma_not_prefix(t, "remove_filter_cat:"@, 0);
            lemma_not_prefix(t, "remove_filter:"@, 0);
            assert("cmd_add_filter"@ != "cmd_categories"@) by {
                assert("cmd_add_filter"@[4] != "cmd_categories"@[4]);
            }
        },
    }
}

/// Toggling a word twice gives the selection back when the word was not
/// selected.
pub proof fn law_toggle_twice(s: Seq<Seq<char>>, w: Seq<char>)
    requires
        !s.contains(w),
    ensures
        toggle(toggle(s, w), w) == s,
{
    lemma_first_index_absent(s, w);
    lemma_first_index_last(s, w);
    assert(s.push(w).remove(s.len() as int) =~= s);
}

proof fn lemma_first_index_absent(s: Seq<Seq<char>>, w: Seq<char>)
    requires
        !s.contains(w),
    ensures
        first_index(s, w) is None,
    decreases s.len(),
{
    if s.len() > 0 {
        assert(!s.drop_last().contains(w)) by {
            if s.drop_last().contains(w) {
                let k = choose|k: int| 0 <= k < s.drop_last().len() && s.drop_last()[k] == w;
                assert(s[k] == w);
            }
        }
        lemma_first_index_absent(s.drop_last(), w);
        assert(s[s.len() - 1] != w);
    }
}

proof fn lemma_first_index_last(s: Seq<Seq<char>>, w: Seq<char>)
    requires
        first_index(s, w) is None,
    ensures
        first_index(s.push(w), w) == Some(s.len() as int),
{
    assert(s.push(w).drop_last() =~= s);
}

} // verus!
