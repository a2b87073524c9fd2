//! Expense categories: user-named ones and the two special ones.

use vstd::prelude::*;

use crate::text::{chars_of, concat3, contains_char, is_whitespace, is_ws, str_eq, string_from_chars};

verus! {

/// Error returned when a category name is refused.
#[derive(Debug, Clone, PartialEq, Eq)]
pub struct ParseCategoryError(pub String);

impl ParseCategoryError {
    /// The message.
    pub fn to_string(&self) -> (r: String)
        ensures
            r@ == self.0@,
    {
        self.0.clone()
    }
}

/// A category for expense classification: a user-defined name, or one of the
/// special categories `Summary` (written `<none>`: the summary with category buttons) and `Other`
/// (uncategorized expenses).
#[derive(Debug, Clone, PartialEq, Eq, Hash, PartialOrd, Ord)]
pub enum Category {
    /// User-defined category with a name
    Category(String),
    /// Special category for showing summary with category selection
    Summary,
    /// Special category for uncategorized expenses
    Other,
}

/// The mathematical value of a category.
pub enum CategoryView {
    Named(Seq<char>),
    Summary,
    Other,
}

impl View for Category {
    type V = CategoryView;

    open spec fn view(&self) -> CategoryView {
        match self {
            Category::Category(name) => CategoryView::Named(name@),
            Category::Summary => CategoryView::Summary,
            Category::Other => CategoryView::Other,
        }
    }
}

/// The characters refused in category names, in the order they are checked.
pub open spec fn forbidden_category_chars() -> Seq<char> {
    seq![
        '*', '_', '[', ']', '(', ')', '~', '`', '>', '#', '+', '-', '=', '|', '{', '}', '.', '!',
        '\\',
    ]
}

/// The first character of `forbidden_category_chars()[k..]` that occurs in `s`.
pub open spec fn first_forbidden_from(s: Seq<char>, k: int) -> Option<char>
    decreases forbidden_category_chars().len() - k,
{
    if k < 0 || k >= forbidden_category_chars().len() {
        None
    } else if s.contains(forbidden_category_chars()[k]) {
        Some(forbidden_category_chars()[k])
    } else {
        first_forbidden_from(s, k + 1)
    }
}

/// Whether `s` holds a white-space character.
pub open spec fn has_whitespace(s: Seq<char>) -> bool {
    exists|i: int| 0 <= i < s.len() && is_ws(#[trigger] s[i])
}

/// The spelling of the special category `Summary` (`<none>`).
pub open spec fn none_text() -> Seq<char> {
    "<none>"@
}

/// The spelling of the special category `Other`.
pub open spec fn other_text() -> Seq<char> {
    "<other>"@
}

/// What `Category::from_string` makes of `s`: a category, or the error message.
pub open spec fn category_parse(s: Seq<char>) -> Result<CategoryView, Seq<char>> {
    if s == none_text() {
        Ok(CategoryView::Summary)
    } else if s == other_text() {
        Ok(CategoryView::Other)
    } else if s.len() == 0 {
        Err("Category name cannot be empty"@)
    } else if has_whitespace(s) {
        Err("Category name '"@ + s + "' cannot contain spaces. Use a single word."@)
    } else {
        match first_forbidden_from(s, 0) {
            Some(ch) => Err(
                "Category name '"@ + s + "' cannot contain special character '"@ + seq![ch] + "'"@,
            ),
            None => Ok(CategoryView::Named(s)),
        }
    }
}

/// The text of a category: its name, `<none>` or `<other>`.
pub open spec fn category_text(c: CategoryView) -> Seq<char> {
    match c {
        CategoryView::Named(name) => name,
        CategoryView::Summary => none_text(),
        CategoryView::Other => other_text(),
    }
}

/// Whether a string holds white space, and where.
fn find_whitespace(v: &Vec<char>) -> (r: bool)
    ensures
        r == has_whitespace(v@),
{
    let mut i: usize = 0;
    while i < v.len()
        invariant
            i <= v.len(),
            forall|k: int| 0 <= k < i ==> !is_ws(v@[k]),
        decreases v.len() - i,
    {
        if is_whitespace(v[i]) {
            assert(is_ws(v@[i as int]));
            return true;
        }
        i = i + 1;
    }
    false
}

fn first_forbidden(v: &Vec<char>) -> (r: Option<char>)
    ensures
        r == first_forbidden_from(v@, 0),
{
    let list: [char; 19] = [
        '*', '_', '[', ']', '(', ')', '~', '`', '>', '#', '+', '-', '=', '|', '{', '}', '.', '!',
        '\\',
    ];
    assert(list@ =~= forbidden_category_chars());
    let mut k: usize = 0;
    while k < 19
        invariant
            k <= 19,
            list@ == forbidden_category_chars(),
            first_forbidden_from(v@, 0) == first_forbidden_from(v@, k as int),
        decreases 19 - k,
    {
        if contains_char(v, list[k]) {
            return Some(list[k]);
        }
        k = k + 1;
    }
    None
}

impl Category {
    /// Parses a category: `<none>` and `<other>` name the special categories;
    /// any other text must be one non-empty word without white space or
    /// markdown-special characters.
    pub fn from_string(s: &str) -> (r: Result<Category, String>)
        ensures
            match category_parse(s@) {
                Ok(c) => r matches Ok(cat) && cat@ == c,
                Err(m) => r matches Err(e) && e@ == m,
            },
    {
        if str_eq(s, "<none>") {
            return Ok(Category::Summary);
        }
        if str_eq(s, "<other>") {
            return Ok(Category::Other);
        }
        let v = chars_of(s);
        if v.len() == 0 {
            return Err(String::from_str("Category name cannot be empty"));
        }
        if find_whitespace(&v) {
            return Err(concat3("Category name '", &v, "' cannot contain spaces. Use a single word."));
        }
        match first_forbidden(&v) {
            Some(ch) => {
                let mut msg = concat3("Category name '", &v, "' cannot contain special character '");
                let one = vec![ch];
                let tail = concat3("", &one, "'");
                proof {
                    reveal_strlit("");
                }
                assert(tail@ =~= seq![ch] + "'"@);
                msg.append(tail.as_str());
                Err(msg)
            },
            None => Ok(Category::Category(string_from_chars(&v))),
        }
    }

    /// Whether this is the special category `Summary` (`<none>`).
    pub fn is_none(&self) -> (b: bool)
        ensures
            b == (self@ is Summary),
    {
        match self {
            Category::Summary => true,
            _ => false,
        }
    }

    /// Whether this is the special category `Other`.
    pub fn is_other(&self) -> (b: bool)
        ensures
            b == (self@ is Other),
    {
        match self {
            Category::Other => true,
            _ => false,
        }
    }

    /// The category name; `<none>` and `<other>` for the special categories.
    pub fn as_str(&self) -> (r: &str)
        ensures
            r@ == category_text(self@),
    {
        match self {
            Category::Category(name) => name.as_str(),
            Category::Summary => "<none>",
            Category::Other => "<other>",
        }
    }

    /// The category text as a new `String` (its display text).
    pub fn to_string(&self) -> (r: String)
        ensures
            r@ == category_text(self@),
    {
        String::from_str(self.as_str())
    }
}

impl Default for Category {
    fn default() -> (r: Category)
        ensures
            r@ is Other,
    {
        Category::Other
    }
}

impl std::str::FromStr for Category {
    type Err = ParseCategoryError;

    fn from_str(s: &str) -> (r: Result<Category, ParseCategoryError>)
        ensures
            match category_parse(s@) {
                Ok(c) => r matches Ok(cat) && cat@ == c,
                Err(m) => r matches Err(e) && e.0@ == m,
            },
    {
        match Category::from_string(s) {
            Ok(c) => Ok(c),
            Err(e) => Err(ParseCategoryError(e)),
        }
    }
}

/// Parsing the text of an accepted category gives back the same category.
pub proof fn law_category_text_roundtrip(s: Seq<char>)
    requires
        category_parse(s) is Ok,
    ensures
        category_parse(category_text(category_parse(s)->Ok_0)) == category_parse(s),
{
}

} // verus!
