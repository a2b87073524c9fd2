//! Telegram MarkdownV2 text: escaping, templates and format-string validation.

use vstd::prelude::*;

use crate::text::{chars_of, extend_range, string_from_chars};

verus! {

/// Characters that MarkdownV2 reserves and that must be preceded by a backslash
/// when they stand for themselves.
pub open spec fn is_markdown_reserved(c: char) -> bool {
    c == '\\' || c == '_' || c == '*' || c == '[' || c == ']' || c == '(' || c == ')' || c == '~'
        || c == '`' || c == '>' || c == '#' || c == '+' || c == '-' || c == '=' || c == '|'
        || c == '{' || c == '}' || c == '.' || c == '!'
}

/// The escaped form of `s`: every reserved character gets a backslash in front.
pub open spec fn markdown_escape(s: Seq<char>) -> Seq<char>
    decreases s.len(),
{
    if s.len() == 0 {
        Seq::empty()
    } else {
        let init = markdown_escape(s.drop_last());
        let c = s.last();
        if is_markdown_reserved(c) {
            init + seq!['\\', c]
        } else {
            init.push(c)
        }
    }
}

/// Executable reserved-character test.
pub fn markdown_reserved(c: char) -> (b: bool)
    ensures
        b == is_markdown_reserved(c),
{
    c == '\\' || c == '_' || c == '*' || c == '[' || c == ']' || c == '(' || c == ')' || c == '~'
        || c == '`' || c == '>' || c == '#' || c == '+' || c == '-' || c == '=' || c == '|'
        || c == '{' || c == '}' || c == '.' || c == '!'
}

/// Appends the escaped form of `s` to `out`.
pub fn escape_into(out: &mut Vec<char>, s: &str)
    ensures
        final(out)@ == old(out)@ + markdown_escape(s@),
{
    let v = chars_of(s);
    let ghost start = out@;
    let mut i: usize = 0;
    while i < v.len()
        invariant
            i <= v.len(),
            v@ == s@,
            out@ == start + markdown_escape(v@.subrange(0, i as int)),
        decreases v.len() - i,
    {
        let c = v[i];
        assert(v@.subrange(0, i + 1).drop_last() =~= v@.subrange(0, i as int));
        if markdown_reserved(c) {
            out.push('\\');
            out.push(c);
        } else {
            out.push(c);
        }
        i = i + 1;
        assert(out@ =~= start + markdown_escape(v@.subrange(0, i as int)));
    }
    assert(v@.subrange(0, v.len() as int) =~= v@);
}

/// Escapes every reserved MarkdownV2 character of `s`.
pub fn escape_text(s: &str) -> (r: String)
    ensures
        r@ == markdown_escape(s@),
{
    let mut out: Vec<char> = Vec::new();
    escape_into(&mut out, s);
    assert(out@ =~= markdown_escape(s@));
    string_from_chars(&out)
}

/// Text that is safe to send with the MarkdownV2 parse mode: either escaped,
/// or built from templates whose markup was checked.
#[derive(Debug, Clone, PartialEq, Eq)]
pub struct MarkdownString(String);

impl View for MarkdownString {
    type V = Seq<char>;

    closed spec fn view(&self) -> Seq<char> {
        self.0@
    }
}

impl MarkdownString {
    /// Escapes all markdown special characters of `input`.
    pub fn escape(input: &str) -> (r: MarkdownString)
        ensures
            r@ == markdown_escape(input@),
    {
        MarkdownString(escape_text(input))
    }

    /// The empty text.
    pub fn new() -> (r: MarkdownString)
        ensures
            r@ == Seq::<char>::empty(),
    {
        MarkdownString(String::new())
    }

    /// Wraps text whose markup was already checked, unchanged.
    pub fn from_validated_string(s: String) -> (r: MarkdownString)
        ensures
            r@ == s@,
    {
        MarkdownString(s)
    }

    /// Wraps a template verbatim (for building templates in tests).
    pub fn test_template(s: &str) -> (r: MarkdownString)
        ensures
            r@ == s@,
    {
        MarkdownString(String::from_str(s))
    }

    /// The text.
    pub fn as_str(&self) -> (r: &str)
        ensures
            r@ == self@,
    {
        self.0.as_str()
    }

    /// Consumes the value and returns the text.
    pub fn into_string(self) -> (r: String)
        ensures
            r@ == self@,
    {
        self.0
    }

    /// The text as a new `String` (its display text).
    pub fn to_string(&self) -> (r: String)
        ensures
            r@ == self@,
    {
        self.0.clone()
    }

    /// Concatenation of two markdown texts.
    pub fn concat(&self, other: &MarkdownString) -> (r: MarkdownString)
        ensures
            r@ == self@ + other@,
    {
        let mut s = self.0.clone();
        s.append(other.0.as_str());
        MarkdownString(s)
    }
}

impl Default for MarkdownString {
    fn default() -> (r: MarkdownString)
        ensures
            r@ == Seq::<char>::empty(),
    {
        MarkdownString::new()
    }
}

impl From<&str> for MarkdownString {
    fn from(s: &str) -> (r: MarkdownString) {
        MarkdownString::escape(s)
    }
}

impl vstd::std_specs::convert::FromSpecImpl<&str> for MarkdownString {
    open spec fn obeys_from_spec() -> bool {
        false
    }

    open spec fn from_spec(v: &str) -> MarkdownString {
        choose|m: MarkdownString| m@ == markdown_escape(v@)
    }
}

impl From<String> for MarkdownString {
    fn from(s: String) -> (r: MarkdownString) {
        MarkdownString::escape(s.as_str())
    }
}

impl vstd::std_specs::convert::FromSpecImpl<String> for MarkdownString {
    open spec fn obeys_from_spec() -> bool {
        false
    }

    open spec fn from_spec(v: String) -> MarkdownString {
        choose|m: MarkdownString| m@ == markdown_escape(v@)
    }
}

impl From<MarkdownString> for String {
    fn from(m: MarkdownString) -> (r: String) {
        m.into_string()
    }
}

impl vstd::std_specs::convert::FromSpecImpl<MarkdownString> for String {
    open spec fn obeys_from_spec() -> bool {
        false
    }

    open spec fn from_spec(v: MarkdownString) -> String {
        choose|s: String| s@ == v@
    }
}

// ---------------------------------------------------------------------------
// `{}` placeholder filling (what `markdown_format!` does)
// ---------------------------------------------------------------------------
/// Position of the first `{}` in `s` at or after `k`.
pub open spec fn find_placeholder(s: Seq<char>, k: int) -> Option<int>
    decreases s.len() - k,
{
    if k < 0 || k + 1 >= s.len() {
        None
    } else if s[k] == '{' && s[k + 1] == '}' {
        Some(k)
    } else {
        find_placeholder(s, k + 1)
    }
}

/// `s` with its first `{}` replaced by `rep` (unchanged when there is none).
pub open spec fn replace_first_placeholder(s: Seq<char>, rep: Seq<char>) -> Seq<char> {
    match find_placeholder(s, 0) {
        Some(i) => s.subrange(0, i) + rep + s.subrange(i + 2, s.len() as int),
        None => s,
    }
}

/// Replaces the first remaining `{}` by each argument in turn.
pub open spec fn fill_placeholders(s: Seq<char>, args: Seq<Seq<char>>) -> Seq<char>
    decreases args.len(),
{
    if args.len() == 0 {
        s
    } else {
        fill_placeholders(replace_first_placeholder(s, args[0]), args.drop_first())
    }
}

/// A found placeholder lies inside the text, at or after the start position.
pub proof fn lemma_find_placeholder_bounds(s: Seq<char>, k: int)
    ensures
        find_placeholder(s, k) matches Some(i) ==> k <= i && i + 1 < s.len() && s[i] == '{'
            && s[i + 1] == '}',
    decreases s.len() - k,
{
    if k >= 0 && k + 1 < s.len() && !(s[k] == '{' && s[k + 1] == '}') {
        lemma_find_placeholder_bounds(s, k + 1);
    }
}

/// The views of a slice of markdown texts.
pub open spec fn markdown_views(args: Seq<MarkdownString>) -> Seq<Seq<char>> {
    args.map_values(|a: MarkdownString| a@)
}

proof fn lemma_fill_step(s: Seq<char>, args: Seq<Seq<char>>, i: int)
    requires
        0 <= i < args.len(),
    ensures
        fill_placeholders(s, args.subrange(i, args.len() as int)) == fill_placeholders(
            replace_first_placeholder(s, args[i]),
            args.subrange(i + 1, args.len() as int),
        ),
{
    let rest = args.subrange(i, args.len() as int);
    assert(rest[0] == args[i]);
    assert(rest.drop_first() =~= args.subrange(i + 1, args.len() as int));
}

/// Executable search for the first `{}` at or after `k`.
fn find_placeholder_exec(v: &Vec<char>, k: usize) -> (r: Option<usize>)
    requires
        k <= v.len(),
    ensures
        match r {
            Some(i) => find_placeholder(v@, k as int) == Some(i as int),
            None => find_placeholder(v@, k as int) is None,
        },
    decreases v.len() - k,
{
    if v.len() - k < 2 {
        None
    } else if v[k] == '{' && v[k + 1] == '}' {
        Some(k)
    } else {
        find_placeholder_exec(v, k + 1)
    }
}

/// Fills the `{}` placeholders of `template`, one per argument, in order: each
/// argument replaces the first `{}` left in the text built so far. Arguments
/// with no `{}` left are dropped.
pub fn markdown_format(template: &MarkdownString, args: &[MarkdownString]) -> (r: MarkdownString)
    ensures
        r@ == fill_placeholders(template@, markdown_views(args@)),
{
    let mut cur = chars_of(template.as_str());
    let ghost views = markdown_views(args@);
    assert(views.subrange(0, views.len() as int) =~= views);
    let mut j: usize = 0;
    while j < args.len()
        invariant
            j <= args.len(),
            views == markdown_views(args@),
            views.len() == args@.len(),
            fill_placeholders(template@, views) == fill_placeholders(
                cur@,
                views.subrange(j as int, views.len() as int),
            ),
        decreases args.len() - j,
    {
        proof {
            lemma_fill_step(cur@, views, j as int);
        }
        let ghost before = cur@;
        proof {
            lemma_find_placeholder_bounds(cur@, 0);
        }
        match find_placeholder_exec(&cur, 0) {
            Some(i) => {
                let arg = chars_of(args[j].as_str());
                let mut next: Vec<char> = Vec::new();
                extend_range(&mut next, &cur, 0, i);
                extend_range(&mut next, &arg, 0, arg.len());
                extend_range(&mut next, &cur, i + 2, cur.len());
                assert(arg@.subrange(0, arg@.len() as int) =~= arg@);
                assert(next@ =~= replace_first_placeholder(before, views[j as int]));
                cur = next;
            },
            None => {
                assert(cur@ =~= replace_first_placeholder(before, views[j as int]));
            },
        }
        j = j + 1;
    }
    assert(views.subrange(args.len() as int, views.len() as int) =~= Seq::<Seq<char>>::empty());
    MarkdownString(string_from_chars(&cur))
}


// ---------------------------------------------------------------------------
// MarkdownV2 format-string validation (the checks of `send_message_markdown!`)
// ---------------------------------------------------------------------------
/// Why a format string is not valid MarkdownV2 markup, or does not fit its
/// arguments.
#[derive(Debug, Clone, Copy, PartialEq, Eq)]
pub enum MarkdownFormatError {
    /// A `]` with no open `[` before it.
    UnmatchedClosingBracket,
    /// A reserved character (`!`, `.`, `-`, `+`, `=`, `>`, `#`, `{`, `}`) outside code
    /// and without a backslash.
    UnescapedReserved(char),
    UnbalancedAsterisks,
    UnbalancedUnderscores,
    UnbalancedBackticks,
    UnbalancedTildes,
    UnbalancedPipes,
    UnclosedSquareBracket,
    UnclosedParenthesis,
    UnclosedCode,
    UnclosedPre,
    /// More `{}` placeholders than arguments.
    MissingArgument,
    /// More arguments than `{}` placeholders.
    UnusedArgument,
    /// A single `{` or `}` that is neither a placeholder nor doubled.
    UnmatchedBrace,
}

/// Counters and flags of the markup scan; the counters wrap like `u8`.
#[derive(Debug, Clone, Copy, PartialEq, Eq)]
pub struct MarkdownScan {
    pub asterisks: u8,
    pub underscores: u8,
    pub backticks: u8,
    pub brackets: u8,
    pub parens: u8,
    pub tildes: u8,
    pub pipes: u8,
    pub in_code: bool,
    pub in_pre: bool,
}

/// The scan state before any character.
pub open spec fn scan_init() -> MarkdownScan {
    MarkdownScan {
        asterisks: 0,
        underscores: 0,
        backticks: 0,
        brackets: 0,
        parens: 0,
        tildes: 0,
        pipes: 0,
        in_code: false,
        in_pre: false,
    }
}

/// `x + 1` wrapping at 256.
pub open spec fn wrap_inc(x: u8) -> u8 {
    if x == 255 {
        0
    } else {
        (x + 1) as u8
    }
}

fn wrap_inc_exec(x: u8) -> (r: u8)
    ensures
        r == wrap_inc(x),
{
    if x == 255 {
        0
    } else {
        x + 1
    }
}

/// Reserved characters that the scan refuses unescaped outside code.
pub open spec fn is_scan_reserved(c: char) -> bool {
    c == '!' || c == '.' || c == '-' || c == '+' || c == '=' || c == '>' || c == '#'
}

/// One step of the scan: the effect of character `s[i]` on state `st`.
pub open spec fn scan_step(st: MarkdownScan, s: Seq<char>, i: int) -> Result<
    MarkdownScan,
    MarkdownFormatError,
> {
    let c = s[i];
    let escaped = i > 0 && s[i - 1] == '\\';
    let outside_code = !st.in_code && !st.in_pre;
    if escaped {
        Ok(st)
    } else if c == '*' {
        Ok(MarkdownScan { asterisks: wrap_inc(st.asterisks), ..st })
    } else if c == '_' {
        Ok(MarkdownScan { underscores: wrap_inc(st.underscores), ..st })
    } else if c == '~' {
        Ok(MarkdownScan { tildes: wrap_inc(st.tildes), ..st })
    } else if c == '|' {
        Ok(MarkdownScan { pipes: wrap_inc(st.pipes), ..st })
    } else if c == '`' {
        if i + 2 < s.len() && s[i + 1] == '`' && s[i + 2] == '`' {
            Ok(MarkdownScan { backticks: wrap_inc(st.backticks), in_pre: !st.in_pre, ..st })
        } else {
            Ok(MarkdownScan { backticks: wrap_inc(st.backticks), in_code: !st.in_code, ..st })
        }
    } else if c == '[' {
        Ok(MarkdownScan { brackets: wrap_inc(st.brackets), ..st })
    } else if c == ']' {
        if st.brackets > 0 {
            Ok(MarkdownScan { brackets: (st.brackets - 1) as u8, ..st })
        } else {
            Err(MarkdownFormatError::UnmatchedClosingBracket)
        }
    } else if c == '(' {
        if i > 0 && s[i - 1] == ']' {
            Ok(MarkdownScan { parens: wrap_inc(st.parens), ..st })
        } else {
            Ok(st)
        }
    } else if c == ')' {
        if st.parens > 0 {
            Ok(MarkdownScan { parens: (st.parens - 1) as u8, ..st })
        } else {
            Ok(st)
        }
    } else if is_scan_reserved(c) {
        if outside_code {
            Err(MarkdownFormatError::UnescapedReserved(c))
        } else {
            Ok(st)
        }
    } else if c == '{' {
        let placeholder = i + 1 < s.len() && s[i + 1] == '}';
        if outside_code && !placeholder {
            Err(MarkdownFormatError::UnescapedReserved(c))
        } else {
            Ok(st)
        }
    } else if c == '}' {
        let placeholder = i > 0 && s[i - 1] == '{';
        if outside_code && !placeholder {
            Err(MarkdownFormatError::UnescapedReserved(c))
        } else {
            Ok(st)
        }
    } else {
        Ok(st)
    }
}

/// The scan over the first `n` characters of `s`.
pub open spec fn scan_prefix(s: Seq<char>, n: nat) -> Result<MarkdownScan, MarkdownFormatError>
    decreases n,
{
    if n == 0 {
        Ok(scan_init())
    } else {
        match scan_prefix(s, (n - 1) as nat) {
            Ok(st) => scan_step(st, s, n - 1),
            Err(e) => Err(e),
        }
    }
}

/// The balance checks made once the whole string was scanned.
pub open spec fn scan_final(st: MarkdownScan) -> Result<MarkdownScan, MarkdownFormatError> {
    if st.asterisks % 2 != 0 {
        Err(MarkdownFormatError::UnbalancedAsterisks)
    } else if st.underscores % 2 != 0 {
        Err(MarkdownFormatError::UnbalancedUnderscores)
    } else if st.backticks % 2 != 0 {
        Err(MarkdownFormatError::UnbalancedBackticks)
    } else if st.tildes % 2 != 0 {
        Err(MarkdownFormatError::UnbalancedTildes)
    } else if st.pipes % 2 != 0 {
        Err(MarkdownFormatError::UnbalancedPipes)
    } else if st.brackets != 0 {
        Err(MarkdownFormatError::UnclosedSquareBracket)
    } else if st.parens != 0 {
        Err(MarkdownFormatError::UnclosedParenthesis)
    } else if st.in_code {
        Err(MarkdownFormatError::UnclosedCode)
    } else if st.in_pre {
        Err(MarkdownFormatError::UnclosedPre)
    } else {
        Ok(st)
    }
}

/// The verdict on a whole format string.
pub open spec fn markdown_validation(s: Seq<char>) -> Result<MarkdownScan, MarkdownFormatError> {
    match scan_prefix(s, s.len()) {
        Ok(st) => scan_final(st),
        Err(e) => Err(e),
    }
}

/// A character the scan reacts to when it is not escaped.
pub open spec fn scan_sensitive(c: char) -> bool {
    is_markdown_reserved(c) && c != '\\'
}

/// In escaped text every character the scan reacts to follows a backslash.
proof fn lemma_escape_guards(s: Seq<char>)
    ensures
        forall|i: int|
            0 <= i < markdown_escape(s).len() && scan_sensitive(#[trigger] markdown_escape(s)[i])
                ==> i > 0 && markdown_escape(s)[i - 1] == '\\',
    decreases s.len(),
{
    if s.len() > 0 {
        let init = markdown_escape(s.drop_last());
        lemma_escape_guards(s.drop_last());
        let e = markdown_escape(s);
        assert forall|i: int|
            0 <= i < e.len() && scan_sensitive(#[trigger] e[i]) implies i > 0 && e[i - 1] == '\\' by {
            if i < init.len() {
                assert(e[i] == init[i]);
                assert(e[i - 1] == init[i - 1]);
            }
        }
    }
}

/// Scanning text whose sensitive characters all follow a backslash changes
/// nothing.
proof fn lemma_scan_guarded(s: Seq<char>, n: nat)
    requires
        n <= s.len(),
        forall|i: int|
            0 <= i < s.len() && scan_sensitive(#[trigger] s[i]) ==> i > 0 && s[i - 1] == '\\',
    ensures
        scan_prefix(s, n) == Ok::<MarkdownScan, MarkdownFormatError>(scan_init()),
    decreases n,
{
    if n > 0 {
        lemma_scan_guarded(s, (n - 1) as nat);
        let i = n - 1;
        if scan_sensitive(s[i]) {
            assert(i > 0 && s[i - 1] == '\\');
        }
    }
}

/// A markup character that text built around markup may hold unescaped: `*`,
/// and `` ` `` too when `ticks` holds.
pub open spec fn is_markup(c: char, ticks: bool) -> bool {
    c == '*' || (ticks && c == '`')
}

/// Every character of `s` that MarkdownV2 reserves follows a backslash, except
/// the backslashes themselves and the markup characters (see `is_markup`).
pub open spec fn escaped_outside_markup(s: Seq<char>, ticks: bool) -> bool {
    forall|i: int|
        0 <= i < s.len() && #[trigger] scan_sensitive(s[i]) && !is_markup(s[i], ticks) ==> i > 0 && s[i
            - 1] == '\\'
}

/// Escaped text needs no further backslash.
pub proof fn lemma_escape_is_escaped(s: Seq<char>, ticks: bool)
    ensures
        escaped_outside_markup(markdown_escape(s), ticks),
{
    lemma_escape_guards(s);
}

/// Text without reserved characters other than markup needs no backslash.
pub proof fn lemma_plain_is_escaped(s: Seq<char>, ticks: bool)
    requires
        forall|i: int| 0 <= i < s.len() ==> !scan_sensitive(#[trigger] s[i]) || is_markup(s[i], ticks),
    ensures
        escaped_outside_markup(s, ticks),
{
}

/// Joining two texts that need no further backslash gives one that needs
/// none.
pub proof fn lemma_escaped_concat(a: Seq<char>, b: Seq<char>, ticks: bool)
    requires
        escaped_outside_markup(a, ticks),
        escaped_outside_markup(b, ticks),
    ensures
        escaped_outside_markup(a + b, ticks),
{
    let s = a + b;
    assert forall|i: int|
        0 <= i < s.len() && #[trigger] scan_sensitive(s[i]) && !is_markup(s[i], ticks) implies i > 0
        && s[i - 1] == '\\' by {
        if i < a.len() {
            assert(s[i] == a[i]);
            assert(s[i - 1] == a[i - 1]);
        } else {
            let j = i - a.len();
            assert(s[i] == b[j]);
            assert(scan_sensitive(b[j]));
            assert(s[i - 1] == b[j - 1]);
        }
    }
}

/// `s[i]` is the markup character `c` standing for markup, as the scan takes
/// it: it does not follow a backslash.
pub open spec fn active_mark(s: Seq<char>, i: int, c: char) -> bool {
    s[i] == c && !(i > 0 && s[i - 1] == '\\')
}

/// The number of markup characters `c` among the first `n` characters of `s`.
pub open spec fn mark_count(s: Seq<char>, n: nat, c: char) -> nat
    decreases n,
{
    if n == 0 {
        0
    } else {
        mark_count(s, (n - 1) as nat, c) + if active_mark(s, n - 1, c) {
            1nat
        } else {
            0nat
        }
    }
}

/// The number of markup characters `c` in `s`.
pub open spec fn marks(s: Seq<char>, c: char) -> nat {
    mark_count(s, s.len(), c)
}

/// The number of `*` that the scan counts in `s`.
pub open spec fn stars(s: Seq<char>) -> nat {
    marks(s, '*')
}

/// `a` followed by `b` keeps the markup characters `c` of both: the first
/// character of `b` is not a `c` that a final backslash of `a` would swallow.
pub open spec fn joins_cleanly(a: Seq<char>, b: Seq<char>, c: char) -> bool {
    a.len() == 0 || b.len() == 0 || a.last() != '\\' || b[0] != c
}

proof fn lemma_mark_count_prefix(a: Seq<char>, b: Seq<char>, m: nat, c: char)
    requires
        m <= a.len(),
    ensures
        mark_count(a + b, m, c) == mark_count(a, m, c),
    decreases m,
{
    if m > 0 {
        lemma_mark_count_prefix(a, b, (m - 1) as nat, c);
        let i = m - 1;
        assert((a + b)[i] == a[i]);
        if i > 0 {
            assert((a + b)[i - 1] == a[i - 1]);
        }
    }
}

proof fn lemma_mark_count_suffix(a: Seq<char>, b: Seq<char>, k: nat, c: char)
    requires
        k <= b.len(),
        joins_cleanly(a, b, c),
    ensures
        mark_count(a + b, a.len() + k, c) == marks(a, c) + mark_count(b, k, c),
    decreases k,
{
    if k == 0 {
        lemma_mark_count_prefix(a, b, a.len(), c);
    } else {
        lemma_mark_count_suffix(a, b, (k - 1) as nat, c);
        let i = a.len() + k - 1;
        let s = a + b;
        assert(s[i] == b[k - 1]);
        if k > 1 {
            assert(s[i - 1] == b[k - 2]);
        } else if a.len() > 0 {
            assert(s[i - 1] == a.last());
        }
        assert((a.len() + k - 1) as nat == (a.len() + (k - 1)) as nat);
    }
}

/// Joining texts adds their markup characters `c` when nothing is swallowed
/// at the seam.
pub proof fn lemma_marks_concat(a: Seq<char>, b: Seq<char>, c: char)
    requires
        joins_cleanly(a, b, c),
    ensures
        marks(a + b, c) == marks(a, c) + marks(b, c),
{
    lemma_mark_count_suffix(a, b, b.len(), c);
}

/// Joining texts adds their counted `*` when nothing is swallowed at the seam.
pub proof fn lemma_stars_concat(a: Seq<char>, b: Seq<char>)
    requires
        joins_cleanly(a, b, '*'),
    ensures
        stars(a + b) == stars(a) + stars(b),
{
    lemma_marks_concat(a, b, '*');
}

/// Text whose reserved characters all follow a backslash holds no markup
/// character `c` that the scan would count.
pub proof fn lemma_guarded_no_marks(s: Seq<char>, n: nat, c: char)
    requires
        n <= s.len(),
        scan_sensitive(c),
        forall|i: int|
            0 <= i < s.len() && scan_sensitive(#[trigger] s[i]) ==> i > 0 && s[i - 1] == '\\',
    ensures
        mark_count(s, n, c) == 0,
    decreases n,
{
    if n > 0 {
        lemma_guarded_no_marks(s, (n - 1) as nat, c);
        if s[n - 1] == c {
            assert(scan_sensitive(s[n - 1]));
        }
    }
}

/// Escaped text holds no markup character `c`, cannot start with one, and
/// ends with the last character of what it escapes.
pub proof fn lemma_escape_marks(x: Seq<char>, c: char)
    requires
        scan_sensitive(c),
    ensures
        marks(markdown_escape(x), c) == 0,
        markdown_escape(x).len() == 0 <==> x.len() == 0,
        markdown_escape(x).len() > 0 ==> markdown_escape(x)[0] != c && markdown_escape(x).last()
            == x.last(),
    decreases x.len(),
{
    let e = markdown_escape(x);
    lemma_escape_guards(x);
    lemma_guarded_no_marks(e, e.len(), c);
    if x.len() > 0 {
        lemma_escape_marks(x.drop_last(), c);
        if e[0] == c {
            assert(scan_sensitive(e[0]));
        }
    }
}

/// Escaped text holds no counted `*`, cannot start with one, and ends with
/// the last character of what it escapes.
pub proof fn lemma_escape_stars(x: Seq<char>)
    ensures
        stars(markdown_escape(x)) == 0,
        markdown_escape(x).len() == 0 <==> x.len() == 0,
        markdown_escape(x).len() > 0 ==> markdown_escape(x)[0] != '*' && markdown_escape(x).last()
            == x.last(),
{
    lemma_escape_marks(x, '*');
}

/// Text that needs no backslash outside `*` markup is scanned by counting its
/// `*` and nothing else.
proof fn lemma_scan_counts_stars(s: Seq<char>, n: nat)
    requires
        n <= s.len(),
        escaped_outside_markup(s, false),
    ensures
        scan_prefix(s, n) == Ok::<MarkdownScan, MarkdownFormatError>(
            MarkdownScan { asterisks: (mark_count(s, n, '*') % 256) as u8, ..scan_init() },
        ),
    decreases n,
{
    if n > 0 {
        lemma_scan_counts_stars(s, (n - 1) as nat);
        let i = n - 1;
        let k = mark_count(s, (n - 1) as nat, '*');
        if s[i] == '*' && !(i > 0 && s[i - 1] == '\\') {
            assert(wrap_inc((k % 256) as u8) == ((k + 1) % 256) as u8) by (nonlinear_arith);
        } else if !(i > 0 && s[i - 1] == '\\') {
            assert(!scan_sensitive(s[i]));
        }
    }
}

/// Text that needs no backslash outside `*` markup is valid MarkdownV2 exactly
/// when it holds an even number of counted `*`.
pub proof fn lemma_valid_when_stars_even(s: Seq<char>)
    requires
        escaped_outside_markup(s, false),
    ensures
        markdown_validation(s) is Ok <==> stars(s) % 2 == 0,
{
    lemma_scan_counts_stars(s, s.len());
    let k = stars(s);
    assert(((k % 256) as u8) % 2 == k % 2) by (nonlinear_arith);
}

/// Escaped text is valid MarkdownV2 whatever it was made from: the scan
/// accepts it and counts no markup.
pub proof fn law_escaped_text_is_valid(s: Seq<char>)
    ensures
        markdown_validation(markdown_escape(s)) == Ok::<MarkdownScan, MarkdownFormatError>(
            scan_init(),
        ),
{
    let e = markdown_escape(s);
    lemma_escape_guards(s);
    lemma_scan_guarded(e, e.len());
}

proof fn lemma_scan_err_persists(s: Seq<char>, i: nat, n: nat)
    requires
        i <= n,
        scan_prefix(s, i) is Err,
    ensures
        scan_prefix(s, n) == scan_prefix(s, i),
    decreases n - i,
{
    if i < n {
        lemma_scan_err_persists(s, i, (n - 1) as nat);
    }
}

fn scan_step_exec(st: MarkdownScan, v: &Vec<char>, i: usize) -> (r: Result<
    MarkdownScan,
    MarkdownFormatError,
>)
    requires
        i < v.len(),
    ensures
        r == scan_step(st, v@, i as int),
{
    let c = v[i];
    let escaped = i > 0 && v[i - 1] == '\\';
    let outside_code = !st.in_code && !st.in_pre;
    if escaped {
        Ok(st)
    } else if c == '*' {
        Ok(MarkdownScan { asterisks: wrap_inc_exec(st.asterisks), ..st })
    } else if c == '_' {
        Ok(MarkdownScan { underscores: wrap_inc_exec(st.underscores), ..st })
    } else if c == '~' {
        Ok(MarkdownScan { tildes: wrap_inc_exec(st.tildes), ..st })
    } else if c == '|' {
        Ok(MarkdownScan { pipes: wrap_inc_exec(st.pipes), ..st })
    } else if c == '`' {
        if v.len() - i > 2 && v[i + 1] == '`' && v[i + 2] == '`' {
            Ok(MarkdownScan { backticks: wrap_inc_exec(st.backticks), in_pre: !st.in_pre, ..st })
        } else {
            Ok(MarkdownScan { backticks: wrap_inc_exec(st.backticks), in_code: !st.in_code, ..st })
        }
    } else if c == '[' {
        Ok(MarkdownScan { brackets: wrap_inc_exec(st.brackets), ..st })
    } else if c == ']' {
        if st.brackets > 0 {
            Ok(MarkdownScan { brackets: st.brackets - 1, ..st })
        } else {
            Err(MarkdownFormatError::UnmatchedClosingBracket)
        }
    } else if c == '(' {
        if i > 0 && v[i - 1] == ']' {
            Ok(MarkdownScan { parens: wrap_inc_exec(st.parens), ..st })
        } else {
            Ok(st)
        }
    } else if c == ')' {
        if st.parens > 0 {
            Ok(MarkdownScan { parens: st.parens - 1, ..st })
        } else {
            Ok(st)
        }
    } else if c == '!' || c == '.' || c == '-' || c == '+' || c == '=' || c == '>' || c == '#' {
        if outside_code {
            Err(MarkdownFormatError::UnescapedReserved(c))
        } else {
            Ok(st)
        }
    } else if c == '{' {
        let placeholder = v.len() - i > 1 && v[i + 1] == '}';
        if outside_code && !placeholder {
            Err(MarkdownFormatError::UnescapedReserved(c))
        } else {
            Ok(st)
        }
    } else if c == '}' {
        let placeholder = i > 0 && v[i - 1] == '{';
        if outside_code && !placeholder {
            Err(MarkdownFormatError::UnescapedReserved(c))
        } else {
            Ok(st)
        }
    } else {
        Ok(st)
    }
}

/// Checks that a format string is well-formed MarkdownV2 markup: formatting
/// characters balanced, links closed, reserved characters escaped outside code.
/// On success returns the final counters.
pub fn validate_markdownv2_format(format: &str) -> (r: Result<MarkdownScan, MarkdownFormatError>)
    ensures
        r == markdown_validation(format@),
{
    let v = chars_of(format);
    let mut st = MarkdownScan {
        asterisks: 0,
        underscores: 0,
        backticks: 0,
        brackets: 0,
        parens: 0,
        tildes: 0,
        pipes: 0,
        in_code: false,
        in_pre: false,
    };
    let mut i: usize = 0;
    while i < v.len()
        invariant
            i <= v.len(),
            v@ == format@,
            scan_prefix(v@, i as nat) == Ok::<MarkdownScan, MarkdownFormatError>(st),
        decreases v.len() - i,
    {
        match scan_step_exec(st, &v, i) {
            Ok(next) => {
                st = next;
            },
            Err(e) => {
                proof {
                    lemma_scan_err_persists(v@, (i + 1) as nat, v@.len());
                }
                return Err(e);
            },
        }
        i = i + 1;
    }
    if st.asterisks % 2 != 0 {
        Err(MarkdownFormatError::UnbalancedAsterisks)
    } else if st.underscores % 2 != 0 {
        Err(MarkdownFormatError::UnbalancedUnderscores)
    } else if st.backticks % 2 != 0 {
        Err(MarkdownFormatError::UnbalancedBackticks)
    } else if st.tildes % 2 != 0 {
        Err(MarkdownFormatError::UnbalancedTildes)
    } else if st.pipes % 2 != 0 {
        Err(MarkdownFormatError::UnbalancedPipes)
    } else if st.brackets != 0 {
        Err(MarkdownFormatError::UnclosedSquareBracket)
    } else if st.parens != 0 {
        Err(MarkdownFormatError::UnclosedParenthesis)
    } else if st.in_code {
        Err(MarkdownFormatError::UnclosedCode)
    } else if st.in_pre {
        Err(MarkdownFormatError::UnclosedPre)
    } else {
        Ok(st)
    }
}

// ---------------------------------------------------------------------------
// Format strings with `{}` placeholders (the `markdown_string!` macro)
// ---------------------------------------------------------------------------
/// What `format!` makes of `f[i..]` with arguments `args[j..]`: `{}` takes the
/// next argument, `{{` and `}}` stand for single braces; `None` when the string
/// and the arguments do not fit together.
pub open spec fn format_rest(f: Seq<char>, args: Seq<Seq<char>>, i: int, j: int) -> Option<
    Seq<char>,
>
    decreases f.len() - i,
{
    if i < 0 || j < 0 || i >= f.len() {
        if j == args.len() {
            Some(Seq::empty())
        } else {
            None
        }
    } else if f[i] == '{' {
        if i + 1 < f.len() && f[i + 1] == '{' {
            match format_rest(f, args, i + 2, j) {
                Some(r) => Some(seq!['{'] + r),
                None => None,
            }
        } else if i + 1 < f.len() && f[i + 1] == '}' {
            if j < args.len() {
                match format_rest(f, args, i + 2, j + 1) {
                    Some(r) => Some(args[j] + r),
                    None => None,
                }
            } else {
                None
            }
        } else {
            None
        }
    } else if f[i] == '}' {
        if i + 1 < f.len() && f[i + 1] == '}' {
            match format_rest(f, args, i + 2, j) {
                Some(r) => Some(seq!['}'] + r),
                None => None,
            }
        } else {
            None
        }
    } else {
        match format_rest(f, args, i + 1, j) {
            Some(r) => Some(seq![f[i]] + r),
            None => None,
        }
    }
}

/// `format!(f, args...)`.
pub open spec fn format_str(f: Seq<char>, args: Seq<Seq<char>>) -> Option<Seq<char>> {
    format_rest(f, args, 0, 0)
}

/// Why `format_rest` failed: too few arguments, too many, or a lone brace.
pub open spec fn format_error_rest(f: Seq<char>, args: Seq<Seq<char>>, i: int, j: int) -> MarkdownFormatError
    decreases f.len() - i,
{
    if i < 0 || j < 0 || i >= f.len() {
        MarkdownFormatError::UnusedArgument
    } else if f[i] == '{' {
        if i + 1 < f.len() && f[i + 1] == '{' {
            format_error_rest(f, args, i + 2, j)
        } else if i + 1 < f.len() && f[i + 1] == '}' {
            if j < args.len() {
                format_error_rest(f, args, i + 2, j + 1)
            } else {
                MarkdownFormatError::MissingArgument
            }
        } else {
            MarkdownFormatError::UnmatchedBrace
        }
    } else if f[i] == '}' {
        if i + 1 < f.len() && f[i + 1] == '}' {
            format_error_rest(f, args, i + 2, j)
        } else {
            MarkdownFormatError::UnmatchedBrace
        }
    } else {
        format_error_rest(f, args, i + 1, j)
    }
}

/// The escaped forms of the arguments.
pub open spec fn escaped_args(args: Seq<&str>) -> Seq<Seq<char>> {
    args.map_values(|a: &str| markdown_escape(a@))
}

/// Formats `f` with the arguments `args` (already in their final form).
fn format_with(f: &Vec<char>, args: &Vec<Vec<char>>) -> (r: Result<Vec<char>, MarkdownFormatError>)
    ensures
        match r {
            Ok(out) => format_str(f@, args@.map_values(|a: Vec<char>| a@)) == Some(out@),
            Err(e) => format_str(f@, args@.map_values(|a: Vec<char>| a@)) is None && e
                == format_error_rest(f@, args@.map_values(|a: Vec<char>| a@), 0, 0),
        },
{
    let ghost a = args@.map_values(|x: Vec<char>| x@);
    let mut out: Vec<char> = Vec::new();
    let mut i: usize = 0;
    let mut j: usize = 0;
    while i < f.len()
        invariant
            i <= f.len(),
            j <= args.len(),
            a == args@.map_values(|x: Vec<char>| x@),
            a.len() == args.len(),
            format_str(f@, a) == match format_rest(f@, a, i as int, j as int) {
                Some(r) => Some(out@ + r),
                None => None::<Seq<char>>,
            },
            format_error_rest(f@, a, 0, 0) == format_error_rest(f@, a, i as int, j as int),
        decreases f.len() - i,
    {
        let c = f[i];
        if c == '{' {
            if f.len() - i > 1 && f[i + 1] == '{' {
                out.push('{');
                i = i + 2;
                assert(format_str(f@, a) == match format_rest(f@, a, i as int, j as int) {
                    Some(r) => Some(out@ + r),
                    None => None::<Seq<char>>,
                }) by {
                    match format_rest(f@, a, i as int, j as int) {
                        Some(r) => {
                            assert(out@ + r =~= out@.drop_last() + (seq!['{'] + r));
                        },
                        None => {},
                    }
                }
            } else if f.len() - i > 1 && f[i + 1] == '}' {
                if j < args.len() {
                    let ghost before = out@;
                    let arg = &args[j];
                    extend_range(&mut out, arg, 0, arg.len());
                    assert(arg@.subrange(0, arg@.len() as int) =~= arg@);
                    assert(a[j as int] == arg@);
                    i = i + 2;
                    j = j + 1;
                    assert(format_str(f@, a) == match format_rest(f@, a, i as int, j as int) {
                        Some(r) => Some(out@ + r),
                        None => None::<Seq<char>>,
                    }) by {
                        match format_rest(f@, a, i as int, j as int) {
                            Some(r) => {
                                assert(out@ + r =~= before + (a[j - 1] + r));
                            },
                            None => {},
                        }
                    }
                } else {
                    return Err(MarkdownFormatError::MissingArgument);
                }
            } else {
                return Err(MarkdownFormatError::UnmatchedBrace);
            }
        } else if c == '}' {
            if f.len() - i > 1 && f[i + 1] == '}' {
                out.push('}');
                i = i + 2;
                assert(format_str(f@, a) == match format_rest(f@, a, i as int, j as int) {
                    Some(r) => Some(out@ + r),
                    None => None::<Seq<char>>,
                }) by {
                    match format_rest(f@, a, i as int, j as int) {
                        Some(r) => {
                            assert(out@ + r =~= out@.drop_last() + (seq!['}'] + r));
                        },
                        None => {},
                    }
                }
            } else {
                return Err(MarkdownFormatError::UnmatchedBrace);
            }
        } else {
            out.push(c);
            i = i + 1;
            assert(format_str(f@, a) == match format_rest(f@, a, i as int, j as int) {
                Some(r) => Some(out@ + r),
                None => None::<Seq<char>>,
            }) by {
                match format_rest(f@, a, i as int, j as int) {
                    Some(r) => {
                        assert(out@ + r =~= out@.drop_last() + (seq![c] + r));
                    },
                    None => {},
                }
            }
        }
    }
    if j < args.len() {
        return Err(MarkdownFormatError::UnusedArgument);
    }
    assert(out@ + Seq::<char>::empty() =~= out@);
    Ok(out)
}

/// Builds a message from a MarkdownV2 format string: the string is validated as
/// markup, then its `{}` placeholders are filled, in order, with the escaped
/// arguments (`{{` and `}}` stand for single braces).
pub fn markdown_string(format: &str, args: &[&str]) -> (r: Result<MarkdownString, MarkdownFormatError>)
    ensures
        match markdown_validation(format@) {
            Err(e) => r == Err::<MarkdownString, MarkdownFormatError>(e),
            Ok(_) => match format_str(format@, escaped_args(args@)) {
                Some(out) => r matches Ok(m) && m@ == out,
                None => r == Err::<MarkdownString, MarkdownFormatError>(
                    format_error_rest(format@, escaped_args(args@), 0, 0),
                ),
            },
        },
{
    match validate_markdownv2_format(format) {
        Err(e) => {
            return Err(e);
        },
        Ok(_) => {},
    }
    let mut escaped: Vec<Vec<char>> = Vec::new();
    let mut k: usize = 0;
    while k < args.len()
        invariant
            k <= args.len(),
            escaped@.len() == k,
            forall|t: int| 0 <= t < k ==> #[trigger] escaped@[t]@ == markdown_escape(args@[t]@),
        decreases args.len() - k,
    {
        let mut e: Vec<char> = Vec::new();
        escape_into(&mut e, args[k]);
        assert(e@ =~= markdown_escape(args@[k as int]@));
        escaped.push(e);
        k = k + 1;
    }
    assert(escaped@.map_values(|x: Vec<char>| x@) =~= escaped_args(args@));
    let f = chars_of(format);
    match format_with(&f, &escaped) {
        Ok(out) => Ok(MarkdownString(string_from_chars(&out))),
        Err(e) => Err(e),
    }
}

} // verus!
