//! Reading a chat message line by line: expense lines, command lines, and the
//! decorations (a leading emoji, the bot's name) that may stand before them.

use vstd::prelude::*;

use crate::command::{command_parse, Command, CommandParseError, CommandParseErrorView, CommandView};
use crate::expense_line::{expense_view, line_expense, parse_expense_line, ParsedExpense};
use crate::lines::{lines_chars, lines_of, slice_chars, trim, trim_chars, trim_start};
use crate::suggestions::{alphanumeric, is_alphanumeric, lowercase, to_lowercase};
use crate::text::{char_utf8_width, chars_of, is_whitespace, is_ws, string_from_chars, utf8_len, utf8_len_of, utf8_width};

verus! {

/// What one line of a message gives.
pub enum LineItem {
    /// Nothing: a blank line, or text that is neither expense nor command.
    Skip,
    /// An expense: description, amount, timestamp.
    Expense((Seq<char>, Seq<char>, i64)),
    /// A command.
    Cmd(CommandView),
    /// A command line that could not be parsed.
    Error(CommandParseErrorView),
    /// A line on which stripping the bot's name would cut a character in two
    /// (or run past the line's end).
    Cut,
}

/// `char::is_ascii_punctuation`.
pub open spec fn is_ascii_punct(c: char) -> bool {
    ('!' <= c && c <= '/') || (':' <= c && c <= '@') || ('[' <= c && c <= '`') || ('{' <= c
        && c <= '~')
}

/// A first word that counts as an emoji: no character of it is alphanumeric
/// or ASCII punctuation.
pub open spec fn emoji_word(w: Seq<char>) -> bool {
    forall|i: int| 0 <= i < w.len() ==> !alphanumeric(#[trigger] w[i]) && !is_ascii_punct(w[i])
}

/// The end of the first word of `s` (its first white space, or its end).
pub open spec fn word_end(s: Seq<char>, k: int) -> int
    decreases s.len() - k,
{
    if 0 <= k < s.len() && !is_ws(s[k]) {
        word_end(s, k + 1)
    } else {
        k
    }
}

/// A trimmed line without its first word when that word is an emoji.
pub open spec fn drop_emoji(l: Seq<char>) -> Seq<char> {
    let e = word_end(l, 0);
    if emoji_word(l.subrange(0, e)) {
        trim_start(l.subrange(e, l.len() as int))
    } else {
        l
    }
}

/// Whether `p` is a prefix of `s`.
pub open spec fn starts_with(s: Seq<char>, p: Seq<char>) -> bool {
    p.len() <= s.len() && s.subrange(0, p.len() as int) == p
}

/// The index of the character that starts at byte `k` of `s`'s UTF-8 form,
/// scanning from character `i` at byte `acc`.
pub open spec fn index_at_byte(s: Seq<char>, i: int, acc: int, k: int) -> Option<int>
    decreases s.len() - i,
{
    if acc == k {
        Some(i)
    } else if acc > k || i < 0 || i >= s.len() {
        None
    } else {
        index_at_byte(s, i + 1, acc + utf8_width(s[i]), k)
    }
}

/// `line[k..].trim_start()` for a byte offset `k`; `None` where `k` is not a
/// character boundary of `line`.
pub open spec fn cut_at_byte(line: Seq<char>, k: int) -> Option<Seq<char>> {
    match index_at_byte(line, 0, 0, k) {
        Some(i) => Some(trim_start(line.subrange(i, line.len() as int))),
        None => None,
    }
}

/// The line without a leading `@name` or `name`, compared after Unicode
/// lower-casing of both; the cut is made at the byte length of `name` in the
/// original line.
pub open spec fn strip_bot_name(l: Seq<char>, name: Seq<char>) -> Option<Seq<char>> {
    let ll = lowercase(l);
    let ln = lowercase(name);
    if starts_with(ll, seq!['@'] + ln) {
        cut_at_byte(l, utf8_len(name) + 1int)
    } else if starts_with(ll, ln) {
        cut_at_byte(l, utf8_len(name) as int)
    } else {
        Some(l)
    }
}

/// What one line gives: blank lines are skipped; a leading emoji word and
/// then a leading bot name are removed; a line starting with `/` is a command
/// (addressed to `bot_name`, or to no name); any other line may be an expense.
pub open spec fn line_item(raw: Seq<char>, bot_name: Option<Seq<char>>, ts: i64) -> LineItem {
    let l0 = trim(raw);
    if l0.len() == 0 {
        LineItem::Skip
    } else {
        let l1 = drop_emoji(l0);
        let l2 = match bot_name {
            Some(n) => strip_bot_name(l1, n),
            None => Some(l1),
        };
        match l2 {
            None => LineItem::Cut,
            Some(l) => if l.len() > 0 && l[0] == '/' {
                match command_parse(
                    l,
                    match bot_name {
                        Some(n) => n,
                        None => Seq::empty(),
                    },
                ) {
                    Ok(c) => LineItem::Cmd(c),
                    Err(e) => LineItem::Error(e),
                }
            } else {
                match line_expense(l, ts) {
                    Some(x) => LineItem::Expense(x),
                    None => LineItem::Skip,
                }
            },
        }
    }
}

/// The expenses, commands and command errors of the lines, in order.
pub open spec fn parse_lines(ls: Seq<Seq<char>>, bot_name: Option<Seq<char>>, ts: i64) -> (
    Seq<(Seq<char>, Seq<char>, i64)>,
    Seq<CommandView>,
    Seq<CommandParseErrorView>,
)
    decreases ls.len(),
{
    if ls.len() == 0 {
        (Seq::empty(), Seq::empty(), Seq::empty())
    } else {
        let (e, c, r) = parse_lines(ls.drop_last(), bot_name, ts);
        match line_item(ls.last(), bot_name, ts) {
            LineItem::Expense(x) => (e.push(x), c, r),
            LineItem::Cmd(x) => (e, c.push(x), r),
            LineItem::Error(x) => (e, c, r.push(x)),
            _ => (e, c, r),
        }
    }
}

/// No line of `text` is cut in two by stripping the bot's name.
pub open spec fn no_cut(text: Seq<char>, bot_name: Option<Seq<char>>, ts: i64) -> bool {
    forall|i: int|
        0 <= i < lines_of(text).len() ==> !(line_item(#[trigger] lines_of(text)[i], bot_name, ts) is Cut)
}

/// The view of an optional string slice.
pub open spec fn opt_str_view(o: Option<&str>) -> Option<Seq<char>> {
    match o {
        Some(s) => Some(s@),
        None => None,
    }
}

fn is_ascii_punct_exec(c: char) -> (b: bool)
    ensures
        b == is_ascii_punct(c),
{
    ('!' <= c && c <= '/') || (':' <= c && c <= '@') || ('[' <= c && c <= '`') || ('{' <= c
        && c <= '~')
}

fn drop_emoji_exec(l: &Vec<char>) -> (r: Vec<char>)
    ensures
        r@ == drop_emoji(l@),
{
    let mut e: usize = 0;
    while e < l.len() && !is_whitespace(l[e])
        invariant
            e <= l.len(),
            word_end(l@, 0) == word_end(l@, e as int),
        decreases l.len() - e,
    {
        e = e + 1;
    }
    let mut i: usize = 0;
    let mut emoji = true;
    while i < e
        invariant
            i <= e <= l.len(),
            emoji == emoji_word(l@.subrange(0, i as int)),
        decreases e - i,
    {
        let c = l[i];
        let ghost w = l@.subrange(0, i + 1);
        assert(w[i as int] == c);
        if is_alphanumeric(c) || is_ascii_punct_exec(c) {
            emoji = false;
        }
        proof {
            if emoji_word(l@.subrange(0, i as int)) && !alphanumeric(c) && !is_ascii_punct(c) {
                assert forall|k: int| 0 <= k < w.len() implies !alphanumeric(#[trigger] w[k])
                    && !is_ascii_punct(w[k]) by {
                    if k < i {
                        assert(w[k] == l@.subrange(0, i as int)[k]);
                    }
                }
            }
            if emoji_word(w) {
                assert forall|k: int| 0 <= k < i implies !alphanumeric(
                    #[trigger] l@.subrange(0, i as int)[k],
                ) && !is_ascii_punct(l@.subrange(0, i as int)[k]) by {
                    assert(w[k] == l@.subrange(0, i as int)[k]);
                }
            }
        }
        i = i + 1;
    }
    if emoji {
        let rest = slice_chars(l, e, l.len());
        let mut k: usize = 0;
        assert(rest@.subrange(0, rest@.len() as int) =~= rest@);
        while k < rest.len() && is_whitespace(rest[k])
            invariant
                k <= rest.len(),
                trim_start(rest@) == trim_start(rest@.subrange(k as int, rest@.len() as int)),
            decreases rest.len() - k,
        {
            assert(rest@.subrange(k as int, rest@.len() as int).drop_first() =~= rest@.subrange(
                k + 1,
                rest@.len() as int,
            ));
            k = k + 1;
        }
        slice_chars(&rest, k, rest.len())
    } else {
        slice_chars(l, 0, l.len())
    }
}

/// Whether `p` is a prefix of `s`.
pub fn starts_with_chars(s: &Vec<char>, p: &Vec<char>) -> (r: bool)
    ensures
        r == starts_with(s@, p@),
{
    if p.len() > s.len() {
        return false;
    }
    let mut i: usize = 0;
    while i < p.len()
        invariant
            i <= p.len() <= s.len(),
            forall|k: int| 0 <= k < i ==> s@[k] == p@[k],
        decreases p.len() - i,
    {
        if s[i] != p[i] {
            assert(s@.subrange(0, p@.len() as int)[i as int] != p@[i as int]);
            return false;
        }
        i = i + 1;
    }
    assert(s@.subrange(0, p@.len() as int) =~= p@);
    true
}

fn cut_at_byte_exec(l: &Vec<char>, k: usize) -> (r: Option<Vec<char>>)
    requires
        k <= isize::MAX,
    ensures
        match r {
            Some(t) => cut_at_byte(l@, k as int) == Some(t@),
            None => cut_at_byte(l@, k as int) is None,
        },
{
    let mut i: usize = 0;
    let mut acc: usize = 0;
    while acc < k && i < l.len()
        invariant
            i <= l.len(),
            acc < k + 4,
            k <= isize::MAX,
            index_at_byte(l@, 0, 0, k as int) == index_at_byte(l@, i as int, acc as int, k as int),
        decreases l.len() - i,
    {
        acc = acc + char_utf8_width(l[i]);
        i = i + 1;
    }
    if acc != k {
        return None;
    }
    let t = slice_chars(l, i, l.len());
    Some(trim_chars_start(&t))
}

fn trim_chars_start(v: &Vec<char>) -> (r: Vec<char>)
    ensures
        r@ == trim_start(v@),
{
    let mut k: usize = 0;
    assert(v@.subrange(0, v@.len() as int) =~= v@);
    while k < v.len() && is_whitespace(v[k])
        invariant
            k <= v.len(),
            trim_start(v@) == trim_start(v@.subrange(k as int, v@.len() as int)),
        decreases v.len() - k,
    {
        assert(v@.subrange(k as int, v@.len() as int).drop_first() =~= v@.subrange(
            k + 1,
            v@.len() as int,
        ));
        k = k + 1;
    }
    slice_chars(v, k, v.len())
}

fn strip_bot_name_exec(l: &Vec<char>, name: &str) -> (r: Option<Vec<char>>)
    requires
        utf8_len(name@) < isize::MAX,
    ensures
        match r {
            Some(t) => strip_bot_name(l@, name@) == Some(t@),
            None => strip_bot_name(l@, name@) is None,
        },
{
    let ls = string_from_chars(l);
    let ll = chars_of(to_lowercase(ls.as_str()).as_str());
    let ln = chars_of(to_lowercase(name).as_str());
    let mut at: Vec<char> = Vec::new();
    at.push('@');
    crate::text::extend_range(&mut at, &ln, 0, ln.len());
    assert(ln@.subrange(0, ln@.len() as int) =~= ln@);
    assert(at@ =~= seq!['@'] + ln@);
    let nv = chars_of(name);
    let n = utf8_len_of(&nv);
    if starts_with_chars(&ll, &at) {
        cut_at_byte_exec(l, n + 1)
    } else if starts_with_chars(&ll, &ln) {
        cut_at_byte_exec(l, n)
    } else {
        Some(slice_chars(l, 0, l.len()))
    }
}

/// The outcome of one line, in executable form.
enum LineOutcome {
    Skip,
    Expense(ParsedExpense),
    Cmd(Command),
    Error(CommandParseError),
    Cut,
}

spec fn outcome_view(o: LineOutcome) -> LineItem {
    match o {
        LineOutcome::Skip => LineItem::Skip,
        LineOutcome::Expense(e) => LineItem::Expense(expense_view(e)),
        LineOutcome::Cmd(c) => LineItem::Cmd(c@),
        LineOutcome::Error(e) => LineItem::Error(e@),
        LineOutcome::Cut => LineItem::Cut,
    }
}

fn parse_line(raw: &Vec<char>, bot_name: Option<&str>, ts: i64) -> (r: LineOutcome)
    requires
        bot_name matches Some(n) ==> utf8_len(n@) < isize::MAX,
    ensures
        outcome_view(r) == line_item(raw@, opt_str_view(bot_name), ts),
{
    let l0 = trim_chars(raw);
    if l0.len() == 0 {
        return LineOutcome::Skip;
    }
    let l1 = drop_emoji_exec(&l0);
    let l2 = match bot_name {
        Some(n) => strip_bot_name_exec(&l1, n),
        None => Some(l1),
    };
    match l2 {
        None => LineOutcome::Cut,
        Some(l) => {
            if l.len() > 0 && l[0] == '/' {
                let ls = string_from_chars(&l);
                let bn = match bot_name {
                    Some(n) => n,
                    None => "",
                };
                proof {
                    reveal_strlit("");
                }
                match Command::parse(ls.as_str(), bn) {
                    Ok(c) => LineOutcome::Cmd(c),
                    Err(e) => LineOutcome::Error(e),
                }
            } else {
                match parse_expense_line(&l, ts) {
                    Some(e) => LineOutcome::Expense(e),
                    None => LineOutcome::Skip,
                }
            }
        },
    }
}

/// Reads a message: for each line, in order, its expense (description,
/// amount as written, and the timestamp of its date or else `timestamp`), its
/// command, or the error of its command line. A line that is neither is
/// skipped. Commands are addressed to `bot_name`.
pub fn parse_expenses(text: &str, bot_name: Option<&str>, timestamp: i64) -> (r: (
    Vec<ParsedExpense>,
    Vec<Command>,
    Vec<CommandParseError>,
))
    requires
        bot_name matches Some(n) ==> utf8_len(n@) < isize::MAX,
        no_cut(text@, opt_str_view(bot_name), timestamp),
    ensures
        (
            r.0@.map_values(|e: ParsedExpense| expense_view(e)),
            r.1@.map_values(|c: Command| c@),
            r.2@.map_values(|e: CommandParseError| e@),
        ) == parse_lines(lines_of(text@), opt_str_view(bot_name), timestamp),
{
    let v = chars_of(text);
    let ls = lines_chars(&v);
    let ghost lv = ls@.map_values(|l: Vec<char>| l@);
    let ghost bot = opt_str_view(bot_name);
    let mut es: Vec<ParsedExpense> = Vec::new();
    let mut cs: Vec<Command> = Vec::new();
    let mut rs: Vec<CommandParseError> = Vec::new();
    let mut i: usize = 0;
    while i < ls.len()
        invariant
            i <= ls.len(),
            lv == ls@.map_values(|l: Vec<char>| l@),
            lv == lines_of(text@),
            bot == opt_str_view(bot_name),
            bot_name matches Some(n) ==> utf8_len(n@) < isize::MAX,
            no_cut(text@, bot, timestamp),
            (
                es@.map_values(|e: ParsedExpense| expense_view(e)),
                cs@.map_values(|c: Command| c@),
                rs@.map_values(|e: CommandParseError| e@),
            ) == parse_lines(lv.subrange(0, i as int), bot, timestamp),
        decreases ls.len() - i,
    {
        let ghost pre = lv.subrange(0, i as int);
        let ghost post = lv.subrange(0, i + 1);
        assert(post.drop_last() =~= pre);
        assert(post.last() == ls@[i as int]@);
        let ghost e0 = es@.map_values(|e: ParsedExpense| expense_view(e));
        let ghost c0 = cs@.map_values(|c: Command| c@);
        let ghost r0 = rs@.map_values(|e: CommandParseError| e@);
        let o = parse_line(&ls[i], bot_name, timestamp);
        match o {
            LineOutcome::Expense(e) => {
                es.push(e);
                assert(es@.map_values(|e: ParsedExpense| expense_view(e)) =~= e0.push(
                    expense_view(e),
                ));
            },
            LineOutcome::Cmd(c) => {
                cs.push(c);
                assert(cs@.map_values(|c: Command| c@) =~= c0.push(c@));
            },
            LineOutcome::Error(e) => {
                rs.push(e);
                assert(rs@.map_values(|e: CommandParseError| e@) =~= r0.push(e@));
            },
            LineOutcome::Skip => {},
            LineOutcome::Cut => {
                assert(!(line_item(lines_of(text@)[i as int], bot, timestamp) is Cut));
            },
        }
        i = i + 1;
    }
    assert(lv.subrange(0, lv.len() as int) =~= lv);
    (es, cs, rs)
}

/// `parse_expenses`, or `None` where stripping the bot's name would cut a line
/// inside a character.
pub fn try_parse_expenses(text: &str, bot_name: Option<&str>, timestamp: i64) -> (r: Option<
    (Vec<ParsedExpense>, Vec<Command>, Vec<CommandParseError>),
>)
    requires
        bot_name matches Some(n) ==> utf8_len(n@) < isize::MAX,
    ensures
        r is None <==> !no_cut(text@, opt_str_view(bot_name), timestamp),
        r matches Some(t) ==> (
            t.0@.map_values(|e: ParsedExpense| expense_view(e)),
            t.1@.map_values(|c: Command| c@),
            t.2@.map_values(|e: CommandParseError| e@),
        ) == parse_lines(lines_of(text@), opt_str_view(bot_name), timestamp),
{
    let v = chars_of(text);
    let ls = lines_chars(&v);
    let ghost lv = ls@.map_values(|l: Vec<char>| l@);
    let mut i: usize = 0;
    while i < ls.len()
        invariant
            i <= ls.len(),
            lv == ls@.map_values(|l: Vec<char>| l@),
            lv == lines_of(text@),
            bot_name matches Some(n) ==> utf8_len(n@) < isize::MAX,
            forall|k: int|
                0 <= k < i ==> !(line_item(#[trigger] lv[k], opt_str_view(bot_name), timestamp) is Cut),
        decreases ls.len() - i,
    {
        assert(lv[i as int] == ls@[i as int]@);
        match parse_line(&ls[i], bot_name, timestamp) {
            LineOutcome::Cut => {
                return None;
            },
            _ => {},
        }
        i = i + 1;
    }
    Some(parse_expenses(text, bot_name, timestamp))
}

/// The end of a word is not before its start.
proof fn lemma_word_end_after(s: Seq<char>, k: int)
    requires
        0 <= k,
    ensures
        word_end(s, k) >= k,
        k <= s.len() ==> word_end(s, k) <= s.len(),
    decreases s.len() - k,
{
    if 0 <= k < s.len() && !is_ws(s[k]) {
        lemma_word_end_after(s, k + 1);
    }
}

/// A command's text sent as a message reads back as that command alone:
/// no expense, no other command, no error; for the commands whose text
/// reads back (`command_reads_back`), at any time.
pub proof fn law_command_message_reads_back(c: CommandView, ts: i64)
    requires
        crate::command::command_reads_back(c),
    ensures
        parse_lines(lines_of(crate::command::command_text(c)), None, ts) == (
            Seq::<(Seq<char>, Seq<char>, i64)>::empty(),
            seq![c],
            Seq::<CommandParseErrorView>::empty(),
        ),
{
    let t = crate::command::command_text(c);
    crate::command::lemma_command_text_line(c);
    crate::command::law_command_roundtrip(c, Seq::empty());
    assert(lines_of(t) =~= seq![t]);
    assert(seq![t].drop_last() =~= Seq::<Seq<char>>::empty());
    assert(!is_ws(t[0]));
    crate::lines::lemma_trim_unchanged(t);
    lemma_word_end_after(t, 1);
    let e = word_end(t, 0);
    assert(e >= 1 && e <= t.len());
    assert(t.subrange(0, e)[0] == '/');
    assert(is_ascii_punct('/'));
    assert(!emoji_word(t.subrange(0, e)));
    assert(drop_emoji(t) == t);
    assert(line_item(t, None, ts) == LineItem::Cmd(c));
    let empty_lines = Seq::<Seq<char>>::empty();
    assert(parse_lines(empty_lines, None, ts) == (
        Seq::<(Seq<char>, Seq<char>, i64)>::empty(),
        Seq::<CommandView>::empty(),
        Seq::<CommandParseErrorView>::empty(),
    ));
    assert(seq![t].last() == t);
    assert(Seq::<CommandView>::empty().push(c) =~= seq![c]);
}

} // verus!
