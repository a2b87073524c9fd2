//! The bot's commands: how a `/command` line is parsed, and how a command is
//! written back as text.

use vstd::prelude::*;

use crate::expense_line::{dated_split, date_timestamp, line_expense};
use crate::lines::{
    find_from, first_line, first_line_chars, lemma_find_absent, lemma_first_line_single,
    lemma_split_after, lemma_trim_unchanged, split_first, split_first_chars, trim, trim_chars,
};
use crate::text::is_ws;
use crate::numbers::{decimal_digits, decimal_digits_exec, parse_integer, parse_usize};
use crate::text::{chars_of, extend_range, extend_str, string_from_chars};

verus! {

/// A command of the bot.
#[derive(Clone, Debug, PartialEq, Eq)]
pub enum Command {
    Start,
    Help,
    List,
    Report,
    Clear,
    Categories,
    ClearCategories,
    AddCategory { name: Option<String> },
    AddFilter { category: Option<String>, pattern: Option<String> },
    RemoveCategory { name: Option<String> },
    RemoveFilter { category: Option<String>, position: Option<usize> },
    EditFilter { category: Option<String>, position: Option<usize>, pattern: Option<String> },
    /// An expense: the date as `YYYY-MM-DD`, the description, and the amount
    /// as written.
    Expense { date: Option<String>, description: Option<String>, amount: Option<String> },
}

/// A command with its text arguments as character sequences.
pub enum CommandView {
    Start,
    Help,
    List,
    Report,
    Clear,
    Categories,
    ClearCategories,
    AddCategory { name: Option<Seq<char>> },
    AddFilter { category: Option<Seq<char>>, pattern: Option<Seq<char>> },
    RemoveCategory { name: Option<Seq<char>> },
    RemoveFilter { category: Option<Seq<char>>, position: Option<usize> },
    EditFilter {
        category: Option<Seq<char>>,
        position: Option<usize>,
        pattern: Option<Seq<char>>,
    },
    Expense {
        date: Option<Seq<char>>,
        description: Option<Seq<char>>,
        amount: Option<Seq<char>>,
    },
}

/// The view of an optional string.
pub open spec fn opt_view(o: Option<String>) -> Option<Seq<char>> {
    match o {
        Some(s) => Some(s@),
        None => None,
    }
}

impl View for Command {
    type V = CommandView;

    open spec fn view(&self) -> CommandView {
        match self {
            Command::Start => CommandView::Start,
            Command::Help => CommandView::Help,
            Command::List => CommandView::List,
            Command::Report => CommandView::Report,
            Command::Clear => CommandView::Clear,
            Command::Categories => CommandView::Categories,
            Command::ClearCategories => CommandView::ClearCategories,
            Command::AddCategory { name } => CommandView::AddCategory { name: opt_view(*name) },
            Command::AddFilter { category, pattern } => CommandView::AddFilter {
                category: opt_view(*category),
                pattern: opt_view(*pattern),
            },
            Command::RemoveCategory { name } => CommandView::RemoveCategory {
                name: opt_view(*name),
            },
            Command::RemoveFilter { category, position } => CommandView::RemoveFilter {
                category: opt_view(*category),
                position: *position,
            },
            Command::EditFilter { category, position, pattern } => CommandView::EditFilter {
                category: opt_view(*category),
                position: *position,
                pattern: opt_view(*pattern),
            },
            Command::Expense { date, description, amount } => CommandView::Expense {
                date: opt_view(*date),
                description: opt_view(*description),
                amount: opt_view(*amount),
            },
        }
    }
}

/// Why a command line was refused.
#[derive(Clone, Debug, PartialEq, Eq)]
pub enum CommandParseError {
    /// An argument could not be read; the text says why.
    IncorrectFormat(String),
    /// No command has this name.
    UnknownCommand(String),
    /// The command was addressed to another bot.
    WrongBotName(String),
}

/// The view of a parse error.
pub enum CommandParseErrorView {
    IncorrectFormat(Seq<char>),
    UnknownCommand(Seq<char>),
    WrongBotName(Seq<char>),
}

impl View for CommandParseError {
    type V = CommandParseErrorView;

    open spec fn view(&self) -> CommandParseErrorView {
        match self {
            CommandParseError::IncorrectFormat(m) => CommandParseErrorView::IncorrectFormat(m@),
            CommandParseError::UnknownCommand(m) => CommandParseErrorView::UnknownCommand(m@),
            CommandParseError::WrongBotName(m) => CommandParseErrorView::WrongBotName(m@),
        }
    }
}

/// The text of a parse error.
pub open spec fn parse_error_text(e: CommandParseErrorView) -> Seq<char> {
    match e {
        CommandParseErrorView::IncorrectFormat(m) => m,
        CommandParseErrorView::UnknownCommand(m) => "Unknown command: "@ + m,
        CommandParseErrorView::WrongBotName(m) => "Wrong bot name: "@ + m,
    }
}

impl CommandParseError {
    /// The message shown for the error.
    pub fn to_string(&self) -> (r: String)
        ensures
            r@ == parse_error_text(self@),
    {
        let mut out: Vec<char> = Vec::new();
        match self {
            CommandParseError::IncorrectFormat(m) => {
                extend_str(&mut out, m.as_str());
            },
            CommandParseError::UnknownCommand(m) => {
                extend_str(&mut out, "Unknown command: ");
                extend_str(&mut out, m.as_str());
            },
            CommandParseError::WrongBotName(m) => {
                extend_str(&mut out, "Wrong bot name: ");
                extend_str(&mut out, m.as_str());
            },
        }
        string_from_chars(&out)
    }
}

// ---------------------------------------------------------------------------
// Writing a command
// ---------------------------------------------------------------------------
/// The value, or the placeholder where it is missing.
pub open spec fn or_placeholder(o: Option<Seq<char>>, placeholder: Seq<char>) -> Seq<char> {
    match o {
        Some(s) => s,
        None => placeholder,
    }
}

/// A position in decimal, or `<position>`.
pub open spec fn position_text(p: Option<usize>) -> Seq<char> {
    match p {
        Some(n) => decimal_digits(n as nat),
        None => "<position>"@,
    }
}

/// The command as the user would type it, with `<...>` for missing values.
pub open spec fn command_text(c: CommandView) -> Seq<char> {
    match c {
        CommandView::Start => "/start"@,
        CommandView::Help => "/help"@,
        CommandView::List => "/list"@,
        CommandView::Report => "/report"@,
        CommandView::Clear => "/clear"@,
        CommandView::Categories => "/categories"@,
        CommandView::ClearCategories => "/clear_categories"@,
        CommandView::AddCategory { name } => "/add_category "@ + or_placeholder(name, "<name>"@),
        CommandView::AddFilter { category, pattern } => "/add_filter "@ + or_placeholder(
            category,
            "<category>"@,
        ) + " "@ + or_placeholder(pattern, "<pattern>"@),
        CommandView::RemoveCategory { name } => "/remove_category "@ + or_placeholder(
            name,
            "<name>"@,
        ),
        CommandView::RemoveFilter { category, position } => "/remove_filter "@ + or_placeholder(
            category,
            "<category>"@,
        ) + " "@ + position_text(position),
        CommandView::EditFilter { category, position, pattern } => "/edit_filter "@
            + or_placeholder(category, "<category>"@) + " "@ + position_text(position) + " "@
            + or_placeholder(pattern, "<pattern>"@),
        CommandView::Expense { date, description, amount } => "/expense "@ + or_placeholder(
            date,
            "<date>"@,
        ) + " "@ + or_placeholder(description, "<description>"@) + " "@ + or_placeholder(
            amount,
            "<amount>"@,
        ),
    }
}

fn push_or_placeholder(out: &mut Vec<char>, o: &Option<String>, placeholder: &str)
    ensures
        final(out)@ == old(out)@ + or_placeholder(opt_view(*o), placeholder@),
{
    match o {
        Some(s) => extend_str(out, s.as_str()),
        None => extend_str(out, placeholder),
    }
}

fn push_position(out: &mut Vec<char>, p: Option<usize>)
    ensures
        final(out)@ == old(out)@ + position_text(p),
{
    match p {
        Some(n) => {
            let d = decimal_digits_exec(n as u64);
            extend_range(out, &d, 0, d.len());
            assert(d@.subrange(0, d@.len() as int) =~= d@);
        },
        None => extend_str(out, "<position>"),
    }
}

impl Command {
    /// The command as the user would type it (`String::from(command)`), with
    /// `<name>`, `<category>`, `<pattern>`, `<position>`, `<date>`,
    /// `<description>` or `<amount>` in place of a missing argument.
    pub fn to_string(&self) -> (r: String)
        ensures
            r@ == command_text(self@),
    {
        let mut out: Vec<char> = Vec::new();
        match self {
            Command::Start => extend_str(&mut out, "/start"),
            Command::Help => extend_str(&mut out, "/help"),
            Command::List => extend_str(&mut out, "/list"),
            Command::Report => extend_str(&mut out, "/report"),
            Command::Clear => extend_str(&mut out, "/clear"),
            Command::Categories => extend_str(&mut out, "/categories"),
            Command::ClearCategories => extend_str(&mut out, "/clear_categories"),
            Command::AddCategory { name } => {
                extend_str(&mut out, "/add_category ");
                push_or_placeholder(&mut out, name, "<name>");
            },
            Command::AddFilter { category, pattern } => {
                extend_str(&mut out, "/add_filter ");
                push_or_placeholder(&mut out, category, "<category>");
                extend_str(&mut out, " ");
                push_or_placeholder(&mut out, pattern, "<pattern>");
            },
            Command::RemoveCategory { name } => {
                extend_str(&mut out, "/remove_category ");
                push_or_placeholder(&mut out, name, "<name>");
            },
            Command::RemoveFilter { category, position } => {
                extend_str(&mut out, "/remove_filter ");
                push_or_placeholder(&mut out, category, "<category>");
                extend_str(&mut out, " ");
                push_position(&mut out, *position);
            },
            Command::EditFilter { category, position, pattern } => {
                extend_str(&mut out, "/edit_filter ");
                push_or_placeholder(&mut out, category, "<category>");
                extend_str(&mut out, " ");
                push_position(&mut out, *position);
                extend_str(&mut out, " ");
                push_or_placeholder(&mut out, pattern, "<pattern>");
            },
            Command::Expense { date, description, amount } => {
                extend_str(&mut out, "/expense ");
                push_or_placeholder(&mut out, date, "<date>");
                extend_str(&mut out, " ");
                push_or_placeholder(&mut out, description, "<description>");
                extend_str(&mut out, " ");
                push_or_placeholder(&mut out, amount, "<amount>");
            },
        }
        proof {
            reveal_strlit("/start");
            reveal_strlit("/help");
        }
        assert(out@ =~= command_text(self@));
        string_from_chars(&out)
    }
}

// ---------------------------------------------------------------------------
// Parsing a command
// ---------------------------------------------------------------------------
/// `c` in ASCII lower case.
pub open spec fn ascii_lower(c: char) -> char {
    if 'A' <= c && c <= 'Z' {
        ((c as u32) + 32) as char
    } else {
        c
    }
}

/// `str::eq_ignore_ascii_case`.
pub open spec fn eq_ignore_ascii_case(a: Seq<char>, b: Seq<char>) -> bool {
    a.len() == b.len() && forall|i: int| 0 <= i < a.len() ==> ascii_lower(#[trigger] a[i]) == ascii_lower(b[i])
}

/// The argument text a parser looks at: the first line of the arguments,
/// trimmed.
pub open spec fn arg_line(args: Seq<char>) -> Seq<char> {
    trim(first_line(args))
}

/// One optional argument: the argument line if it is not empty.
pub open spec fn optional_arg(args: Seq<char>) -> Option<Seq<char>> {
    let l = arg_line(args);
    if l.len() == 0 {
        None
    } else {
        Some(l)
    }
}

/// Two optional arguments: the argument line split at its first space.
pub open spec fn two_optional_args(args: Seq<char>) -> (Option<Seq<char>>, Option<Seq<char>>) {
    let l = arg_line(args);
    if l.len() == 0 {
        (None, None)
    } else {
        (Some(split_first(l, ' ').0), split_first(l, ' ').1)
    }
}

/// The message for a position that is not a number.
pub open spec fn position_error(p: Seq<char>) -> Seq<char> {
    "Position must be a number, got '"@ + p + "'"@
}

/// A position as `usize` parses it.
pub open spec fn parse_position(p: Seq<char>) -> Result<usize, Seq<char>> {
    match parse_integer(p, false, 0, usize::MAX as int) {
        Some(n) => Ok(n as usize),
        None => Err(position_error(p)),
    }
}

/// A category and an optional position.
pub open spec fn category_and_position(args: Seq<char>) -> Result<
    (Option<Seq<char>>, Option<usize>),
    Seq<char>,
> {
    let l = arg_line(args);
    if l.len() == 0 {
        Ok((None, None))
    } else {
        match split_first(l, ' ').1 {
            None => Ok((Some(l), None)),
            Some(p) => match parse_position(p) {
                Ok(n) => Ok((Some(split_first(l, ' ').0), Some(n))),
                Err(m) => Err(m),
            },
        }
    }
}

/// A category, an optional position and an optional pattern (the rest of the
/// line after the second space).
pub open spec fn category_position_and_pattern(args: Seq<char>) -> Result<
    (Option<Seq<char>>, Option<usize>, Option<Seq<char>>),
    Seq<char>,
> {
    let l = arg_line(args);
    if l.len() == 0 {
        Ok((None, None, None))
    } else {
        match split_first(l, ' ').1 {
            None => Ok((Some(l), None, None)),
            Some(r) => match parse_position(split_first(r, ' ').0) {
                Ok(n) => Ok((Some(split_first(l, ' ').0), Some(n), split_first(r, ' ').1)),
                Err(m) => Err(m),
            },
        }
    }
}

/// The arguments of `/expense`: an expense line, with or without a date. A
/// date that does not exist is left out; a line that is no expense is kept
/// whole as the description, without an amount.
pub open spec fn expense_args(args: Seq<char>) -> (
    Option<Seq<char>>,
    Option<Seq<char>>,
    Option<Seq<char>>,
) {
    let l = arg_line(args);
    if l.len() == 0 {
        (None, None, None)
    } else {
        match line_expense(l, 0) {
            Some((desc, a, _)) => match dated_split(l) {
                Some((d, _, _)) => (
                    if date_timestamp(d) is Some {
                        Some(d)
                    } else {
                        None
                    },
                    Some(desc),
                    Some(a),
                ),
                None => (None, Some(desc), Some(a)),
            },
            None => (None, Some(l), None),
        }
    }
}

/// The command named `raw` (with its slash) applied to `args`.
pub open spec fn command_by_name(raw: Seq<char>, args: Seq<char>) -> Result<
    CommandView,
    CommandParseErrorView,
> {
    if raw == "/start"@ {
        Ok(CommandView::Start)
    } else if raw == "/help"@ {
        Ok(CommandView::Help)
    } else if raw == "/list"@ {
        Ok(CommandView::List)
    } else if raw == "/report"@ {
        Ok(CommandView::Report)
    } else if raw == "/clear"@ {
        Ok(CommandView::Clear)
    } else if raw == "/categories"@ {
        Ok(CommandView::Categories)
    } else if raw == "/clear_categories"@ {
        Ok(CommandView::ClearCategories)
    } else if raw == "/add_category"@ {
        Ok(CommandView::AddCategory { name: optional_arg(args) })
    } else if raw == "/add_filter"@ {
        Ok(
            CommandView::AddFilter {
                category: two_optional_args(args).0,
                pattern: two_optional_args(args).1,
            },
        )
    } else if raw == "/remove_category"@ {
        Ok(CommandView::RemoveCategory { name: optional_arg(args) })
    } else if raw == "/remove_filter"@ {
        match category_and_position(args) {
            Ok((c, p)) => Ok(CommandView::RemoveFilter { category: c, position: p }),
            Err(m) => Err(CommandParseErrorView::IncorrectFormat(m)),
        }
    } else if raw == "/edit_filter"@ {
        match category_position_and_pattern(args) {
            Ok((c, p, t)) => Ok(CommandView::EditFilter { category: c, position: p, pattern: t }),
            Err(m) => Err(CommandParseErrorView::IncorrectFormat(m)),
        }
    } else if raw == "/expense"@ {
        Ok(
            CommandView::Expense {
                date: expense_args(args).0,
                description: expense_args(args).1,
                amount: expense_args(args).2,
            },
        )
    } else {
        Err(CommandParseErrorView::UnknownCommand(raw))
    }
}

/// How a command line is read: the first word (up to a space) is the command,
/// optionally followed by `@` and the bot's name, which must equal `bot_name`
/// up to ASCII case; the rest after that space are the arguments. Commands
/// without arguments ignore them.
pub open spec fn command_parse(s: Seq<char>, bot_name: Seq<char>) -> Result<
    CommandView,
    CommandParseErrorView,
> {
    let head = split_first(s, ' ').0;
    let args = match split_first(s, ' ').1 {
        Some(a) => a,
        None => Seq::empty(),
    };
    let raw = split_first(head, '@').0;
    match split_first(head, '@').1 {
        Some(t) => if eq_ignore_ascii_case(split_first(t, '@').0, bot_name) {
            command_by_name(raw, args)
        } else {
            Err(CommandParseErrorView::WrongBotName(split_first(t, '@').0))
        },
        None => command_by_name(raw, args),
    }
}

fn ascii_lower_exec(c: char) -> (r: char)
    ensures
        r == ascii_lower(c),
{
    if 'A' <= c && c <= 'Z' {
        (((c as u32) + 32) as u8) as char
    } else {
        c
    }
}

fn eq_ignore_ascii_case_exec(a: &Vec<char>, b: &Vec<char>) -> (r: bool)
    ensures
        r == eq_ignore_ascii_case(a@, b@),
{
    if a.len() != b.len() {
        return false;
    }
    let mut i: usize = 0;
    while i < a.len()
        invariant
            i <= a.len() == b.len(),
            forall|k: int| 0 <= k < i ==> ascii_lower(#[trigger] a@[k]) == ascii_lower(b@[k]),
        decreases a.len() - i,
    {
        if ascii_lower_exec(a[i]) != ascii_lower_exec(b[i]) {
            return false;
        }
        i = i + 1;
    }
    true
}

fn chars_eq(v: &Vec<char>, s: &str) -> (r: bool)
    ensures
        r == (v@ == s@),
{
    let w = chars_of(s);
    if v.len() != w.len() {
        return false;
    }
    let mut i: usize = 0;
    while i < v.len()
        invariant
            i <= v.len() == w.len(),
            w@ == s@,
            forall|k: int| 0 <= k < i ==> v@[k] == w@[k],
        decreases v.len() - i,
    {
        if v[i] != w[i] {
            return false;
        }
        i = i + 1;
    }
    assert(v@ =~= w@);
    true
}

fn some_string(v: Vec<char>) -> (r: Option<String>)
    ensures
        opt_view(r) == Some(v@),
{
    Some(string_from_chars(&v))
}

fn opt_string(v: Option<Vec<char>>) -> (r: Option<String>)
    ensures
        opt_view(r) == match v {
            Some(t) => Some(t@),
            None => None,
        },
{
    match v {
        Some(t) => Some(string_from_chars(&t)),
        None => None,
    }
}

fn arg_line_exec(args: &Vec<char>) -> (r: Vec<char>)
    ensures
        r@ == arg_line(args@),
{
    let f = first_line_chars(args);
    trim_chars(&f)
}

fn optional_arg_exec(args: &Vec<char>) -> (r: Option<String>)
    ensures
        opt_view(r) == optional_arg(args@),
{
    let l = arg_line_exec(args);
    if l.len() == 0 {
        None
    } else {
        some_string(l)
    }
}

fn position_error_exec(p: &Vec<char>) -> (r: String)
    ensures
        r@ == position_error(p@),
{
    let mut out: Vec<char> = Vec::new();
    extend_str(&mut out, "Position must be a number, got '");
    extend_range(&mut out, p, 0, p.len());
    extend_str(&mut out, "'");
    assert(p@.subrange(0, p@.len() as int) =~= p@);
    assert(out@ =~= position_error(p@));
    string_from_chars(&out)
}

fn parse_position_exec(p: &Vec<char>) -> (r: Result<usize, String>)
    ensures
        match r {
            Ok(n) => parse_position(p@) == Ok::<usize, Seq<char>>(n),
            Err(m) => parse_position(p@) == Err::<usize, Seq<char>>(m@),
        },
{
    let s = string_from_chars(p);
    match parse_usize(s.as_str()) {
        Some(n) => Ok(n),
        None => Err(position_error_exec(p)),
    }
}

fn expense_args_exec(args: &Vec<char>) -> (r: (Option<String>, Option<String>, Option<String>))
    ensures
        (opt_view(r.0), opt_view(r.1), opt_view(r.2)) == expense_args(args@),
{
    let l = arg_line_exec(args);
    if l.len() == 0 {
        return (None, None, None);
    }
    match crate::expense_line::parse_expense_line(&l, 0) {
        Some(e) => {
            let dated = crate::expense_line::dated_date(&l);
            (dated, Some(e.description), Some(e.amount))
        },
        None => (None, some_string(l), None),
    }
}

impl Command {
    /// Parses one command line (`BotCommands::parse`): see `command_parse`.
    pub fn parse(s: &str, bot_name: &str) -> (r: Result<Command, CommandParseError>)
        ensures
            match r {
                Ok(c) => command_parse(s@, bot_name@) == Ok::<CommandView, CommandParseErrorView>(
                    c@,
                ),
                Err(e) => command_parse(s@, bot_name@) == Err::<
                    CommandView,
                    CommandParseErrorView,
                >(e@),
            },
    {
        let v = chars_of(s);
        let (head, rest) = split_first_chars(&v, ' ');
        let args: Vec<char> = match rest {
            Some(a) => a,
            None => Vec::new(),
        };
        let (raw, after) = split_first_chars(&head, '@');
        match after {
            Some(t) => {
                let (name, _) = split_first_chars(&t, '@');
                let bn = chars_of(bot_name);
                if !eq_ignore_ascii_case_exec(&name, &bn) {
                    return Err(CommandParseError::WrongBotName(string_from_chars(&name)));
                }
            },
            None => {},
        }
        Self::by_name(&raw, &args)
    }

    fn by_name(raw: &Vec<char>, args: &Vec<char>) -> (r: Result<Command, CommandParseError>)
        ensures
            match r {
                Ok(c) => command_by_name(raw@, args@) == Ok::<CommandView, CommandParseErrorView>(
                    c@,
                ),
                Err(e) => command_by_name(raw@, args@) == Err::<
                    CommandView,
                    CommandParseErrorView,
                >(e@),
            },
    {
        if chars_eq(raw, "/start") {
            Ok(Command::Start)
        } else if chars_eq(raw, "/help") {
            Ok(Command::Help)
        } else if chars_eq(raw, "/list") {
            Ok(Command::List)
        } else if chars_eq(raw, "/report") {
            Ok(Command::Report)
        } else if chars_eq(raw, "/clear") {
            Ok(Command::Clear)
        } else if chars_eq(raw, "/categories") {
            Ok(Command::Categories)
        } else if chars_eq(raw, "/clear_categories") {
            Ok(Command::ClearCategories)
        } else if chars_eq(raw, "/add_category") {
            Ok(Command::AddCategory { name: optional_arg_exec(args) })
        } else if chars_eq(raw, "/add_filter") {
            let l = arg_line_exec(args);
            if l.len() == 0 {
                Ok(Command::AddFilter { category: None, pattern: None })
            } else {
                let (c, p) = split_first_chars(&l, ' ');
                Ok(Command::AddFilter { category: some_string(c), pattern: opt_string(p) })
            }
        } else if chars_eq(raw, "/remove_category") {
            Ok(Command::RemoveCategory { name: optional_arg_exec(args) })
        } else if chars_eq(raw, "/remove_filter") {
            let l = arg_line_exec(args);
            if l.len() == 0 {
                Ok(Command::RemoveFilter { category: None, position: None })
            } else {
                let (c, p) = split_first_chars(&l, ' ');
                match p {
                    None => Ok(Command::RemoveFilter { category: some_string(l), position: None }),
                    Some(ps) => match parse_position_exec(&ps) {
                        Ok(n) => Ok(
                            Command::RemoveFilter { category: some_string(c), position: Some(n) },
                        ),
                        Err(m) => Err(CommandParseError::IncorrectFormat(m)),
                    },
                }
            }
        } else if chars_eq(raw, "/edit_filter") {
            let l = arg_line_exec(args);
            if l.len() == 0 {
                Ok(Command::EditFilter { category: None, position: None, pattern: None })
            } else {
                let (c, r) = split_first_chars(&l, ' ');
                match r {
                    None => Ok(
                        Command::EditFilter { category: some_string(l), position: None, pattern: None },
                    ),
                    Some(rs) => {
                        let (ps, t) = split_first_chars(&rs, ' ');
                        match parse_position_exec(&ps) {
                            Ok(n) => Ok(
                                Command::EditFilter {
                                    category: some_string(c),
                                    position: Some(n),
                                    pattern: opt_string(t),
                                },
                            ),
                            Err(m) => Err(CommandParseError::IncorrectFormat(m)),
                        }
                    },
                }
            }
        } else if chars_eq(raw, "/expense") {
            let (date, description, amount) = expense_args_exec(args);
            Ok(Command::Expense { date, description, amount })
        } else {
            Err(CommandParseError::UnknownCommand(string_from_chars(raw)))
        }
    }
}

// ---------------------------------------------------------------------------
// Writing a command and reading it back
// ---------------------------------------------------------------------------
/// A word argument: not empty, without white space.
pub open spec fn word_arg(s: Seq<char>) -> bool {
    s.len() > 0 && forall|i: int| 0 <= i < s.len() ==> !is_ws(#[trigger] s[i])
}

/// A last argument: not empty, without a line break, not ending in white
/// space.
pub open spec fn last_arg(s: Seq<char>) -> bool {
    s.len() > 0 && find_from(s, '\n', 0) is None && !is_ws(s.last())
}

/// A whole-line argument: a last argument that does not start with white
/// space either.
pub open spec fn line_arg(s: Seq<char>) -> bool {
    last_arg(s) && !is_ws(s[0])
}

/// The commands whose text reads back as the same command: those without
/// arguments, and those with all their arguments given, each of its shape.
pub open spec fn command_reads_back(c: CommandView) -> bool {
    match c {
        CommandView::AddCategory { name: Some(n) } => line_arg(n),
        CommandView::RemoveCategory { name: Some(n) } => line_arg(n),
        CommandView::AddFilter { category: Some(k), pattern: Some(p) } => word_arg(k) && last_arg(p),
        CommandView::RemoveFilter { category: Some(k), position: Some(_) } => word_arg(k),
        CommandView::EditFilter { category: Some(k), position: Some(_), pattern: Some(p) } =>
            word_arg(k) && last_arg(p),
        CommandView::AddCategory { .. } => false,
        CommandView::RemoveCategory { .. } => false,
        CommandView::AddFilter { .. } => false,
        CommandView::RemoveFilter { .. } => false,
        CommandView::EditFilter { .. } => false,
        CommandView::Expense { .. } => false,
        _ => true,
    }
}

proof fn lemma_no_char(s: Seq<char>, c: char)
    requires
        forall|i: int| 0 <= i < s.len() ==> s[i] != c,
    ensures
        find_from(s, c, 0) is None,
{
    lemma_find_absent(s, c, 0);
}

proof fn lemma_word_has_no(s: Seq<char>)
    requires
        word_arg(s),
    ensures
        find_from(s, ' ', 0) is None,
        find_from(s, '\n', 0) is None,
        !is_ws(s[0]),
{
    assert forall|i: int| 0 <= i < s.len() implies s[i] != ' ' by {
        assert(!is_ws(s[i]));
    }
    assert forall|i: int| 0 <= i < s.len() implies s[i] != '\n' by {
        assert(!is_ws(s[i]));
    }
    lemma_no_char(s, ' ');
    lemma_no_char(s, '\n');
}

proof fn lemma_digits_shape(n: nat)
    ensures
        word_arg(decimal_digits(n)),
        find_from(decimal_digits(n), ' ', 0) is None,
        find_from(decimal_digits(n), '\n', 0) is None,
        parse_position(decimal_digits(n)) == (if n <= usize::MAX {
            Ok::<usize, Seq<char>>(n as usize)
        } else {
            parse_position(decimal_digits(n))
        }),
{
    let d = decimal_digits(n);
    crate::numbers::lemma_decimal_digits_all_digits(n);
    assert forall|i: int| 0 <= i < d.len() implies !is_ws(#[trigger] d[i]) by {
        assert(crate::numbers::is_digit(d[i]));
    }
    lemma_word_has_no(d);
    if n <= usize::MAX {
        crate::numbers::lemma_parse_padded(n, 0, false, 0, usize::MAX as int);
        assert(crate::numbers::format_padded(n as int, 0) == d);
    }
}

/// With no line break in `a` nor in `b`, none in `a + x + b` for `x` not a
/// line break.
proof fn lemma_no_newline_concat(a: Seq<char>, x: char, b: Seq<char>)
    requires
        find_from(a, '\n', 0) is None,
        find_from(b, '\n', 0) is None,
        x != '\n',
    ensures
        find_from(a + seq![x] + b, '\n', 0) is None,
{
    lemma_find_absent(a, '\n', 0);
    lemma_find_absent(b, '\n', 0);
    let s = a + seq![x] + b;
    assert forall|i: int| 0 <= i < s.len() implies s[i] != '\n' by {
        if i < a.len() {
            assert(s[i] == a[i]);
        } else if i > a.len() {
            assert(s[i] == b[i - a.len() - 1]);
        }
    }
    lemma_no_char(s, '\n');
}

/// How the text of a command with arguments splits.
proof fn lemma_command_head(name: Seq<char>, args: Seq<char>, bot: Seq<char>)
    requires
        forall|i: int| 0 <= i < name.len() ==> name[i] != ' ' && name[i] != '@',
    ensures
        command_parse(name + seq![' '] + args, bot) == command_by_name(name, args),
{
    lemma_no_char(name, ' ');
    lemma_no_char(name, '@');
    lemma_split_after(name, ' ', args);
}

/// A command's text reads back as the command (`Command::parse` undoes
/// `to_string`), for the commands of `command_reads_back`, whatever the bot's
/// name.
pub proof fn law_command_roundtrip(c: CommandView, bot: Seq<char>)
    requires
        command_reads_back(c),
    ensures
        command_parse(command_text(c), bot) == Ok::<CommandView, CommandParseErrorView>(c),
{
    reveal_strlit("/start");
    reveal_strlit("/help");
    reveal_strlit("/list");
    reveal_strlit("/report");
    reveal_strlit("/clear");
    reveal_strlit("/categories");
    reveal_strlit("/clear_categories");
    reveal_strlit("/add_category");
    reveal_strlit("/add_filter");
    reveal_strlit("/remove_category");
    reveal_strlit("/remove_filter");
    reveal_strlit("/edit_filter");
    reveal_strlit("/expense");
    reveal_strlit("/add_category ");
    reveal_strlit("/add_filter ");
    reveal_strlit("/remove_category ");
    reveal_strlit("/remove_filter ");
    reveal_strlit("/edit_filter ");
    reveal_strlit(" ");
    assert("/clear"@ != "/start"@) by {
        assert("/clear"@[1] != "/start"@[1]);
    }
    assert("/list"@ != "/help"@) by {
        assert("/list"@[1] != "/help"@[1]);
    }
    assert("/add_filter"@ != "/categories"@) by {
        assert("/add_filter"@[1] != "/categories"@[1]);
    }
    match c {
        CommandView::AddCategory { name: Some(n) } => {
            let h = "/add_category"@;
            assert("/add_category "@ + n == h + seq![' '] + n);
            lemma_command_head(h, n, bot);
            lemma_first_line_single(n);
            lemma_trim_unchanged(n);
        },
        CommandView::RemoveCategory { name: Some(n) } => {
            let h = "/remove_category"@;
            assert("/remove_category "@ + n == h + seq![' '] + n);
            lemma_command_head(h, n, bot);
            lemma_first_line_single(n);
            lemma_trim_unchanged(n);
        },
        CommandView::AddFilter { category: Some(k), pattern: Some(p) } => {
            let h = "/add_filter"@;
            let args = k + seq![' '] + p;
            assert(command_text(c) == h + seq![' '] + args);
            lemma_command_head(h, args, bot);
            lemma_word_has_no(k);
            lemma_no_newline_concat(k, ' ', p);
            lemma_first_line_single(args);
            assert(args[0] == k[0]);
            assert(args.last() == p.last());
            lemma_trim_unchanged(args);
            lemma_split_after(k, ' ', p);
        },
        CommandView::RemoveFilter { category: Some(k), position: Some(n) } => {
            let h = "/remove_filter"@;
            let d = decimal_digits(n as nat);
            let args = k + seq![' '] + d;
            assert(command_text(c) == h + seq![' '] + args);
            lemma_command_head(h, args, bot);
            lemma_word_has_no(k);
            lemma_digits_shape(n as nat);
            lemma_no_newline_concat(k, ' ', d);
            lemma_first_line_single(args);
            assert(args[0] == k[0]);
            assert(args.last() == d.last());
            assert(!is_ws(d[d.len() - 1]));
            lemma_trim_unchanged(args);
            lemma_split_after(k, ' ', d);
        },
        CommandView::EditFilter { category: Some(k), position: Some(n), pattern: Some(p) } => {
            let h = "/edit_filter"@;
            let d = decimal_digits(n as nat);
            let r = d + seq![' '] + p;
            let args = k + seq![' '] + r;
            assert(command_text(c) == h + seq![' '] + args);
            lemma_command_head(h, args, bot);
            lemma_word_has_no(k);
            lemma_digits_shape(n as nat);
            lemma_no_newline_concat(d, ' ', p);
            lemma_no_newline_concat(k, ' ', r);
            lemma_first_line_single(args);
            assert(args[0] == k[0]);
            assert(args.last() == p.last());
            lemma_trim_unchanged(args);
            lemma_split_after(k, ' ', r);
            lemma_split_after(d, ' ', p);
        },
        _ => {
            let t = command_text(c);
            lemma_no_char(t, ' ');
            lemma_no_char(t, '@');
            assert(split_first(t, ' ') == (t, None::<Seq<char>>));
            assert(split_first(t, '@') == (t, None::<Seq<char>>));
        },
    }
}

/// The text of a command that reads back is one line that starts with `/`
/// and does not end in white space.
pub proof fn lemma_command_text_line(c: CommandView)
    requires
        command_reads_back(c),
    ensures
        command_text(c).len() > 0,
        command_text(c)[0] == '/',
        find_from(command_text(c), '\n', 0) is None,
        !is_ws(command_text(c).last()),
{
    reveal_strlit("/start");
    reveal_strlit("/help");
    reveal_strlit("/list");
    reveal_strlit("/report");
    reveal_strlit("/clear");
    reveal_strlit("/categories");
    reveal_strlit("/clear_categories");
    reveal_strlit("/add_category");
    reveal_strlit("/add_filter");
    reveal_strlit("/remove_category");
    reveal_strlit("/remove_filter");
    reveal_strlit("/edit_filter");
    reveal_strlit("/add_category ");
    reveal_strlit("/add_filter ");
    reveal_strlit("/remove_category ");
    reveal_strlit("/remove_filter ");
    reveal_strlit("/edit_filter ");
    reveal_strlit(" ");
    let t = command_text(c);
    match c {
        CommandView::AddCategory { name: Some(n) } => {
            let h = "/add_category"@;
            assert(t == h + seq![' '] + n);
            lemma_no_char(h, '\n');
            lemma_no_newline_concat(h, ' ', n);
        },
        CommandView::RemoveCategory { name: Some(n) } => {
            let h = "/remove_category"@;
            assert(t == h + seq![' '] + n);
            lemma_no_char(h, '\n');
            lemma_no_newline_concat(h, ' ', n);
        },
        CommandView::AddFilter { category: Some(k), pattern: Some(p) } => {
            let h = "/add_filter"@;
            let args = k + seq![' '] + p;
            assert(t == h + seq![' '] + args);
            lemma_word_has_no(k);
            lemma_no_newline_concat(k, ' ', p);
            lemma_no_char(h, '\n');
            lemma_no_newline_concat(h, ' ', args);
            assert(t.last() == p.last());
        },
        CommandView::RemoveFilter { category: Some(k), position: Some(n) } => {
            let h = "/remove_filter"@;
            let d = decimal_digits(n as nat);
            let args = k + seq![' '] + d;
            assert(t == h + seq![' '] + args);
            lemma_word_has_no(k);
            lemma_digits_shape(n as nat);
            lemma_no_newline_concat(k, ' ', d);
            lemma_no_char(h, '\n');
            lemma_no_newline_concat(h, ' ', args);
            assert(t.last() == d.last());
            assert(!is_ws(d[d.len() - 1]));
        },
        CommandView::EditFilter { category: Some(k), position: Some(n), pattern: Some(p) } => {
            let h = "/edit_filter"@;
            let d = decimal_digits(n as nat);
            let r = d + seq![' '] + p;
            let args = k + seq![' '] + r;
            assert(t == h + seq![' '] + args);
            lemma_word_has_no(k);
            lemma_digits_shape(n as nat);
            lemma_no_newline_concat(d, ' ', p);
            lemma_no_newline_concat(k, ' ', r);
            lemma_no_char(h, '\n');
            lemma_no_newline_concat(h, ' ', args);
            assert(t.last() == p.last());
        },
        _ => {
            lemma_no_char(t, '\n');
        },
    }
}

} // verus!
