//! The grammar of an expense line: `[<date>] <description> <amount>`, where the
//! date is `YYYY-MM-DD` and the amount is digits with an optional fraction.

use vstd::prelude::*;

use crate::lines::{find_first, find_from, slice_chars, trim, trim_chars};
use crate::numbers::is_digit;
use crate::text::{is_whitespace, is_ws, string_from_chars};

verus! {

/// Whether the `regex` crate's `\d` (the Unicode class `Nd`) matches a
/// non-ASCII character `c`.
pub uninterp spec fn nonascii_decimal_digit(c: char) -> bool;

/// Whether `\d` matches `c`: among ASCII characters exactly the ten digits,
/// beyond ASCII the other members of `Nd`.
pub open spec fn unicode_decimal_digit(c: char) -> bool {
    if (c as u32) < 128 {
        is_digit(c)
    } else {
        nonascii_decimal_digit(c)
    }
}

/// The Unix timestamp of midnight UTC of the date that chrono's
/// `NaiveDate::parse_from_str(s, "%Y-%m-%d")` reads from `s`, if it reads one.
pub uninterp spec fn date_timestamp(s: Seq<char>) -> Option<i64>;

/// Whether `\d` matches `c`, asked of the `regex` crate. Its contract states
/// the ASCII part of the Unicode class `Nd` (the ten ASCII digits are in it
/// and no other ASCII character is) and names the rest.
#[verifier::external_body]
fn is_decimal_digit(c: char) -> (b: bool)
    ensures
        (c as u32) < 128 ==> (b <==> is_digit(c)),
        (c as u32) >= 128 ==> b == nonascii_decimal_digit(c),
{
    let mut buf = [0u8; 4];
    match regex::Regex::new(r"^\d$") {
        Ok(re) => re.is_match(c.encode_utf8(&mut buf)),
        Err(_) => false,
    }
}

/// chrono's `NaiveDate::parse_from_str(s, "%Y-%m-%d")`, taken at midnight UTC
/// as a Unix timestamp. The contract names the result without restating
/// chrono's calendar.
#[verifier::external_body]
fn parse_date_to_timestamp(s: &str) -> (r: Option<i64>)
    ensures
        r == date_timestamp(s@),
{
    match chrono::NaiveDate::parse_from_str(s, "%Y-%m-%d") {
        Ok(d) => d.and_hms_opt(0, 0, 0).map(|t| t.and_utc().timestamp()),
        Err(_) => None,
    }
}

/// The Unix timestamp of midnight UTC of a `YYYY-MM-DD` date, or `None` when
/// the text is not such a date (what the expense command stores for a dated
/// expense).
pub fn timestamp_of_date(date: &str) -> (r: Option<i64>)
    ensures
        r == date_timestamp(date@),
{
    parse_date_to_timestamp(date)
}

/// A digit of the amount: ASCII (what `f64::from_str` reads) or `\d`.
pub open spec fn digit_class(c: char, ascii: bool) -> bool {
    if ascii {
        is_digit(c)
    } else {
        unicode_decimal_digit(c)
    }
}

/// Every character of `s[lo..hi]` is a digit of the class.
pub open spec fn all_class(s: Seq<char>, lo: int, hi: int, ascii: bool) -> bool {
    forall|i: int| lo <= i < hi ==> digit_class(#[trigger] s[i], ascii)
}

/// `a` has the shape `D+(\.D+)?` for the digit class.
pub open spec fn amount_shape(a: Seq<char>, ascii: bool) -> bool {
    match find_from(a, '.', 0) {
        None => a.len() > 0 && all_class(a, 0, a.len() as int, ascii),
        Some(p) => 0 < p && p + 1 < a.len() && all_class(a, 0, p, ascii) && all_class(
            a,
            p + 1,
            a.len() as int,
            ascii,
        ),
    }
}

/// `d` has the shape `\d{4}-\d{2}-\d{2}`.
pub open spec fn date_shape(d: Seq<char>) -> bool {
    &&& d.len() == 10
    &&& d[4] == '-'
    &&& d[7] == '-'
    &&& all_class(d, 0, 4, false)
    &&& all_class(d, 5, 7, false)
    &&& all_class(d, 8, 10, false)
}

/// The largest index below `k` that holds white space.
pub open spec fn last_ws_before(s: Seq<char>, k: int) -> Option<int>
    decreases k,
{
    if k <= 0 || k > s.len() {
        None
    } else if is_ws(s[k - 1]) {
        Some(k - 1)
    } else {
        last_ws_before(s, k - 1)
    }
}

/// The start of the run of white space that ends just before `k`.
pub open spec fn ws_run_start(s: Seq<char>, k: int) -> int
    decreases k,
{
    if 0 < k <= s.len() && is_ws(s[k - 1]) {
        ws_run_start(s, k - 1)
    } else {
        k
    }
}

/// The end of the run of white space that starts at `k`.
pub open spec fn ws_run_end(s: Seq<char>, k: int) -> int
    decreases s.len() - k,
{
    if 0 <= k < s.len() && is_ws(s[k]) {
        ws_run_end(s, k + 1)
    } else {
        k
    }
}

/// How `^(.+?)\s+(\d+(?:\.\d+)?)$` splits a trimmed line: the text before the
/// last run of white space, and the last word, which must be an amount.
pub open spec fn plain_split(l: Seq<char>) -> Option<(Seq<char>, Seq<char>)> {
    match last_ws_before(l, l.len() as int) {
        None => None,
        Some(k) => {
            let q = ws_run_start(l, k + 1);
            let a = l.subrange(k + 1, l.len() as int);
            if q > 0 && amount_shape(a, false) {
                Some((l.subrange(0, q), a))
            } else {
                None
            }
        },
    }
}

/// How `^(\d{4}-\d{2}-\d{2})\s+(.+?)\s+(\d+(?:\.\d+)?)$` splits a trimmed
/// line: the date, the description and the amount. When the date and the
/// amount are separated by a single run of at least three white-space
/// characters, the lazy description is one white-space character.
pub open spec fn dated_split(l: Seq<char>) -> Option<(Seq<char>, Seq<char>, Seq<char>)> {
    if l.len() < 11 || !date_shape(l.subrange(0, 10)) || !is_ws(l[10]) {
        None
    } else {
        let j = ws_run_end(l, 10);
        match last_ws_before(l, l.len() as int) {
            None => None,
            Some(k) => {
                let q = ws_run_start(l, k + 1);
                let a = l.subrange(k + 1, l.len() as int);
                if !amount_shape(a, false) {
                    None
                } else if q > j {
                    Some((l.subrange(0, 10), l.subrange(j, q), a))
                } else if j - 10 >= 3 {
                    Some((l.subrange(0, 10), l.subrange(j - 2, j - 1), a))
                } else {
                    None
                }
            },
        }
    }
}

/// The expense a trimmed line gives: description, amount text and timestamp.
/// A line with a date takes the date's midnight (or `ts` where the date does
/// not exist); an amount that is not made of ASCII digits gives nothing.
pub open spec fn line_expense(l: Seq<char>, ts: i64) -> Option<(Seq<char>, Seq<char>, i64)> {
    match dated_split(l) {
        Some((d, desc, a)) => if amount_shape(a, true) {
            Some(
                (
                    trim(desc),
                    a,
                    match date_timestamp(d) {
                        Some(t) => t,
                        None => ts,
                    },
                ),
            )
        } else {
            None
        },
        None => match plain_split(l) {
            Some((desc, a)) => if amount_shape(a, true) {
                Some((trim(desc), a, ts))
            } else {
                None
            },
            None => None,
        },
    }
}

/// One parsed expense: description, amount as written, Unix timestamp.
#[derive(Clone, Debug, PartialEq, Eq)]
pub struct ParsedExpense {
    pub description: String,
    pub amount: String,
    pub timestamp: i64,
}

/// The view of a parsed expense.
pub open spec fn expense_view(e: ParsedExpense) -> (Seq<char>, Seq<char>, i64) {
    (e.description@, e.amount@, e.timestamp)
}

fn digit_class_exec(c: char, ascii: bool) -> (b: bool)
    ensures
        b == digit_class(c, ascii),
{
    if ascii {
        '0' <= c && c <= '9'
    } else {
        is_decimal_digit(c)
    }
}

fn all_class_exec(v: &Vec<char>, lo: usize, hi: usize, ascii: bool) -> (b: bool)
    requires
        lo <= hi <= v.len(),
    ensures
        b == all_class(v@, lo as int, hi as int, ascii),
{
    let mut i = lo;
    while i < hi
        invariant
            lo <= i <= hi <= v.len(),
            all_class(v@, lo as int, i as int, ascii),
        decreases hi - i,
    {
        if !digit_class_exec(v[i], ascii) {
            return false;
        }
        i = i + 1;
    }
    true
}

/// Whether `v` has the shape of an amount for the digit class.
fn amount_shape_exec(v: &Vec<char>, ascii: bool) -> (b: bool)
    ensures
        b == amount_shape(v@, ascii),
{
    match find_first(v, '.') {
        None => v.len() > 0 && all_class_exec(v, 0, v.len(), ascii),
        Some(p) => 0 < p && p + 1 < v.len() && all_class_exec(v, 0, p, ascii) && all_class_exec(
            v,
            p + 1,
            v.len(),
            ascii,
        ),
    }
}

fn last_ws_before_exec(v: &Vec<char>, k: usize) -> (r: Option<usize>)
    requires
        k <= v.len(),
    ensures
        match r {
            Some(i) => last_ws_before(v@, k as int) == Some(i as int) && i < k,
            None => last_ws_before(v@, k as int) is None,
        },
{
    let mut i = k;
    while i > 0
        invariant
            i <= k <= v.len(),
            last_ws_before(v@, k as int) == last_ws_before(v@, i as int),
        decreases i,
    {
        if is_whitespace(v[i - 1]) {
            return Some(i - 1);
        }
        i = i - 1;
    }
    None
}

fn ws_run_start_exec(v: &Vec<char>, k: usize) -> (r: usize)
    requires
        k <= v.len(),
    ensures
        r == ws_run_start(v@, k as int),
        r <= k,
{
    let mut i = k;
    while i > 0 && is_whitespace(v[i - 1])
        invariant
            i <= k <= v.len(),
            ws_run_start(v@, k as int) == ws_run_start(v@, i as int),
        decreases i,
    {
        i = i - 1;
    }
    i
}

fn ws_run_end_exec(v: &Vec<char>, k: usize) -> (r: usize)
    requires
        k <= v.len(),
    ensures
        r == ws_run_end(v@, k as int),
        k <= r <= v.len(),
{
    let mut i = k;
    while i < v.len() && is_whitespace(v[i])
        invariant
            k <= i <= v.len(),
            ws_run_end(v@, k as int) == ws_run_end(v@, i as int),
        decreases v.len() - i,
    {
        i = i + 1;
    }
    i
}

/// `plain_split` on a character vector.
fn plain_split_exec(l: &Vec<char>) -> (r: Option<(Vec<char>, Vec<char>)>)
    ensures
        match r {
            Some((d, a)) => plain_split(l@) == Some((d@, a@)),
            None => plain_split(l@) is None,
        },
{
    match last_ws_before_exec(l, l.len()) {
        None => None,
        Some(k) => {
            let q = ws_run_start_exec(l, k + 1);
            let a = slice_chars(l, k + 1, l.len());
            if q > 0 && amount_shape_exec(&a, false) {
                Some((slice_chars(l, 0, q), a))
            } else {
                None
            }
        },
    }
}

fn date_shape_exec(l: &Vec<char>) -> (b: bool)
    requires
        l.len() >= 10,
    ensures
        b == date_shape(l@.subrange(0, 10)),
{
    let d = slice_chars(l, 0, 10);
    d[4] == '-' && d[7] == '-' && all_class_exec(&d, 0, 4, false) && all_class_exec(&d, 5, 7, false)
        && all_class_exec(&d, 8, 10, false)
}

/// `dated_split` on a character vector.
fn dated_split_exec(l: &Vec<char>) -> (r: Option<(Vec<char>, Vec<char>, Vec<char>)>)
    ensures
        match r {
            Some((d, desc, a)) => dated_split(l@) == Some((d@, desc@, a@)),
            None => dated_split(l@) is None,
        },
{
    if l.len() < 11 || !date_shape_exec(l) || !is_whitespace(l[10]) {
        return None;
    }
    let j = ws_run_end_exec(l, 10);
    match last_ws_before_exec(l, l.len()) {
        None => None,
        Some(k) => {
            let q = ws_run_start_exec(l, k + 1);
            let a = slice_chars(l, k + 1, l.len());
            if !amount_shape_exec(&a, false) {
                None
            } else if q > j {
                Some((slice_chars(l, 0, 10), slice_chars(l, j, q), a))
            } else if j - 10 >= 3 {
                Some((slice_chars(l, 0, 10), slice_chars(l, j - 2, j - 1), a))
            } else {
                None
            }
        },
    }
}

/// The expense of one trimmed line, if it is one.
pub fn parse_expense_line(l: &Vec<char>, ts: i64) -> (r: Option<ParsedExpense>)
    ensures
        match r {
            Some(e) => line_expense(l@, ts) == Some(expense_view(e)),
            None => line_expense(l@, ts) is None,
        },
{
    match dated_split_exec(l) {
        Some((d, desc, a)) => {
            if amount_shape_exec(&a, true) {
                let ds = string_from_chars(&d);
                let t = match parse_date_to_timestamp(ds.as_str()) {
                    Some(t) => t,
                    None => ts,
                };
                Some(
                    ParsedExpense {
                        description: string_from_chars(&trim_chars(&desc)),
                        amount: string_from_chars(&a),
                        timestamp: t,
                    },
                )
            } else {
                None
            }
        },
        None => match plain_split_exec(l) {
            Some((desc, a)) => {
                if amount_shape_exec(&a, true) {
                    Some(
                        ParsedExpense {
                            description: string_from_chars(&trim_chars(&desc)),
                            amount: string_from_chars(&a),
                            timestamp: ts,
                        },
                    )
                } else {
                    None
                }
            },
            None => None,
        },
    }
}

/// The date of a line with a date, where that date exists in the calendar.
pub fn dated_date(l: &Vec<char>) -> (r: Option<String>)
    ensures
        crate::command::opt_view(r) == match dated_split(l@) {
            Some((d, _, _)) => if date_timestamp(d) is Some {
                Some(d)
            } else {
                None
            },
            None => None,
        },
{
    match dated_split_exec(l) {
        Some((d, _, _)) => {
            let ds = string_from_chars(&d);
            match parse_date_to_timestamp(ds.as_str()) {
                Some(_) => Some(ds),
                None => None,
            }
        },
        None => None,
    }
}

} // verus!
