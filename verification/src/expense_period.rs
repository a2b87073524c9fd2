//! Expense periods: a year and a month, written `YYYY-MM`.

use vstd::prelude::*;

use crate::numbers::{
    all_digits, format_padded, is_digit, lemma_decimal_digits_all_digits, lemma_parse_padded,
    lemma_zeros_prefix, parse_i32, parse_integer, parse_u32, push_padded,
};
use crate::text::{chars_of, concat3, extend_range, extend_str, string_from_chars};

verus! {

/// A period (year and month) for expense tracking.
#[derive(Debug, Clone, Copy, PartialEq, Eq, Hash, PartialOrd, Ord)]
pub struct ExpensePeriod {
    pub year: i32,
    pub month: u32,
}

/// Whether `s` holds exactly one `-`, at position `k`.
pub open spec fn single_dash_at(s: Seq<char>, k: int) -> bool {
    &&& 0 <= k < s.len()
    &&& s[k] == '-'
    &&& forall|j: int| 0 <= j < s.len() && j != k ==> s[j] != '-'
}

/// The position of the only `-` of `s`, if it has exactly one.
pub open spec fn single_dash(s: Seq<char>) -> Option<int> {
    if exists|k: int| single_dash_at(s, k) {
        Some(choose|k: int| single_dash_at(s, k))
    } else {
        None
    }
}

/// The message for a month outside `1..=12`.
pub open spec fn invalid_month_number_message(month: u32) -> Seq<char> {
    "Invalid month: "@ + format_padded(month as int, 0) + ". Must be between 1 and 12"@
}

/// What `ExpensePeriod::from_string` makes of `s`: `(year, month)` or the message.
pub open spec fn period_parse(s: Seq<char>) -> Result<(i32, u32), Seq<char>> {
    match single_dash(s) {
        None => Err("Invalid period format: '"@ + s + "'. Expected format: YYYY-MM"@),
        Some(k) => {
            let y = s.subrange(0, k);
            let m = s.subrange(k + 1, s.len() as int);
            match parse_integer(y, true, i32::MIN as int, i32::MAX as int) {
                None => Err("Invalid year: '"@ + y + "'"@),
                Some(year) => match parse_integer(m, false, 0, u32::MAX as int) {
                    None => Err("Invalid month: '"@ + m + "'"@),
                    Some(month) => if 1 <= month <= 12 {
                        Ok((year as i32, month as u32))
                    } else {
                        Err(invalid_month_number_message(month as u32))
                    },
                },
            }
        },
    }
}

/// `format!("{:04}-{:02}", year, month)`.
pub open spec fn period_text(year: i32, month: u32) -> Seq<char> {
    format_padded(year as int, 4) + seq!['-'] + format_padded(month as int, 2)
}

fn find_single_dash(v: &Vec<char>) -> (r: Option<usize>)
    ensures
        match r {
            Some(k) => single_dash(v@) == Some(k as int),
            None => single_dash(v@) is None,
        },
{
    let mut first: Option<usize> = None;
    let mut i: usize = 0;
    while i < v.len()
        invariant
            i <= v.len(),
            match first {
                None => forall|j: int| 0 <= j < i ==> v@[j] != '-',
                Some(k) => k < i && v@[k as int] == '-' && forall|j: int|
                    0 <= j < i && j != k ==> v@[j] != '-',
            },
        decreases v.len() - i,
    {
        if v[i] == '-' {
            match first {
                None => {
                    first = Some(i);
                },
                Some(k) => {
                    assert(!single_dash_at(v@, k as int));
                    assert forall|k2: int| !single_dash_at(v@, k2) by {
                        if single_dash_at(v@, k2) {
                            if k2 != k as int {
                                assert(v@[k as int] == '-');
                            } else {
                                assert(v@[i as int] == '-');
                            }
                        }
                    }
                    return None;
                },
            }
        }
        i = i + 1;
    }
    match first {
        None => {
            assert forall|k2: int| !single_dash_at(v@, k2) by {}
            None
        },
        Some(k) => {
            assert(single_dash_at(v@, k as int));
            let ghost c = choose|k2: int| single_dash_at(v@, k2);
            assert(c == k as int) by {
                if c != k as int {
                    assert(v@[k as int] == '-');
                }
            }
            Some(k)
        },
    }
}

impl ExpensePeriod {
    /// A period with the given year and month; the month must be in `1..=12`.
    pub fn new(year: i32, month: u32) -> (r: Result<ExpensePeriod, String>)
        ensures
            1 <= month <= 12 ==> r == Ok::<ExpensePeriod, String>(
                ExpensePeriod { year, month },
            ),
            !(1 <= month <= 12) ==> (r matches Err(e) && e@ == invalid_month_number_message(
                month,
            )),
    {
        if !(1 <= month && month <= 12) {
            let mut out: Vec<char> = Vec::new();
            extend_str(&mut out, "Invalid month: ");
            push_padded(&mut out, month as i64, 0);
            extend_str(&mut out, ". Must be between 1 and 12");
            assert(out@ =~= invalid_month_number_message(month));
            return Err(string_from_chars(&out));
        }
        Ok(ExpensePeriod { year, month })
    }

    /// Parses a period written `YYYY-MM` (year and month as `str::parse` reads
    /// them, around exactly one `-`).
    pub fn from_string(s: &str) -> (r: Result<ExpensePeriod, String>)
        ensures
            match period_parse(s@) {
                Ok((y, m)) => r == Ok::<ExpensePeriod, String>(ExpensePeriod { year: y, month: m }),
                Err(msg) => r matches Err(e) && e@ == msg,
            },
    {
        let v = chars_of(s);
        let k = match find_single_dash(&v) {
            None => {
                return Err(concat3("Invalid period format: '", &v, "'. Expected format: YYYY-MM"));
            },
            Some(k) => k,
        };
        let mut yv: Vec<char> = Vec::new();
        extend_range(&mut yv, &v, 0, k);
        let mut mv: Vec<char> = Vec::new();
        extend_range(&mut mv, &v, k + 1, v.len());
        let ys = string_from_chars(&yv);
        let ms = string_from_chars(&mv);
        let year = match parse_i32(ys.as_str()) {
            None => {
                return Err(concat3("Invalid year: '", &yv, "'"));
            },
            Some(y) => y,
        };
        let month = match parse_u32(ms.as_str()) {
            None => {
                return Err(concat3("Invalid month: '", &mv, "'"));
            },
            Some(m) => m,
        };
        ExpensePeriod::new(year, month)
    }

    /// The next month.
    pub fn next_month(&self) -> (r: ExpensePeriod)
        requires
            self.month == 12 ==> self.year < i32::MAX,
            self.month < u32::MAX,
        ensures
            r == period_next(*self),
    {
        if self.month == 12 {
            ExpensePeriod { year: self.year + 1, month: 1 }
        } else {
            ExpensePeriod { year: self.year, month: self.month + 1 }
        }
    }

    /// The previous month.
    pub fn prev_month(&self) -> (r: ExpensePeriod)
        requires
            self.month == 1 ==> self.year > i32::MIN,
            self.month >= 1,
        ensures
            r == period_prev(*self),
    {
        if self.month == 1 {
            ExpensePeriod { year: self.year - 1, month: 12 }
        } else {
            ExpensePeriod { year: self.year, month: self.month - 1 }
        }
    }

    /// `YYYY-MM` (its display text).
    pub fn to_string(&self) -> (r: String)
        ensures
            r@ == period_text(self.year, self.month),
    {
        let mut out: Vec<char> = Vec::new();
        push_padded(&mut out, self.year as i64, 4);
        out.push('-');
        push_padded(&mut out, self.month as i64, 2);
        assert(out@ =~= period_text(self.year, self.month));
        string_from_chars(&out)
    }
}

/// The month after `p`: January of the next year after December.
pub open spec fn period_next(p: ExpensePeriod) -> ExpensePeriod {
    if p.month == 12 {
        ExpensePeriod { year: (p.year + 1) as i32, month: 1 }
    } else {
        ExpensePeriod { year: p.year, month: (p.month + 1) as u32 }
    }
}

/// The month before `p`: December of the previous year before January.
pub open spec fn period_prev(p: ExpensePeriod) -> ExpensePeriod {
    if p.month == 1 {
        ExpensePeriod { year: (p.year - 1) as i32, month: 12 }
    } else {
        ExpensePeriod { year: p.year, month: (p.month - 1) as u32 }
    }
}

/// Stepping a valid period forward and back, or back and forward, gives it back.
pub proof fn law_period_next_prev_inverse(p: ExpensePeriod)
    requires
        1 <= p.month <= 12,
        i32::MIN < p.year < i32::MAX,
    ensures
        period_prev(period_next(p)) == p,
        period_next(period_prev(p)) == p,
{
}

/// The next month comes strictly later in (year, month) order.
pub proof fn law_period_next_is_later(p: ExpensePeriod)
    requires
        1 <= p.month <= 12,
        p.year < i32::MAX,
    ensures
        p.year < period_next(p).year || (p.year == period_next(p).year && p.month < period_next(
            p,
        ).month),
{
}

/// Printing a period with a non-negative year and reading it back gives the
/// same period.
pub proof fn law_period_text_roundtrip(year: i32, month: u32)
    requires
        0 <= year,
        1 <= month <= 12,
    ensures
        period_parse(period_text(year, month)) == Ok::<(i32, u32), Seq<char>>((year, month)),
{
    let ys = format_padded(year as int, 4);
    let ms = format_padded(month as int, 2);
    let s = period_text(year, month);
    lemma_padded_digits(year as nat, 4);
    lemma_padded_digits(month as nat, 2);
    let k = ys.len() as int;
    assert(s[k] == '-');
    assert forall|j: int| 0 <= j < s.len() && j != k implies s[j] != '-' by {
        if j < k {
            assert(s[j] == ys[j]);
            assert(is_digit(ys[j]));
        } else {
            assert(s[j] == ms[j - k - 1]);
            assert(is_digit(ms[j - k - 1]));
        }
    }
    assert(single_dash_at(s, k));
    let c = choose|k2: int| single_dash_at(s, k2);
    assert(c == k) by {
        if c != k {
            assert(s[k] == '-');
        }
    }
    assert(s.subrange(0, k) =~= ys);
    assert(s.subrange(k + 1, s.len() as int) =~= ms);
    lemma_parse_padded(year as nat, 4, true, i32::MIN as int, i32::MAX as int);
    lemma_parse_padded(month as nat, 2, false, 0, u32::MAX as int);
}

proof fn lemma_padded_digits(n: nat, w: nat)
    ensures
        all_digits(format_padded(n as int, w)),
{
    lemma_decimal_digits_all_digits(n);
    let d = crate::numbers::decimal_digits(n);
    if d.len() < w {
        lemma_zeros_prefix((w - d.len()) as nat, d);
    }
}

} // verus!
