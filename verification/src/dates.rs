//! Calendar dates and Unix timestamps (through chrono), and the chronological
//! listing of expenses.

use vstd::prelude::*;

use crate::expense_period::ExpensePeriod;
use crate::text::{extend_str, string_from_chars};

use chrono::Datelike;
use chrono::TimeZone;

verus! {

/// The smallest Unix timestamp chrono can turn into a UTC date-time
/// (`-262143-01-01T00:00:00Z`).
pub const MIN_TIMESTAMP: i64 = -8_334_601_315_200;

/// The largest Unix timestamp chrono can turn into a UTC date-time
/// (`+262142-12-31T23:59:59Z`).
pub const MAX_TIMESTAMP: i64 = 8_210_266_876_799;

/// What chrono writes for the UTC date of `ts` with `%Y-%m-%d`.
pub uninterp spec fn timestamp_date_text(ts: i64) -> Seq<char>;

/// Whether `year` is a leap year of the proleptic Gregorian calendar.
pub open spec fn leap_year(year: int) -> bool {
    year % 4 == 0 && (year % 100 != 0 || year % 400 == 0)
}

/// The number of days of a month (1 to 12) of a year.
pub open spec fn days_in_month(year: int, month: int) -> int {
    if month == 2 {
        if leap_year(year) {
            29
        } else {
            28
        }
    } else if month == 4 || month == 6 || month == 9 || month == 11 {
        30
    } else {
        31
    }
}

/// Whether chrono's `NaiveDate::from_ymd_opt(year, month, day)` gives a date:
/// the year within chrono's range (-262143 to 262142), the month 1 to 12, and
/// the day within the month.
pub open spec fn date_exists(year: i32, month: u32, day: u32) -> bool {
    &&& -262143 <= year <= 262142
    &&& 1 <= month <= 12
    &&& 1 <= day <= days_in_month(year as int, month as int)
}

/// `Utc.timestamp_opt(ts, 0).unwrap().format("%Y-%m-%d").to_string()`: the
/// UTC date of a timestamp. The contract names the text; it requires the
/// timestamp to be in chrono's range, outside which the `unwrap` panics.
#[verifier::external_body]
pub fn format_timestamp(ts: i64) -> (r: String)
    requires
        MIN_TIMESTAMP <= ts <= MAX_TIMESTAMP,
    ensures
        r@ == timestamp_date_text(ts),
{
    chrono::Utc.timestamp_opt(ts, 0).unwrap().format("%Y-%m-%d").to_string()
}

/// `NaiveDate::from_ymd_opt(year, month, day).is_some()`: the contract states
/// chrono's year range and the Gregorian calendar (`date_exists`).
#[verifier::external_body]
fn ymd_exists(year: i32, month: u32, day: u32) -> (b: bool)
    ensures
        b == date_exists(year, month, day),
{
    chrono::NaiveDate::from_ymd_opt(year, month, day).is_some()
}

/// chrono's UTC calendar date (year, month, day) of a Unix timestamp.
pub uninterp spec fn timestamp_ymd(ts: i64) -> (i32, u32, u32);

/// chrono's Unix timestamp of midnight UTC at the start of a date.
pub uninterp spec fn date_midnight(year: i32, month: u32, day: u32) -> i64;

/// `Utc.timestamp_opt(ts, 0).unwrap().date_naive()` as (year, month, day).
/// The contract names the date without restating chrono's calendar, and
/// states that it is a date chrono accepts; the timestamp must be in
/// chrono's range, outside which the `unwrap` panics.
#[verifier::external_body]
fn utc_date_of(ts: i64) -> (r: (i32, u32, u32))
    requires
        MIN_TIMESTAMP <= ts <= MAX_TIMESTAMP,
    ensures
        r == timestamp_ymd(ts),
        date_exists(r.0, r.1, r.2),
{
    let d = chrono::Utc.timestamp_opt(ts, 0).unwrap().date_naive();
    (d.year(), d.month(), d.day())
}

/// `NaiveDate::from_ymd_opt(year, month, day)` at `00:00:00` UTC, as a Unix
/// timestamp. The contract names the result; the date must exist, else the
/// first `unwrap` panics.
#[verifier::external_body]
fn midnight_timestamp(year: i32, month: u32, day: u32) -> (r: i64)
    requires
        date_exists(year, month, day),
    ensures
        r == date_midnight(year, month, day),
{
    chrono::NaiveDate::from_ymd_opt(year, month, day).unwrap().and_hms_opt(0, 0, 0).unwrap().and_utc().timestamp()
}

/// A calendar date (year, month 1–12, day of month), as chrono accepts it.
#[derive(Clone, Copy, Debug, PartialEq, Eq)]
pub struct CalendarDate {
    year: i32,
    month: u32,
    day: u32,
}

impl CalendarDate {
    #[verifier::type_invariant]
    spec fn exists_in_calendar(self) -> bool {
        date_exists(self.year, self.month, self.day)
    }

    /// The year.
    pub closed spec fn spec_year(self) -> i32 {
        self.year
    }

    /// The month.
    pub closed spec fn spec_month(self) -> u32 {
        self.month
    }

    /// The day of the month.
    pub closed spec fn spec_day(self) -> u32 {
        self.day
    }

    /// The date, if it exists (`NaiveDate::from_ymd_opt`).
    pub fn from_ymd_opt(year: i32, month: u32, day: u32) -> (r: Option<CalendarDate>)
        ensures
            r is Some <==> date_exists(year, month, day),
            r matches Some(d) ==> d.spec_year() == year && d.spec_month() == month && d.spec_day()
                == day,
    {
        if ymd_exists(year, month, day) {
            Some(CalendarDate { year, month, day })
        } else {
            None
        }
    }

    /// The UTC date of a timestamp in chrono's range.
    pub fn from_timestamp(ts: i64) -> (r: CalendarDate)
        requires
            MIN_TIMESTAMP <= ts <= MAX_TIMESTAMP,
        ensures
            (r.spec_year(), r.spec_month(), r.spec_day()) == timestamp_ymd(ts),
    {
        let (year, month, day) = utc_date_of(ts);
        CalendarDate { year, month, day }
    }

    /// The Unix timestamp of the start (midnight UTC) of the date.
    pub fn midnight_timestamp(&self) -> (r: i64)
        ensures
            r == date_midnight(self.spec_year(), self.spec_month(), self.spec_day()),
    {
        proof {
            use_type_invariant(self);
        }
        midnight_timestamp(self.year, self.month, self.day)
    }

    /// The year.
    pub fn year(&self) -> (r: i32)
        ensures
            r == self.spec_year(),
    {
        self.year
    }

    /// The month.
    pub fn month(&self) -> (r: u32)
        ensures
            r == self.spec_month(),
    {
        self.month
    }

    /// The day of the month.
    pub fn day(&self) -> (r: u32)
        ensures
            r == self.spec_day(),
    {
        self.day
    }
}

impl ExpensePeriod {
    /// The period (year and month) of a date.
    pub fn from_date(date: CalendarDate) -> (r: ExpensePeriod)
        ensures
            r.year == date.spec_year(),
            r.month == date.spec_month(),
    {
        ExpensePeriod { year: date.year(), month: date.month() }
    }

    /// Whether the date falls in this period.
    pub fn contains_date(&self, date: CalendarDate) -> (b: bool)
        ensures
            b == (date.spec_year() == self.year && date.spec_month() == self.month),
    {
        date.year() == self.year && date.month() == self.month
    }
}

// ---------------------------------------------------------------------------
// The chronological listing
// ---------------------------------------------------------------------------
/// An expense as listed: its timestamp, description and amount (as text).
pub struct ListedExpense {
    pub timestamp: i64,
    pub description: String,
    pub amount: String,
}

/// Expense `i` comes before expense `j`: earlier, or as early and given
/// first.
pub open spec fn listed_before(s: Seq<ListedExpense>, i: int, j: int) -> bool {
    s[i].timestamp < s[j].timestamp || (s[i].timestamp == s[j].timestamp && i < j)
}

/// `order` lists the indices of `s` by time, keeping the given order among
/// expenses of the same time (a stable sort).
pub open spec fn chronological_order(s: Seq<ListedExpense>, order: Seq<int>) -> bool {
    &&& order.len() == s.len()
    &&& forall|k: int| 0 <= k < order.len() ==> 0 <= #[trigger] order[k] < s.len()
    &&& forall|a: int, b: int|
        0 <= a < b < order.len() ==> listed_before(s, #[trigger] order[a], #[trigger] order[b])
}

/// A chronological order lists every expense (exactly once).
proof fn lemma_order_covers(s: Seq<ListedExpense>, order: Seq<int>)
    requires
        chronological_order(s, order),
    ensures
        order.no_duplicates(),
        forall|i: int| 0 <= i < s.len() ==> order.contains(i),
{
    assert forall|a: int, b: int| 0 <= a < order.len() && 0 <= b < order.len() && a != b implies order[a]
        != order[b] by {
        if a < b {
            assert(listed_before(s, order[a], order[b]));
        } else {
            assert(listed_before(s, order[b], order[a]));
        }
    }
    order.unique_seq_to_set();
    vstd::seq_lib::seq_to_set_is_finite(order);
    let range = vstd::set_lib::set_int_range(0, s.len() as int);
    vstd::set_lib::lemma_int_range(0, s.len() as int);
    assert(order.to_set().subset_of(range)) by {
        assert forall|x: int| order.to_set().contains(x) implies range.contains(x) by {
            let k = choose|k: int| 0 <= k < order.len() && order[k] == x;
        }
    }
    vstd::set_lib::lemma_subset_equality(order.to_set(), range);
    assert forall|i: int| 0 <= i < s.len() implies order.contains(i) by {
        assert(range.contains(i));
        assert(order.to_set().contains(i));
    }
}

/// Two chronological orders agree on their first `k` places.
proof fn lemma_orders_agree(s: Seq<ListedExpense>, o1: Seq<int>, o2: Seq<int>, k: int)
    requires
        chronological_order(s, o1),
        chronological_order(s, o2),
        0 <= k <= s.len(),
    ensures
        forall|j: int| 0 <= j < k ==> o1[j] == o2[j],
    decreases k,
{
    if k > 0 {
        lemma_orders_agree(s, o1, o2, k - 1);
        lemma_order_covers(s, o1);
        lemma_order_covers(s, o2);
        let p = k - 1;
        let a = o1[p];
        let b = o2[p];
        if a != b {
            assert(o2.contains(a));
            let m = choose|m: int| 0 <= m < o2.len() && o2[m] == a;
            if m < p {
                assert(o1[m] == a);
                assert(false);
            }
            assert(listed_before(s, o2[p], o2[m]));
            assert(o1.contains(b));
            let n = choose|n: int| 0 <= n < o1.len() && o1[n] == b;
            if n < p {
                assert(o2[n] == b);
                assert(false);
            }
            assert(listed_before(s, o1[p], o1[n]));
            assert(false);
        }
    }
}

/// The chronological order of expenses is unique: by time, and among
/// expenses of the same time in their given order. So the listing is
/// determined by the expenses.
pub proof fn law_chronological_order_unique(s: Seq<ListedExpense>, o1: Seq<int>, o2: Seq<int>)
    requires
        chronological_order(s, o1),
        chronological_order(s, o2),
    ensures
        o1 == o2,
{
    lemma_orders_agree(s, o1, o2, s.len() as int);
    assert(o1 =~= o2);
}

/// One line of the listing: `<date> <description> <amount>`.
pub open spec fn listed_line(e: ListedExpense) -> Seq<char> {
    timestamp_date_text(e.timestamp) + " "@ + e.description@ + " "@ + e.amount@ + "\n"@
}

/// The lines of the expenses in the given order.
pub open spec fn listing_text(s: Seq<ListedExpense>, order: Seq<int>) -> Seq<char>
    decreases order.len(),
{
    if order.len() == 0 {
        Seq::empty()
    } else {
        listing_text(s, order.drop_last()) + listed_line(s[order.last()])
    }
}

/// All timestamps are in chrono's range.
pub open spec fn timestamps_in_range(s: Seq<ListedExpense>) -> bool {
    forall|i: int| 0 <= i < s.len() ==> MIN_TIMESTAMP <= #[trigger] s[i].timestamp <= MAX_TIMESTAMP
}

/// The indices of the expenses in chronological order.
pub fn chronological_indices(expenses: &Vec<ListedExpense>) -> (r: Vec<usize>)
    ensures
        chronological_order(expenses@, r@.map_values(|i: usize| i as int)),
{
    let ghost s = expenses@;
    let mut order: Vec<usize> = Vec::new();
    let mut i: usize = 0;
    while i < expenses.len()
        invariant
            i <= expenses.len(),
            s == expenses@,
            order@.len() == i,
            forall|k: int| 0 <= k < order@.len() ==> #[trigger] order@[k] < i,
            forall|a: int, b: int|
                0 <= a < b < order@.len() ==> listed_before(
                    s,
                    #[trigger] order@[a] as int,
                    #[trigger] order@[b] as int,
                ),
        decreases expenses.len() - i,
    {
        let t = expenses[i].timestamp;
        // the first position whose expense is later than `t`
        let mut pos: usize = 0;
        while pos < order.len() && expenses[order[pos]].timestamp <= t
            invariant
                pos <= order@.len(),
                i < expenses.len(),
                t == s[i as int].timestamp,
                s == expenses@,
                forall|k: int| 0 <= k < order@.len() ==> #[trigger] order@[k] < i,
                forall|k: int| 0 <= k < pos ==> s[#[trigger] order@[k] as int].timestamp <= t,
            decreases order@.len() - pos,
        {
            pos = pos + 1;
        }
        let ghost before = order@;
        proof {
            if pos < order@.len() {
                assert(s[order@[pos as int] as int].timestamp > t);
            }
        }
        order.insert(pos, i);
        proof {
            assert forall|a: int, b: int|
                0 <= a < b < order@.len() implies listed_before(
                s,
                #[trigger] order@[a] as int,
                #[trigger] order@[b] as int,
            ) by {
                if b < pos {
                    assert(order@[a] == before[a] && order@[b] == before[b]);
                } else if b == pos {
                    assert(order@[a] == before[a]);
                    assert(before[a] < i);
                } else if a < pos {
                    assert(order@[a] == before[a] && order@[b] == before[b - 1]);
                    assert(s[before[a] as int].timestamp <= t);
                    assert(s[before[pos as int] as int].timestamp > t);
                    if b - 1 > pos {
                        assert(listed_before(s, before[pos as int] as int, before[b - 1] as int));
                    }
                } else if a == pos {
                    assert(order@[b] == before[b - 1]);
                    assert(s[before[pos as int] as int].timestamp > t);
                    if b - 1 > pos {
                        assert(listed_before(s, before[pos as int] as int, before[b - 1] as int));
                    }
                } else {
                    assert(order@[a] == before[a - 1] && order@[b] == before[b - 1]);
                }
            }
            assert forall|k: int| 0 <= k < order@.len() implies #[trigger] order@[k] < i + 1 by {
                if k < pos {
                    assert(order@[k] == before[k]);
                } else if k > pos {
                    assert(order@[k] == before[k - 1]);
                }
            }
        }
        i = i + 1;
    }
    proof {
        let o = order@.map_values(|i: usize| i as int);
        assert forall|a: int, b: int|
            0 <= a < b < o.len() implies listed_before(s, #[trigger] o[a], #[trigger] o[b]) by {
            assert(listed_before(s, order@[a] as int, order@[b] as int));
        }
        assert forall|k: int| 0 <= k < o.len() implies 0 <= #[trigger] o[k] < s.len() by {
            assert(order@[k] < i);
        }
    }
    order
}

/// The expenses as `<date> <description> <amount>` lines in chronological
/// order (expenses of the same time in their given order), or `No expenses
/// recorded yet.` when there are none.
pub fn format_expenses_chronological(expenses: &Vec<ListedExpense>) -> (r: String)
    requires
        timestamps_in_range(expenses@),
    ensures
        expenses@.len() == 0 ==> r@ == "No expenses recorded yet."@,
        expenses@.len() > 0 ==> exists|order: Seq<int>|
            chronological_order(expenses@, order) && r@ == listing_text(expenses@, order),
{
    if expenses.len() == 0 {
        return "No expenses recorded yet.".to_string();
    }
    let order = chronological_indices(expenses);
    let ghost o = order@.map_values(|i: usize| i as int);
    let mut out: Vec<char> = Vec::new();
    let mut k: usize = 0;
    while k < order.len()
        invariant
            k <= order@.len(),
            o == order@.map_values(|i: usize| i as int),
            chronological_order(expenses@, o),
            timestamps_in_range(expenses@),
            out@ == listing_text(expenses@, o.subrange(0, k as int)),
        decreases order@.len() - k,
    {
        let j = order[k];
        assert(o[k as int] == j);
        let e = &expenses[j];
        let d = format_timestamp(e.timestamp);
        extend_str(&mut out, d.as_str());
        extend_str(&mut out, " ");
        extend_str(&mut out, e.description.as_str());
        extend_str(&mut out, " ");
        extend_str(&mut out, e.amount.as_str());
        extend_str(&mut out, "\n");
        assert(o.subrange(0, k + 1).drop_last() =~= o.subrange(0, k as int));
        assert(out@ =~= listing_text(expenses@, o.subrange(0, k + 1)));
        k = k + 1;
    }
    assert(o.subrange(0, o.len() as int) =~= o);
    string_from_chars(&out)
}

} // verus!
