//! The expenses of a chat, stored by period: each period (`YYYY-MM`) keys
//! the list of its expenses.

use vstd::prelude::*;

use crate::datastore::{DataStore, InMemStore};
use crate::dates::{date_midnight, timestamp_ymd, CalendarDate, MAX_TIMESTAMP, MIN_TIMESTAMP};
use crate::expense_period::{period_parse, period_text, ExpensePeriod};
use crate::words::string_views;

verus! {

/// An exact decimal amount; the library carries it without reading it.
#[verifier::external_type_specification]
#[verifier::external_body]
pub struct ExDecimal(rust_decimal::Decimal);

/// A recorded expense: its date, description and amount.
pub struct Expense {
    pub date: CalendarDate,
    pub description: String,
    pub amount: rust_decimal::Decimal,
}

impl Clone for Expense {
    fn clone(&self) -> (r: Expense)
        ensures
            r == *self,
    {
        Expense { date: self.date, description: self.description.clone(), amount: self.amount }
    }
}

impl Expense {
    /// An expense from its parts.
    pub fn new(date: CalendarDate, description: String, amount: rust_decimal::Decimal) -> (r: Expense)
        ensures
            r.date == date,
            r.description@ == description@,
            r.amount == amount,
    {
        Expense { date, description, amount }
    }

    /// An expense dated by the UTC date of a timestamp.
    pub fn from_timestamp(timestamp: i64, description: String, amount: rust_decimal::Decimal) -> (r:
        Expense)
        requires
            MIN_TIMESTAMP <= timestamp <= MAX_TIMESTAMP,
        ensures
            (r.date.spec_year(), r.date.spec_month(), r.date.spec_day()) == timestamp_ymd(timestamp),
            r.description@ == description@,
            r.amount == amount,
    {
        Expense { date: CalendarDate::from_timestamp(timestamp), description, amount }
    }

    /// The timestamp of the start (midnight UTC) of the expense's date.
    pub fn timestamp(&self) -> (r: i64)
        ensures
            r == date_midnight(self.date.spec_year(), self.date.spec_month(), self.date.spec_day()),
    {
        self.date.midnight_timestamp()
    }
}

/// The key of a period in the store: its text.
pub open spec fn period_key(p: ExpensePeriod) -> Seq<char> {
    period_text(p.year, p.month)
}

/// The expenses stored for a period (none when the period has no entry).
pub open spec fn stored_expenses(m: Map<Seq<char>, Seq<Expense>>, p: ExpensePeriod) -> Seq<Expense> {
    if m.dom().contains(period_key(p)) {
        m[period_key(p)]
    } else {
        Seq::empty()
    }
}

/// `a` comes no later than `b`: by year, then month.
pub open spec fn period_le(a: ExpensePeriod, b: ExpensePeriod) -> bool {
    a.year < b.year || (a.year == b.year && a.month <= b.month)
}

/// `a` comes strictly before `b`.
pub open spec fn period_lt(a: ExpensePeriod, b: ExpensePeriod) -> bool {
    a.year < b.year || (a.year == b.year && a.month < b.month)
}

/// The periods in non-decreasing order.
pub open spec fn periods_sorted(ps: Seq<ExpensePeriod>) -> bool {
    forall|i: int, j: int| 0 <= i < j < ps.len() ==> period_le(#[trigger] ps[i], #[trigger] ps[j])
}

/// The periods that the keys read as, in the order of the keys; keys that
/// are not periods are left out.
pub open spec fn parsed_periods(keys: Seq<Seq<char>>) -> Seq<ExpensePeriod>
    decreases keys.len(),
{
    if keys.len() == 0 {
        Seq::empty()
    } else {
        let init = parsed_periods(keys.drop_last());
        match period_parse(keys.last()) {
            Ok((y, m)) => init.push(ExpensePeriod { year: y, month: m }),
            Err(_) => init,
        }
    }
}

/// `ps` lists, in order, the periods that the keys of `dom` read as (a key
/// is read once; keys that are not periods are left out).
pub open spec fn listed_periods(dom: Set<Seq<char>>, ps: Seq<ExpensePeriod>) -> bool {
    &&& periods_sorted(ps)
    &&& exists|keys: Seq<Seq<char>>|
        keys.no_duplicates() && keys.to_set() == dom && #[trigger] parsed_periods(keys).to_multiset()
            == ps.to_multiset()
}

/// The expenses of the periods, in the order of the periods, each with its
/// period.
pub open spec fn expenses_of_periods(
    m: Map<Seq<char>, Seq<Expense>>,
    ps: Seq<ExpensePeriod>,
) -> Seq<(ExpensePeriod, Expense)>
    decreases ps.len(),
{
    if ps.len() == 0 {
        Seq::empty()
    } else {
        expenses_of_periods(m, ps.drop_last()) + stored_expenses(m, ps.last()).map_values(
            |e: Expense| (ps.last(), e),
        )
    }
}

/// The expenses of a chat by period.
pub struct ExpenseStorage {
    store: InMemStore<Vec<Expense>>,
}

impl View for ExpenseStorage {
    type V = Map<Seq<char>, Seq<Expense>>;

    closed spec fn view(&self) -> Map<Seq<char>, Seq<Expense>> {
        self.store.contents().map_values(|v: Vec<Expense>| v@)
    }
}

/// A clone of a list of expenses is the same list.
proof fn lemma_clone_expenses(a: Vec<Expense>, b: Vec<Expense>)
    requires
        cloned(a, b),
    ensures
        b@ == a@,
{
    if a != b {
        assert(b.len() == a.len());
        assert forall|i: int| 0 <= i < a.len() implies b@[i] == a@[i] by {
            assert(cloned(a[i], b[i]));
        }
        assert(b@ =~= a@);
    }
}

impl ExpenseStorage {
    /// No expenses.
    pub fn new() -> (r: ExpenseStorage)
        ensures
            r@ == Map::<Seq<char>, Seq<Expense>>::empty(),
    {
        let r = ExpenseStorage { store: InMemStore::new() };
        assert(r@ =~= Map::<Seq<char>, Seq<Expense>>::empty());
        r
    }

    /// The expenses of a period.
    pub fn get_expenses(&self, period: ExpensePeriod) -> (r: Vec<Expense>)
        ensures
            r@ == stored_expenses(self@, period),
    {
        let key = period.to_string();
        match self.store.get(key.as_str()) {
            Some(v) => {
                proof {
                    lemma_clone_expenses(self.store.contents()[key@], v);
                }
                v
            },
            None => Vec::new(),
        }
    }

    /// Appends expenses to those of a period.
    pub fn add_expenses(&mut self, period: ExpensePeriod, expenses: Vec<Expense>)
        ensures
            final(self)@ == old(self)@.insert(
                period_key(period),
                stored_expenses(old(self)@, period) + expenses@,
            ),
    {
        let mut list = self.get_expenses(period);
        let mut more = expenses;
        let ghost before = list@;
        list.append(&mut more);
        let key = period.to_string();
        self.store.set(key.as_str(), list);
        assert(self@ =~= old(self)@.insert(period_key(period), before + expenses@));
    }

    /// Forgets the expenses of a period.
    pub fn clear_expenses(&mut self, period: ExpensePeriod)
        ensures
            final(self)@ == old(self)@.remove(period_key(period)),
    {
        let key = period.to_string();
        let _ = self.store.remove(key.as_str());
        assert(self@ =~= old(self)@.remove(period_key(period)));
    }
}

/// Inserts a period after the periods that do not come later than it.
fn insert_sorted(v: &mut Vec<ExpensePeriod>, p: ExpensePeriod)
    requires
        periods_sorted(old(v)@),
    ensures
        periods_sorted(final(v)@),
        final(v)@.to_multiset() == old(v)@.to_multiset().insert(p),
{
    let mut pos: usize = 0;
    while pos < v.len() && !(p.year < v[pos].year || (p.year == v[pos].year && p.month < v[pos].month))
        invariant
            pos <= v.len(),
            v@ == old(v)@,
            periods_sorted(v@),
            forall|k: int| 0 <= k < pos ==> period_le(#[trigger] v@[k], p),
        decreases v.len() - pos,
    {
        pos = pos + 1;
    }
    let ghost before = v@;
    v.insert(pos, p);
    proof {
        vstd::seq_lib::to_multiset_insert(before, pos as int, p);
        assert(v@ == before.insert(pos as int, p));
        assert forall|i: int, j: int| 0 <= i < j < v@.len() implies period_le(
            #[trigger] v@[i],
            #[trigger] v@[j],
        ) by {
            if j < pos {
                assert(v@[i] == before[i] && v@[j] == before[j]);
            } else if j == pos {
                assert(v@[i] == before[i]);
            } else if i < pos {
                assert(v@[i] == before[i] && v@[j] == before[j - 1]);
                assert(period_lt(p, before[pos as int]));
                if j - 1 > pos {
                    assert(period_le(before[pos as int], before[j - 1]));
                }
            } else if i == pos {
                assert(v@[j] == before[j - 1]);
                assert(period_lt(p, before[pos as int]));
                if j - 1 > pos {
                    assert(period_le(before[pos as int], before[j - 1]));
                }
            } else {
                assert(v@[i] == before[i - 1] && v@[j] == before[j - 1]);
            }
        }
    }
}

impl ExpenseStorage {
    /// The periods that hold expenses, in order (keys that are not periods
    /// are left out).
    pub fn list_periods(&self) -> (r: Vec<ExpensePeriod>)
        ensures
            listed_periods(self@.dom(), r@),
    {
        let keys = self.store.keys();
        let ghost ks = string_views(keys@);
        let mut r: Vec<ExpensePeriod> = Vec::new();
        let mut i: usize = 0;
        while i < keys.len()
            invariant
                i <= keys.len(),
                ks == string_views(keys@),
                periods_sorted(r@),
                r@.to_multiset() == parsed_periods(ks.subrange(0, i as int)).to_multiset(),
            decreases keys.len() - i,
        {
            let ghost pre = ks.subrange(0, i as int);
            let ghost post = ks.subrange(0, i + 1);
            assert(post.drop_last() =~= pre);
            assert(post.last() == keys@[i as int]@);
            match ExpensePeriod::from_string(keys[i].as_str()) {
                Ok(p) => {
                    insert_sorted(&mut r, p);
                    proof {
                        vstd::seq_lib::to_multiset_build(parsed_periods(pre), p);
                    }
                },
                Err(_) => {},
            }
            i = i + 1;
        }
        proof {
            assert(ks.subrange(0, ks.len() as int) =~= ks);
            assert(ks.to_set() =~= self@.dom()) by {
                assert forall|k: Seq<char>| ks.to_set().contains(k) <==> self@.dom().contains(k) by {
                    assert(ks.to_set().contains(k) <==> ks.contains(k));
                }
            }
            assert(listed_periods(self@.dom(), r@)) by {
                assert(parsed_periods(ks).to_multiset() == r@.to_multiset());
            }
        }
        r
    }

    /// All expenses with their periods, period by period in order.
    pub fn get_all_expenses(&self) -> (r: Vec<(ExpensePeriod, Expense)>)
        ensures
            exists|ps: Seq<ExpensePeriod>|
                listed_periods(self@.dom(), ps) && r@ == expenses_of_periods(self@, ps),
    {
        let periods = self.list_periods();
        let mut r: Vec<(ExpensePeriod, Expense)> = Vec::new();
        let mut i: usize = 0;
        while i < periods.len()
            invariant
                i <= periods.len(),
                r@ == expenses_of_periods(self@, periods@.subrange(0, i as int)),
            decreases periods.len() - i,
        {
            let p = periods[i];
            let es = self.get_expenses(p);
            let ghost base = r@;
            let mut j: usize = 0;
            while j < es.len()
                invariant
                    j <= es.len(),
                    r@ == base + es@.subrange(0, j as int).map_values(|e: Expense| (p, e)),
                decreases es.len() - j,
            {
                r.push((p, es[j].clone()));
                assert(es@.subrange(0, j + 1).map_values(|e: Expense| (p, e)) =~= es@.subrange(
                    0,
                    j as int,
                ).map_values(|e: Expense| (p, e)).push((p, es@[j as int])));
                assert(r@ =~= base + es@.subrange(0, j + 1).map_values(|e: Expense| (p, e)));
                j = j + 1;
            }
            assert(es@.subrange(0, es@.len() as int) =~= es@);
            assert(periods@.subrange(0, i + 1).drop_last() =~= periods@.subrange(0, i as int));
            i = i + 1;
        }
        assert(periods@.subrange(0, periods@.len() as int) =~= periods@);
        r
    }
}

/// Reading keys one after another: the periods of `a + b` are those of `a`,
/// then those of `b`.
proof fn lemma_parsed_concat(a: Seq<Seq<char>>, b: Seq<Seq<char>>)
    ensures
        parsed_periods(a + b) == parsed_periods(a) + parsed_periods(b),
    decreases b.len(),
{
    if b.len() == 0 {
        assert(a + b =~= a);
        assert(parsed_periods(a) + parsed_periods(b) =~= parsed_periods(a));
    } else {
        assert((a + b).drop_last() =~= a + b.drop_last());
        assert((a + b).last() == b.last());
        lemma_parsed_concat(a, b.drop_last());
        match period_parse(b.last()) {
            Ok((y, m)) => {
                assert(parsed_periods(a) + parsed_periods(b) =~= (parsed_periods(a)
                    + parsed_periods(b.drop_last())).push(ExpensePeriod { year: y, month: m }));
            },
            Err(_) => {},
        }
    }
}

/// The periods read from the keys of a set do not depend on the order in
/// which the keys are read.
proof fn lemma_parsed_any_order(k1: Seq<Seq<char>>, k2: Seq<Seq<char>>)
    requires
        k1.no_duplicates(),
        k2.no_duplicates(),
        k1.to_set() == k2.to_set(),
    ensures
        parsed_periods(k1).to_multiset() == parsed_periods(k2).to_multiset(),
    decreases k1.len(),
{
    broadcast use vstd::multiset::group_multiset_axioms;
    if k1.len() == 0 {
        if k2.len() > 0 {
            assert(k2.to_set().contains(k2[0]));
            assert(k1.to_set().contains(k2[0]));
        }
        assert(k2 =~= Seq::<Seq<char>>::empty());
    } else {
        let x = k1.last();
        let r1 = k1.drop_last();
        assert(k1.to_set().contains(x)) by {
            assert(k1.contains(x));
        }
        assert(k2.contains(x));
        let j = choose|j: int| 0 <= j < k2.len() && k2[j] == x;
        let a = k2.subrange(0, j);
        let b = k2.subrange(j + 1, k2.len() as int);
        let r2 = a + b;
        assert(k2 =~= a + seq![x] + b);
        assert(r1.no_duplicates()) by {
            assert forall|p: int, q: int| 0 <= p < r1.len() && 0 <= q < r1.len() && p != q implies r1[p]
                != r1[q] by {
                assert(r1[p] == k1[p] && r1[q] == k1[q]);
            }
        }
        assert(r2.no_duplicates()) by {
            assert forall|p: int, q: int| 0 <= p < r2.len() && 0 <= q < r2.len() && p != q implies r2[p]
                != r2[q] by {
                let p2 = if p < j { p } else { p + 1 };
                let q2 = if q < j { q } else { q + 1 };
                assert(r2[p] == k2[p2] && r2[q] == k2[q2]);
            }
        }
        assert(r1.to_set() =~= r2.to_set()) by {
            assert forall|y: Seq<char>| r1.to_set().contains(y) <==> r2.to_set().contains(y) by {
                if r1.contains(y) {
                    let p = choose|p: int| 0 <= p < r1.len() && r1[p] == y;
                    assert(k1[p] == y);
                    assert(y != x) by {
                        assert(k1[k1.len() - 1] == x);
                    }
                    assert(k1.to_set().contains(y));
                    assert(k2.contains(y));
                    let q = choose|q: int| 0 <= q < k2.len() && k2[q] == y;
                    assert(q != j);
                    if q < j {
                        assert(r2[q] == y);
                    } else {
                        assert(r2[q - 1] == y);
                    }
                }
                if r2.contains(y) {
                    let q = choose|q: int| 0 <= q < r2.len() && r2[q] == y;
                    let q2 = if q < j { q } else { q + 1 };
                    assert(k2[q2] == y);
                    assert(y != x);
                    assert(k2.to_set().contains(y));
                    assert(k1.contains(y));
                    let p = choose|p: int| 0 <= p < k1.len() && k1[p] == y;
                    assert(p != k1.len() - 1);
                    assert(r1[p] == y);
                }
            }
        }
        lemma_parsed_any_order(r1, r2);
        assert(k1 =~= r1 + seq![x]);
        lemma_parsed_concat(r1, seq![x]);
        lemma_parsed_concat(a + seq![x], b);
        lemma_parsed_concat(a, seq![x]);
        lemma_parsed_concat(a, b);
        let px = parsed_periods(seq![x]);
        vstd::seq_lib::lemma_multiset_commutative(parsed_periods(r1), px);
        vstd::seq_lib::lemma_multiset_commutative(parsed_periods(a) + px, parsed_periods(b));
        vstd::seq_lib::lemma_multiset_commutative(parsed_periods(a), px);
        vstd::seq_lib::lemma_multiset_commutative(parsed_periods(a), parsed_periods(b));
        assert(parsed_periods(k1).to_multiset() =~= parsed_periods(k2).to_multiset());
    }
}

/// Two sorted lists of the same periods are the same list.
proof fn lemma_sorted_same_periods(p1: Seq<ExpensePeriod>, p2: Seq<ExpensePeriod>)
    requires
        periods_sorted(p1),
        periods_sorted(p2),
        p1.to_multiset() == p2.to_multiset(),
    ensures
        p1 == p2,
    decreases p1.len(),
{
    broadcast use vstd::multiset::group_multiset_axioms;
    vstd::seq_lib::to_multiset_len(p1);
    vstd::seq_lib::to_multiset_len(p2);
    if p1.len() == 0 {
        assert(p1 =~= p2);
    } else {
        let x = p1.last();
        let y = p2.last();
        vstd::seq_lib::to_multiset_contains(p1, x);
        vstd::seq_lib::to_multiset_contains(p2, x);
        vstd::seq_lib::to_multiset_contains(p1, y);
        vstd::seq_lib::to_multiset_contains(p2, y);
        assert(p1.contains(x));
        assert(p2.contains(x));
        assert(p1.contains(y));
        let i = choose|i: int| 0 <= i < p2.len() && p2[i] == x;
        let k = choose|k: int| 0 <= k < p1.len() && p1[k] == y;
        if i < p2.len() - 1 {
            assert(period_le(p2[i], p2[p2.len() - 1]));
        }
        if k < p1.len() - 1 {
            assert(period_le(p1[k], p1[p1.len() - 1]));
        }
        assert(x == y);
        let d1 = p1.drop_last();
        let d2 = p2.drop_last();
        assert(p1 =~= d1.push(x));
        assert(p2 =~= d2.push(x));
        vstd::seq_lib::to_multiset_build(d1, x);
        vstd::seq_lib::to_multiset_build(d2, x);
        assert(d1.to_multiset() =~= d1.to_multiset().insert(x).remove(x));
        assert(d2.to_multiset() =~= d2.to_multiset().insert(x).remove(x));
        assert(periods_sorted(d1)) by {
            assert forall|a: int, b: int| 0 <= a < b < d1.len() implies period_le(
                #[trigger] d1[a],
                #[trigger] d1[b],
            ) by {
                assert(d1[a] == p1[a] && d1[b] == p1[b]);
            }
        }
        assert(periods_sorted(d2)) by {
            assert forall|a: int, b: int| 0 <= a < b < d2.len() implies period_le(
                #[trigger] d2[a],
                #[trigger] d2[b],
            ) by {
                assert(d2[a] == p2[a] && d2[b] == p2[b]);
            }
        }
        lemma_sorted_same_periods(d1, d2);
    }
}

/// The periods of a store are listed in one way only: sorted, with each key
/// read once. So `list_periods` and `get_all_expenses` give a determined
/// result.
pub proof fn law_listed_periods_unique(
    dom: Set<Seq<char>>,
    p1: Seq<ExpensePeriod>,
    p2: Seq<ExpensePeriod>,
)
    requires
        listed_periods(dom, p1),
        listed_periods(dom, p2),
    ensures
        p1 == p2,
{
    let k1 = choose|keys: Seq<Seq<char>>|
        keys.no_duplicates() && keys.to_set() == dom && #[trigger] parsed_periods(keys).to_multiset()
            == p1.to_multiset();
    let k2 = choose|keys: Seq<Seq<char>>|
        keys.no_duplicates() && keys.to_set() == dom && #[trigger] parsed_periods(keys).to_multiset()
            == p2.to_multiset();
    lemma_parsed_any_order(k1, k2);
    lemma_sorted_same_periods(p1, p2);
}

} // verus!
