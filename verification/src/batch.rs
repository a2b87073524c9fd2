//! Batching: several lines or a forwarded message are collected and run
//! together after a pause.

use vstd::prelude::*;

use crate::command::{parse_error_text, Command, CommandParseError, CommandView};
use crate::dates::{format_timestamp, timestamp_date_text, MAX_TIMESTAMP, MIN_TIMESTAMP};
use crate::expense_line::ParsedExpense;
use crate::lines::{lines_chars, lines_of, trim, trim_chars};
use crate::text::chars_of;

verus! {

/// One parsed line waiting in a batch: a command, or the text of an error.
pub type BatchItem = Result<Command, String>;

/// The commands and errors collected for a chat.
pub type BatchData = Vec<BatchItem>;

/// The number of lines that are not blank.
pub open spec fn nonblank_count(ls: Seq<Seq<char>>) -> nat
    decreases ls.len(),
{
    if ls.len() == 0 {
        0
    } else {
        nonblank_count(ls.drop_last()) + if trim(ls.last()).len() > 0 {
            1nat
        } else {
            0nat
        }
    }
}

/// Whether a message is batched: it has more than one non-blank line, or it
/// was forwarded.
pub open spec fn batched(text: Seq<char>, forwarded: bool) -> bool {
    nonblank_count(lines_of(text)) > 1 || forwarded
}

/// Some line of `ls` is not blank.
proof fn lemma_one_nonblank(ls: Seq<Seq<char>>)
    ensures
        nonblank_count(ls) >= 1 <==> exists|i: int| 0 <= i < ls.len() && #[trigger] trim(ls[i]).len() > 0,
    decreases ls.len(),
{
    if ls.len() > 0 {
        let init = ls.drop_last();
        lemma_one_nonblank(init);
        if exists|i: int| 0 <= i < init.len() && #[trigger] trim(init[i]).len() > 0 {
            let i = choose|i: int| 0 <= i < init.len() && #[trigger] trim(init[i]).len() > 0;
            assert(trim(ls[i]).len() > 0);
        }
        if exists|i: int| 0 <= i < ls.len() && #[trigger] trim(ls[i]).len() > 0 {
            let i = choose|i: int| 0 <= i < ls.len() && #[trigger] trim(ls[i]).len() > 0;
            if i < init.len() {
                assert(trim(init[i]).len() > 0);
            }
        }
    }
}

/// Two different lines of `ls` are not blank.
proof fn lemma_two_nonblank(ls: Seq<Seq<char>>)
    ensures
        nonblank_count(ls) >= 2 <==> exists|i: int, j: int|
            0 <= i < j < ls.len() && #[trigger] trim(ls[i]).len() > 0 && #[trigger] trim(ls[j]).len()
                > 0,
    decreases ls.len(),
{
    if ls.len() > 0 {
        let init = ls.drop_last();
        let last = ls.len() - 1;
        lemma_two_nonblank(init);
        lemma_one_nonblank(init);
        if nonblank_count(ls) >= 2 {
            if nonblank_count(init) >= 2 {
                let (i, j) = choose|i: int, j: int|
                    0 <= i < j < init.len() && #[trigger] trim(init[i]).len() > 0 && #[trigger] trim(
                        init[j],
                    ).len() > 0;
                assert(trim(ls[i]).len() > 0 && trim(ls[j]).len() > 0);
            } else {
                let i = choose|i: int| 0 <= i < init.len() && #[trigger] trim(init[i]).len() > 0;
                assert(trim(ls[i]).len() > 0);
                assert(trim(ls[last]).len() > 0);
            }
        }
        if exists|i: int, j: int|
            0 <= i < j < ls.len() && #[trigger] trim(ls[i]).len() > 0 && #[trigger] trim(ls[j]).len()
                > 0 {
            let (i, j) = choose|i: int, j: int|
                0 <= i < j < ls.len() && #[trigger] trim(ls[i]).len() > 0 && #[trigger] trim(ls[j]).len()
                    > 0;
            assert(trim(init[i]).len() > 0);
            if j < last {
                assert(trim(init[j]).len() > 0);
            }
        }
    }
}

/// A message is batched exactly when it was forwarded or two of its lines are
/// not blank; so a message of three, or any number more, non-blank lines is
/// batched as well.
pub proof fn law_batched_when_two_lines_hold_text(text: Seq<char>, forwarded: bool)
    ensures
        batched(text, forwarded) <==> (forwarded || exists|i: int, j: int|
            0 <= i < j < lines_of(text).len() && #[trigger] trim(lines_of(text)[i]).len() > 0
                && #[trigger] trim(lines_of(text)[j]).len() > 0),
{
    lemma_two_nonblank(lines_of(text));
}

/// Decides whether a message goes into the batch (see `batched`).
pub fn should_batch(text: &str, forwarded: bool) -> (r: bool)
    ensures
        r == batched(text@, forwarded),
{
    let v = chars_of(text);
    let ls = lines_chars(&v);
    let ghost lv = ls@.map_values(|l: Vec<char>| l@);
    let mut n: usize = 0;
    let mut i: usize = 0;
    while i < ls.len()
        invariant
            i <= ls.len(),
            lv == ls@.map_values(|l: Vec<char>| l@),
            n == nonblank_count(lv.subrange(0, i as int)),
            n <= i,
        decreases ls.len() - i,
    {
        assert(lv.subrange(0, i + 1).drop_last() =~= lv.subrange(0, i as int));
        assert(lv[i as int] == ls@[i as int]@);
        let t = trim_chars(&ls[i]);
        if t.len() > 0 {
            n = n + 1;
        }
        i = i + 1;
    }
    assert(lv.subrange(0, lv.len() as int) =~= lv);
    n > 1 || forwarded
}

/// The batch of a chat: absent, or the items collected so far.
pub struct BatchStorage {
    batch: Option<BatchData>,
}

impl View for BatchStorage {
    type V = Option<Seq<BatchItem>>;

    closed spec fn view(&self) -> Option<Seq<BatchItem>> {
        match self.batch {
            Some(v) => Some(v@),
            None => None,
        }
    }
}

impl BatchStorage {
    /// No batch.
    pub fn new() -> (r: BatchStorage)
        ensures
            r@ is None,
    {
        BatchStorage { batch: None }
    }

    /// The items collected so far, if a batch is open.
    pub fn get_batch(&self) -> (r: Option<&BatchData>)
        ensures
            match r {
                Some(v) => self@ == Some(v@),
                None => self@ is None,
            },
    {
        match &self.batch {
            Some(v) => Some(v),
            None => None,
        }
    }

    /// Adds items; `true` when this opens the batch (the first message).
    pub fn add_to_batch(&mut self, commands: BatchData) -> (r: bool)
        ensures
            r == (old(self)@ is None),
            final(self)@ == Some(
                match old(self)@ {
                    Some(b) => b + commands@,
                    None => commands@,
                },
            ),
    {
        let mut current: Option<BatchData> = None;
        std::mem::swap(&mut current, &mut self.batch);
        match current {
            Some(mut existing) => {
                let mut c = commands;
                existing.append(&mut c);
                self.batch = Some(existing);
                false
            },
            None => {
                self.batch = Some(commands);
                true
            },
        }
    }

    /// Takes the batch out, leaving none.
    pub fn consume_batch(&mut self) -> (r: Option<BatchData>)
        ensures
            final(self)@ is None,
            match r {
                Some(v) => old(self)@ == Some(v@),
                None => old(self)@ is None,
            },
    {
        let mut current: Option<BatchData> = None;
        std::mem::swap(&mut current, &mut self.batch);
        current
    }
}

/// What running a batch does, item by item.
pub enum BatchStep {
    /// Run the command.
    Run(Command),
    /// Send `❌ <error>`.
    ReportError(String),
}

/// The step of an item: run a command, report an error as `❌ <error>`.
pub open spec fn step_matches(item: BatchItem, step: BatchStep) -> bool {
    match item {
        Ok(c) => step == BatchStep::Run(c),
        Err(e) => (step matches BatchStep::ReportError(m) && m@ == "❌ "@ + e@),
    }
}

/// The amounts of the expense commands of a batch, in order (those with an
/// amount), which its summary counts and adds up.
pub open spec fn expense_amounts(items: Seq<BatchItem>) -> Seq<Seq<char>>
    decreases items.len(),
{
    if items.len() == 0 {
        Seq::empty()
    } else {
        let init = expense_amounts(items.drop_last());
        match items.last() {
            Ok(Command::Expense { amount: Some(a), .. }) => init.push(a@),
            _ => init,
        }
    }
}

/// The steps of a batch: each command is run, each error is reported as
/// `❌ <error>`, in order; and the amounts of its expenses.
pub fn plan_batch(items: BatchData) -> (r: (Vec<BatchStep>, Vec<String>))
    ensures
        r.0@.len() == items@.len(),
        forall|i: int|
            0 <= i < items@.len() ==> #[trigger] step_matches(items@[i], r.0@[i]),
        crate::words::string_views(r.1@) == expense_amounts(items@),
{
    let ghost all = items@;
    let n = items.len();
    let mut steps: Vec<BatchStep> = Vec::new();
    let mut amounts: Vec<String> = Vec::new();
    let mut rest = items;
    let mut k: usize = 0;
    assert(rest@ =~= all.subrange(0, all.len() as int));
    while rest.len() > 0
        invariant
            k + rest@.len() == all.len(),
            n == all.len(),
            rest@ == all.subrange(k as int, all.len() as int),
            steps@.len() == k,
            forall|i: int|
                0 <= i < k ==> #[trigger] step_matches(all[i], steps@[i]),
            crate::words::string_views(amounts@) == expense_amounts(all.subrange(0, k as int)),
        decreases rest.len(),
    {
        let item = rest.remove(0);
        assert(item == all[k as int]);
        let ghost before_steps = steps@;
        let ghost before_amounts = crate::words::string_views(amounts@);
        assert(all.subrange(0, k + 1).drop_last() =~= all.subrange(0, k as int));
        match &item {
            Ok(c) => {
                if let Command::Expense { amount: Some(a), .. } = c {
                    amounts.push(a.clone());
                    assert(crate::words::string_views(amounts@) =~= before_amounts.push(a@));
                }
            },
            Err(_) => {},
        }
        match item {
            Ok(c) => {
                steps.push(BatchStep::Run(c));
            },
            Err(e) => {
                let mut out: Vec<char> = Vec::new();
                crate::text::extend_str(&mut out, "❌ ");
                crate::text::extend_str(&mut out, e.as_str());
                steps.push(BatchStep::ReportError(crate::text::string_from_chars(&out)));
            },
        }
        proof {
            assert(rest@ =~= all.subrange(k + 1, all.len() as int));
            assert forall|i: int| 0 <= i < k + 1 implies #[trigger] step_matches(all[i], steps@[i]) by {
                if i < k {
                    assert(steps@[i] == before_steps[i]);
                }
            }
        }
        k = k + 1;
    }
    assert(all.subrange(0, all.len() as int) =~= all);
    (steps, amounts)
}

/// A batch item as a command view or an error text.
pub open spec fn item_view(i: BatchItem) -> Result<CommandView, Seq<char>> {
    match i {
        Ok(c) => Ok(c@),
        Err(e) => Err(e@),
    }
}

/// The expense command of a parsed expense line: dated by the UTC date of
/// its timestamp when that differs from the message's.
pub open spec fn expense_item(e: ParsedExpense, timestamp: i64) -> Result<CommandView, Seq<char>> {
    Ok(
        CommandView::Expense {
            date: if e.timestamp == timestamp {
                None
            } else {
                Some(timestamp_date_text(e.timestamp))
            },
            description: Some(e.description@),
            amount: Some(e.amount@),
        },
    )
}

/// The batch items of a read message: its expenses as expense commands, then
/// its commands, then the texts of its errors.
pub open spec fn message_items(
    expenses: Seq<ParsedExpense>,
    commands: Seq<Command>,
    errors: Seq<CommandParseError>,
    timestamp: i64,
) -> Seq<Result<CommandView, Seq<char>>> {
    expenses.map_values(|e: ParsedExpense| expense_item(e, timestamp)) + commands.map_values(
        |c: Command| Ok::<CommandView, Seq<char>>(c@),
    ) + errors.map_values(|e: CommandParseError| Err::<CommandView, Seq<char>>(parse_error_text(e@)))
}

/// Turns what `parse_expenses` read from a message sent at `timestamp` into
/// batch items (see `message_items`). A dated expense's timestamp must have a
/// calendar date.
pub fn batch_items(
    expenses: Vec<ParsedExpense>,
    commands: Vec<Command>,
    errors: Vec<CommandParseError>,
    timestamp: i64,
) -> (r: BatchData)
    requires
        forall|i: int|
            0 <= i < expenses@.len() && #[trigger] expenses@[i].timestamp != timestamp
                ==> MIN_TIMESTAMP <= expenses@[i].timestamp <= MAX_TIMESTAMP,
    ensures
        r@.map_values(|i: BatchItem| item_view(i)) == message_items(
            expenses@,
            commands@,
            errors@,
            timestamp,
        ),
{
    let ghost es = expenses@;
    let ghost cs = commands@;
    let ghost rs = errors@;
    assert(es.len() == expenses.len());
    assert(cs.len() == commands.len());
    let mut r: BatchData = Vec::new();
    let mut rest = expenses;
    let mut k: usize = 0;
    while rest.len() > 0
        invariant
            k + rest@.len() == es.len(),
            es.len() <= usize::MAX,
            rest@ == es.subrange(k as int, es.len() as int),
            forall|i: int|
                0 <= i < es.len() && #[trigger] es[i].timestamp != timestamp ==> MIN_TIMESTAMP
                    <= es[i].timestamp <= MAX_TIMESTAMP,
            r@.map_values(|i: BatchItem| item_view(i)) == es.subrange(0, k as int).map_values(
                |e: ParsedExpense| expense_item(e, timestamp),
            ),
        decreases rest.len(),
    {
        let e = rest.remove(0);
        assert(e == es[k as int]);
        let date = if e.timestamp == timestamp {
            None
        } else {
            Some(format_timestamp(e.timestamp))
        };
        let ghost before = r@.map_values(|i: BatchItem| item_view(i));
        let ghost ev = e;
        r.push(Ok(Command::Expense { date, description: Some(e.description), amount: Some(e.amount) }));
        assert(r@.map_values(|i: BatchItem| item_view(i)) =~= before.push(expense_item(ev, timestamp)));
        assert(es.subrange(0, k + 1).map_values(|e: ParsedExpense| expense_item(e, timestamp)) =~= es.subrange(
            0,
            k as int,
        ).map_values(|e: ParsedExpense| expense_item(e, timestamp)).push(expense_item(es[k as int], timestamp)));
        k = k + 1;
        assert(rest@ =~= es.subrange(k as int, es.len() as int));
    }
    assert(es.subrange(0, es.len() as int) =~= es);
    let ghost part1 = r@.map_values(|i: BatchItem| item_view(i));
    let mut rest_c = commands;
    let mut j: usize = 0;
    while rest_c.len() > 0
        invariant
            j + rest_c@.len() == cs.len(),
            cs.len() <= usize::MAX,
            rest_c@ == cs.subrange(j as int, cs.len() as int),
            r@.map_values(|i: BatchItem| item_view(i)) == part1 + cs.subrange(0, j as int).map_values(
                |c: Command| Ok::<CommandView, Seq<char>>(c@),
            ),
        decreases rest_c.len(),
    {
        let c = rest_c.remove(0);
        assert(c == cs[j as int]);
        let ghost before = r@.map_values(|i: BatchItem| item_view(i));
        let ghost cv = c@;
        r.push(Ok(c));
        assert(r@.map_values(|i: BatchItem| item_view(i)) =~= before.push(Ok::<CommandView, Seq<char>>(cv)));
        assert(cs.subrange(0, j + 1).map_values(|c: Command| Ok::<CommandView, Seq<char>>(c@)) =~= cs.subrange(
            0,
            j as int,
        ).map_values(|c: Command| Ok::<CommandView, Seq<char>>(c@)).push(Ok::<CommandView, Seq<char>>(cv)));
        j = j + 1;
        assert(rest_c@ =~= cs.subrange(j as int, cs.len() as int));
    }
    assert(cs.subrange(0, cs.len() as int) =~= cs);
    let ghost part2 = r@.map_values(|i: BatchItem| item_view(i));
    let mut m: usize = 0;
    while m < errors.len()
        invariant
            m <= errors.len(),
            rs == errors@,
            r@.map_values(|i: BatchItem| item_view(i)) == part2 + rs.subrange(0, m as int).map_values(
                |e: CommandParseError| Err::<CommandView, Seq<char>>(parse_error_text(e@)),
            ),
        decreases errors.len() - m,
    {
        let text = errors[m].to_string();
        let ghost before = r@.map_values(|i: BatchItem| item_view(i));
        r.push(Err(text));
        assert(r@.map_values(|i: BatchItem| item_view(i)) =~= before.push(
            Err::<CommandView, Seq<char>>(parse_error_text(rs[m as int]@)),
        ));
        assert(rs.subrange(0, m + 1).map_values(
            |e: CommandParseError| Err::<CommandView, Seq<char>>(parse_error_text(e@)),
        ) =~= rs.subrange(0, m as int).map_values(
            |e: CommandParseError| Err::<CommandView, Seq<char>>(parse_error_text(e@)),
        ).push(Err::<CommandView, Seq<char>>(parse_error_text(rs[m as int]@))));
        m = m + 1;
    }
    assert(rs.subrange(0, rs.len() as int) =~= rs);
    r
}

} // verus!
