//! Periods kept as text files: one `<period>.txt` per named period in a
//! directory per chat, each line a command of the period.

use vstd::prelude::*;

use crate::lines::{find_from, lines_chars, lines_of, slice_chars};
use crate::numbers::{format_padded, int_to_string};
use crate::text::{chars_of, extend_str, str_eq, string_from_chars};
use crate::datastore::{DataStore, InMemStore};
use crate::words::string_views;

verus! {

/// The file name that holds the current period and is not listed.
pub open spec fn current_period_name() -> Seq<char> {
    "__current_period__"@
}

/// `base.join(part)` on Unix paths: an absolute `part` replaces `base`;
/// otherwise the two are joined with one `/`.
pub open spec fn path_join(base: Seq<char>, part: Seq<char>) -> Seq<char> {
    if part.len() > 0 && part[0] == '/' {
        part
    } else if base.len() == 0 {
        part
    } else if base.last() == '/' {
        base + part
    } else {
        base + "/"@ + part
    }
}

fn path_join_exec(base: &str, part: &str) -> (r: String)
    ensures
        r@ == path_join(base@, part@),
{
    let b = chars_of(base);
    let p = chars_of(part);
    let mut out: Vec<char> = Vec::new();
    if p.len() > 0 && p[0] == '/' {
        extend_str(&mut out, part);
    } else if b.len() == 0 {
        extend_str(&mut out, part);
    } else if b[b.len() - 1] == '/' {
        extend_str(&mut out, base);
        extend_str(&mut out, part);
    } else {
        extend_str(&mut out, base);
        extend_str(&mut out, "/");
        extend_str(&mut out, part);
    }
    string_from_chars(&out)
}

/// Periods stored as files under a directory.
pub struct PeriodsFileStorage {
    storage_dir: String,
}

impl PeriodsFileStorage {
    /// The directory.
    pub closed spec fn dir(&self) -> Seq<char> {
        self.storage_dir@
    }

    /// Periods under `storage_dir`.
    pub fn new(storage_dir: &str) -> (r: PeriodsFileStorage)
        ensures
            r.dir() == storage_dir@,
    {
        PeriodsFileStorage { storage_dir: String::from_str(storage_dir) }
    }

    /// The directory of a chat: the storage directory joined with the chat id.
    pub fn chat_dir(&self, chat_id: i64) -> (r: String)
        ensures
            r@ == path_join(self.dir(), format_padded(chat_id as int, 0)),
    {
        let id = int_to_string(chat_id);
        path_join_exec(self.storage_dir.as_str(), id.as_str())
    }

    /// The file of a period: `<period_name>.txt` in the chat's directory.
    pub fn period_file_path(&self, chat_id: i64, period_name: &str) -> (r: String)
        ensures
            r@ == path_join(
                path_join(self.dir(), format_padded(chat_id as int, 0)),
                period_name@ + ".txt"@,
            ),
    {
        let dir = self.chat_dir(chat_id);
        let mut f: Vec<char> = Vec::new();
        extend_str(&mut f, period_name);
        extend_str(&mut f, ".txt");
        let file = string_from_chars(&f);
        path_join_exec(dir.as_str(), file.as_str())
    }
}

/// The period a directory entry stands for: the name of a `.txt` file
/// without its extension, unless that is the current-period name.
pub open spec fn period_of_file(name: Seq<char>) -> Option<Seq<char>> {
    if name.len() >= 4 && name.subrange(name.len() - 4, name.len() as int) == ".txt"@ {
        let stem = name.subrange(0, name.len() - 4);
        if stem == current_period_name() {
            None
        } else {
            Some(stem)
        }
    } else {
        None
    }
}

/// The periods of the listed file names, in order.
pub open spec fn periods_of_files(names: Seq<Seq<char>>) -> Seq<Seq<char>>
    decreases names.len(),
{
    if names.len() == 0 {
        Seq::empty()
    } else {
        let init = periods_of_files(names.drop_last());
        match period_of_file(names.last()) {
            Some(p) => init.push(p),
            None => init,
        }
    }
}

/// The current-period file is never listed as a period, and every listed
/// period is the stem of a `.txt` file among the names.
pub proof fn law_current_period_not_listed(names: Seq<Seq<char>>)
    ensures
        !periods_of_files(names).contains(current_period_name()),
        forall|p: Seq<char>|
            periods_of_files(names).contains(p) ==> names.contains(p + ".txt"@),
    decreases names.len(),
{
    reveal_strlit(".txt");
    if names.len() > 0 {
        let init = names.drop_last();
        law_current_period_not_listed(init);
        let last = names.last();
        let r0 = periods_of_files(init);
        assert forall|p: Seq<char>| periods_of_files(names).contains(p) implies names.contains(
            p + ".txt"@,
        ) by {
            if r0.contains(p) {
                let k = choose|k: int| 0 <= k < init.len() && init[k] == p + ".txt"@;
                assert(names[k] == p + ".txt"@);
            } else {
                let stem = last.subrange(0, last.len() - 4);
                assert(p == stem);
                assert(last =~= stem + ".txt"@);
                assert(names[names.len() - 1] == last);
            }
        }
    }
}

fn period_of_file_exec(name: &String) -> (r: Option<String>)
    ensures
        match r {
            Some(p) => period_of_file(name@) == Some(p@),
            None => period_of_file(name@) is None,
        },
{
    let v = chars_of(name.as_str());
    let n = v.len();
    if n >= 4 && v[n - 4] == '.' && v[n - 3] == 't' && v[n - 2] == 'x' && v[n - 1] == 't' {
        proof {
            reveal_strlit(".txt");
            assert(v@.subrange(n - 4, n as int) =~= ".txt"@);
        }
        let stem = string_from_chars(&slice_chars(&v, 0, n - 4));
        if str_eq(stem.as_str(), "__current_period__") {
            None
        } else {
            Some(stem)
        }
    } else {
        proof {
            reveal_strlit(".txt");
            if n >= 4 && v@.subrange(n - 4, n as int) == ".txt"@ {
                assert(v@[n - 4] == v@.subrange(n - 4, n as int)[0]);
                assert(v@[n - 3] == v@.subrange(n - 4, n as int)[1]);
                assert(v@[n - 2] == v@.subrange(n - 4, n as int)[2]);
                assert(v@[n - 1] == v@.subrange(n - 4, n as int)[3]);
            }
        }
        None
    }
}

/// The periods among the entries of a chat directory (`list_periods`).
pub fn list_periods(file_names: &Vec<String>) -> (r: Vec<String>)
    ensures
        string_views(r@) == periods_of_files(string_views(file_names@)),
{
    let ghost names = string_views(file_names@);
    let mut r: Vec<String> = Vec::new();
    let mut i: usize = 0;
    while i < file_names.len()
        invariant
            i <= file_names.len(),
            names == string_views(file_names@),
            string_views(r@) == periods_of_files(names.subrange(0, i as int)),
        decreases file_names.len() - i,
    {
        assert(names.subrange(0, i + 1).drop_last() =~= names.subrange(0, i as int));
        assert(names[i as int] == file_names@[i as int]@);
        let ghost before = string_views(r@);
        match period_of_file_exec(&file_names[i]) {
            Some(p) => {
                r.push(p);
                assert(string_views(r@) =~= before.push(r@[r@.len() - 1]@));
            },
            None => {},
        }
        i = i + 1;
    }
    assert(names.subrange(0, names.len() as int) =~= names);
    r
}

/// The lines of a period file (`load_period`).
pub fn period_lines(content: &str) -> (r: Vec<String>)
    ensures
        string_views(r@) == lines_of(content@),
{
    let v = chars_of(content);
    let ls = lines_chars(&v);
    let mut r: Vec<String> = Vec::new();
    let mut i: usize = 0;
    while i < ls.len()
        invariant
            i <= ls.len(),
            ls@.map_values(|l: Vec<char>| l@) == lines_of(content@),
            string_views(r@) == ls@.map_values(|l: Vec<char>| l@).subrange(0, i as int),
        decreases ls.len() - i,
    {
        let ghost before = string_views(r@);
        r.push(string_from_chars(&ls[i]));
        assert(string_views(r@) =~= before.push(ls@[i as int]@));
        assert(string_views(r@) =~= ls@.map_values(|l: Vec<char>| l@).subrange(0, i + 1));
        i = i + 1;
    }
    assert(ls@.map_values(|l: Vec<char>| l@).subrange(0, ls@.len() as int) =~= ls@.map_values(
        |l: Vec<char>| l@,
    ));
    r
}

/// The lines joined with `\n`.
pub open spec fn join_lines(data: Seq<Seq<char>>) -> Seq<char>
    decreases data.len(),
{
    if data.len() == 0 {
        Seq::empty()
    } else if data.len() == 1 {
        data[0]
    } else {
        data[0] + "\n"@ + join_lines(data.drop_first())
    }
}

/// The content of a period file (`save_period`): the lines joined with `\n`.
pub fn period_content(data: &Vec<String>) -> (r: String)
    ensures
        r@ == join_lines(string_views(data@)),
{
    let ghost d = string_views(data@);
    let mut out: Vec<char> = Vec::new();
    let mut k: usize = data.len();
    // built from the back: out holds the join of d[k..]
    while k > 0
        invariant
            k <= data.len(),
            d == string_views(data@),
            out@ == join_lines(d.subrange(k as int, d.len() as int)),
        decreases k,
    {
        let mut piece: Vec<char> = Vec::new();
        extend_str(&mut piece, data[k - 1].as_str());
        assert(d[k - 1] == data@[k - 1]@);
        let ghost tail = d.subrange(k as int, d.len() as int);
        let ghost whole = d.subrange(k - 1, d.len() as int);
        assert(whole.drop_first() =~= tail);
        assert(whole[0] == d[k - 1]);
        if out.len() > 0 || k < data.len() {
            piece.push('\n');
        }
        crate::text::extend_range(&mut piece, &out, 0, out.len());
        assert(out@.subrange(0, out@.len() as int) =~= out@);
        proof {
            reveal_strlit("\n");
            if k < data.len() {
                assert(whole.len() > 1);
                assert(piece@ =~= d[k - 1] + "\n"@ + join_lines(tail));
            } else {
                assert(tail.len() == 0);
                assert(out@.len() == 0);
                assert(piece@ =~= d[k - 1]);
            }
        }
        out = piece;
        k = k - 1;
    }
    assert(d.subrange(0, d.len() as int) =~= d);
    string_from_chars(&out)
}

/// The lines can be written and read back: no line holds `\n`, none but the
/// last ends with `\r`, and the last is not empty.
pub open spec fn storable_lines(data: Seq<Seq<char>>) -> bool {
    &&& forall|i: int| 0 <= i < data.len() ==> find_from(#[trigger] data[i], '\n', 0) is None
    &&& forall|i: int|
        0 <= i < data.len() - 1 ==> !(#[trigger] data[i].len() > 0 && data[i].last() == '\r')
    &&& data.len() > 0 ==> data.last().len() > 0
}

proof fn lemma_find_newline_absent(s: Seq<char>, k: int)
    requires
        0 <= k,
        find_from(s, '\n', 0) is None,
    ensures
        find_from(s, '\n', k) is None,
        forall|i: int| 0 <= i < s.len() ==> s[i] != '\n',
    decreases s.len() - k,
{
    lemma_no_newline_from(s, 0);
    if k < s.len() {
        lemma_find_newline_absent_from(s, k);
    }
}

proof fn lemma_no_newline_from(s: Seq<char>, k: int)
    requires
        0 <= k <= s.len(),
        find_from(s, '\n', k) is None,
    ensures
        forall|i: int| k <= i < s.len() ==> s[i] != '\n',
    decreases s.len() - k,
{
    if k < s.len() {
        lemma_no_newline_from(s, k + 1);
    }
}

proof fn lemma_find_newline_absent_from(s: Seq<char>, k: int)
    requires
        0 <= k,
        forall|i: int| 0 <= i < s.len() ==> s[i] != '\n',
    ensures
        find_from(s, '\n', k) is None,
    decreases s.len() - k,
{
    if k < s.len() {
        lemma_find_newline_absent_from(s, k + 1);
    }
}

pub(crate) proof fn lemma_find_newline_at(s: Seq<char>, t: Seq<char>, k: int)
    requires
        0 <= k <= s.len(),
        forall|i: int| 0 <= i < s.len() ==> s[i] != '\n',
    ensures
        find_from(s + "\n"@ + t, '\n', k) == Some(s.len() as int),
    decreases s.len() - k,
{
    reveal_strlit("\n");
    let w = s + "\n"@ + t;
    if k < s.len() {
        assert(w[k] == s[k]);
        lemma_find_newline_at(s, t, k + 1);
    } else {
        assert(w[s.len() as int] == '\n');
    }
}

/// Reading back what was written gives the lines (for storable lines).
pub proof fn law_period_roundtrip(data: Seq<Seq<char>>)
    requires
        storable_lines(data),
    ensures
        lines_of(join_lines(data)) == data,
    decreases data.len(),
{
    reveal_strlit("\n");
    if data.len() == 0 {
        assert(lines_of(Seq::<char>::empty()) =~= Seq::<Seq<char>>::empty());
    } else if data.len() == 1 {
        let s = data[0];
        lemma_find_newline_absent(s, 0);
        assert(lines_of(s) =~= seq![s]);
    } else {
        let s = data[0];
        let rest = data.drop_first();
        assert(storable_lines(rest)) by {
            assert forall|i: int| 0 <= i < rest.len() implies find_from(
                #[trigger] rest[i],
                '\n',
                0,
            ) is None by {
                assert(rest[i] == data[i + 1]);
            }
            assert forall|i: int| 0 <= i < rest.len() - 1 implies !(#[trigger] rest[i].len() > 0
                && rest[i].last() == '\r') by {
                assert(rest[i] == data[i + 1]);
            }
        }
        law_period_roundtrip(rest);
        lemma_find_newline_absent(s, 0);
        let t = join_lines(rest);
        let w = s + "\n"@ + t;
        assert(join_lines(data) == w);
        lemma_find_newline_at(s, t, 0);
        assert(w.subrange(0, s.len() as int) =~= s);
        assert(w.subrange(s.len() + 1int, w.len() as int) =~= t);
        assert(!(data[0].len() > 0 && data[0].last() == '\r'));
        assert(strip_cr_is_id(s));
        assert(lines_of(w) =~= seq![s] + lines_of(t));
        assert(seq![s] + rest =~= data);
    }
}

/// A line that does not end in `\r` keeps its end.
pub open spec fn strip_cr_is_id(s: Seq<char>) -> bool {
    !(s.len() > 0 && s.last() == '\r') ==> crate::lines::strip_cr(s) == s
}

/// Periods kept in memory: each period name holds its lines.
pub struct PeriodsStorage {
    store: InMemStore<Vec<String>>,
}

impl View for PeriodsStorage {
    type V = Map<Seq<char>, Seq<Seq<char>>>;

    closed spec fn view(&self) -> Map<Seq<char>, Seq<Seq<char>>> {
        self.store.contents().map_values(|v: Vec<String>| string_views(v@))
    }
}

/// A clone of a list of lines holds the same lines.
proof fn lemma_clone_lines(a: Vec<String>, b: Vec<String>)
    requires
        cloned(a, b),
    ensures
        string_views(b@) == string_views(a@),
{
    if a != b {
        assert forall|i: int| 0 <= i < a.len() implies b@[i]@ == a@[i]@ by {
            assert(cloned(a[i], b[i]));
        }
        assert(string_views(b@) =~= string_views(a@));
    }
}

impl PeriodsStorage {
    /// No periods.
    pub fn new() -> (r: PeriodsStorage)
        ensures
            r@ == Map::<Seq<char>, Seq<Seq<char>>>::empty(),
    {
        let r = PeriodsStorage { store: InMemStore::new() };
        assert(r@ =~= Map::<Seq<char>, Seq<Seq<char>>>::empty());
        r
    }

    /// The names of the stored periods, each once.
    pub fn list_periods(&self) -> (r: Vec<String>)
        ensures
            string_views(r@).no_duplicates(),
            forall|k: Seq<char>| string_views(r@).contains(k) <==> self@.dom().contains(k),
    {
        self.store.keys()
    }

    /// The lines of a period, if it is stored.
    pub fn load_period(&self, period_name: &str) -> (r: Option<Vec<String>>)
        ensures
            r is Some <==> self@.dom().contains(period_name@),
            r matches Some(v) ==> string_views(v@) == self@[period_name@],
    {
        match self.store.get(period_name) {
            Some(v) => {
                proof {
                    lemma_clone_lines(self.store.contents()[period_name@], v);
                }
                Some(v)
            },
            None => None,
        }
    }

    /// Stores the lines of a period, replacing what it held.
    pub fn save_period(&mut self, period_name: &str, data: Vec<String>)
        ensures
            final(self)@ == old(self)@.insert(period_name@, string_views(data@)),
    {
        self.store.set(period_name, data);
        assert(self@ =~= old(self)@.insert(period_name@, string_views(data@)));
    }
}

} // verus!
