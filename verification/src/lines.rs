//! Splitting text the way `str::lines`, `str::trim` and `str::splitn` do, on
//! character sequences.

use vstd::prelude::*;

use crate::text::{extend_range, is_whitespace, is_ws};

verus! {

/// `s` without leading white space (`str::trim_start`).
pub open spec fn trim_start(s: Seq<char>) -> Seq<char>
    decreases s.len(),
{
    if s.len() > 0 && is_ws(s[0]) {
        trim_start(s.drop_first())
    } else {
        s
    }
}

/// `s` without trailing white space (`str::trim_end`).
pub open spec fn trim_end(s: Seq<char>) -> Seq<char>
    decreases s.len(),
{
    if s.len() > 0 && is_ws(s.last()) {
        trim_end(s.drop_last())
    } else {
        s
    }
}

/// `s` without leading and trailing white space (`str::trim`).
pub open spec fn trim(s: Seq<char>) -> Seq<char> {
    trim_end(trim_start(s))
}

/// The first index `i >= k` with `s[i] == c`.
pub open spec fn find_from(s: Seq<char>, c: char, k: int) -> Option<int>
    decreases s.len() - k,
{
    if k < 0 || k >= s.len() {
        None
    } else if s[k] == c {
        Some(k)
    } else {
        find_from(s, c, k + 1)
    }
}

/// `s.splitn(2, c)`: the part before the first `c`, and the rest after it if
/// there is one.
pub open spec fn split_first(s: Seq<char>, c: char) -> (Seq<char>, Option<Seq<char>>) {
    match find_from(s, c, 0) {
        Some(i) => (s.subrange(0, i), Some(s.subrange(i + 1, s.len() as int))),
        None => (s, None),
    }
}

/// A line that was ended by `\n` loses one trailing `\r`.
pub open spec fn strip_cr(s: Seq<char>) -> Seq<char> {
    if s.len() > 0 && s.last() == '\r' {
        s.drop_last()
    } else {
        s
    }
}

/// `str::lines`: the pieces between `\n`s (a final `\n` ends the last line
/// rather than starting an empty one); a line ended by `\n` loses one
/// trailing `\r`.
pub open spec fn lines_of(s: Seq<char>) -> Seq<Seq<char>>
    decreases s.len(),
{
    if s.len() == 0 {
        Seq::empty()
    } else {
        match find_from(s, '\n', 0) {
            Some(i) => {
                proof {
                    lemma_find_from_bounds(s, '\n', 0);
                }
                seq![strip_cr(s.subrange(0, i))] + lines_of(
                    s.subrange(i + 1, s.len() as int),
                )
            },
            None => seq![s],
        }
    }
}

/// `s.lines().next().unwrap_or("")`.
pub open spec fn first_line(s: Seq<char>) -> Seq<char> {
    if lines_of(s).len() == 0 {
        Seq::empty()
    } else {
        lines_of(s)[0]
    }
}

/// A found index lies in range and holds the character.
pub proof fn lemma_find_from_bounds(s: Seq<char>, c: char, k: int)
    ensures
        find_from(s, c, k) matches Some(i) ==> k <= i < s.len() && s[i] == c,
    decreases s.len() - k,
{
    if 0 <= k < s.len() && s[k] != c {
        lemma_find_from_bounds(s, c, k + 1);
    }
}

/// A character not in `s[k..]` is not found from `k`, and conversely.
pub proof fn lemma_find_absent(s: Seq<char>, c: char, k: int)
    requires
        0 <= k,
    ensures
        find_from(s, c, k) is None <==> forall|i: int| k <= i < s.len() ==> s[i] != c,
    decreases s.len() - k,
{
    if k < s.len() {
        lemma_find_absent(s, c, k + 1);
        if s[k] != c && find_from(s, c, k + 1) is None {
            assert forall|i: int| k <= i < s.len() implies s[i] != c by {
                if i > k {
                }
            }
        }
    }
}

/// In `a + [c] + b` with no `c` in `a`, the first `c` is the one after `a`.
pub proof fn lemma_find_after(a: Seq<char>, c: char, b: Seq<char>, k: int)
    requires
        0 <= k <= a.len(),
        find_from(a, c, k) is None,
    ensures
        find_from(a + seq![c] + b, c, k) == Some(a.len() as int),
    decreases a.len() - k,
{
    let s = a + seq![c] + b;
    if k < a.len() {
        assert(s[k] == a[k]);
        lemma_find_after(a, c, b, k + 1);
    } else {
        assert(s[a.len() as int] == c);
    }
}

/// Splitting `a + [c] + b` at its first `c`, when `a` has none.
pub proof fn lemma_split_after(a: Seq<char>, c: char, b: Seq<char>)
    requires
        find_from(a, c, 0) is None,
    ensures
        split_first(a + seq![c] + b, c) == (a, Some(b)),
{
    let s = a + seq![c] + b;
    lemma_find_after(a, c, b, 0);
    assert(s.subrange(0, a.len() as int) =~= a);
    assert(s.subrange(a.len() + 1int, s.len() as int) =~= b);
}

/// A line without `\n` is its own first line.
pub proof fn lemma_first_line_single(s: Seq<char>)
    requires
        s.len() > 0,
        find_from(s, '\n', 0) is None,
    ensures
        first_line(s) == s,
{
    assert(lines_of(s) =~= seq![s]);
}

/// Text that neither starts nor ends with white space is already trimmed.
pub proof fn lemma_trim_unchanged(s: Seq<char>)
    requires
        s.len() > 0,
        !is_ws(s[0]),
        !is_ws(s.last()),
    ensures
        trim(s) == s,
{
}

/// `v[a..b]` as a new vector.
pub fn slice_chars(v: &Vec<char>, a: usize, b: usize) -> (r: Vec<char>)
    requires
        a <= b <= v.len(),
    ensures
        r@ == v@.subrange(a as int, b as int),
{
    let mut r: Vec<char> = Vec::new();
    extend_range(&mut r, v, a, b);
    assert(r@ =~= v@.subrange(a as int, b as int));
    r
}

/// The first index of `c` in `v`.
pub fn find_first(v: &Vec<char>, c: char) -> (r: Option<usize>)
    ensures
        match r {
            Some(i) => find_from(v@, c, 0) == Some(i as int) && i < v.len() && v@[i as int] == c,
            None => find_from(v@, c, 0) is None,
        },
{
    let mut i: usize = 0;
    while i < v.len()
        invariant
            i <= v.len(),
            find_from(v@, c, 0) == find_from(v@, c, i as int),
        decreases v.len() - i,
    {
        if v[i] == c {
            return Some(i);
        }
        i = i + 1;
    }
    None
}

/// `str::trim` on a character vector.
pub fn trim_chars(v: &Vec<char>) -> (r: Vec<char>)
    ensures
        r@ == trim(v@),
{
    let mut lo: usize = 0;
    assert(v@.subrange(0, v@.len() as int) =~= v@);
    while lo < v.len() && is_whitespace(v[lo])
        invariant
            lo <= v.len(),
            trim_start(v@) == trim_start(v@.subrange(lo as int, v@.len() as int)),
        decreases v.len() - lo,
    {
        assert(v@.subrange(lo as int, v@.len() as int).drop_first() =~= v@.subrange(
            lo + 1,
            v@.len() as int,
        ));
        lo = lo + 1;
    }
    let ghost ts = v@.subrange(lo as int, v@.len() as int);
    assert(trim_start(ts) == ts);
    let mut hi: usize = v.len();
    while hi > lo && is_whitespace(v[hi - 1])
        invariant
            lo <= hi <= v.len(),
            ts == v@.subrange(lo as int, v@.len() as int),
            trim_end(ts) == trim_end(v@.subrange(lo as int, hi as int)),
        decreases hi - lo,
    {
        assert(v@.subrange(lo as int, hi as int).drop_last() =~= v@.subrange(lo as int, hi - 1));
        hi = hi - 1;
    }
    slice_chars(v, lo, hi)
}

/// `s.splitn(2, c)` on a character vector.
pub fn split_first_chars(v: &Vec<char>, c: char) -> (r: (Vec<char>, Option<Vec<char>>))
    ensures
        r.0@ == split_first(v@, c).0,
        match r.1 {
            Some(t) => split_first(v@, c).1 == Some(t@),
            None => split_first(v@, c).1 is None,
        },
{
    match find_first(v, c) {
        Some(i) => (slice_chars(v, 0, i), Some(slice_chars(v, i + 1, v.len()))),
        None => {
            assert(v@.subrange(0, v@.len() as int) =~= v@);
            (slice_chars(v, 0, v.len()), None)
        },
    }
}

/// `str::lines` on a character vector.
pub fn lines_chars(v: &Vec<char>) -> (r: Vec<Vec<char>>)
    ensures
        r@.map_values(|l: Vec<char>| l@) == lines_of(v@),
{
    let mut r: Vec<Vec<char>> = Vec::new();
    let mut rest = slice_chars(v, 0, v.len());
    assert(rest@ =~= v@);
    while rest.len() > 0
        invariant
            lines_of(v@) == r@.map_values(|l: Vec<char>| l@) + lines_of(rest@),
        decreases rest.len(),
    {
        let ghost before = r@.map_values(|l: Vec<char>| l@);
        match find_first(&rest, '\n') {
            Some(i) => {
                let mut piece = slice_chars(&rest, 0, i);
                if piece.len() > 0 && piece[piece.len() - 1] == '\r' {
                    piece = slice_chars(&piece, 0, piece.len() - 1);
                    assert(piece@ =~= strip_cr(rest@.subrange(0, i as int)));
                }
                let tail = slice_chars(&rest, i + 1, rest.len());
                r.push(piece);
                assert(r@.map_values(|l: Vec<char>| l@) =~= before.push(
                    strip_cr(rest@.subrange(0, i as int)),
                ));
                assert(lines_of(rest@) == seq![strip_cr(rest@.subrange(0, i as int))] + lines_of(
                    tail@,
                ));
                assert(before + lines_of(rest@) =~= r@.map_values(|l: Vec<char>| l@) + lines_of(
                    tail@,
                ));
                rest = tail;
            },
            None => {
                let piece = slice_chars(&rest, 0, rest.len());
                assert(piece@ =~= rest@);
                r.push(piece);
                assert(r@.map_values(|l: Vec<char>| l@) =~= before.push(rest@));
                assert(lines_of(rest@) == seq![rest@]);
                let empty: Vec<char> = Vec::new();
                assert(lines_of(empty@) =~= Seq::<Seq<char>>::empty());
                assert(before + lines_of(rest@) =~= r@.map_values(|l: Vec<char>| l@) + lines_of(
                    empty@,
                ));
                rest = empty;
            },
        }
    }
    assert(lines_of(rest@) =~= Seq::<Seq<char>>::empty());
    assert(r@.map_values(|l: Vec<char>| l@) + lines_of(rest@) =~= r@.map_values(
        |l: Vec<char>| l@,
    ));
    r
}

/// `s.lines().next().unwrap_or("")` on a character vector.
pub fn first_line_chars(v: &Vec<char>) -> (r: Vec<char>)
    ensures
        r@ == first_line(v@),
{
    let ls = lines_chars(v);
    if ls.len() == 0 {
        Vec::new()
    } else {
        assert(ls@.map_values(|l: Vec<char>| l@)[0] == ls@[0]@);
        slice_chars(&ls[0], 0, ls[0].len())
    }
}

} // verus!
