//! Lexicographic order on strings (the order of `String`'s `Ord`) and sorted
//! word sets.

use vstd::prelude::*;

use crate::words::string_views;

verus! {

/// `a < b` in the order of `String`: by code points, a proper prefix first.
pub open spec fn lex_lt(a: Seq<char>, b: Seq<char>) -> bool
    decreases a.len(),
{
    if a.len() == 0 {
        b.len() > 0
    } else if b.len() == 0 {
        false
    } else if a[0] < b[0] {
        true
    } else if a[0] > b[0] {
        false
    } else {
        lex_lt(a.drop_first(), b.drop_first())
    }
}

/// Strictly increasing, hence without repetitions.
pub open spec fn strictly_sorted(s: Seq<Seq<char>>) -> bool {
    forall|i: int, j: int| 0 <= i < j < s.len() ==> lex_lt(#[trigger] s[i], #[trigger] s[j])
}

pub proof fn lemma_lex_irreflexive(a: Seq<char>)
    ensures
        !lex_lt(a, a),
    decreases a.len(),
{
    if a.len() > 0 {
        lemma_lex_irreflexive(a.drop_first());
    }
}

pub proof fn lemma_lex_transitive(a: Seq<char>, b: Seq<char>, c: Seq<char>)
    requires
        lex_lt(a, b),
        lex_lt(b, c),
    ensures
        lex_lt(a, c),
    decreases a.len(),
{
    if a.len() > 0 && b.len() > 0 && c.len() > 0 {
        if a[0] == b[0] && b[0] == c[0] {
            lemma_lex_transitive(a.drop_first(), b.drop_first(), c.drop_first());
        }
    }
}

pub proof fn lemma_lex_total(a: Seq<char>, b: Seq<char>)
    ensures
        lex_lt(a, b) || lex_lt(b, a) || a == b,
    decreases a.len(),
{
    if a.len() > 0 && b.len() > 0 {
        if a[0] == b[0] {
            lemma_lex_total(a.drop_first(), b.drop_first());
            if a.drop_first() == b.drop_first() {
                assert(a[0] == b[0]);
                assert(a =~= seq![a[0]] + a.drop_first());
                assert(b =~= seq![b[0]] + b.drop_first());
            }
        }
    } else if a.len() == 0 && b.len() == 0 {
        assert(a =~= b);
    }
}

/// Two strictly sorted lists with the same members are the same list: a
/// set of words is listed in one way only (so `sort_unique` and the word
/// suggestions give a determined result).
pub proof fn law_sorted_words_unique(a: Seq<Seq<char>>, b: Seq<Seq<char>>)
    requires
        strictly_sorted(a),
        strictly_sorted(b),
        forall|w: Seq<char>| a.contains(w) <==> b.contains(w),
    ensures
        a == b,
    decreases a.len() + b.len(),
{
    if a.len() == 0 || b.len() == 0 {
        if a.len() > 0 {
            assert(a.contains(a[0]));
        }
        if b.len() > 0 {
            assert(b.contains(b[0]));
        }
        assert(a =~= b);
    } else {
        let x = a.last();
        let y = b.last();
        assert(a.contains(x));
        assert(b.contains(y));
        let i = choose|i: int| 0 <= i < b.len() && b[i] == x;
        let k = choose|k: int| 0 <= k < a.len() && a[k] == y;
        if x != y {
            assert(i < b.len() - 1);
            assert(lex_lt(b[i], b[b.len() - 1]));
            assert(k < a.len() - 1);
            assert(lex_lt(a[k], a[a.len() - 1]));
            lemma_lex_transitive(x, y, x);
            lemma_lex_irreflexive(x);
        }
        let da = a.drop_last();
        let db = b.drop_last();
        assert(strictly_sorted(da)) by {
            assert forall|p: int, q: int| 0 <= p < q < da.len() implies lex_lt(
                #[trigger] da[p],
                #[trigger] da[q],
            ) by {
                assert(da[p] == a[p] && da[q] == a[q]);
            }
        }
        assert(strictly_sorted(db)) by {
            assert forall|p: int, q: int| 0 <= p < q < db.len() implies lex_lt(
                #[trigger] db[p],
                #[trigger] db[q],
            ) by {
                assert(db[p] == b[p] && db[q] == b[q]);
            }
        }
        assert forall|w: Seq<char>| da.contains(w) <==> db.contains(w) by {
            if da.contains(w) {
                let p = choose|p: int| 0 <= p < da.len() && da[p] == w;
                assert(a[p] == w);
                assert(lex_lt(a[p], a[a.len() - 1]));
                lemma_lex_irreflexive(w);
                assert(a.contains(w));
                let q = choose|q: int| 0 <= q < b.len() && b[q] == w;
                if q == b.len() - 1 {
                    assert(w == x);
                }
                assert(db[q] == w);
            }
            if db.contains(w) {
                let q = choose|q: int| 0 <= q < db.len() && db[q] == w;
                assert(b[q] == w);
                assert(lex_lt(b[q], b[b.len() - 1]));
                lemma_lex_irreflexive(w);
                assert(b.contains(w));
                let p = choose|p: int| 0 <= p < a.len() && a[p] == w;
                if p == a.len() - 1 {
                    assert(w == y);
                }
                assert(da[p] == w);
            }
        }
        law_sorted_words_unique(da, db);
        assert(a =~= da.push(x));
        assert(b =~= db.push(y));
    }
}

/// Executable `a < b`.
pub fn str_lt(a: &str, b: &str) -> (r: bool)
    ensures
        r == lex_lt(a@, b@),
{
    let va = crate::text::chars_of(a);
    let vb = crate::text::chars_of(b);
    let mut i: usize = 0;
    assert(va@.subrange(0, va@.len() as int) =~= va@);
    assert(vb@.subrange(0, vb@.len() as int) =~= vb@);
    while i < va.len() && i < vb.len()
        invariant
            i <= va.len(),
            i <= vb.len(),
            va@ == a@,
            vb@ == b@,
            lex_lt(a@, b@) == lex_lt(va@.subrange(i as int, va@.len() as int), vb@.subrange(
                i as int,
                vb@.len() as int,
            )),
        decreases va.len() - i,
    {
        let ghost sa = va@.subrange(i as int, va@.len() as int);
        let ghost sb = vb@.subrange(i as int, vb@.len() as int);
        assert(sa[0] == va@[i as int]);
        assert(sb[0] == vb@[i as int]);
        if va[i] < vb[i] {
            return true;
        }
        if va[i] > vb[i] {
            return false;
        }
        assert(sa.drop_first() =~= va@.subrange(i + 1, va@.len() as int));
        assert(sb.drop_first() =~= vb@.subrange(i + 1, vb@.len() as int));
        i = i + 1;
    }
    i < vb.len()
}

proof fn lemma_insert_keeps_sorted(s: Seq<Seq<char>>, pos: int, w: Seq<char>)
    requires
        strictly_sorted(s),
        0 <= pos <= s.len(),
        forall|k: int| 0 <= k < pos ==> lex_lt(#[trigger] s[k], w),
        forall|k: int| pos <= k < s.len() ==> lex_lt(w, #[trigger] s[k]),
    ensures
        strictly_sorted(s.insert(pos, w)),
{
    let t = s.insert(pos, w);
    assert forall|i: int, j: int| 0 <= i < j < t.len() implies lex_lt(#[trigger] t[i], #[trigger] t[j]) by {
        if i < pos && j < pos {
            assert(t[i] == s[i] && t[j] == s[j]);
        } else if i < pos && j == pos {
            assert(t[i] == s[i]);
        } else if i < pos {
            assert(t[i] == s[i] && t[j] == s[j - 1]);
            lemma_lex_transitive(s[i], w, s[j - 1]);
        } else if i == pos {
            assert(t[j] == s[j - 1]);
        } else {
            assert(t[i] == s[i - 1] && t[j] == s[j - 1]);
        }
    }
}

/// The words of `words`, sorted in `String` order, each once.
pub fn sort_unique(words: &Vec<String>) -> (r: Vec<String>)
    ensures
        strictly_sorted(string_views(r@)),
        forall|w: Seq<char>| string_views(r@).contains(w) <==> string_views(words@).contains(w),
{
    let mut out: Vec<String> = Vec::new();
    let mut i: usize = 0;
    while i < words.len()
        invariant
            i <= words.len(),
            strictly_sorted(string_views(out@)),
            forall|w: Seq<char>|
                string_views(out@).contains(w) <==> string_views(words@.subrange(0, i as int)).contains(w),
        decreases words.len() - i,
    {
        let w = &words[i];
        let ghost ov = string_views(out@);
        let mut pos: usize = 0;
        let mut dup = false;
        let mut stop = false;
        while pos < out.len() && !stop
            invariant
                pos <= out.len(),
                ov == string_views(out@),
                strictly_sorted(ov),
                forall|k: int| 0 <= k < pos ==> lex_lt(#[trigger] ov[k], w@),
                dup ==> stop,
                stop ==> pos < ov.len(),
                stop && dup ==> ov[pos as int] == w@,
                stop && !dup ==> lex_lt(w@, ov[pos as int]),
            decreases out.len() - pos + (if stop { 0int } else { 1int }),
        {
            if crate::text::str_eq(out[pos].as_str(), w.as_str()) {
                dup = true;
                stop = true;
            } else if str_lt(w.as_str(), out[pos].as_str()) {
                stop = true;
            } else {
                proof {
                    lemma_lex_total(ov[pos as int], w@);
                }
                pos = pos + 1;
            }
        }
        let ghost prev_words = string_views(words@.subrange(0, i as int));
        let ghost next_words = string_views(words@.subrange(0, i + 1));
        assert(next_words =~= prev_words.push(w@));
        if dup {
            assert forall|x: Seq<char>| string_views(out@).contains(x) implies next_words.contains(x) by {
                assert(prev_words.contains(x));
                let k = choose|k: int| 0 <= k < prev_words.len() && prev_words[k] == x;
                assert(next_words[k] == x);
            }
            assert forall|x: Seq<char>| next_words.contains(x) implies string_views(out@).contains(x) by {
                let k = choose|k: int| 0 <= k < next_words.len() && next_words[k] == x;
                if k == prev_words.len() {
                    assert(x == w@);
                    assert(ov[pos as int] == x);
                } else {
                    assert(prev_words[k] == x);
                    assert(prev_words.contains(x));
                }
            }
        } else {
            proof {
                assert forall|k: int| pos <= k < ov.len() implies lex_lt(w@, #[trigger] ov[k]) by {
                    if k > pos {
                        assert(lex_lt(ov[pos as int], ov[k]));
                        lemma_lex_transitive(w@, ov[pos as int], ov[k]);
                    }
                }
                lemma_insert_keeps_sorted(ov, pos as int, w@);
            }
            out.insert(pos, w.clone());
            assert(string_views(out@) =~= ov.insert(pos as int, w@));
            let ghost nv = string_views(out@);
            assert forall|x: Seq<char>| nv.contains(x) implies next_words.contains(x) by {
                let k = choose|k: int| 0 <= k < nv.len() && nv[k] == x;
                if k == pos {
                    assert(next_words[i as int] == x);
                } else {
                    if k < pos {
                        assert(ov[k] == x);
                    } else {
                        assert(ov[k - 1] == x);
                    }
                    assert(ov.contains(x));
                    assert(prev_words.contains(x));
                    let m = choose|m: int| 0 <= m < prev_words.len() && prev_words[m] == x;
                    assert(next_words[m] == x);
                }
            }
            assert forall|x: Seq<char>| next_words.contains(x) implies nv.contains(x) by {
                let m = choose|m: int| 0 <= m < next_words.len() && next_words[m] == x;
                if m == prev_words.len() {
                    assert(nv[pos as int] == x);
                } else {
                    assert(prev_words[m] == x);
                    assert(prev_words.contains(x));
                    assert(ov.contains(x));
                    let k = choose|k: int| 0 <= k < ov.len() && ov[k] == x;
                    if k < pos {
                        assert(nv[k] == x);
                    } else {
                        assert(nv[k + 1] == x);
                    }
                }
            }
        }
        i = i + 1;
    }
    assert(words@.subrange(0, words@.len() as int) =~= words@);
    out
}

} // verus!
