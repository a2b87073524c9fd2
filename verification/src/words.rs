//! Word lists offered when building a filter.

use vstd::prelude::*;

use crate::text::str_eq;

verus! {

/// The views of a list of strings.
pub open spec fn string_views(v: Seq<String>) -> Seq<Seq<char>> {
    v.map_values(|s: String| s@)
}

/// `s` without repetitions, each word kept at its first occurrence.
pub open spec fn dedup(s: Seq<Seq<char>>) -> Seq<Seq<char>>
    decreases s.len(),
{
    if s.len() == 0 {
        Seq::empty()
    } else {
        let d = dedup(s.drop_last());
        if d.contains(s.last()) {
            d
        } else {
            d.push(s.last())
        }
    }
}

fn contains_word(v: &Vec<String>, w: &String) -> (r: bool)
    ensures
        r == string_views(v@).contains(w@),
{
    let mut i: usize = 0;
    while i < v.len()
        invariant
            i <= v.len(),
            forall|k: int| 0 <= k < i ==> v@[k]@ != w@,
        decreases v.len() - i,
    {
        if str_eq(v[i].as_str(), w.as_str()) {
            assert(string_views(v@)[i as int] == w@);
            return true;
        }
        i = i + 1;
    }
    assert forall|k: int| 0 <= k < string_views(v@).len() implies string_views(v@)[k] != w@ by {
        assert(string_views(v@)[k] == v@[k]@);
    }
    false
}

fn push_unique(merged: &mut Vec<String>, word: &String, Ghost(all): Ghost<Seq<Seq<char>>>)
    requires
        string_views(old(merged)@) == dedup(all),
    ensures
        string_views(final(merged)@) == dedup(all.push(word@)),
{
    assert(all.push(word@).drop_last() =~= all);
    if !contains_word(merged, word) {
        merged.push(word.clone());
        assert(string_views(merged@) =~= dedup(all).push(word@));
    }
}

/// Merges two word lists: the words of `existing`, then those of `available`,
/// each word once, at its first occurrence.
pub fn merge_words(existing: &[String], available: &[String]) -> (r: Vec<String>)
    ensures
        string_views(r@) == dedup(string_views(existing@) + string_views(available@)),
{
    let mut merged: Vec<String> = Vec::new();
    let mut i: usize = 0;
    while i < existing.len()
        invariant
            i <= existing.len(),
            string_views(merged@) == dedup(string_views(existing@.subrange(0, i as int))),
        decreases existing.len() - i,
    {
        push_unique(&mut merged, &existing[i], Ghost(string_views(existing@.subrange(0, i as int))));
        assert(string_views(existing@.subrange(0, i as int)).push(existing@[i as int]@)
            =~= string_views(existing@.subrange(0, i + 1)));
        i = i + 1;
    }
    assert(existing@.subrange(0, existing@.len() as int) =~= existing@);
    let mut j: usize = 0;
    while j < available.len()
        invariant
            j <= available.len(),
            string_views(merged@) == dedup(
                string_views(existing@) + string_views(available@.subrange(0, j as int)),
            ),
        decreases available.len() - j,
    {
        push_unique(
            &mut merged,
            &available[j],
            Ghost(string_views(existing@) + string_views(available@.subrange(0, j as int))),
        );
        assert((string_views(existing@) + string_views(available@.subrange(0, j as int))).push(
            available@[j as int]@,
        ) =~= string_views(existing@) + string_views(available@.subrange(0, j + 1)));
        j = j + 1;
    }
    assert(available@.subrange(0, available@.len() as int) =~= available@);
    merged
}

/// The merged list holds no word twice, and holds exactly the words of the two
/// lists.
pub proof fn law_dedup_unique_and_complete(s: Seq<Seq<char>>)
    ensures
        dedup(s).no_duplicates(),
        forall|w: Seq<char>| dedup(s).contains(w) <==> s.contains(w),
    decreases s.len(),
{
    if s.len() > 0 {
        let p = s.drop_last();
        let x = s.last();
        law_dedup_unique_and_complete(p);
        let d = dedup(p);
        assert forall|w: Seq<char>| dedup(s).contains(w) implies s.contains(w) by {
            if d.contains(w) {
                assert(p.contains(w));
                let k = choose|k: int| 0 <= k < p.len() && p[k] == w;
                assert(s[k] == w);
            } else {
                let m = choose|m: int| 0 <= m < dedup(s).len() && dedup(s)[m] == w;
                assert(m == d.len());
                assert(w == x);
                assert(s[s.len() - 1] == w);
            }
        }
        assert forall|w: Seq<char>| s.contains(w) implies dedup(s).contains(w) by {
            let k = choose|k: int| 0 <= k < s.len() && s[k] == w;
            if k < s.len() - 1 {
                assert(p[k] == w);
                assert(p.contains(w));
                assert(d.contains(w));
                let m = choose|m: int| 0 <= m < d.len() && d[m] == w;
                assert(dedup(s)[m] == w);
            } else {
                assert(w == x);
                if d.contains(x) {
                } else {
                    assert(dedup(s)[d.len() as int] == w);
                }
            }
        }
        if !d.contains(x) {
            assert forall|i: int, j: int|
                0 <= i < dedup(s).len() && 0 <= j < dedup(s).len() && i != j implies dedup(s)[i]
                != dedup(s)[j] by {
                if i < d.len() && j < d.len() {
                } else if i < d.len() {
                    assert(dedup(s)[j] == x);
                    assert(d[i] == dedup(s)[i]);
                } else {
                    assert(dedup(s)[i] == x);
                    assert(d[j] == dedup(s)[j]);
                }
            }
        }
    }
}

/// `d` followed by the words of `y` it does not hold yet, each once, in order.
pub open spec fn extend_unique(d: Seq<Seq<char>>, y: Seq<Seq<char>>) -> Seq<Seq<char>>
    decreases y.len(),
{
    if y.len() == 0 {
        d
    } else {
        let e = extend_unique(d, y.drop_last());
        if e.contains(y.last()) {
            e
        } else {
            e.push(y.last())
        }
    }
}

/// Dedup of `p + y` goes through dedup of `p`.
proof fn lemma_dedup_split(p: Seq<Seq<char>>, y: Seq<Seq<char>>)
    ensures
        dedup(p + y) == extend_unique(dedup(p), y),
    decreases y.len(),
{
    if y.len() == 0 {
        assert(p + y =~= p);
    } else {
        assert((p + y).drop_last() =~= p + y.drop_last());
        assert((p + y).last() == y.last());
        lemma_dedup_split(p, y.drop_last());
    }
}

/// Extending by words already held changes nothing.
proof fn lemma_extend_held(d: Seq<Seq<char>>, y: Seq<Seq<char>>)
    requires
        forall|w: Seq<char>| y.contains(w) ==> d.contains(w),
    ensures
        extend_unique(d, y) == d,
    decreases y.len(),
{
    if y.len() > 0 {
        assert forall|w: Seq<char>| y.drop_last().contains(w) implies d.contains(w) by {
            let k = choose|k: int| 0 <= k < y.drop_last().len() && y.drop_last()[k] == w;
            assert(y[k] == w);
        }
        lemma_extend_held(d, y.drop_last());
        assert(y[y.len() - 1] == y.last());
    }
}

/// Extending by `y1 + y2` is extending by `y1`, then by `y2`.
proof fn lemma_extend_concat(d: Seq<Seq<char>>, y1: Seq<Seq<char>>, y2: Seq<Seq<char>>)
    ensures
        extend_unique(d, y1 + y2) == extend_unique(extend_unique(d, y1), y2),
    decreases y2.len(),
{
    if y2.len() == 0 {
        assert(y1 + y2 =~= y1);
    } else {
        assert((y1 + y2).drop_last() =~= y1 + y2.drop_last());
        assert((y1 + y2).last() == y2.last());
        lemma_extend_concat(d, y1, y2.drop_last());
    }
}

/// The result of extending starts with `d` and holds `d`'s words and `y`'s.
proof fn lemma_extend_shape(d: Seq<Seq<char>>, y: Seq<Seq<char>>)
    ensures
        extend_unique(d, y).len() >= d.len(),
        extend_unique(d, y).subrange(0, d.len() as int) == d,
        forall|w: Seq<char>| extend_unique(d, y).contains(w) <==> (d.contains(w) || y.contains(w)),
    decreases y.len(),
{
    if y.len() > 0 {
        let e0 = extend_unique(d, y.drop_last());
        lemma_extend_shape(d, y.drop_last());
        let e = extend_unique(d, y);
        assert(e.subrange(0, d.len() as int) =~= e0.subrange(0, d.len() as int));
        assert forall|w: Seq<char>| e.contains(w) <==> (d.contains(w) || y.contains(w)) by {
            if e.contains(w) {
                let k = choose|k: int| 0 <= k < e.len() && e[k] == w;
                if k < e0.len() {
                    assert(e0[k] == w);
                    if y.drop_last().contains(w) {
                        let j = choose|j: int| 0 <= j < y.drop_last().len() && y.drop_last()[j] == w;
                        assert(y[j] == w);
                    }
                } else {
                    assert(y[y.len() - 1] == w);
                }
            }
            if y.contains(w) && !d.contains(w) {
                let j = choose|j: int| 0 <= j < y.len() && y[j] == w;
                if j < y.len() - 1 {
                    assert(y.drop_last()[j] == w);
                    let k = choose|k: int| 0 <= k < e0.len() && e0[k] == w;
                    assert(e[k] == w);
                } else if e0.contains(w) {
                    let k = choose|k: int| 0 <= k < e0.len() && e0[k] == w;
                    assert(e[k] == w);
                } else {
                    assert(e[e0.len() as int] == w);
                }
            }
            if d.contains(w) {
                let k = choose|k: int| 0 <= k < d.len() && d[k] == w;
                assert(e.subrange(0, d.len() as int)[k] == w);
                assert(e[k] == w);
            }
        }
    }
}

/// Extending `d` by its own extension gives that extension again.
proof fn lemma_extend_twice(d: Seq<Seq<char>>, a: Seq<Seq<char>>)
    ensures
        extend_unique(d, extend_unique(d, a)) == extend_unique(d, a),
{
    let r = extend_unique(d, a);
    lemma_extend_shape(d, a);
    let tail = r.subrange(d.len() as int, r.len() as int);
    assert(r =~= d + tail);
    lemma_extend_concat(d, d, tail);
    lemma_extend_held(d, d);
    lemma_extend_concat(d, a, tail);
    lemma_extend_shape(r, tail);
    assert forall|w: Seq<char>| tail.contains(w) implies r.contains(w) by {
        let k = choose|k: int| 0 <= k < tail.len() && tail[k] == w;
        assert(r[d.len() + k] == w);
    }
    lemma_extend_held(r, tail);
    lemma_extend_tail(d, a);
}

/// Extending `d` by the words its extension by `a` added gives that
/// extension.
proof fn lemma_extend_tail(d: Seq<Seq<char>>, a: Seq<Seq<char>>)
    ensures
        extend_unique(d, extend_unique(d, a).subrange(
            d.len() as int,
            extend_unique(d, a).len() as int,
        )) == extend_unique(d, a),
    decreases a.len(),
{
    lemma_extend_shape(d, a);
    if a.len() > 0 {
        let a0 = a.drop_last();
        let r0 = extend_unique(d, a0);
        let r = extend_unique(d, a);
        lemma_extend_tail(d, a0);
        lemma_extend_shape(d, a0);
        let t0 = r0.subrange(d.len() as int, r0.len() as int);
        if r0.contains(a.last()) {
            assert(r == r0);
        } else {
            let t = r.subrange(d.len() as int, r.len() as int);
            assert(t =~= t0.push(a.last()));
            assert(t.drop_last() =~= t0);
            assert(t.last() == a.last());
        }
    }
}

/// Merging is idempotent: merging the result again with the same available
/// words, with no words, or into the same existing words gives the result
/// back.
pub proof fn law_merge_idempotent(e: Seq<Seq<char>>, a: Seq<Seq<char>>)
    ensures
        dedup(dedup(e + a) + a) == dedup(e + a),
        dedup(dedup(e + a) + Seq::<Seq<char>>::empty()) == dedup(e + a),
        dedup(e + dedup(e + a)) == dedup(e + a),
{
    let r = dedup(e + a);
    law_dedup_unique_and_complete(e + a);
    law_dedup_unique_and_complete(r);
    // merging r with a: every word of a is already in r
    lemma_dedup_split(r, a);
    assert forall|w: Seq<char>| a.contains(w) implies r.contains(w) by {
        let k = choose|k: int| 0 <= k < a.len() && a[k] == w;
        assert((e + a)[e.len() + k] == w);
        assert((e + a).contains(w));
    }
    lemma_extend_held(dedup(r), a);
    lemma_dedup_of_unique(r);
    // merging r with nothing
    assert(r + Seq::<Seq<char>>::empty() =~= r);
    // merging e with r
    lemma_dedup_split(e, r);
    lemma_dedup_split(e, a);
    lemma_extend_twice(dedup(e), a);
}

/// A list without repetitions is its own dedup.
proof fn lemma_dedup_of_unique(s: Seq<Seq<char>>)
    requires
        s.no_duplicates(),
    ensures
        dedup(s) == s,
    decreases s.len(),
{
    if s.len() > 0 {
        let p = s.drop_last();
        assert(p.no_duplicates()) by {
            assert forall|i: int, j: int| 0 <= i < p.len() && 0 <= j < p.len() && i != j implies p[i]
                != p[j] by {
                assert(p[i] == s[i] && p[j] == s[j]);
            }
        }
        lemma_dedup_of_unique(p);
        if p.contains(s.last()) {
            let k = choose|k: int| 0 <= k < p.len() && p[k] == s.last();
            assert(s[k] == s[s.len() - 1]);
        }
        assert(p.push(s.last()) =~= s);
    }
}

} // verus!
