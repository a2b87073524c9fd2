//! Words suggested for new filters: the cleaned words of the descriptions that
//! no category filter matches.

use vstd::prelude::*;

use crate::ordering::{sort_unique, strictly_sorted};
use crate::report::{
    assign_compiled, category_index, compile_categories, compiled_from, matchers, CategoryFilters,
    CompiledCategory,
};
use crate::text::{chars_of, extend_range, is_whitespace, is_ws, string_from_chars, utf8_len, utf8_len_of};
use crate::words::{dedup, merge_words, string_views};

verus! {

/// What `str::to_lowercase` returns for `s`.
pub uninterp spec fn lowercase(s: Seq<char>) -> Seq<char>;

/// What `char::is_alphanumeric` returns for `c`.
pub uninterp spec fn alphanumeric(c: char) -> bool;

/// `str::to_lowercase`: the Unicode lowercase mapping of the whole string.
/// The contract names the result; it does not spell out the mapping.
#[verifier::external_body]
pub(crate) fn to_lowercase(s: &str) -> (r: String)
    ensures
        r@ == lowercase(s@),
{
    s.to_lowercase()
}

/// `char::is_alphanumeric`: the Unicode `Alphabetic` or `Numeric` property.
/// The contract names the result; it does not list the characters.
#[verifier::external_body]
pub(crate) fn is_alphanumeric(c: char) -> (b: bool)
    ensures
        b == alphanumeric(c),
{
    c.is_alphanumeric()
}

/// `s` with every leading and trailing non-alphanumeric character removed
/// (`trim_matches(|c| !c.is_alphanumeric())`).
pub open spec fn trim_non_alnum(s: Seq<char>) -> Seq<char>
    decreases s.len(),
{
    if s.len() == 0 {
        s
    } else if !alphanumeric(s[0]) {
        trim_non_alnum(s.drop_first())
    } else if !alphanumeric(s.last()) {
        trim_non_alnum(s.drop_last())
    } else {
        s
    }
}

/// `s[a..b]` is one of the words of `str::split_whitespace`: a maximal
/// non-empty run of non-white-space characters.
pub open spec fn word_at(s: Seq<char>, a: int, b: int) -> bool {
    &&& 0 <= a < b <= s.len()
    &&& forall|k: int| a <= k < b ==> !is_ws(#[trigger] s[k])
    &&& (a == 0 || is_ws(s[a - 1]))
    &&& (b == s.len() || is_ws(s[b]))
}

/// A word lowercased, then trimmed of non-alphanumeric characters.
pub open spec fn cleaned_word(w: Seq<char>) -> Seq<char> {
    trim_non_alnum(lowercase(w))
}

/// `w` is suggested by a word of `s` that ends before position `limit`:
/// it is that word cleaned, and at least two bytes long in UTF-8.
pub open spec fn suggested_before(s: Seq<char>, w: Seq<char>, limit: int) -> bool {
    exists|a: int, b: int|
        #[trigger] word_at(s, a, b) && b < limit && w == cleaned_word(s.subrange(a, b)) && utf8_len(w)
            >= 2
}

/// `w` is suggested by some word of `s`.
pub open spec fn suggested_by(s: Seq<char>, w: Seq<char>) -> bool {
    suggested_before(s, w, s.len() + 1 as int)
}

/// `w` is suggested by a description that no category matches.
pub open spec fn suggested_word(
    descriptions: Seq<String>,
    cats: Seq<(Seq<char>, Seq<Seq<char>>)>,
    w: Seq<char>,
) -> bool {
    exists|d: int|
        0 <= d < descriptions.len() && category_index(cats, (#[trigger] descriptions[d])@) is None
            && suggested_by(descriptions[d]@, w)
}

/// Bounds `lo..hi` of `v` with `v[lo..hi]` the trimmed word.
fn trim_bounds(v: &Vec<char>) -> (r: (usize, usize))
    ensures
        r.0 <= r.1 <= v.len(),
        v@.subrange(r.0 as int, r.1 as int) == trim_non_alnum(v@),
{
    let mut lo: usize = 0;
    let mut hi: usize = v.len();
    assert(v@.subrange(0, v@.len() as int) =~= v@);
    while lo < hi && !is_alphanumeric(v[lo])
        invariant
            lo <= hi == v.len(),
            trim_non_alnum(v@) == trim_non_alnum(v@.subrange(lo as int, hi as int)),
        decreases hi - lo,
    {
        assert(v@.subrange(lo as int, hi as int).drop_first() =~= v@.subrange(lo + 1, hi as int));
        lo = lo + 1;
    }
    while lo < hi && !is_alphanumeric(v[hi - 1])
        invariant
            lo <= hi <= v.len(),
            lo < hi ==> alphanumeric(v@[lo as int]),
            trim_non_alnum(v@) == trim_non_alnum(v@.subrange(lo as int, hi as int)),
        decreases hi - lo,
    {
        let ghost s = v@.subrange(lo as int, hi as int);
        assert(s[0] == v@[lo as int]);
        assert(s.last() == v@[hi - 1]);
        assert(s.drop_last() =~= v@.subrange(lo as int, hi - 1));
        hi = hi - 1;
    }
    proof {
        let s = v@.subrange(lo as int, hi as int);
        if lo < hi {
            assert(s[0] == v@[lo as int]);
            assert(s.last() == v@[hi - 1]);
        }
    }
    (lo, hi)
}

/// The cleaned form of `v[a..b]`.
fn clean_word(v: &Vec<char>, a: usize, b: usize) -> (r: Vec<char>)
    requires
        a <= b <= v.len(),
    ensures
        r@ == cleaned_word(v@.subrange(a as int, b as int)),
{
    let mut raw: Vec<char> = Vec::new();
    extend_range(&mut raw, v, a, b);
    assert(raw@ =~= v@.subrange(a as int, b as int));
    let word = string_from_chars(&raw);
    let lower = to_lowercase(word.as_str());
    let lv = chars_of(lower.as_str());
    let (lo, hi) = trim_bounds(&lv);
    let mut out: Vec<char> = Vec::new();
    extend_range(&mut out, &lv, lo, hi);
    assert(out@ =~= lv@.subrange(lo as int, hi as int));
    out
}

/// Any two words ending at the same place start at the same place.
proof fn lemma_word_start_unique(s: Seq<char>, a: int, b: int, st: int, i: int)
    requires
        word_at(s, a, b),
        b == i,
        0 <= st < i,
        st == 0 || is_ws(s[st - 1]),
        forall|k: int| st <= k < i ==> !is_ws(#[trigger] s[k]),
    ensures
        a == st,
{
    if st < a {
        assert(!is_ws(s[a - 1]));
    } else if a < st {
        assert(!is_ws(s[st - 1]));
    }
}

/// Emitting the word that ends at `i` extends the suggestions from the words
/// ending before `i` to those ending before `i + 1`.
proof fn lemma_emit_word(
    sv: Seq<char>,
    base: Seq<Seq<char>>,
    before: Seq<Seq<char>>,
    now: Seq<Seq<char>>,
    cw: Seq<char>,
    st: int,
    i: int,
    pushed: bool,
)
    requires
        0 <= st < i <= sv.len(),
        st == 0 || is_ws(sv[st - 1]),
        forall|k: int| st <= k < i ==> !is_ws(#[trigger] sv[k]),
        i == sv.len() || is_ws(sv[i]),
        cw == cleaned_word(sv.subrange(st, i)),
        pushed <==> utf8_len(cw) >= 2,
        now == (if pushed { before.push(cw) } else { before }),
        forall|w: Seq<char>|
            before.contains(w) <==> (base.contains(w) || suggested_before(sv, w, i)),
    ensures
        forall|w: Seq<char>|
            now.contains(w) <==> (base.contains(w) || suggested_before(sv, w, i + 1)),
{
    assert(word_at(sv, st, i));
    assert forall|w: Seq<char>|
        now.contains(w) <==> (base.contains(w) || suggested_before(sv, w, i + 1)) by {
        if suggested_before(sv, w, i + 1) && !suggested_before(sv, w, i) {
            let (a, b) = choose|a: int, b: int|
                #[trigger] word_at(sv, a, b) && b < i + 1 && w == cleaned_word(sv.subrange(a, b))
                    && utf8_len(w) >= 2;
            lemma_word_start_unique(sv, a, b, st, i);
            assert(now[now.len() - 1] == w);
        }
        if before.contains(w) {
            let m = choose|m: int| 0 <= m < before.len() && before[m] == w;
            assert(now[m] == w);
        }
        if now.contains(w) && !before.contains(w) {
            let m = choose|m: int| 0 <= m < now.len() && now[m] == w;
            if m < before.len() {
                assert(before[m] == w);
            }
            assert(w == cw);
            assert(word_at(sv, st, i) && i < i + 1 && w == cleaned_word(sv.subrange(st, i)));
        }
        if suggested_before(sv, w, i) {
            let (a, b) = choose|a: int, b: int|
                #[trigger] word_at(sv, a, b) && b < i && w == cleaned_word(sv.subrange(a, b))
                    && utf8_len(w) >= 2;
            assert(word_at(sv, a, b) && b < i + 1);
        }
    }
}

/// No word ends at `i` when the character before it is white space or the
/// character at it is not: the suggestions before `i` and `i + 1` agree.
proof fn lemma_no_word_ends_at(sv: Seq<char>, i: int, base: Seq<Seq<char>>, cur: Seq<Seq<char>>)
    requires
        0 <= i <= sv.len(),
        i == 0 || is_ws(sv[i - 1]) || (i < sv.len() && !is_ws(sv[i])),
        forall|w: Seq<char>| cur.contains(w) <==> (base.contains(w) || suggested_before(sv, w, i)),
    ensures
        forall|w: Seq<char>|
            cur.contains(w) <==> (base.contains(w) || suggested_before(sv, w, i + 1)),
{
    assert forall|w: Seq<char>| suggested_before(sv, w, i + 1) implies suggested_before(sv, w, i) by {
        let (a, b) = choose|a: int, b: int|
            #[trigger] word_at(sv, a, b) && b < i + 1 && w == cleaned_word(sv.subrange(a, b))
                && utf8_len(w) >= 2;
        if b == i {
            assert(!is_ws(sv[i - 1]));
            if i < sv.len() {
                assert(is_ws(sv[i]));
            }
        }
    }
    assert forall|w: Seq<char>| suggested_before(sv, w, i) implies suggested_before(sv, w, i + 1) by {
        let (a, b) = choose|a: int, b: int|
            #[trigger] word_at(sv, a, b) && b < i && w == cleaned_word(sv.subrange(a, b))
                && utf8_len(w) >= 2;
        assert(word_at(sv, a, b) && b < i + 1);
    }
}

/// Adds to `out` the suggestions of the words of `s`.
#[verifier::spinoff_prover]
fn collect_suggestions(s: &str, out: &mut Vec<String>)
    ensures
        forall|w: Seq<char>|
            string_views(final(out)@).contains(w) <==> (string_views(old(out)@).contains(w)
                || suggested_by(s@, w)),
{
    let v = chars_of(s);
    let ghost sv = v@;
    let ghost base = string_views(out@);
    let n = v.len();
    let mut start: Option<usize> = None;
    let mut i: usize = 0;
    while i < n
        invariant
            i <= n == v.len(),
            sv == v@,
            start matches None ==> (i == 0 || is_ws(sv[i - 1])),
            start matches Some(st) ==> st < i && (st == 0 || is_ws(sv[st - 1])) && forall|k: int|
                st <= k < i ==> !is_ws(#[trigger] sv[k]),
            forall|w: Seq<char>|
                string_views(out@).contains(w) <==> (base.contains(w) || suggested_before(
                    sv,
                    w,
                    i as int,
                )),
        decreases n - i,
    {
        let c = v[i];
        if is_whitespace(c) {
            match start {
                Some(st) => {
                    let ghost before = string_views(out@);
                    let cw = clean_word(&v, st, i);
                    let len = utf8_len_of(&cw);
                    if len >= 2 {
                        out.push(string_from_chars(&cw));
                    }
                    proof {
                        let now = string_views(out@);
                        if len >= 2 {
                            assert(now =~= before.push(cw@));
                        } else {
                            assert(now =~= before);
                        }
                        lemma_emit_word(sv, base, before, now, cw@, st as int, i as int, len >= 2);
                    }
                },
                None => {
                    proof {
                        lemma_no_word_ends_at(sv, i as int, base, string_views(out@));
                    }
                },
            }
            start = None;
        } else {
            proof {
                lemma_no_word_ends_at(sv, i as int, base, string_views(out@));
            }
            if start.is_none() {
                start = Some(i);
            }
        }
        i = i + 1;
    }
    match start {
        Some(st) => {
            let ghost before = string_views(out@);
            let cw = clean_word(&v, st, n);
            let len = utf8_len_of(&cw);
            if len >= 2 {
                out.push(string_from_chars(&cw));
            }
            proof {
                let now = string_views(out@);
                if len >= 2 {
                    assert(now =~= before.push(cw@));
                } else {
                    assert(now =~= before);
                }
                lemma_emit_word(sv, base, before, now, cw@, st as int, n as int, len >= 2);
                assert(sv == s@);
                assert(forall|w: Seq<char>|
                    string_views(out@).contains(w) <==> (base.contains(w) || suggested_by(s@, w)));
            }
        },
        None => {
            proof {
                lemma_no_word_ends_at(sv, n as int, base, string_views(out@));
                assert(sv == s@);
                assert(forall|w: Seq<char>|
                    string_views(out@).contains(w) <==> (base.contains(w) || suggested_by(s@, w)));
            }
        },
    }
}

/// The words of the descriptions that none of the compiled category filters
/// matches, split at white space, lowercased, trimmed of non-alphanumeric
/// characters, kept when at least two bytes long; sorted in `String` order,
/// each once.
pub fn extract_compiled_words(descriptions: &Vec<String>, compiled: &Vec<CompiledCategory>) -> (r: Vec<
    String,
>)
    ensures
        suggestions_of(r@, descriptions@, matchers(compiled@)),
{
    let ghost cm = matchers(compiled@);
    let assignment = assign_compiled(descriptions, compiled);
    let mut words: Vec<String> = Vec::new();
    let mut d: usize = 0;
    while d < descriptions.len()
        invariant
            d <= descriptions.len(),
            cm == matchers(compiled@),
            assignment@.len() == descriptions@.len(),
            forall|i: int|
                0 <= i < assignment@.len() ==> match #[trigger] assignment@[i] {
                    Some(k) => category_index(cm, descriptions@[i]@) == Some(k as int),
                    None => category_index(cm, descriptions@[i]@) is None,
                },
            forall|w: Seq<char>|
                string_views(words@).contains(w) <==> suggested_word(
                    descriptions@.subrange(0, d as int),
                    cm,
                    w,
                ),
        decreases descriptions.len() - d,
    {
        let ghost pre = descriptions@.subrange(0, d as int);
        let ghost post = descriptions@.subrange(0, d + 1);
        let uncategorized = assignment[d].is_none();
        if uncategorized {
            collect_suggestions(descriptions[d].as_str(), &mut words);
        }
        proof {
            assert(post[d as int] == descriptions@[d as int]);
            assert(match assignment@[d as int] {
                Some(k) => category_index(cm, descriptions@[d as int]@) == Some(k as int),
                None => category_index(cm, descriptions@[d as int]@) is None,
            });
            assert forall|w: Seq<char>|
                string_views(words@).contains(w) <==> suggested_word(post, cm, w) by {
                if suggested_word(post, cm, w) {
                    let t = choose|t: int|
                        0 <= t < post.len() && category_index(cm, (#[trigger] post[t])@)
                            is None && suggested_by(post[t]@, w);
                    if t < d {
                        assert(pre[t] == post[t]);
                        assert(suggested_word(pre, cm, w));
                    }
                }
                if suggested_word(pre, cm, w) {
                    let t = choose|t: int|
                        0 <= t < pre.len() && category_index(cm, (#[trigger] pre[t])@)
                            is None && suggested_by(pre[t]@, w);
                    assert(post[t] == pre[t]);
                }
                if uncategorized && suggested_by(descriptions@[d as int]@, w) {
                    assert(category_index(cm, post[d as int]@) is None);
                }
            }
        }
        d = d + 1;
    }
    assert(descriptions@.subrange(0, descriptions@.len() as int) =~= descriptions@);
    sort_unique(&words)
}

/// `r` lists, sorted and each once, exactly the words suggested by the
/// descriptions that no category matches.
pub open spec fn suggestions_of(
    r: Seq<String>,
    descriptions: Seq<String>,
    cats: Seq<(Seq<char>, Seq<Seq<char>>)>,
) -> bool {
    &&& strictly_sorted(string_views(r))
    &&& forall|w: Seq<char>| string_views(r).contains(w) <==> suggested_word(descriptions, cats, w)
}

/// The words of the descriptions that no category filter matches (filters
/// that do not compile are left out), split at white space, lowercased,
/// trimmed of non-alphanumeric characters, kept when at least two bytes long;
/// sorted in `String` order, each once.
pub fn extract_words(descriptions: &Vec<String>, categories: &Vec<CategoryFilters>) -> (r: Vec<
    String,
>)
    ensures
        exists|m: Seq<(Seq<char>, Seq<Seq<char>>)>|
            #[trigger] compiled_from(categories@, m) && suggestions_of(r@, descriptions@, m),
{
    let compiled = compile_categories(categories);
    let r = extract_compiled_words(descriptions, &compiled);
    assert(compiled_from(categories@, matchers(compiled@)));
    r
}

/// The words suggested for a new filter merged after the words already
/// chosen: the chosen ones first, then the suggestions, each word once.
pub fn extract_and_merge_words(
    descriptions: &Vec<String>,
    categories: &Vec<CategoryFilters>,
    words: Option<Vec<String>>,
) -> (r: Vec<String>)
    ensures
        exists|m: Seq<(Seq<char>, Seq<Seq<char>>)>, e: Seq<String>|
            #[trigger] compiled_from(categories@, m) && #[trigger] suggestions_of(e, descriptions@, m)
                && string_views(r@) == dedup(
                match words {
                    Some(v) => string_views(v@),
                    None => Seq::<Seq<char>>::empty(),
                } + string_views(e),
            ),
{
    let compiled = compile_categories(categories);
    let available = extract_compiled_words(descriptions, &compiled);
    let current = match words {
        Some(v) => v,
        None => Vec::new(),
    };
    assert(string_views(current@) == match words {
        Some(v) => string_views(v@),
        None => Seq::<Seq<char>>::empty(),
    }) by {
        if words is None {
            assert(string_views(current@) =~= Seq::<Seq<char>>::empty());
        }
    }
    let r = merge_words(current.as_slice(), available.as_slice());
    assert(compiled_from(categories@, matchers(compiled@)));
    assert(suggestions_of(available@, descriptions@, matchers(compiled@)));
    r
}

} // verus!
