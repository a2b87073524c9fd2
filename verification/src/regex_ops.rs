//! Calls into the `regex` crate: compiling user filters, matching descriptions
//! against them, and escaping literal words.

use vstd::prelude::*;

use crate::words::string_views;

verus! {

/// Whether the regular expression compiled from `pattern` matches somewhere
/// in `text` (`Regex::is_match`).
pub uninterp spec fn regex_is_match(pattern: Seq<char>, text: Seq<char>) -> bool;

/// The text of the error that `regex::Regex::new(pattern)` returns, as its
/// `Display` writes it.
pub uninterp spec fn regex_error_text(pattern: Seq<char>) -> Seq<char>;

/// `regex::Regex`, a compiled expression; Verus sees nothing inside it.
#[verifier::external_type_specification]
#[verifier::external_body]
pub struct ExRegex(regex::Regex);

/// A filter pattern together with the regular expression compiled from it.
/// Only `regex_check` builds one, so `regex` is always `Regex::new(pattern)`.
pub struct CompiledPattern {
    pattern: String,
    regex: regex::Regex,
}

impl View for CompiledPattern {
    type V = Seq<char>;

    closed spec fn view(&self) -> Seq<char> {
        self.pattern@
    }
}

impl CompiledPattern {
    /// The pattern the expression was compiled from.
    pub fn as_str(&self) -> (r: &str)
        ensures
            r@ == self@,
    {
        self.pattern.as_str()
    }
}

/// `regex::Regex::new(pattern)`. On success the compiled expression is kept
/// with its pattern; on failure the error's text is returned. Which patterns
/// compile is not stated: besides the syntax it depends on the crate's
/// compiled-size limit, which counts memory in a machine-dependent way.
#[verifier::external_body]
pub(crate) fn regex_check(pattern: &str) -> (r: Result<CompiledPattern, String>)
    ensures
        r matches Ok(c) ==> c@ == pattern@,
        r matches Err(m) ==> m@ == regex_error_text(pattern@),
{
    match regex::Regex::new(pattern) {
        Ok(re) => Ok(CompiledPattern { pattern: pattern.to_string(), regex: re }),
        Err(e) => Err(e.to_string()),
    }
}

/// `Regex::is_match(text)` on the expression compiled from `c`'s pattern: the
/// contract names the outcome and says nothing of which texts match.
#[verifier::external_body]
pub(crate) fn regex_matches(c: &CompiledPattern, text: &str) -> (b: bool)
    ensures
        b == regex_is_match(c@, text@),
{
    c.regex.is_match(text)
}

/// The compile error of `pattern`, or `None` when it compiled.
pub fn check_pattern(pattern: &str) -> (r: Option<String>)
    ensures
        r matches Some(m) ==> m@ == regex_error_text(pattern@),
{
    match regex_check(pattern) {
        Ok(_) => None,
        Err(e) => Some(e),
    }
}

/// The patterns of `ps` at the positions where `ok` holds, in order.
pub open spec fn kept(ps: Seq<Seq<char>>, ok: Seq<bool>) -> Seq<Seq<char>>
    decreases ps.len(),
{
    if ps.len() == 0 || ok.len() == 0 {
        Seq::empty()
    } else {
        let init = kept(ps.drop_last(), ok.drop_last());
        if ok.last() {
            init.push(ps.last())
        } else {
            init
        }
    }
}

/// `compiled` is what compiling each of `ps` in turn leaves when the patterns
/// that fail are dropped: some of them, in their order.
pub open spec fn compiled_subset(ps: Seq<Seq<char>>, compiled: Seq<Seq<char>>) -> bool {
    exists|ok: Seq<bool>| ok.len() == ps.len() && #[trigger] kept(ps, ok) == compiled
}

/// The patterns of compiled expressions.
pub open spec fn compiled_views(cs: Seq<CompiledPattern>) -> Seq<Seq<char>> {
    cs.map_values(|c: CompiledPattern| c@)
}

/// Compiles each of `patterns` and keeps those that compile, in order.
pub fn compile_patterns(patterns: &Vec<String>) -> (r: Vec<CompiledPattern>)
    ensures
        compiled_subset(string_views(patterns@), compiled_views(r@)),
{
    let ghost ps = string_views(patterns@);
    let ghost mut ok: Seq<bool> = Seq::empty();
    let mut r: Vec<CompiledPattern> = Vec::new();
    let mut i: usize = 0;
    while i < patterns.len()
        invariant
            i <= patterns.len(),
            ps == string_views(patterns@),
            ok.len() == i,
            compiled_views(r@) == kept(ps.subrange(0, i as int), ok),
        decreases patterns.len() - i,
    {
        let ghost before = r@;
        let ghost ok0 = ok;
        let b = match regex_check(patterns[i].as_str()) {
            Ok(c) => {
                r.push(c);
                true
            },
            Err(_) => false,
        };
        proof {
            ok = ok.push(b);
            let pre = ps.subrange(0, i as int);
            let post = ps.subrange(0, i + 1);
            assert(post.drop_last() =~= pre);
            assert(ok.drop_last() =~= ok0);
            assert(post.last() == patterns@[i as int]@);
            if b {
                assert(compiled_views(r@) =~= compiled_views(before).push(patterns@[i as int]@));
            } else {
                assert(compiled_views(r@) =~= compiled_views(before));
            }
        }
        i = i + 1;
    }
    assert(ps.subrange(0, ps.len() as int) =~= ps);
    assert(kept(ps, ok) == compiled_views(r@));
    r
}

/// The characters that `regex_syntax::is_meta_character` accepts.
pub open spec fn is_regex_meta(c: char) -> bool {
    c == '\\' || c == '.' || c == '+' || c == '*' || c == '?' || c == '(' || c == ')' || c == '|'
        || c == '[' || c == ']' || c == '{' || c == '}' || c == '^' || c == '$' || c == '#' || c
        == '&' || c == '-' || c == '~'
}

/// `regex::escape(s)`: a backslash in front of every meta character.
pub open spec fn regex_escape_spec(s: Seq<char>) -> Seq<char>
    decreases s.len(),
{
    if s.len() == 0 {
        Seq::empty()
    } else {
        let init = regex_escape_spec(s.drop_last());
        if is_regex_meta(s.last()) {
            init + seq!['\\', s.last()]
        } else {
            init.push(s.last())
        }
    }
}

/// `regex::escape`: puts a backslash in front of each of the characters
/// `\ . + * ? ( ) | [ ] { } ^ $ # & - ~` and keeps all others.
#[verifier::external_body]
pub(crate) fn regex_escape(s: &str) -> (r: String)
    ensures
        r@ == regex_escape_spec(s@),
{
    regex::escape(s)
}

/// The first of the compiled patterns that matches `text`.
pub open spec fn first_matching_pattern(compiled: Seq<Seq<char>>, text: Seq<char>) -> Option<
    Seq<char>,
>
    decreases compiled.len(),
{
    if compiled.len() == 0 {
        None
    } else if regex_is_match(compiled[0], text) {
        Some(compiled[0])
    } else {
        first_matching_pattern(compiled.drop_first(), text)
    }
}

/// The position of the first of the compiled patterns that matches `text`.
pub fn find_matching_pattern(compiled: &Vec<CompiledPattern>, text: &str) -> (r: Option<usize>)
    ensures
        match r {
            Some(i) => i < compiled.len() && first_matching_pattern(compiled_views(compiled@), text@)
                == Some(compiled@[i as int]@),
            None => first_matching_pattern(compiled_views(compiled@), text@) is None,
        },
{
    let ghost ps = compiled_views(compiled@);
    assert(ps.subrange(0, ps.len() as int) =~= ps);
    let mut i: usize = 0;
    while i < compiled.len()
        invariant
            i <= compiled.len(),
            ps == compiled_views(compiled@),
            first_matching_pattern(ps, text@) == first_matching_pattern(
                ps.subrange(i as int, ps.len() as int),
                text@,
            ),
        decreases compiled.len() - i,
    {
        let ghost rest = ps.subrange(i as int, ps.len() as int);
        assert(rest[0] == compiled@[i as int]@);
        assert(rest.drop_first() =~= ps.subrange(i + 1, ps.len() as int));
        if regex_matches(&compiled[i], text) {
            return Some(i);
        }
        i = i + 1;
    }
    assert(ps.subrange(i as int, ps.len() as int) =~= Seq::<Seq<char>>::empty());
    None
}

} // verus!
