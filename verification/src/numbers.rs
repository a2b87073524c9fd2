//! Decimal integers: parsing with the rules of Rust's `str::parse`, and printing.

use vstd::prelude::*;

use crate::text::{chars_of, string_from_chars};

verus! {

/// Whether `c` is an ASCII decimal digit.
pub open spec fn is_digit(c: char) -> bool {
    '0' <= c && c <= '9'
}

/// The value of an ASCII digit.
pub open spec fn digit_value(c: char) -> nat {
    ((c as u32) - ('0' as u32)) as nat
}

/// Whether every character of `s` is an ASCII digit.
pub open spec fn all_digits(s: Seq<char>) -> bool {
    forall|i: int| 0 <= i < s.len() ==> is_digit(#[trigger] s[i])
}

/// The value of a string of decimal digits (most significant first).
pub open spec fn digits_value(s: Seq<char>) -> nat
    decreases s.len(),
{
    if s.len() == 0 {
        0
    } else {
        digits_value(s.drop_last()) * 10 + digit_value(s.last())
    }
}

/// What `str::parse` gives for an integer type with bounds `min..=max`: an
/// optional sign (`-` only for signed types), then at least one ASCII digit.
pub open spec fn parse_integer(s: Seq<char>, signed: bool, min: int, max: int) -> Option<int> {
    if s.len() == 0 {
        None
    } else if (s[0] == '+' || s[0] == '-') && s.len() == 1 {
        None
    } else {
        let negative = signed && s[0] == '-';
        let digits = if s[0] == '+' || negative {
            s.drop_first()
        } else {
            s
        };
        if !all_digits(digits) {
            None
        } else {
            let v = if negative {
                -(digits_value(digits) as int)
            } else {
                digits_value(digits) as int
            };
            if min <= v && v <= max {
                Some(v)
            } else {
                None
            }
        }
    }
}

const CAP: u64 = 1_000_000_000_000_000_000;

/// Value of `v[from..]` when all of them are digits, saturating above `CAP`.
fn digits_value_capped(v: &Vec<char>, from: usize) -> (r: Option<u64>)
    requires
        from <= v.len(),
    ensures
        all_digits(v@.subrange(from as int, v@.len() as int)) <==> r is Some,
        r matches Some(x) ==> (digits_value(v@.subrange(from as int, v@.len() as int)) < CAP
            ==> x == digits_value(v@.subrange(from as int, v@.len() as int))),
        r matches Some(x) ==> (digits_value(v@.subrange(from as int, v@.len() as int)) >= CAP
            ==> x == CAP),
{
    let ghost d = v@.subrange(from as int, v@.len() as int);
    let mut acc: u64 = 0;
    let mut i: usize = from;
    while i < v.len()
        invariant
            from <= i <= v.len(),
            d == v@.subrange(from as int, v@.len() as int),
            all_digits(v@.subrange(from as int, i as int)),
            digits_value(v@.subrange(from as int, i as int)) < CAP ==> acc == digits_value(
                v@.subrange(from as int, i as int),
            ),
            digits_value(v@.subrange(from as int, i as int)) >= CAP ==> acc == CAP,
        decreases v.len() - i,
    {
        let c = v[i];
        if !('0' <= c && c <= '9') {
            assert(d[i - from] == c);
            return None;
        }
        let dv = (c as u32 - '0' as u32) as u64;
        let ghost pre = v@.subrange(from as int, i as int);
        let ghost post = v@.subrange(from as int, i + 1);
        assert(post.drop_last() =~= pre);
        assert(digits_value(post) == digits_value(pre) * 10 + digit_value(c));
        if acc >= CAP / 10 {
            acc = CAP;
        } else {
            acc = acc * 10 + dv;
            if acc >= CAP {
                acc = CAP;
            }
        }
        i = i + 1;
        assert(all_digits(v@.subrange(from as int, i as int))) by {
            assert forall|k: int| 0 <= k < post.len() implies is_digit(#[trigger] post[k]) by {
                if k < pre.len() {
                    assert(post[k] == pre[k]);
                }
            }
        }
    }
    Some(acc)
}

/// Parses a decimal integer with the rules of `str::parse` for a type with
/// bounds `min..=max` (signed when `min < 0`).
fn parse_integer_exec(s: &str, min: i64, max: i64) -> (r: Option<i64>)
    requires
        min <= 0 <= max,
        max < CAP,
        -CAP < min,
    ensures
        match parse_integer(s@, min < 0, min as int, max as int) {
            Some(v) => r == Some(v as i64),
            None => r is None,
        },
{
    let v = chars_of(s);
    let signed = min < 0;
    if v.len() == 0 {
        return None;
    }
    if (v[0] == '+' || v[0] == '-') && v.len() == 1 {
        return None;
    }
    let negative = signed && v[0] == '-';
    let from: usize = if v[0] == '+' || negative {
        1
    } else {
        0
    };
    assert(from == 1 ==> v@.subrange(1, v@.len() as int) =~= s@.drop_first());
    assert(from == 0 ==> v@.subrange(0, v@.len() as int) =~= s@);
    match digits_value_capped(&v, from) {
        None => None,
        Some(x) => {
            if x >= CAP {
                return None;
            }
            let val: i64 = if negative {
                -(x as i64)
            } else {
                x as i64
            };
            if min <= val && val <= max {
                Some(val)
            } else {
                None
            }
        },
    }
}

/// `s.parse::<i32>()`, as an option.
pub fn parse_i32(s: &str) -> (r: Option<i32>)
    ensures
        match parse_integer(s@, true, i32::MIN as int, i32::MAX as int) {
            Some(v) => r == Some(v as i32),
            None => r is None,
        },
{
    match parse_integer_exec(s, i32::MIN as i64, i32::MAX as i64) {
        Some(v) => Some(v as i32),
        None => None,
    }
}

/// `s.parse::<u32>()`, as an option.
pub fn parse_u32(s: &str) -> (r: Option<u32>)
    ensures
        match parse_integer(s@, false, 0, u32::MAX as int) {
            Some(v) => r == Some(v as u32),
            None => r is None,
        },
{
    match parse_integer_exec(s, 0, u32::MAX as i64) {
        Some(v) => Some(v as u32),
        None => None,
    }
}

/// `s.parse::<usize>()`, as an option: an optional `+`, then ASCII digits,
/// with a value at most `usize::MAX`.
pub fn parse_usize(s: &str) -> (r: Option<usize>)
    ensures
        match parse_integer(s@, false, 0, usize::MAX as int) {
            Some(v) => r == Some(v as usize),
            None => r is None,
        },
{
    let v = chars_of(s);
    if v.len() == 0 {
        return None;
    }
    if (v[0] == '+' || v[0] == '-') && v.len() == 1 {
        return None;
    }
    let from: usize = if v[0] == '+' {
        1
    } else {
        0
    };
    assert(from == 1 ==> v@.subrange(1, v@.len() as int) =~= s@.drop_first());
    assert(from == 0 ==> v@.subrange(0, v@.len() as int) =~= s@);
    let big: u128 = 100_000_000_000_000_000_000;
    let ghost d = v@.subrange(from as int, v@.len() as int);
    let mut acc: u128 = 0;
    let mut i: usize = from;
    while i < v.len()
        invariant
            from <= i <= v.len(),
            big == 100_000_000_000_000_000_000u128,
            s@.len() > 0,
            d == (if s@[0] == '+' { s@.drop_first() } else { s@ }),
            v@ == s@,
            d == v@.subrange(from as int, v@.len() as int),
            all_digits(v@.subrange(from as int, i as int)),
            digits_value(v@.subrange(from as int, i as int)) < big ==> acc == digits_value(
                v@.subrange(from as int, i as int),
            ),
            digits_value(v@.subrange(from as int, i as int)) >= big ==> acc == big,
        decreases v.len() - i,
    {
        let c = v[i];
        if !('0' <= c && c <= '9') {
            assert(d[i - from] == c);
            assert(!is_digit(d[i - from]));
            return None;
        }
        let dv = (c as u32 - '0' as u32) as u128;
        assert(dv == digit_value(c));
        let ghost pre = v@.subrange(from as int, i as int);
        let ghost post = v@.subrange(from as int, i + 1);
        assert(post.drop_last() =~= pre);
        assert(digits_value(post) == digits_value(pre) * 10 + digit_value(c));
        if acc >= big / 10 {
            acc = big;
        } else {
            acc = acc * 10 + dv;
            if acc >= big {
                acc = big;
            }
        }
        i = i + 1;
        assert(all_digits(v@.subrange(from as int, i as int))) by {
            assert forall|k: int| 0 <= k < post.len() implies is_digit(#[trigger] post[k]) by {
                if k < pre.len() {
                    assert(post[k] == pre[k]);
                }
            }
        }
    }
    assert(v@.subrange(from as int, i as int) == d);
    assert(usize::MAX < big);
    if acc > usize::MAX as u128 {
        None
    } else {
        Some(acc as usize)
    }
}

/// The ASCII digit for `d < 10`.
pub open spec fn digit_char(d: nat) -> char {
    (('0' as u32) + d) as char
}

/// Decimal digits of `n`, without leading zeros (`"0"` for zero).
pub open spec fn decimal_digits(n: nat) -> Seq<char>
    decreases n,
{
    if n < 10 {
        seq![digit_char(n)]
    } else {
        decimal_digits(n / 10).push(digit_char(n % 10))
    }
}

/// `k` zero characters.
pub open spec fn zeros(k: nat) -> Seq<char>
    decreases k,
{
    if k == 0 {
        Seq::empty()
    } else {
        zeros((k - 1) as nat).push('0')
    }
}

/// `d` left-padded with zeros to at least `w` characters.
pub open spec fn pad_zeros(d: Seq<char>, w: nat) -> Seq<char> {
    if d.len() < w {
        zeros((w - d.len()) as nat) + d
    } else {
        d
    }
}

/// `format!("{:0w}", n)`: the sign, then the digits zero-padded so that the
/// whole is at least `w` characters wide.
pub open spec fn format_padded(n: int, w: nat) -> Seq<char> {
    if n < 0 {
        seq!['-'] + pad_zeros(decimal_digits((-n) as nat), if w > 0 {
            (w - 1) as nat
        } else {
            0
        })
    } else {
        pad_zeros(decimal_digits(n as nat), w)
    }
}

fn digit_char_exec(d: u64) -> (c: char)
    requires
        d < 10,
    ensures
        c == digit_char(d as nat),
{
    if d == 0 {
        '0'
    } else if d == 1 {
        '1'
    } else if d == 2 {
        '2'
    } else if d == 3 {
        '3'
    } else if d == 4 {
        '4'
    } else if d == 5 {
        '5'
    } else if d == 6 {
        '6'
    } else if d == 7 {
        '7'
    } else if d == 8 {
        '8'
    } else {
        '9'
    }
}

/// Decimal digits of `n`.
pub fn decimal_digits_exec(n: u64) -> (v: Vec<char>)
    ensures
        v@ == decimal_digits(n as nat),
    decreases n,
{
    if n < 10 {
        let v = vec![digit_char_exec(n)];
        assert(v@ =~= seq![digit_char(n as nat)]);
        v
    } else {
        let mut v = decimal_digits_exec(n / 10);
        v.push(digit_char_exec(n % 10));
        v
    }
}

/// Appends `k` zeros.
fn push_zeros(out: &mut Vec<char>, k: usize)
    ensures
        final(out)@ == old(out)@ + zeros(k as nat),
{
    let ghost start = out@;
    let mut i: usize = 0;
    while i < k
        invariant
            i <= k,
            out@ == start + zeros(i as nat),
        decreases k - i,
    {
        out.push('0');
        i = i + 1;
        assert(zeros(i as nat) == zeros((i - 1) as nat).push('0'));
        assert(out@ =~= start + zeros(i as nat));
    }
}

/// Appends `format!("{:0w}", n)` to `out`.
pub fn push_padded(out: &mut Vec<char>, n: i64, w: usize)
    ensures
        final(out)@ == old(out)@ + format_padded(n as int, w as nat),
{
    let ghost start = out@;
    let mag: u64 = if n < 0 {
        if n == i64::MIN {
            9_223_372_036_854_775_808
        } else {
            (-n) as u64
        }
    } else {
        n as u64
    };
    let digits = decimal_digits_exec(mag);
    let width: usize = if n < 0 {
        out.push('-');
        if w > 0 {
            w - 1
        } else {
            0
        }
    } else {
        w
    };
    if digits.len() < width {
        push_zeros(out, width - digits.len());
    }
    crate::text::extend_range(out, &digits, 0, digits.len());
    assert(digits@.subrange(0, digits@.len() as int) =~= digits@);
    assert(out@ =~= start + format_padded(n as int, w as nat));
}

/// `n.to_string()`.
pub fn int_to_string(n: i64) -> (s: String)
    ensures
        s@ == format_padded(n as int, 0),
{
    let mut out: Vec<char> = Vec::new();
    push_padded(&mut out, n, 0);
    assert(out@ =~= format_padded(n as int, 0));
    string_from_chars(&out)
}

/// The digit character of `d` reads back as `d`.
pub proof fn lemma_digit_char_value(d: nat)
    requires
        d < 10,
    ensures
        digit_value(digit_char(d)) == d,
        is_digit(digit_char(d)),
{
    assert((('0' as u32) + d) as char as u32 == ('0' as u32) + d);
}

/// Digits only come out of `decimal_digits`.
pub proof fn lemma_decimal_digits_all_digits(n: nat)
    ensures
        all_digits(decimal_digits(n)),
        decimal_digits(n).len() >= 1,
    decreases n,
{
    if n >= 10 {
        lemma_decimal_digits_all_digits(n / 10);
        let d = decimal_digits(n / 10);
        assert forall|i: int| 0 <= i < decimal_digits(n).len() implies is_digit(
            #[trigger] decimal_digits(n)[i],
        ) by {
            if i < d.len() {
                assert(decimal_digits(n)[i] == d[i]);
            }
        }
    }
}

/// Reading back the printed digits gives the number.
pub proof fn lemma_decimal_digits_value(n: nat)
    ensures
        digits_value(decimal_digits(n)) == n,
    decreases n,
{
    if n >= 10 {
        lemma_decimal_digits_value(n / 10);
        let d = decimal_digits(n);
        assert(d.drop_last() =~= decimal_digits(n / 10));
        assert(n == (n / 10) * 10 + n % 10) by (nonlinear_arith);
        lemma_digit_char_value(n % 10);
        assert(d.last() == digit_char(n % 10));
        assert(digits_value(d) == digits_value(d.drop_last()) * 10 + digit_value(d.last()));
    } else {
        lemma_digit_char_value(n);
        let d = decimal_digits(n);
        assert(d.drop_last() =~= Seq::<char>::empty());
        assert(digits_value(d) == digits_value(d.drop_last()) * 10 + digit_value(d.last()));
    }
}

/// Zeros are digits and add nothing to the value in front of a number.
pub proof fn lemma_zeros_prefix(k: nat, d: Seq<char>)
    ensures
        digits_value(zeros(k) + d) == digits_value(d),
        all_digits(d) ==> all_digits(zeros(k) + d),
        (zeros(k) + d).len() == k + d.len(),
    decreases k + d.len(),
{
    if d.len() > 0 {
        lemma_zeros_prefix(k, d.drop_last());
        assert((zeros(k) + d).drop_last() =~= zeros(k) + d.drop_last());
        if all_digits(d) {
            assert(all_digits(d.drop_last()));
            assert forall|i: int| 0 <= i < (zeros(k) + d).len() implies is_digit(
                #[trigger] (zeros(k) + d)[i],
            ) by {
                if i < (zeros(k) + d).len() - 1 {
                    assert((zeros(k) + d)[i] == (zeros(k) + d.drop_last())[i]);
                }
            }
        }
    } else {
        assert(zeros(k) + d =~= zeros(k));
        lemma_zeros_value(k);
    }
}

proof fn lemma_zeros_value(k: nat)
    ensures
        digits_value(zeros(k)) == 0,
        all_digits(zeros(k)),
        zeros(k).len() == k,
    decreases k,
{
    if k > 0 {
        lemma_zeros_value((k - 1) as nat);
        assert(zeros(k).drop_last() =~= zeros((k - 1) as nat));
        assert forall|i: int| 0 <= i < zeros(k).len() implies is_digit(#[trigger] zeros(k)[i]) by {
            if i < k - 1 {
                assert(zeros(k)[i] == zeros((k - 1) as nat)[i]);
            }
        }
    }
}

/// Parsing a zero-padded non-negative number gives the number back.
pub proof fn lemma_parse_padded(n: nat, w: nat, signed: bool, min: int, max: int)
    requires
        min <= n <= max,
    ensures
        parse_integer(format_padded(n as int, w), signed, min, max) == Some(n as int),
{
    let d = decimal_digits(n);
    lemma_decimal_digits_all_digits(n);
    lemma_decimal_digits_value(n);
    let s = format_padded(n as int, w);
    if d.len() < w {
        lemma_zeros_prefix((w - d.len()) as nat, d);
        lemma_zeros_value((w - d.len()) as nat);
    }
    assert(all_digits(s));
    assert(digits_value(s) == n);
    assert(s.len() >= 1);
    assert(is_digit(s[0]));
}

} // verus!
