//! Storage keys as file names: percent-encoding of the characters that file
//! systems refuse or treat specially, and its inverse.

use vstd::prelude::*;

use crate::lines::slice_chars;
use crate::text::{chars_of, extend_str, string_from_chars};

verus! {

/// Upper-case hexadecimal digit for `d < 16`.
pub open spec fn hex_digit(d: nat) -> char {
    if d < 10 {
        (('0' as u32) + d) as char
    } else {
        (('A' as u32) + (d - 10)) as char
    }
}

/// `%XX` with the two upper-case hexadecimal digits of `code`.
pub open spec fn percent(code: nat) -> Seq<char> {
    seq!['%', hex_digit(code / 16), hex_digit(code % 16)]
}

/// Whether `c` is replaced by `encode_key_to_filename` (a leading `.` only when `first`).
pub open spec fn needs_encoding(c: char, first: bool) -> bool {
    c == '/' || c == '\\' || c == ':' || c == '*' || c == '?' || c == '"' || c == '<' || c == '>'
        || c == '|' || c == '%' || c == ' ' || (c == '.' && first)
}

/// The encoding of one character.
pub open spec fn encode_char(c: char, first: bool) -> Seq<char> {
    if needs_encoding(c, first) {
        percent(c as nat)
    } else {
        seq![c]
    }
}

/// The encoding of characters that are not the first of the key.
pub open spec fn encode_tail(s: Seq<char>) -> Seq<char>
    decreases s.len(),
{
    if s.len() == 0 {
        Seq::empty()
    } else {
        encode_char(s[0], false) + encode_tail(s.drop_first())
    }
}

/// `encode_key_to_filename(s)`.
pub open spec fn encode_key(s: Seq<char>) -> Seq<char> {
    if s.len() == 0 {
        Seq::empty()
    } else {
        encode_char(s[0], true) + encode_tail(s.drop_first())
    }
}

/// Whether `c` is a hexadecimal digit (either case).
pub open spec fn is_hex(c: char) -> bool {
    ('0' <= c && c <= '9') || ('a' <= c && c <= 'f') || ('A' <= c && c <= 'F')
}

/// The value of a hexadecimal digit.
pub open spec fn hex_value(c: char) -> nat {
    if '0' <= c && c <= '9' {
        ((c as u32) - ('0' as u32)) as nat
    } else if 'a' <= c && c <= 'f' {
        ((c as u32) - ('a' as u32) + 10) as nat
    } else {
        ((c as u32) - ('A' as u32) + 10) as nat
    }
}

/// `u8::from_str_radix(h, 16)` for a two-character `h`: two hexadecimal digits,
/// or `+` and one digit.
pub open spec fn parse_hex_byte(h: Seq<char>) -> Option<nat> {
    if h.len() != 2 {
        None
    } else if is_hex(h[0]) && is_hex(h[1]) {
        Some(hex_value(h[0]) * 16 + hex_value(h[1]))
    } else if h[0] == '+' && is_hex(h[1]) {
        Some(hex_value(h[1]))
    } else {
        None
    }
}

/// `decode_filename_to_key(t)`: each `%` with two readable hexadecimal digits
/// becomes the character with that code; any other `%` is kept together with
/// the (at most two) characters after it.
pub open spec fn decode_name(t: Seq<char>) -> Seq<char>
    decreases t.len(),
{
    if t.len() == 0 {
        Seq::empty()
    } else if t[0] == '%' {
        let n: int = if t.len() >= 3 {
            2
        } else {
            t.len() - 1
        };
        let h = t.subrange(1, 1 + n);
        match parse_hex_byte(h) {
            Some(b) => seq![b as char] + decode_name(t.subrange(1 + n, t.len() as int)),
            None => seq!['%'] + h + decode_name(t.subrange(1 + n, t.len() as int)),
        }
    } else {
        seq![t[0]] + decode_name(t.drop_first())
    }
}

fn hex_digit_exec(d: u32) -> (c: char)
    requires
        d < 16,
    ensures
        c == hex_digit(d as nat),
{
    let table: [char; 16] = [
        '0', '1', '2', '3', '4', '5', '6', '7', '8', '9', 'A', 'B', 'C', 'D', 'E', 'F',
    ];
    let c = table[d as usize];
    assert(c == hex_digit(d as nat)) by {
        assert(table@[d as int] == c);
    }
    c
}

fn push_encoded_char(out: &mut Vec<char>, c: char, first: bool)
    ensures
        final(out)@ == old(out)@ + encode_char(c, first),
{
    if c == '/' || c == '\\' || c == ':' || c == '*' || c == '?' || c == '"' || c == '<' || c
        == '>' || c == '|' || c == '%' || c == ' ' || (c == '.' && first) {
        let code = c as u32;
        out.push('%');
        out.push(hex_digit_exec(code / 16));
        out.push(hex_digit_exec(code % 16));
        assert(code < 128);
    } else {
        out.push(c);
    }
}

proof fn lemma_encode_tail_step(s: Seq<char>, i: int)
    requires
        0 <= i < s.len(),
    ensures
        encode_tail(s.subrange(i, s.len() as int)) == encode_char(s[i], false) + encode_tail(
            s.subrange(i + 1, s.len() as int),
        ),
{
    assert(s.subrange(i, s.len() as int).drop_first() =~= s.subrange(i + 1, s.len() as int));
}

/// Encodes a key so that it can be used as a file name: `/ \ : * ? " < > | % `
/// and space become `%` and two upper-case hexadecimal digits, and so does a
/// leading `.`; all other characters are kept.
pub fn encode_key_to_filename(key: &str) -> (r: String)
    ensures
        r@ == encode_key(key@),
{
    let v = chars_of(key);
    let mut out: Vec<char> = Vec::new();
    if v.len() == 0 {
        return string_from_chars(&out);
    }
    push_encoded_char(&mut out, v[0], true);
    let ghost head = out@;
    assert(v@.subrange(1, v@.len() as int) =~= key@.drop_first());
    let mut i: usize = 1;
    while i < v.len()
        invariant
            1 <= i <= v.len(),
            v@ == key@,
            head == encode_char(v@[0], true),
            head + encode_tail(key@.drop_first()) == out@ + encode_tail(
                v@.subrange(i as int, v@.len() as int),
            ),
        decreases v.len() - i,
    {
        proof {
            lemma_encode_tail_step(v@, i as int);
        }
        let ghost before = out@;
        push_encoded_char(&mut out, v[i], false);
        assert(before + encode_tail(v@.subrange(i as int, v@.len() as int)) =~= out@
            + encode_tail(v@.subrange(i + 1, v@.len() as int)));
        i = i + 1;
    }
    assert(v@.subrange(v@.len() as int, v@.len() as int) =~= Seq::<char>::empty());
    assert(out@ =~= encode_key(key@));
    string_from_chars(&out)
}

fn is_hex_exec(c: char) -> (b: bool)
    ensures
        b == is_hex(c),
{
    ('0' <= c && c <= '9') || ('a' <= c && c <= 'f') || ('A' <= c && c <= 'F')
}

fn hex_value_exec(c: char) -> (n: u32)
    requires
        is_hex(c),
    ensures
        n == hex_value(c),
        n < 16,
{
    if '0' <= c && c <= '9' {
        c as u32 - '0' as u32
    } else if 'a' <= c && c <= 'f' {
        c as u32 - 'a' as u32 + 10
    } else {
        c as u32 - 'A' as u32 + 10
    }
}

fn parse_hex_byte_exec(a: char, b: char) -> (r: Option<u8>)
    ensures
        match parse_hex_byte(seq![a, b]) {
            Some(x) => r == Some(x as u8) && x < 256,
            None => r is None,
        },
{
    if is_hex_exec(a) && is_hex_exec(b) {
        let x = hex_value_exec(a) * 16 + hex_value_exec(b);
        Some(x as u8)
    } else if a == '+' && is_hex_exec(b) {
        Some(hex_value_exec(b) as u8)
    } else {
        None
    }
}

proof fn lemma_decode_unfold(t: Seq<char>, i: int)
    requires
        0 <= i < t.len(),
    ensures
        decode_name(t.subrange(i, t.len() as int)) == ({
            let u = t.subrange(i, t.len() as int);
            if u[0] == '%' {
                let n: int = if u.len() >= 3 {
                    2
                } else {
                    u.len() - 1
                };
                let h = u.subrange(1, 1 + n);
                match parse_hex_byte(h) {
                    Some(b) => seq![b as char] + decode_name(t.subrange(i + 1 + n, t.len() as int)),
                    None => seq!['%'] + h + decode_name(t.subrange(i + 1 + n, t.len() as int)),
                }
            } else {
                seq![u[0]] + decode_name(t.subrange(i + 1, t.len() as int))
            }
        }),
{
    let u = t.subrange(i, t.len() as int);
    let n: int = if u.len() >= 3 {
        2
    } else {
        u.len() - 1
    };
    assert(u.subrange(1 + n, u.len() as int) =~= t.subrange(i + 1 + n, t.len() as int));
    assert(u.drop_first() =~= t.subrange(i + 1, t.len() as int));
}

/// Decodes a file name made by `encode_key_to_filename` back into the key;
/// `%` followed by two hexadecimal digits (either case) becomes the character
/// with that code, and a `%` that is not followed by them is kept as it is.
pub fn decode_filename_to_key(filename: &str) -> (r: String)
    ensures
        r@ == decode_name(filename@),
{
    let v = chars_of(filename);
    let mut out: Vec<char> = Vec::new();
    let mut i: usize = 0;
    assert(v@.subrange(0, v@.len() as int) =~= v@);
    while i < v.len()
        invariant
            i <= v.len(),
            v@ == filename@,
            decode_name(filename@) == out@ + decode_name(v@.subrange(i as int, v@.len() as int)),
        decreases v.len() - i,
    {
        proof {
            lemma_decode_unfold(v@, i as int);
        }
        let c = v[i];
        if c == '%' {
            let n: usize = if v.len() - i >= 3 {
                2
            } else {
                v.len() - i - 1
            };
            let ghost h = v@.subrange(i + 1, i + 1 + n);
            assert(v@.subrange(i as int, v@.len() as int).subrange(1, 1 + n) =~= h);
            let parsed = if n == 2 {
                parse_hex_byte_exec(v[i + 1], v[i + 2])
            } else {
                None
            };
            assert(n == 2 ==> h =~= seq![v@[i + 1], v@[i + 2]]);
            match parsed {
                Some(b) => {
                    out.push(b as char);
                },
                None => {
                    out.push('%');
                    crate::text::extend_range(&mut out, &v, i + 1, i + 1 + n);
                },
            }
            i = i + 1 + n;
        } else {
            out.push(c);
            i = i + 1;
        }
        assert(decode_name(filename@) =~= out@ + decode_name(
            v@.subrange(i as int, v@.len() as int),
        ));
    }
    assert(v@.subrange(v@.len() as int, v@.len() as int) =~= Seq::<char>::empty());
    assert(out@ =~= decode_name(filename@));
    string_from_chars(&out)
}

proof fn lemma_decode_encoded_char(c: char, first: bool, rest: Seq<char>)
    ensures
        decode_name(encode_char(c, first) + rest) == seq![c] + decode_name(rest),
{
    let e = encode_char(c, first);
    let t = e + rest;
    if needs_encoding(c, first) {
        assert(t[0] == '%');
        assert(t.len() >= 3);
        assert(t.subrange(1, 3) =~= seq![e[1], e[2]]);
        assert(t.subrange(3, t.len() as int) =~= rest);
        assert(parse_hex_byte(t.subrange(1, 3)) == Some(c as nat));
        assert((c as nat) as char == c);
    } else {
        assert(t[0] == c);
        assert(t.drop_first() =~= rest);
    }
}

proof fn lemma_decode_encode_tail(s: Seq<char>)
    ensures
        decode_name(encode_tail(s)) == s,
    decreases s.len(),
{
    if s.len() > 0 {
        lemma_decode_encode_tail(s.drop_first());
        lemma_decode_encoded_char(s[0], false, encode_tail(s.drop_first()));
        assert(seq![s[0]] + s.drop_first() =~= s);
    } else {
        assert(encode_tail(s) =~= Seq::<char>::empty());
        assert(s =~= Seq::<char>::empty());
    }
}

/// Decoding an encoded key gives the key back, for every key.
pub proof fn law_filename_roundtrip(key: Seq<char>)
    ensures
        decode_name(encode_key(key)) == key,
{
    if key.len() > 0 {
        lemma_decode_encode_tail(key.drop_first());
        lemma_decode_encoded_char(key[0], true, encode_tail(key.drop_first()));
        assert(seq![key[0]] + key.drop_first() =~= key);
    } else {
        assert(key =~= Seq::<char>::empty());
    }
}

/// Encoded names hold none of the characters that file systems refuse
/// (`/ \ : * ? " < > |` and space) and do not start with `.`.
pub proof fn law_filename_is_safe(key: Seq<char>)
    ensures
        forall|i: int|
            0 <= i < encode_key(key).len() ==> !needs_encoding(#[trigger] encode_key(key)[i], false)
                || encode_key(key)[i] == '%',
        encode_key(key).len() > 0 ==> encode_key(key)[0] != '.',
{
    lemma_encode_tail_safe(key.drop_first());
    if key.len() > 0 {
        let e = encode_char(key[0], true);
        let t = encode_tail(key.drop_first());
        assert forall|i: int|
            0 <= i < encode_key(key).len() implies !needs_encoding(
            #[trigger] encode_key(key)[i],
            false,
        ) || encode_key(key)[i] == '%' by {
            if i < e.len() {
                assert(encode_key(key)[i] == e[i]);
            } else {
                assert(encode_key(key)[i] == t[i - e.len()]);
            }
        }
    }
}

proof fn lemma_encode_tail_safe(s: Seq<char>)
    ensures
        forall|i: int|
            0 <= i < encode_tail(s).len() ==> !needs_encoding(#[trigger] encode_tail(s)[i], false)
                || encode_tail(s)[i] == '%',
    decreases s.len(),
{
    if s.len() > 0 {
        lemma_encode_tail_safe(s.drop_first());
        let e = encode_char(s[0], false);
        let t = encode_tail(s.drop_first());
        assert forall|i: int|
            0 <= i < encode_tail(s).len() implies !needs_encoding(
            #[trigger] encode_tail(s)[i],
            false,
        ) || encode_tail(s)[i] == '%' by {
            if i < e.len() {
                assert(encode_tail(s)[i] == e[i]);
            } else {
                assert(encode_tail(s)[i] == t[i - e.len()]);
            }
        }
    }
}

/// The file that holds the value of `key` in a store directory: the encoded
/// key followed by `.yaml`.
pub open spec fn yaml_file_of(key: Seq<char>) -> Seq<char> {
    encode_key(key) + ".yaml"@
}

/// The key that a file of a store directory holds: the file name must end in
/// `.yaml`, and the rest is decoded.
pub open spec fn key_of_yaml_file(name: Seq<char>) -> Option<Seq<char>> {
    if name.len() >= 5 && name.subrange(name.len() - 5, name.len() as int) == ".yaml"@ {
        Some(decode_name(name.subrange(0, name.len() - 5)))
    } else {
        None
    }
}

/// The name of the file that holds `key` (see `yaml_file_of`).
pub fn yaml_file_name(key: &str) -> (r: String)
    ensures
        r@ == yaml_file_of(key@),
{
    let mut v = chars_of(encode_key_to_filename(key).as_str());
    extend_str(&mut v, ".yaml");
    string_from_chars(&v)
}

/// The key held by the store file `name`, if it is one (see
/// `key_of_yaml_file`).
pub fn key_of_file_name(name: &str) -> (r: Option<String>)
    ensures
        match r {
            Some(k) => key_of_yaml_file(name@) == Some(k@),
            None => key_of_yaml_file(name@) is None,
        },
{
    let v = chars_of(name);
    let n = v.len();
    proof {
        reveal_strlit(".yaml");
    }
    if n >= 5 && v[n - 5] == '.' && v[n - 4] == 'y' && v[n - 3] == 'a' && v[n - 2] == 'm' && v[n
        - 1] == 'l' {
        assert(v@.subrange(n - 5, n as int) =~= ".yaml"@);
        let stem = string_from_chars(&slice_chars(&v, 0, n - 5));
        Some(decode_filename_to_key(stem.as_str()))
    } else {
        proof {
            if n >= 5 && v@.subrange(n - 5, n as int) == ".yaml"@ {
                assert(v@[n - 5] == v@.subrange(n - 5, n as int)[0]);
                assert(v@[n - 4] == v@.subrange(n - 5, n as int)[1]);
                assert(v@[n - 3] == v@.subrange(n - 5, n as int)[2]);
                assert(v@[n - 2] == v@.subrange(n - 5, n as int)[3]);
                assert(v@[n - 1] == v@.subrange(n - 5, n as int)[4]);
            }
        }
        None
    }
}

/// The file that holds a key is read back as that key, for every key.
pub proof fn law_store_file_roundtrip(key: Seq<char>)
    ensures
        key_of_yaml_file(yaml_file_of(key)) == Some(key),
{
    reveal_strlit(".yaml");
    let f = yaml_file_of(key);
    let e = encode_key(key);
    assert(f.subrange(f.len() - 5, f.len() as int) =~= ".yaml"@);
    assert(f.subrange(0, f.len() - 5) =~= e);
    law_filename_roundtrip(key);
}

} // verus!
