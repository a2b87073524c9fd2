//! Telegram usernames: `@` followed by 5 to 32 letters, digits or underscores.

use vstd::prelude::*;

use crate::markdown_string::{escape_into, markdown_escape, MarkdownString};
use crate::text::{chars_of, concat3, extend_str, string_from_chars, utf8_len, utf8_len_of};

verus! {

/// Whether `c` may appear in a username after the `@`.
pub open spec fn is_username_char(c: char) -> bool {
    ('a' <= c && c <= 'z') || ('A' <= c && c <= 'Z') || ('0' <= c && c <= '9') || c == '_'
}

/// The verdict on a candidate username.
pub enum UsernameCheck {
    Valid,
    MissingAt,
    TooShort,
    TooLong,
    InvalidChar(char),
}

/// The first character of `s[k..]` that is not allowed in a username.
pub open spec fn first_invalid_from(s: Seq<char>, k: int) -> Option<char>
    decreases s.len() - k,
{
    if k < 0 || k >= s.len() {
        None
    } else if !is_username_char(s[k]) {
        Some(s[k])
    } else {
        first_invalid_from(s, k + 1)
    }
}

/// The checks, in order: the `@`, the byte length of the rest
/// (5 to 32), then its characters.
pub open spec fn username_check(s: Seq<char>) -> UsernameCheck {
    if s.len() == 0 || s[0] != '@' {
        UsernameCheck::MissingAt
    } else if utf8_len(s.drop_first()) < 5 {
        UsernameCheck::TooShort
    } else if utf8_len(s.drop_first()) > 32 {
        UsernameCheck::TooLong
    } else {
        match first_invalid_from(s.drop_first(), 0) {
            Some(c) => UsernameCheck::InvalidChar(c),
            None => UsernameCheck::Valid,
        }
    }
}

fn first_invalid(v: &Vec<char>, k: usize) -> (r: Option<char>)
    requires
        k <= v.len(),
    ensures
        r == first_invalid_from(v@, k as int),
    decreases v.len() - k,
{
    if k >= v.len() {
        None
    } else {
        let c = v[k];
        if !(('a' <= c && c <= 'z') || ('A' <= c && c <= 'Z') || ('0' <= c && c <= '9') || c
            == '_') {
            Some(c)
        } else {
            first_invalid(v, k + 1)
        }
    }
}

fn check_username(s: &str) -> (r: UsernameCheck)
    ensures
        r == username_check(s@),
{
    let v = chars_of(s);
    if v.len() == 0 || v[0] != '@' {
        return UsernameCheck::MissingAt;
    }
    let mut rest: Vec<char> = Vec::new();
    crate::text::extend_range(&mut rest, &v, 1, v.len());
    assert(rest@ =~= s@.drop_first());
    let n = utf8_len_of(&rest);
    if n < 5 {
        UsernameCheck::TooShort
    } else if n > 32 {
        UsernameCheck::TooLong
    } else {
        match first_invalid(&rest, 0) {
            Some(c) => UsernameCheck::InvalidChar(c),
            None => UsernameCheck::Valid,
        }
    }
}

/// The placeholder username passes the checks.
proof fn lemma_placeholder_valid()
    ensures
        username_check("@_____"@) is Valid,
{
    reveal_strlit("@_____");
    let rest = "@_____"@.drop_first();
    assert(rest =~= seq!['_', '_', '_', '_', '_']);
    reveal_with_fuel(utf8_len, 6);
    reveal_with_fuel(first_invalid_from, 6);
    assert(utf8_len(rest) == 5);
    assert(first_invalid_from(rest, 0) is None);
}

/// Error returned by `ShareUsername`'s `FromStr`.
#[derive(Debug, Clone, PartialEq, Eq)]
pub struct ParseShareUsernameError(pub String);

impl ParseShareUsernameError {
    /// The message.
    pub fn to_string(&self) -> (r: String)
        ensures
            r@ == self.0@,
    {
        self.0.clone()
    }
}

/// A validated Telegram username used for sharing (includes the `@`).
#[derive(Debug, PartialEq, Eq, Hash, PartialOrd, Ord)]
pub struct ShareUsername(String);

impl View for ShareUsername {
    type V = Seq<char>;

    closed spec fn view(&self) -> Seq<char> {
        self.0@
    }
}

impl Clone for ShareUsername {
    fn clone(&self) -> (r: ShareUsername)
        ensures
            r@ == self@,
    {
        proof {
            use_type_invariant(self);
        }
        ShareUsername(self.0.clone())
    }
}

impl ShareUsername {
    /// Every value holds a username that passes all the checks.
    #[verifier::type_invariant]
    spec fn checked(self) -> bool {
        username_check(self.0@) is Valid
    }
}

/// The error message of `ShareUsername::from_string` for a refused `s`.
pub open spec fn share_username_error(s: Seq<char>, check: UsernameCheck) -> Seq<char> {
    match check {
        UsernameCheck::MissingAt => "Username '"@ + s + "' must start with '@'. Example: @username"@,
        UsernameCheck::TooShort => "Username '"@ + s
            + "' is too short. Must be at least 5 characters after '@'."@,
        UsernameCheck::TooLong => "Username '"@ + s
            + "' is too long. Must be at most 32 characters after '@'."@,
        UsernameCheck::InvalidChar(c) => "Username '"@ + s + "' contains invalid character '"@
            + seq![c] + "'. Only letters, digits, and underscores are allowed."@,
        UsernameCheck::Valid => Seq::empty(),
    }
}

impl ShareUsername {
    /// Parses and validates a username: it must start with `@`, have 5 to 32
    /// bytes after it, all ASCII letters, digits or underscores.
    pub fn from_string(s: &str) -> (r: Result<ShareUsername, String>)
        ensures
            username_check(s@) is Valid ==> (r matches Ok(u) && u@ == s@),
            !(username_check(s@) is Valid) ==> (r matches Err(e) && e@ == share_username_error(
                s@,
                username_check(s@),
            )),
    {
        let v = chars_of(s);
        match check_username(s) {
            UsernameCheck::Valid => Ok(ShareUsername(string_from_chars(&v))),
            UsernameCheck::MissingAt => Err(
                concat3("Username '", &v, "' must start with '@'. Example: @username"),
            ),
            UsernameCheck::TooShort => Err(
                concat3("Username '", &v, "' is too short. Must be at least 5 characters after '@'."),
            ),
            UsernameCheck::TooLong => Err(
                concat3("Username '", &v, "' is too long. Must be at most 32 characters after '@'."),
            ),
            UsernameCheck::InvalidChar(c) => {
                let mut out: Vec<char> = Vec::new();
                extend_str(&mut out, "Username '");
                crate::text::extend_range(&mut out, &v, 0, v.len());
                extend_str(&mut out, "' contains invalid character '");
                out.push(c);
                extend_str(&mut out, "'. Only letters, digits, and underscores are allowed.");
                assert(v@.subrange(0, v@.len() as int) =~= v@);
                assert(out@ =~= share_username_error(s@, UsernameCheck::InvalidChar(c)));
                Err(string_from_chars(&out))
            },
        }
    }

    /// The username, `@` included.
    pub fn as_str(&self) -> (r: &str)
        ensures
            r@ == self@,
            username_check(self@) is Valid,
    {
        proof {
            use_type_invariant(self);
        }
        self.0.as_str()
    }

    /// The username as a new `String` (its display text).
    pub fn to_string(&self) -> (r: String)
        ensures
            r@ == self@,
            username_check(self@) is Valid,
    {
        proof {
            use_type_invariant(self);
        }
        self.0.clone()
    }
}

impl Default for ShareUsername {
    fn default() -> (r: ShareUsername)
        ensures
            r@ == "@_____"@,
    {
        proof {
            lemma_placeholder_valid();
        }
        ShareUsername(String::from_str("@_____"))
    }
}

impl std::str::FromStr for ShareUsername {
    type Err = ParseShareUsernameError;

    fn from_str(s: &str) -> (r: Result<ShareUsername, ParseShareUsernameError>)
        ensures
            username_check(s@) is Valid ==> (r matches Ok(u) && u@ == s@),
            !(username_check(s@) is Valid) ==> (r matches Err(e) && e.0@ == share_username_error(
                s@,
                username_check(s@),
            )),
    {
        match ShareUsername::from_string(s) {
            Ok(u) => Ok(u),
            Err(e) => Err(ParseShareUsernameError(e)),
        }
    }
}

/// Error returned by `TelegramUsername`'s `FromStr`.
#[derive(Debug, Clone)]
pub struct ParseTelegramUsernameError(pub MarkdownString);

impl ParseTelegramUsernameError {
    /// The message.
    pub fn to_string(&self) -> (r: String)
        ensures
            r@ == self.0@,
    {
        self.0.to_string()
    }
}

/// A validated Telegram username (includes the `@`).
#[derive(Debug, PartialEq, Eq, Hash, PartialOrd, Ord)]
pub struct TelegramUsername(String);

impl View for TelegramUsername {
    type V = Seq<char>;

    closed spec fn view(&self) -> Seq<char> {
        self.0@
    }
}

impl Clone for TelegramUsername {
    fn clone(&self) -> (r: TelegramUsername)
        ensures
            r@ == self@,
    {
        proof {
            use_type_invariant(self);
        }
        TelegramUsername(self.0.clone())
    }
}

impl TelegramUsername {
    /// Every value holds a username that passes all the checks.
    #[verifier::type_invariant]
    spec fn checked(self) -> bool {
        username_check(self.0@) is Valid
    }
}

/// The MarkdownV2 error message of `TelegramUsername::from_string` for a refused
/// `s`; the username and the offending character are escaped.
pub open spec fn telegram_username_error(s: Seq<char>, check: UsernameCheck) -> Seq<char> {
    match check {
        UsernameCheck::MissingAt => "Username `"@ + markdown_escape(s)
            + "` must start with `@`\\. Example: @username"@,
        UsernameCheck::TooShort => "Username `"@ + markdown_escape(s)
            + "` is too short\\. Must be at least 5 characters after `@`\\."@,
        UsernameCheck::TooLong => "Username `"@ + markdown_escape(s)
            + "` is too long\\. Must be at most 32 characters after `@`\\."@,
        UsernameCheck::InvalidChar(c) => "Username `"@ + markdown_escape(s)
            + "` contains invalid character `"@ + markdown_escape(seq![c])
            + "`\\. Only letters, digits, and underscores are allowed\\."@,
        UsernameCheck::Valid => Seq::empty(),
    }
}

impl TelegramUsername {
    /// Parses and validates a username with the same rules as `ShareUsername`;
    /// the error is a MarkdownV2 message.
    pub fn from_string(s: &str) -> (r: Result<TelegramUsername, MarkdownString>)
        ensures
            username_check(s@) is Valid ==> (r matches Ok(u) && u@ == s@),
            !(username_check(s@) is Valid) ==> (r matches Err(e) && e@ == telegram_username_error(
                s@,
                username_check(s@),
            )),
    {
        let check = check_username(s);
        if let UsernameCheck::Valid = check {
            let v = chars_of(s);
            return Ok(TelegramUsername(string_from_chars(&v)));
        }
        let mut out: Vec<char> = Vec::new();
        extend_str(&mut out, "Username `");
        escape_into(&mut out, s);
        match check {
            UsernameCheck::MissingAt => {
                extend_str(&mut out, "` must start with `@`\\. Example: @username");
            },
            UsernameCheck::TooShort => {
                extend_str(&mut out, "` is too short\\. Must be at least 5 characters after `@`\\.");
            },
            UsernameCheck::TooLong => {
                extend_str(&mut out, "` is too long\\. Must be at most 32 characters after `@`\\.");
            },
            UsernameCheck::InvalidChar(c) => {
                extend_str(&mut out, "` contains invalid character `");
                let cv = vec![c];
                assert(cv@ =~= seq![c]);
                let one = string_from_chars(&cv);
                escape_into(&mut out, one.as_str());
                extend_str(
                    &mut out,
                    "`\\. Only letters, digits, and underscores are allowed\\.",
                );
            },
            UsernameCheck::Valid => {},
        }
        assert(out@ =~= telegram_username_error(s@, check));
        Err(MarkdownString::from_validated_string(string_from_chars(&out)))
    }

    /// The username, `@` included.
    pub fn as_str(&self) -> (r: &str)
        ensures
            r@ == self@,
            username_check(self@) is Valid,
    {
        proof {
            use_type_invariant(self);
        }
        self.0.as_str()
    }

    /// The username as a new `String` (its display text).
    pub fn to_string(&self) -> (r: String)
        ensures
            r@ == self@,
            username_check(self@) is Valid,
    {
        proof {
            use_type_invariant(self);
        }
        self.0.clone()
    }
}

impl Default for TelegramUsername {
    fn default() -> (r: TelegramUsername)
        ensures
            r@ == "@_____"@,
    {
        proof {
            lemma_placeholder_valid();
        }
        TelegramUsername(String::from_str("@_____"))
    }
}

impl std::str::FromStr for TelegramUsername {
    type Err = ParseTelegramUsernameError;

    fn from_str(s: &str) -> (r: Result<TelegramUsername, ParseTelegramUsernameError>)
        ensures
            username_check(s@) is Valid ==> (r matches Ok(u) && u@ == s@),
            !(username_check(s@) is Valid) ==> (r matches Err(e) && e.0@ == telegram_username_error(
                s@,
                username_check(s@),
            )),
    {
        match TelegramUsername::from_string(s) {
            Ok(u) => Ok(u),
            Err(e) => Err(ParseTelegramUsernameError(e)),
        }
    }
}

} // verus!
