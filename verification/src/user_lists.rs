//! The per-chat lists of usernames: the users an expense list is shared with,
//! and the users who follow a chat. Each is one stored list of strings.

use vstd::prelude::*;

use crate::markdown_string::{escape_into, markdown_escape, MarkdownString};
use crate::text::{extend_str, str_eq, string_from_chars};
use crate::username::{username_check, ShareUsername, TelegramUsername};
use crate::words::string_views;

verus! {

/// `s` without any element equal to `x` (`retain(|y| y != x)`).
pub open spec fn remove_all(s: Seq<Seq<char>>, x: Seq<char>) -> Seq<Seq<char>>
    decreases s.len(),
{
    if s.len() == 0 {
        Seq::empty()
    } else {
        let r = remove_all(s.drop_last(), x);
        if s.last() == x {
            r
        } else {
            r.push(s.last())
        }
    }
}

/// The elements of `s` that are valid usernames, in order (invalid stored
/// entries are skipped when read).
pub open spec fn valid_usernames(s: Seq<Seq<char>>) -> Seq<Seq<char>>
    decreases s.len(),
{
    if s.len() == 0 {
        Seq::empty()
    } else {
        let r = valid_usernames(s.drop_last());
        if username_check(s.last()) is Valid {
            r.push(s.last())
        } else {
            r
        }
    }
}

/// The reply when a username is added twice to a list named `list`.
pub open spec fn already_in_list(u: Seq<char>, list: Seq<char>) -> Seq<char> {
    "ℹ️ Username `"@ + markdown_escape(u) + "` is already in the "@ + list + " list\\."@
}

/// The reply when a username to remove is not in a list named `list`.
pub open spec fn not_in_list(u: Seq<char>, list: Seq<char>) -> Seq<char> {
    "❌ Username `"@ + markdown_escape(u) + "` is not in the "@ + list + " list\\."@
}

fn list_message(head: &str, u: &str, tail: &str) -> (r: MarkdownString)
    ensures
        r@ == head@ + markdown_escape(u@) + tail@,
{
    let mut out: Vec<char> = Vec::new();
    extend_str(&mut out, head);
    escape_into(&mut out, u);
    extend_str(&mut out, tail);
    MarkdownString::from_validated_string(string_from_chars(&out))
}

fn contains_str(v: &Vec<String>, s: &str) -> (r: bool)
    ensures
        r == string_views(v@).contains(s@),
{
    let mut i: usize = 0;
    while i < v.len()
        invariant
            i <= v.len(),
            forall|k: int| 0 <= k < i ==> v@[k]@ != s@,
        decreases v.len() - i,
    {
        if str_eq(v[i].as_str(), s) {
            assert(string_views(v@)[i as int] == s@);
            return true;
        }
        i = i + 1;
    }
    assert forall|k: int| 0 <= k < string_views(v@).len() implies string_views(v@)[k] != s@ by {
        assert(string_views(v@)[k] == v@[k]@);
    }
    false
}

fn without(v: &Vec<String>, s: &str) -> (r: Vec<String>)
    ensures
        string_views(r@) == remove_all(string_views(v@), s@),
{
    let ghost sv = string_views(v@);
    let mut r: Vec<String> = Vec::new();
    let mut i: usize = 0;
    while i < v.len()
        invariant
            i <= v.len(),
            sv == string_views(v@),
            string_views(r@) == remove_all(sv.subrange(0, i as int), s@),
        decreases v.len() - i,
    {
        assert(sv.subrange(0, i + 1).drop_last() =~= sv.subrange(0, i as int));
        assert(sv[i as int] == v@[i as int]@);
        if !str_eq(v[i].as_str(), s) {
            let ghost before = string_views(r@);
            r.push(v[i].clone());
            assert(string_views(r@) =~= before.push(v@[i as int]@));
        }
        i = i + 1;
    }
    assert(sv.subrange(0, sv.len() as int) =~= sv);
    r
}

fn pushed(v: &Vec<String>, s: &str) -> (r: Vec<String>)
    ensures
        string_views(r@) == string_views(v@).push(s@),
{
    let mut r: Vec<String> = Vec::new();
    let mut i: usize = 0;
    while i < v.len()
        invariant
            i <= v.len(),
            string_views(r@) == string_views(v@).subrange(0, i as int),
        decreases v.len() - i,
    {
        let ghost before = string_views(r@);
        r.push(v[i].clone());
        assert(string_views(r@) =~= before.push(v@[i as int]@));
        assert(string_views(v@)[i as int] == v@[i as int]@);
        assert(string_views(r@) =~= string_views(v@).subrange(0, i + 1));
        i = i + 1;
    }
    let ghost before = string_views(r@);
    r.push(String::from_str(s));
    assert(string_views(r@) =~= before.push(s@));
    assert(string_views(v@).subrange(0, v@.len() as int) =~= string_views(v@));
    r
}

/// Removing a username that was just added to a list without it gives the
/// list back.
pub proof fn law_remove_undoes_add(s: Seq<Seq<char>>, u: Seq<char>)
    requires
        !s.contains(u),
    ensures
        remove_all(s.push(u), u) == s,
    decreases s.len(),
{
    assert(s.push(u).drop_last() =~= s);
    lemma_remove_all_absent(s, u);
}

/// Removing an absent element changes nothing.
proof fn lemma_remove_all_absent(s: Seq<Seq<char>>, u: Seq<char>)
    requires
        !s.contains(u),
    ensures
        remove_all(s, u) == s,
    decreases s.len(),
{
    if s.len() > 0 {
        assert(!s.drop_last().contains(u)) by {
            if s.drop_last().contains(u) {
                let k = choose|k: int| 0 <= k < s.drop_last().len() && s.drop_last()[k] == u;
                assert(s[k] == u);
            }
        }
        lemma_remove_all_absent(s.drop_last(), u);
        assert(s.last() != u) by {
            if s.last() == u {
                assert(s[s.len() - 1] == u);
            }
        }
        assert(s.drop_last().push(s.last()) =~= s);
    }
}

/// After a removal the element is gone.
pub proof fn law_removed_is_absent(s: Seq<Seq<char>>, u: Seq<char>)
    ensures
        !remove_all(s, u).contains(u),
    decreases s.len(),
{
    if s.len() > 0 {
        law_removed_is_absent(s.drop_last(), u);
        let r = remove_all(s.drop_last(), u);
        if s.last() != u {
            assert forall|k: int| 0 <= k < r.push(s.last()).len() implies r.push(s.last())[k] != u by {
                if k < r.len() {
                    assert(r.push(s.last())[k] == r[k]);
                }
            }
        }
    }
}

// ---------------------------------------------------------------------------
// Shares
// ---------------------------------------------------------------------------
/// Reading the share list.
pub trait ShareStorageReadTrait {
    /// The stored usernames, as text.
    spec fn stored_shares(&self) -> Seq<Seq<char>>;

    /// The stored usernames that are valid, in order.
    fn get_shares(&self) -> (r: Result<Vec<ShareUsername>, MarkdownString>)
        ensures
            r matches Ok(v) && v@.map_values(|u: ShareUsername| u@) == valid_usernames(
                self.stored_shares(),
            ),
    ;
}

/// Changing the share list.
pub trait ShareStorageTrait: ShareStorageReadTrait {
    /// Adds a username; a username already there is refused.
    fn add_share(&mut self, username: &ShareUsername) -> (r: Result<(), MarkdownString>)
        ensures
            old(self).stored_shares().contains(username@) ==> (r matches Err(e) && e@
                == already_in_list(username@, "share"@) && final(self).stored_shares()
                == old(self).stored_shares()),
            !old(self).stored_shares().contains(username@) ==> (r is Ok
                && final(self).stored_shares() == old(self).stored_shares().push(username@)),
    ;

    /// Removes a username; a username not there is refused.
    fn remove_share(&mut self, username: &ShareUsername) -> (r: Result<(), MarkdownString>)
        ensures
            old(self).stored_shares().contains(username@) ==> (r is Ok
                && final(self).stored_shares() == remove_all(old(self).stored_shares(), username@)),
            !old(self).stored_shares().contains(username@) ==> (r matches Err(e) && e@
                == not_in_list(username@, "share"@) && final(self).stored_shares()
                == old(self).stored_shares()),
    ;

    /// Replaces the whole list.
    fn replace_shares(&mut self, shares: Vec<ShareUsername>) -> (r: Result<(), MarkdownString>)
        ensures
            r is Ok,
            final(self).stored_shares() == shares@.map_values(|u: ShareUsername| u@),
    ;
}

/// The share list of a chat, as stored.
pub struct ShareStorage {
    shares: Vec<String>,
}

impl ShareStorage {
    /// A share list holding the stored strings.
    pub fn new(stored: Vec<String>) -> (r: ShareStorage)
        ensures
            r.stored_shares() == string_views(stored@),
    {
        ShareStorage { shares: stored }
    }

    /// The strings to store.
    pub fn stored(&self) -> (r: Vec<String>)
        ensures
            string_views(r@) == self.stored_shares(),
    {
        let mut r: Vec<String> = Vec::new();
        let mut i: usize = 0;
        while i < self.shares.len()
            invariant
                i <= self.shares.len(),
                string_views(r@) == string_views(self.shares@).subrange(0, i as int),
            decreases self.shares.len() - i,
        {
            let ghost before = string_views(r@);
            r.push(self.shares[i].clone());
            assert(string_views(r@) =~= before.push(self.shares@[i as int]@));
            assert(string_views(self.shares@)[i as int] == self.shares@[i as int]@);
            assert(string_views(r@) =~= string_views(self.shares@).subrange(0, i + 1));
            i = i + 1;
        }
        assert(string_views(self.shares@).subrange(0, self.shares@.len() as int) =~= string_views(
            self.shares@,
        ));
        r
    }
}

impl ShareStorageReadTrait for ShareStorage {
    closed spec fn stored_shares(&self) -> Seq<Seq<char>> {
        string_views(self.shares@)
    }

    fn get_shares(&self) -> (r: Result<Vec<ShareUsername>, MarkdownString>) {
        let ghost sv = string_views(self.shares@);
        let mut out: Vec<ShareUsername> = Vec::new();
        let mut i: usize = 0;
        while i < self.shares.len()
            invariant
                i <= self.shares.len(),
                sv == string_views(self.shares@),
                out@.map_values(|u: ShareUsername| u@) == valid_usernames(sv.subrange(0, i as int)),
            decreases self.shares.len() - i,
        {
            assert(sv.subrange(0, i + 1).drop_last() =~= sv.subrange(0, i as int));
            assert(sv[i as int] == self.shares@[i as int]@);
            let ghost before = out@.map_values(|u: ShareUsername| u@);
            match ShareUsername::from_string(self.shares[i].as_str()) {
                Ok(u) => {
                    out.push(u);
                    assert(out@.map_values(|u: ShareUsername| u@) =~= before.push(u@));
                },
                Err(_) => {},
            }
            i = i + 1;
        }
        assert(sv.subrange(0, sv.len() as int) =~= sv);
        Ok(out)
    }
}

impl ShareStorageTrait for ShareStorage {
    fn add_share(&mut self, username: &ShareUsername) -> (r: Result<(), MarkdownString>) {
        if contains_str(&self.shares, username.as_str()) {
            let m = list_message("ℹ️ Username `", username.as_str(), "` is already in the share list\\.");
            proof {
                reveal_strlit("` is already in the share list\\.");
                reveal_strlit("` is already in the ");
                reveal_strlit("share");
                reveal_strlit(" list\\.");
                assert(m@ =~= already_in_list(username@, "share"@));
            }
            return Err(m);
        }
        self.shares = pushed(&self.shares, username.as_str());
        Ok(())
    }

    fn remove_share(&mut self, username: &ShareUsername) -> (r: Result<(), MarkdownString>) {
        if !contains_str(&self.shares, username.as_str()) {
            let m = list_message("❌ Username `", username.as_str(), "` is not in the share list\\.");
            proof {
                reveal_strlit("` is not in the share list\\.");
                reveal_strlit("` is not in the ");
                reveal_strlit("share");
                reveal_strlit(" list\\.");
                assert(m@ =~= not_in_list(username@, "share"@));
            }
            return Err(m);
        }
        self.shares = without(&self.shares, username.as_str());
        Ok(())
    }

    fn replace_shares(&mut self, shares: Vec<ShareUsername>) -> (r: Result<(), MarkdownString>) {
        let mut v: Vec<String> = Vec::new();
        let mut i: usize = 0;
        while i < shares.len()
            invariant
                i <= shares.len(),
                string_views(v@) == shares@.subrange(0, i as int).map_values(|u: ShareUsername| u@),
            decreases shares.len() - i,
        {
            let ghost before = string_views(v@);
            v.push(shares[i].to_string());
            assert(string_views(v@) =~= before.push(shares@[i as int]@));
            assert(string_views(v@) =~= shares@.subrange(0, i + 1).map_values(|u: ShareUsername| u@));
            i = i + 1;
        }
        assert(shares@.subrange(0, shares@.len() as int) =~= shares@);
        self.shares = v;
        Ok(())
    }
}

// ---------------------------------------------------------------------------
// Followers
// ---------------------------------------------------------------------------
/// Reading the follower list.
pub trait FollowersStorageReadTrait {
    /// The stored usernames, as text.
    spec fn stored_followers(&self) -> Seq<Seq<char>>;

    /// The stored usernames that are valid, in order.
    fn get_followers(&self) -> (r: Result<Vec<TelegramUsername>, MarkdownString>)
        ensures
            r matches Ok(v) && v@.map_values(|u: TelegramUsername| u@) == valid_usernames(
                self.stored_followers(),
            ),
    ;
}

/// Changing the follower list.
pub trait FollowersStorageTrait: FollowersStorageReadTrait {
    /// Adds a username; a username already there is refused.
    fn add_follower(&mut self, username: &TelegramUsername) -> (r: Result<(), MarkdownString>)
        ensures
            old(self).stored_followers().contains(username@) ==> (r matches Err(e) && e@
                == already_in_list(username@, "follower"@) && final(self).stored_followers()
                == old(self).stored_followers()),
            !old(self).stored_followers().contains(username@) ==> (r is Ok
                && final(self).stored_followers() == old(self).stored_followers().push(username@)),
    ;

    /// Removes a username; a username not there is refused.
    fn remove_follower(&mut self, username: &TelegramUsername) -> (r: Result<(), MarkdownString>)
        ensures
            old(self).stored_followers().contains(username@) ==> (r is Ok
                && final(self).stored_followers() == remove_all(
                old(self).stored_followers(),
                username@,
            )),
            !old(self).stored_followers().contains(username@) ==> (r matches Err(e) && e@
                == not_in_list(username@, "follower"@) && final(self).stored_followers()
                == old(self).stored_followers()),
    ;

    /// Replaces the whole list.
    fn replace_followers(&mut self, users: Vec<TelegramUsername>) -> (r: Result<(), MarkdownString>)
        ensures
            r is Ok,
            final(self).stored_followers() == users@.map_values(|u: TelegramUsername| u@),
    ;
}

/// The follower list of a chat, as stored.
pub struct FollowersStorage {
    followers: Vec<String>,
}

impl FollowersStorage {
    /// A follower list holding the stored strings.
    pub fn new(stored: Vec<String>) -> (r: FollowersStorage)
        ensures
            r.stored_followers() == string_views(stored@),
    {
        FollowersStorage { followers: stored }
    }

    /// The strings to store.
    pub fn stored(&self) -> (r: Vec<String>)
        ensures
            string_views(r@) == self.stored_followers(),
    {
        let mut r: Vec<String> = Vec::new();
        let mut i: usize = 0;
        while i < self.followers.len()
            invariant
                i <= self.followers.len(),
                string_views(r@) == string_views(self.followers@).subrange(0, i as int),
            decreases self.followers.len() - i,
        {
            let ghost before = string_views(r@);
            r.push(self.followers[i].clone());
            assert(string_views(r@) =~= before.push(self.followers@[i as int]@));
            assert(string_views(self.followers@)[i as int] == self.followers@[i as int]@);
            assert(string_views(r@) =~= string_views(self.followers@).subrange(0, i + 1));
            i = i + 1;
        }
        assert(string_views(self.followers@).subrange(0, self.followers@.len() as int)
            =~= string_views(self.followers@));
        r
    }
}

impl FollowersStorageReadTrait for FollowersStorage {
    closed spec fn stored_followers(&self) -> Seq<Seq<char>> {
        string_views(self.followers@)
    }

    fn get_followers(&self) -> (r: Result<Vec<TelegramUsername>, MarkdownString>) {
        let ghost sv = string_views(self.followers@);
        let mut out: Vec<TelegramUsername> = Vec::new();
        let mut i: usize = 0;
        while i < self.followers.len()
            invariant
                i <= self.followers.len(),
                sv == string_views(self.followers@),
                out@.map_values(|u: TelegramUsername| u@) == valid_usernames(
                    sv.subrange(0, i as int),
                ),
            decreases self.followers.len() - i,
        {
            assert(sv.subrange(0, i + 1).drop_last() =~= sv.subrange(0, i as int));
            assert(sv[i as int] == self.followers@[i as int]@);
            let ghost before = out@.map_values(|u: TelegramUsername| u@);
            match TelegramUsername::from_string(self.followers[i].as_str()) {
                Ok(u) => {
                    out.push(u);
                    assert(out@.map_values(|u: TelegramUsername| u@) =~= before.push(u@));
                },
                Err(_) => {},
            }
            i = i + 1;
        }
        assert(sv.subrange(0, sv.len() as int) =~= sv);
        Ok(out)
    }
}

impl FollowersStorageTrait for FollowersStorage {
    fn add_follower(&mut self, username: &TelegramUsername) -> (r: Result<(), MarkdownString>) {
        if contains_str(&self.followers, username.as_str()) {
            let m = list_message("ℹ️ Username `", username.as_str(), "` is already in the follower list\\.");
            proof {
                reveal_strlit("` is already in the follower list\\.");
                reveal_strlit("` is already in the ");
                reveal_strlit("follower");
                reveal_strlit(" list\\.");
                assert(m@ =~= already_in_list(username@, "follower"@));
            }
            return Err(m);
        }
        self.followers = pushed(&self.followers, username.as_str());
        Ok(())
    }

    fn remove_follower(&mut self, username: &TelegramUsername) -> (r: Result<(), MarkdownString>) {
        if !contains_str(&self.followers, username.as_str()) {
            let m = list_message("❌ Username `", username.as_str(), "` is not in the follower list\\.");
            proof {
                reveal_strlit("` is not in the follower list\\.");
                reveal_strlit("` is not in the ");
                reveal_strlit("follower");
                reveal_strlit(" list\\.");
                assert(m@ =~= not_in_list(username@, "follower"@));
            }
            return Err(m);
        }
        self.followers = without(&self.followers, username.as_str());
        Ok(())
    }

    fn replace_followers(&mut self, users: Vec<TelegramUsername>) -> (r: Result<(), MarkdownString>) {
        let mut v: Vec<String> = Vec::new();
        let mut i: usize = 0;
        while i < users.len()
            invariant
                i <= users.len(),
                string_views(v@) == users@.subrange(0, i as int).map_values(
                    |u: TelegramUsername| u@,
                ),
            decreases users.len() - i,
        {
            let ghost before = string_views(v@);
            v.push(users[i].to_string());
            assert(string_views(v@) =~= before.push(users@[i as int]@));
            assert(string_views(v@) =~= users@.subrange(0, i + 1).map_values(
                |u: TelegramUsername| u@,
            ));
            i = i + 1;
        }
        assert(users@.subrange(0, users@.len() as int) =~= users@);
        self.followers = v;
        Ok(())
    }
}

} // verus!
