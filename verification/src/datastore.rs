//! Key-value stores of the bot's data: the interface, and the in-memory store.

use vstd::prelude::*;

use crate::text::str_eq;
use crate::words::string_views;

verus! {

/// A store of values by string key.
pub trait DataStore<V: Clone> {
    /// What the store holds.
    spec fn contents(&self) -> Map<Seq<char>, V>;

    /// A copy of the value under `key`, if there is one.
    fn get(&self, key: &str) -> (r: Option<V>)
        ensures
            r is Some <==> self.contents().dom().contains(key@),
            r matches Some(v) ==> cloned(self.contents()[key@], v),
    ;

    /// Puts `value` under `key`, replacing any previous value.
    fn set(&mut self, key: &str, value: V)
        ensures
            final(self).contents() == old(self).contents().insert(key@, value),
    ;

    /// Removes the value under `key`; whether there was one.
    fn remove(&mut self, key: &str) -> (r: bool)
        ensures
            r == old(self).contents().dom().contains(key@),
            final(self).contents() == old(self).contents().remove(key@),
    ;

    /// The keys, each once.
    fn keys(&self) -> (r: Vec<String>)
        ensures
            string_views(r@).no_duplicates(),
            forall|k: Seq<char>| string_views(r@).contains(k) <==> self.contents().dom().contains(k),
    ;
}

/// The map of a list of entries with distinct keys.
pub open spec fn entry_map<V>(es: Seq<(String, V)>) -> Map<Seq<char>, V>
    decreases es.len(),
{
    if es.len() == 0 {
        Map::empty()
    } else {
        entry_map(es.drop_last()).insert(es.last().0@, es.last().1)
    }
}

/// The keys of a list of entries.
pub open spec fn entry_keys<V>(es: Seq<(String, V)>) -> Seq<Seq<char>> {
    es.map_values(|e: (String, V)| e.0@)
}

proof fn lemma_entry_map<V>(es: Seq<(String, V)>, k: Seq<char>)
    requires
        entry_keys(es).no_duplicates(),
    ensures
        entry_map(es).dom().contains(k) <==> entry_keys(es).contains(k),
        forall|i: int| 0 <= i < es.len() && es[i].0@ == k ==> entry_map(es)[k] == es[i].1,
    decreases es.len(),
{
    if es.len() > 0 {
        let init = es.drop_last();
        assert(entry_keys(init) =~= entry_keys(es).drop_last());
        lemma_entry_map(init, k);
        if es.last().0@ == k {
            assert(entry_keys(es)[es.len() - 1] == k);
        }
        if entry_keys(init).contains(k) {
            let j = choose|j: int| 0 <= j < entry_keys(init).len() && entry_keys(init)[j] == k;
            assert(entry_keys(es)[j] == k);
        }
        if entry_keys(es).contains(k) {
            let j = choose|j: int| 0 <= j < entry_keys(es).len() && entry_keys(es)[j] == k;
            if j < init.len() {
                assert(entry_keys(init)[j] == k);
            }
        }
        assert forall|i: int| 0 <= i < es.len() && es[i].0@ == k implies entry_map(es)[k] == es[i].1 by {
            if i < es.len() - 1 {
                assert(entry_keys(es)[i] == entry_keys(es)[es.len() - 1] ==> i == es.len() - 1);
                assert(init[i] == es[i]);
            }
        }
    }
}

proof fn lemma_entry_map_remove<V>(es: Seq<(String, V)>, i: int)
    requires
        entry_keys(es).no_duplicates(),
        0 <= i < es.len(),
    ensures
        entry_keys(es.remove(i)).no_duplicates(),
        entry_map(es.remove(i)) == entry_map(es).remove(es[i].0@),
    decreases es.len(),
{
    let r = es.remove(i);
    let k = es[i].0@;
    assert(entry_keys(r) =~= entry_keys(es).remove(i));
    let init = es.drop_last();
    assert(entry_keys(init) =~= entry_keys(es).drop_last());
    if i == es.len() - 1 {
        assert(r =~= init);
        lemma_entry_map(init, k);
        assert(!entry_keys(init).contains(k)) by {
            if entry_keys(init).contains(k) {
                let j = choose|j: int| 0 <= j < entry_keys(init).len() && entry_keys(init)[j] == k;
                assert(entry_keys(es)[j] == entry_keys(es)[i]);
            }
        }
        assert(entry_map(r) =~= entry_map(es).remove(k));
    } else {
        assert(r.drop_last() =~= init.remove(i));
        assert(r.last() == es.last());
        lemma_entry_map_remove(init, i);
        assert(es.last().0@ != k) by {
            assert(entry_keys(es)[es.len() - 1] != entry_keys(es)[i]);
        }
        assert(entry_map(r) =~= entry_map(es).remove(k));
    }
}

proof fn lemma_entry_map_update<V>(es: Seq<(String, V)>, i: int, e: (String, V))
    requires
        entry_keys(es).no_duplicates(),
        0 <= i < es.len(),
        e.0@ == es[i].0@,
    ensures
        entry_keys(es.update(i, e)).no_duplicates(),
        entry_map(es.update(i, e)) == entry_map(es).insert(e.0@, e.1),
    decreases es.len(),
{
    let u = es.update(i, e);
    assert(entry_keys(u) =~= entry_keys(es));
    let init = es.drop_last();
    assert(entry_keys(init) =~= entry_keys(es).drop_last());
    if i == es.len() - 1 {
        assert(u.drop_last() =~= init);
        assert(entry_map(u) =~= entry_map(es).insert(e.0@, e.1));
    } else {
        assert(u.drop_last() =~= init.update(i, e));
        lemma_entry_map_update(init, i, e);
        assert(es.last().0@ != e.0@) by {
            assert(entry_keys(es)[es.len() - 1] != entry_keys(es)[i]);
        }
        assert(entry_map(u) =~= entry_map(es).insert(e.0@, e.1));
    }
}

/// A store held in memory.
pub struct InMemStore<V> {
    entries: Vec<(String, V)>,
}

impl<V> InMemStore<V> {
    #[verifier::type_invariant]
    spec fn keys_distinct(self) -> bool {
        entry_keys(self.entries@).no_duplicates()
    }

    fn find(&self, key: &str) -> (r: Option<usize>)
        ensures
            match r {
                Some(i) => i < self.entries@.len() && self.entries@[i as int].0@ == key@,
                None => !entry_keys(self.entries@).contains(key@),
            },
    {
        let mut i: usize = 0;
        while i < self.entries.len()
            invariant
                i <= self.entries@.len(),
                forall|k: int| 0 <= k < i ==> self.entries@[k].0@ != key@,
            decreases self.entries.len() - i,
        {
            if str_eq(self.entries[i].0.as_str(), key) {
                return Some(i);
            }
            i = i + 1;
        }
        assert forall|k: int| 0 <= k < entry_keys(self.entries@).len() implies entry_keys(
            self.entries@,
        )[k] != key@ by {
            assert(entry_keys(self.entries@)[k] == self.entries@[k].0@);
        }
        None
    }
}

impl<V: Clone> InMemStore<V> {
    /// An empty store.
    pub fn new() -> (r: InMemStore<V>)
        ensures
            r.contents() == Map::<Seq<char>, V>::empty(),
    {
        let r = InMemStore { entries: Vec::new() };
        assert(r.contents() =~= Map::<Seq<char>, V>::empty());
        r
    }
}

impl<V: Clone> DataStore<V> for InMemStore<V> {
    closed spec fn contents(&self) -> Map<Seq<char>, V> {
        entry_map(self.entries@)
    }

    fn get(&self, key: &str) -> (r: Option<V>) {
        proof {
            use_type_invariant(self);
            lemma_entry_map(self.entries@, key@);
        }
        match self.find(key) {
            Some(i) => {
                assert(entry_keys(self.entries@)[i as int] == key@);
                Some(self.entries[i].1.clone())
            },
            None => None,
        }
    }

    fn set(&mut self, key: &str, value: V) {
        proof {
            use_type_invariant(&*self);
            lemma_entry_map(self.entries@, key@);
        }
        let found = self.find(key);
        let mut es: Vec<(String, V)> = Vec::new();
        std::mem::swap(&mut es, &mut self.entries);
        let ghost old_es = es@;
        match found {
            Some(k) => {
                let e = (String::from_str(key), value);
                proof {
                    lemma_entry_map_update(old_es, k as int, e);
                }
                es.set(k, e);
            },
            None => {
                let e = (String::from_str(key), value);
                proof {
                    assert forall|k: int| 0 <= k < entry_keys(old_es).len() implies entry_keys(
                        old_es,
                    )[k] != key@ by {
                        assert(entry_keys(old_es)[k] == old_es[k].0@);
                    }
                    assert(entry_keys(old_es.push(e)) =~= entry_keys(old_es).push(key@));
                    assert(old_es.push(e).drop_last() =~= old_es);
                }
                es.push(e);
            },
        }
        self.entries = es;
    }

    fn remove(&mut self, key: &str) -> (r: bool) {
        proof {
            use_type_invariant(&*self);
            lemma_entry_map(self.entries@, key@);
        }
        match self.find(key) {
            Some(i) => {
                assert(entry_keys(self.entries@)[i as int] == key@);
                proof {
                    lemma_entry_map_remove(self.entries@, i as int);
                }
                let mut es: Vec<(String, V)> = Vec::new();
                std::mem::swap(&mut es, &mut self.entries);
                es.remove(i);
                self.entries = es;
                true
            },
            None => {
                assert(entry_map(self.entries@).remove(key@) =~= entry_map(self.entries@));
                false
            },
        }
    }

    fn keys(&self) -> (r: Vec<String>) {
        proof {
            use_type_invariant(self);
        }
        let mut r: Vec<String> = Vec::new();
        let mut i: usize = 0;
        while i < self.entries.len()
            invariant
                i <= self.entries@.len(),
                string_views(r@) == entry_keys(self.entries@).subrange(0, i as int),
            decreases self.entries.len() - i,
        {
            let ghost before = string_views(r@);
            r.push(self.entries[i].0.clone());
            assert(string_views(r@) =~= before.push(self.entries@[i as int].0@));
            assert(entry_keys(self.entries@)[i as int] == self.entries@[i as int].0@);
            assert(string_views(r@) =~= entry_keys(self.entries@).subrange(0, i + 1));
            i = i + 1;
        }
        assert(entry_keys(self.entries@).subrange(0, self.entries@.len() as int) =~= entry_keys(
            self.entries@,
        ));
        proof {
            assert forall|k: Seq<char>| string_views(r@).contains(k) <==> entry_map(
                self.entries@,
            ).dom().contains(k) by {
                lemma_entry_map(self.entries@, k);
            }
        }
        r
    }
}

/// What a read gives back: after `set(k, v)`, `k` holds `v`; other keys keep
/// their values.
pub proof fn law_read_after_write<V>(m: Map<Seq<char>, V>, k: Seq<char>, v: V, other: Seq<char>)
    requires
        other != k,
    ensures
        m.insert(k, v).dom().contains(k),
        m.insert(k, v)[k] == v,
        m.insert(k, v).dom().contains(other) == m.dom().contains(other),
        m.dom().contains(other) ==> m.insert(k, v)[other] == m[other],
{
}

/// A removed key is gone, and removing it again reports that it was absent.
pub proof fn law_remove_twice<V>(m: Map<Seq<char>, V>, k: Seq<char>)
    ensures
        !m.remove(k).dom().contains(k),
        m.remove(k).remove(k) == m.remove(k),
{
    assert(m.remove(k).remove(k) =~= m.remove(k));
}

} // verus!
