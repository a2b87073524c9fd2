//! What a chat is doing while it builds a filter from suggested words: the
//! words picked so far and the page of suggestions shown, by category.

use vstd::prelude::*;

use crate::datastore::{DataStore, InMemStore};
use crate::words::string_views;

verus! {

/// The words picked for a category (none when nothing is stored).
pub open spec fn selection_of(m: Map<Seq<char>, Seq<Seq<char>>>, category: Seq<char>) -> Seq<Seq<char>> {
    if m.dom().contains(category) {
        m[category]
    } else {
        Seq::empty()
    }
}

/// The selections after storing `words` for a category: an empty list is not
/// stored.
pub open spec fn with_selection(
    m: Map<Seq<char>, Seq<Seq<char>>>,
    category: Seq<char>,
    words: Seq<Seq<char>>,
) -> Map<Seq<char>, Seq<Seq<char>>> {
    if words.len() == 0 {
        m.remove(category)
    } else {
        m.insert(category, words)
    }
}

/// The page offset of a category (0 when nothing is stored).
pub open spec fn offset_of(m: Map<Seq<char>, usize>, category: Seq<char>) -> usize {
    if m.dom().contains(category) {
        m[category]
    } else {
        0
    }
}

/// The offsets after storing `offset` for a category: 0 is not stored.
pub open spec fn with_offset(m: Map<Seq<char>, usize>, category: Seq<char>, offset: usize) -> Map<
    Seq<char>,
    usize,
> {
    if offset == 0 {
        m.remove(category)
    } else {
        m.insert(category, offset)
    }
}

/// The words picked so far, by category.
pub struct FilterSelectionStorage {
    store: InMemStore<Vec<String>>,
}

impl View for FilterSelectionStorage {
    type V = Map<Seq<char>, Seq<Seq<char>>>;

    closed spec fn view(&self) -> Map<Seq<char>, Seq<Seq<char>>> {
        self.store.contents().map_values(|v: Vec<String>| string_views(v@))
    }
}

/// A clone of a list of words holds the same words.
proof fn lemma_clone_words(a: Vec<String>, b: Vec<String>)
    requires
        cloned(a, b),
    ensures
        string_views(b@) == string_views(a@),
{
    if a != b {
        assert forall|i: int| 0 <= i < a.len() implies b@[i]@ == a@[i]@ by {
            assert(cloned(a[i], b[i]));
        }
        assert(string_views(b@) =~= string_views(a@));
    }
}

impl FilterSelectionStorage {
    /// Nothing picked.
    pub fn new() -> (r: FilterSelectionStorage)
        ensures
            r@ == Map::<Seq<char>, Seq<Seq<char>>>::empty(),
    {
        let r = FilterSelectionStorage { store: InMemStore::new() };
        assert(r@ =~= Map::<Seq<char>, Seq<Seq<char>>>::empty());
        r
    }

    /// The words picked for a category.
    pub fn get_filter_selection(&self, category: &str) -> (r: Vec<String>)
        ensures
            string_views(r@) == selection_of(self@, category@),
    {
        match self.store.get(category) {
            Some(v) => {
                proof {
                    lemma_clone_words(self.store.contents()[category@], v);
                }
                v
            },
            None => {
                let r: Vec<String> = Vec::new();
                assert(string_views(r@) =~= Seq::<Seq<char>>::empty());
                r
            },
        }
    }

    /// Stores the words picked for a category (an empty list forgets them).
    pub fn set_filter_selection(&mut self, category: String, words: Vec<String>)
        ensures
            final(self)@ == with_selection(old(self)@, category@, string_views(words@)),
    {
        if words.len() == 0 {
            let _ = self.store.remove(category.as_str());
            assert(self@ =~= old(self)@.remove(category@));
        } else {
            self.store.set(category.as_str(), words);
            assert(self@ =~= old(self)@.insert(category@, string_views(words@)));
        }
    }

    /// Forgets the words picked for a category.
    pub fn clear_filter_selection(&mut self, category: &str)
        ensures
            final(self)@ == old(self)@.remove(category@),
    {
        let _ = self.store.remove(category);
        assert(self@ =~= old(self)@.remove(category@));
    }
}

/// The page of suggestions shown, by category: the index of its first word.
pub struct FilterPageStorage {
    store: InMemStore<usize>,
}

impl View for FilterPageStorage {
    type V = Map<Seq<char>, usize>;

    closed spec fn view(&self) -> Map<Seq<char>, usize> {
        self.store.contents()
    }
}

impl FilterPageStorage {
    /// Every category on its first page.
    pub fn new() -> (r: FilterPageStorage)
        ensures
            r@ == Map::<Seq<char>, usize>::empty(),
    {
        FilterPageStorage { store: InMemStore::new() }
    }

    /// The page offset of a category.
    pub fn get_filter_page_offset(&self, category: &str) -> (r: usize)
        ensures
            r == offset_of(self@, category@),
    {
        match self.store.get(category) {
            Some(v) => v,
            None => 0,
        }
    }

    /// Stores the page offset of a category (0 forgets it).
    pub fn set_filter_page_offset(&mut self, category: String, offset: usize)
        ensures
            final(self)@ == with_offset(old(self)@, category@, offset),
    {
        if offset == 0 {
            let _ = self.store.remove(category.as_str());
        } else {
            self.store.set(category.as_str(), offset);
        }
    }

    /// Puts a category back on its first page.
    pub fn clear_filter_page_offset(&mut self, category: &str)
        ensures
            final(self)@ == old(self)@.remove(category@),
    {
        let _ = self.store.remove(category);
    }
}

/// Reading a selection gives what was last stored for the category (an empty
/// list when it was cleared), and other categories keep theirs.
pub proof fn law_selection_read_after_write(
    m: Map<Seq<char>, Seq<Seq<char>>>,
    category: Seq<char>,
    words: Seq<Seq<char>>,
    other: Seq<char>,
)
    requires
        other != category,
    ensures
        selection_of(with_selection(m, category, words), category) == words,
        selection_of(m.remove(category), category) == Seq::<Seq<char>>::empty(),
        selection_of(with_selection(m, category, words), other) == selection_of(m, other),
{
    if words.len() == 0 {
        assert(words =~= Seq::<Seq<char>>::empty());
    }
}

/// Reading a page offset gives what was last stored for the category (0 when
/// it was cleared), and other categories keep theirs.
pub proof fn law_offset_read_after_write(
    m: Map<Seq<char>, usize>,
    category: Seq<char>,
    offset: usize,
    other: Seq<char>,
)
    requires
        other != category,
    ensures
        offset_of(with_offset(m, category, offset), category) == offset,
        offset_of(m.remove(category), category) == 0,
        offset_of(with_offset(m, category, offset), other) == offset_of(m, other),
{
}

} // verus!
