//! A table keyed by file path, for the state the adapter keeps per file.

use crate::assoc::{
    as_map, distinct_keys, has_key, lemma_empty_map, lemma_key_absent, lemma_pair_in_map,
    lemma_push_pair, lemma_remove_pair,
};
use vstd::prelude::*;

verus! {

/// A table from file paths to values. No path occurs in it twice.
pub struct PathTable<V: View> {
    entries: Vec<(String, V)>,
}

impl<V: View> PathTable<V> {
    /// The entries as plain pairs, in the order they are held.
    pub closed spec fn pairs(&self) -> Seq<(Seq<char>, V::V)> {
        self.entries@.map_values(|e: (String, V)| (e.0@, e.1@))
    }

    #[verifier::type_invariant]
    spec fn no_path_twice(&self) -> bool {
        distinct_keys(self.pairs())
    }
}

impl<V: View> View for PathTable<V> {
    type V = Map<Seq<char>, V::V>;

    closed spec fn view(&self) -> Map<Seq<char>, V::V> {
        as_map(self.pairs())
    }
}

impl<V: View> PathTable<V> {
    /// The empty table.
    pub fn new() -> (table: Self)
        ensures
            table@ == Map::<Seq<char>, V::V>::empty(),
    {
        let table = PathTable { entries: Vec::new() };
        proof {
            lemma_empty_map::<Seq<char>, V::V>();
            assert(table.pairs() =~= Seq::<(Seq<char>, V::V)>::empty());
        }
        table
    }

    fn position(&self, path: &str) -> (found: Option<usize>)
        ensures
            match found {
                Some(i) => i < self.pairs().len() && self.pairs()[i as int].0 == path@,
                None => !has_key(self.pairs(), path@),
            },
    {
        let wanted = String::from_str(path);
        let mut i: usize = 0;
        while i < self.entries.len()
            invariant
                i <= self.entries.len(),
                wanted@ == path@,
                self.pairs().len() == self.entries.len(),
                forall|j: int| 0 <= j < i ==> #[trigger] self.pairs()[j].0 != path@,
            decreases self.entries.len() - i,
        {
            if self.entries[i].0 == wanted {
                return Some(i);
            }
            i += 1;
        }
        proof {
            lemma_key_absent(self.pairs(), path@);
        }
        None
    }

    /// Whether the table has an entry for `path`.
    pub fn contains(&self, path: &str) -> (found: bool)
        ensures
            found == self@.dom().contains(path@),
    {
        proof {
            use_type_invariant(self);
        }
        match self.position(path) {
            Some(i) => {
                proof {
                    lemma_pair_in_map(self.pairs(), i as int);
                }
                true
            },
            None => false,
        }
    }

    /// The entry for `path`, if there is one.
    pub fn get(&self, path: &str) -> (found: Option<&V>)
        ensures
            match found {
                Some(value) => self@.dom().contains(path@) && value@ == self@[path@],
                None => !self@.dom().contains(path@),
            },
    {
        proof {
            use_type_invariant(self);
        }
        match self.position(path) {
            Some(i) => {
                proof {
                    lemma_pair_in_map(self.pairs(), i as int);
                }
                Some(&self.entries[i].1)
            },
            None => None,
        }
    }

    /// Whether the table has no entry at all.
    pub fn is_empty(&self) -> (empty: bool)
        ensures
            empty == (self@ == Map::<Seq<char>, V::V>::empty()),
    {
        proof {
            use_type_invariant(self);
            if self.entries.len() == 0 {
                lemma_empty_map::<Seq<char>, V::V>();
                assert(self.pairs() =~= Seq::<(Seq<char>, V::V)>::empty());
            } else {
                lemma_pair_in_map(self.pairs(), 0);
            }
        }
        self.entries.len() == 0
    }

    /// Takes the entry for `path` out of the table, if there is one.
    pub fn remove(&mut self, path: &str) -> (taken: Option<V>)
        ensures
            final(self)@ == old(self)@.remove(path@),
            match taken {
                Some(value) => old(self)@.dom().contains(path@) && value@ == old(self)@[path@],
                None => !old(self)@.dom().contains(path@),
            },
    {
        proof {
            use_type_invariant(&*self);
        }
        match self.position(path) {
            Some(i) => {
                let ghost before = self.pairs();
                let mut entries: Vec<(String, V)> = Vec::new();
                core::mem::swap(&mut entries, &mut self.entries);
                let entry = entries.remove(i);
                proof {
                    lemma_pair_in_map(before, i as int);
                    lemma_remove_pair(before, i as int);
                    assert(entries@.map_values(|e: (String, V)| (e.0@, e.1@)) =~= before.remove(
                        i as int,
                    ));
                }
                self.entries = entries;
                Some(entry.1)
            },
            None => {
                assert(self@.remove(path@) =~= self@);
                None
            },
        }
    }

    /// Sets the entry for `path` to `value`, whether or not there was one.
    pub fn insert(&mut self, path: &str, value: V)
        ensures
            final(self)@ == old(self)@.insert(path@, value@),
    {
        let ghost start = self@;
        let _ = self.remove(path);
        proof {
            use_type_invariant(&*self);
        }
        let ghost before = self.pairs();
        assert(!as_map(before).dom().contains(path@));
        let mut entries: Vec<(String, V)> = Vec::new();
        core::mem::swap(&mut entries, &mut self.entries);
        entries.push((String::from_str(path), value));
        proof {
            assert(!has_key(before, path@));
            lemma_push_pair(before, path@, value@);
            assert(entries@.map_values(|e: (String, V)| (e.0@, e.1@)) =~= before.push(
                (path@, value@),
            ));
            assert(start.remove(path@).insert(path@, value@) =~= start.insert(path@, value@));
        }
        self.entries = entries;
    }
}

} // verus!
