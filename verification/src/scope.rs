//! The key-value pairs of one directory.

use vstd::prelude::*;
use crate::table::{
    bound, distinct_keys, gathered, lemma_bound, lemma_gathered, lemma_gathered_distinct,
    lemma_map_listing_bound, lemma_map_listing_slot, lemma_map_listing_unbound, lemma_slot_binds,
    lemma_table_keys, lemma_table_lookup, lemma_unbound, map_listing, slot_of, table_of,
    unbound, Table,
};

verus! {

/// Pairs of a key and a value, in order.
pub type Pairs = Seq<(Seq<char>, Seq<char>)>;

/// A mapping from keys to values.
pub type ScopeMap = Map<Seq<char>, Seq<char>>;

/// Pairs of a key and a value as they are handed in and out.
pub type PairList = Vec<(String, String)>;

/// The characters of a string.
pub open spec fn text_of() -> spec_fn(String) -> Seq<char> {
    |text: String| text@
}

/// The flat mapping from keys to values that belongs to one directory. Its
/// view is that mapping; its listing is the pairs in the order in which
/// their keys first came.
#[derive(Debug)]
pub struct Scope {
    table: Table<String>,
}

impl View for Scope {
    type V = ScopeMap;

    open spec fn view(&self) -> ScopeMap {
        table_of(self.listing())
    }
}

impl Scope {
    /// The pairs in order.
    pub closed spec fn listing(&self) -> Pairs {
        map_listing(self.table.listing(), text_of())
    }

    /// A scope without pairs.
    pub fn new() -> (scope: Self)
        ensures
            scope.listing() == Pairs::empty(),
            scope@ == ScopeMap::empty(),
    {
        let scope = Scope { table: Table::new() };
        assert(scope.listing() =~= Pairs::empty());
        scope
    }

    /// The number of pairs. No key of a scope occurs in two pairs.
    pub fn len(&self) -> (count: usize)
        ensures
            count == self.listing().len(),
            distinct_keys(self.listing()),
    {
        let count = self.table.len();
        proof {
            lemma_map_listing_slot(self.table.listing(), text_of(), Seq::empty());
        }
        count
    }

    /// The value of `key`.
    pub fn get(&self, key: &str) -> (found: Option<&String>)
        ensures
            distinct_keys(self.listing()),
            match found {
                Some(value) => self@.contains_key(key@) && self@[key@] == value@,
                None => !self@.contains_key(key@),
            },
    {
        let found = self.table.get(key);
        proof {
            lemma_map_listing_slot(self.table.listing(), text_of(), key@);
            lemma_table_keys(self.listing(), key@);
            lemma_slot_binds(self.listing(), key@);
            if found is Some {
                lemma_table_lookup(self.listing(), slot_of(self.listing(), key@).unwrap());
            }
        }
        found
    }

    /// Sets `key` to `value`, in place of any value it had.
    pub fn insert(&mut self, key: String, value: String)
        ensures
            final(self).listing() == bound(old(self).listing(), key@, value@),
            final(self)@ == old(self)@.insert(key@, value@),
            distinct_keys(old(self).listing()),
            distinct_keys(final(self).listing()),
    {
        let ghost raw = self.table.listing();
        let ghost text = value;
        let ghost name = key@;
        self.table.insert(key, value);
        proof {
            lemma_map_listing_slot(raw, text_of(), name);
            lemma_map_listing_bound(raw, text_of(), name, text);
            lemma_bound(old(self).listing(), name, text@);
        }
    }

    /// Deletes `key` and says whether it was there.
    pub fn remove(&mut self, key: &str) -> (removed: bool)
        ensures
            final(self).listing() == unbound(old(self).listing(), key@),
            final(self)@ == old(self)@.remove(key@),
            removed == old(self)@.contains_key(key@),
            distinct_keys(old(self).listing()),
            distinct_keys(final(self).listing()),
    {
        let ghost raw = self.table.listing();
        let previous = self.table.remove(key);
        proof {
            lemma_map_listing_slot(raw, text_of(), key@);
            lemma_map_listing_unbound(raw, text_of(), key@);
            lemma_unbound(old(self).listing(), key@);
            lemma_table_keys(old(self).listing(), key@);
        }
        previous.is_some()
    }

    /// The pairs in order, each copied out.
    pub fn entries(&self) -> (entries: PairList)
        ensures
            entries.deep_view() == self.listing(),
            distinct_keys(self.listing()),
    {
        let count = self.len();
        let mut entries: PairList = Vec::new();
        let mut index: usize = 0;
        while index < count
            invariant
                index <= count,
                count == self.table.listing().len(),
                entries.deep_view() =~= self.listing().take(index as int),
            decreases count - index,
        {
            if let Some((key, value)) = self.table.entry(index) {
                let ghost before = entries.deep_view();
                entries.push((key.clone(), value.clone()));
                assert(entries.deep_view() =~= before.push((key@, value@)));
            }
            index += 1;
        }
        assert(self.listing().take(count as int) =~= self.listing());
        entries
    }

    /// The scope that comes of setting the pairs one after another.
    pub fn from_entries(entries: &PairList) -> (scope: Self)
        ensures
            scope.listing() == gathered(entries.deep_view()),
            scope@ == table_of(entries.deep_view()),
    {
        let ghost pairs = entries.deep_view();
        let mut scope = Scope::new();
        let mut index: usize = 0;
        while index < entries.len()
            invariant
                index <= entries.len(),
                pairs == entries.deep_view(),
                scope.listing() == gathered(pairs.take(index as int)),
            decreases entries.len() - index,
        {
            let key = entries[index].0.clone();
            let value = entries[index].1.clone();
            proof {
                let next = pairs.take(index + 1);
                assert(next.drop_last() =~= pairs.take(index as int));
                assert(next.last() == (key@, value@));
            }
            scope.insert(key, value);
            index += 1;
        }
        proof {
            assert(pairs.take(entries.len() as int) =~= pairs);
            lemma_gathered(pairs);
        }
        scope
    }
}

impl Clone for Scope {
    /// A scope with the same pairs in the same order.
    fn clone(&self) -> (copy: Self)
        ensures
            copy.listing() == self.listing(),
    {
        let entries = self.entries();
        proof {
            lemma_gathered_distinct(self.listing());
        }
        Scope::from_entries(&entries)
    }
}

} // verus!
