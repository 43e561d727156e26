//! An association list keyed by strings that keeps its bindings in the order
//! in which their keys first came.
//!
//! The model of a table is its *listing*: the sequence of its bindings, each
//! a key with a value. The mapping that a listing denotes is [`table_of`].

use vstd::prelude::*;

verus! {

/// No key is bound twice.
pub open spec fn distinct_keys<V>(listing: Seq<(Seq<char>, V)>) -> bool {
    forall|i: int, j: int| 0 <= i < j < listing.len() ==> listing[i].0 != listing[j].0
}

/// Whether the binding at `index` is one of `key`.
pub open spec fn binds<V>(listing: Seq<(Seq<char>, V)>, key: Seq<char>, index: int) -> bool {
    0 <= index < listing.len() && listing[index].0 == key
}

/// An index at which `key` is bound, if it is bound at all. Where the keys
/// are distinct there is at most one.
pub open spec fn slot_of<V>(listing: Seq<(Seq<char>, V)>, key: Seq<char>) -> Option<int> {
    if exists|i: int| binds(listing, key, i) {
        Some(choose|i: int| binds(listing, key, i))
    } else {
        None
    }
}

/// The value of the binding at the slot of `key`.
pub open spec fn lookup<V>(listing: Seq<(Seq<char>, V)>, key: Seq<char>) -> Option<V> {
    match slot_of(listing, key) {
        Some(index) => Some(listing[index].1),
        None => None,
    }
}

/// The mapping that a listing denotes. Where a key is bound more than once,
/// its last binding counts.
pub open spec fn table_of<V>(listing: Seq<(Seq<char>, V)>) -> Map<Seq<char>, V>
    decreases listing.len(),
{
    if listing.len() == 0 {
        Map::empty()
    } else {
        table_of(listing.drop_last()).insert(listing.last().0, listing.last().1)
    }
}

/// The listing after `key` was bound to `value`: an existing binding is
/// replaced where it stands, a new one goes to the end.
pub open spec fn bound<V>(listing: Seq<(Seq<char>, V)>, key: Seq<char>, value: V) -> Seq<
    (Seq<char>, V),
> {
    match slot_of(listing, key) {
        Some(index) => listing.update(index, (key, value)),
        None => listing.push((key, value)),
    }
}

/// The listing after the binding of `key`, if there was one, was taken out.
pub open spec fn unbound<V>(listing: Seq<(Seq<char>, V)>, key: Seq<char>) -> Seq<(Seq<char>, V)> {
    match slot_of(listing, key) {
        Some(index) => listing.remove(index),
        None => listing,
    }
}

/// With distinct keys, the one index at which a key is bound is its slot.
pub proof fn lemma_slot_unique<V>(listing: Seq<(Seq<char>, V)>, key: Seq<char>, index: int)
    requires
        distinct_keys(listing),
        binds(listing, key, index),
    ensures
        slot_of(listing, key) == Some(index),
{
    let chosen = choose|i: int| binds(listing, key, i);
    assert(binds(listing, key, chosen));
    if chosen < index {
        assert(listing[chosen].0 != listing[index].0);
    } else if index < chosen {
        assert(listing[index].0 != listing[chosen].0);
    }
}

/// A key without a slot is bound nowhere, and a slot is an index at which
/// the key is bound.
pub proof fn lemma_slot_binds<V>(listing: Seq<(Seq<char>, V)>, key: Seq<char>)
    ensures
        match slot_of(listing, key) {
            Some(index) => binds(listing, key, index),
            None => forall|i: int| 0 <= i < listing.len() ==> listing[i].0 != key,
        },
{
    if slot_of(listing, key) is None {
        assert forall|i: int| 0 <= i < listing.len() implies listing[i].0 != key by {
            if listing[i].0 == key {
                assert(binds(listing, key, i));
            }
        }
    }
}

/// The keys of the mapping are the keys that the listing binds.
pub proof fn lemma_table_keys<V>(listing: Seq<(Seq<char>, V)>, key: Seq<char>)
    ensures
        table_of(listing).contains_key(key) <==> slot_of(listing, key) is Some,
    decreases listing.len(),
{
    if listing.len() > 0 {
        let front = listing.drop_last();
        lemma_table_keys(front, key);
        lemma_slot_binds(front, key);
        lemma_slot_binds(listing, key);
        if listing.last().0 == key {
            assert(binds(listing, key, listing.len() - 1));
        } else if slot_of(front, key) is Some {
            let index = slot_of(front, key).unwrap();
            assert(listing[index] == front[index]);
            assert(binds(listing, key, index));
        } else if slot_of(listing, key) is Some {
            let index = slot_of(listing, key).unwrap();
            assert(front[index] == listing[index]);
            assert(binds(front, key, index));
        }
    } else {
        lemma_slot_binds(listing, key);
    }
}

/// With distinct keys, each binding of the listing is a binding of the
/// mapping.
pub proof fn lemma_table_lookup<V>(listing: Seq<(Seq<char>, V)>, index: int)
    requires
        distinct_keys(listing),
        0 <= index < listing.len(),
    ensures
        table_of(listing).contains_key(listing[index].0),
        table_of(listing)[listing[index].0] == listing[index].1,
    decreases listing.len(),
{
    let front = listing.drop_last();
    if index < listing.len() - 1 {
        assert(distinct_keys(front)) by {
            lemma_distinct_front(listing);
        }
        lemma_table_lookup(front, index);
        assert(front[index] == listing[index]);
        assert(listing[index].0 != listing[listing.len() - 1].0);
    }
}

/// Distinct keys stay distinct when the last binding is dropped.
pub proof fn lemma_distinct_front<V>(listing: Seq<(Seq<char>, V)>)
    requires
        distinct_keys(listing),
        listing.len() > 0,
    ensures
        distinct_keys(listing.drop_last()),
{
    let front = listing.drop_last();
    assert forall|i: int, j: int| 0 <= i < j < front.len() implies front[i].0 != front[j].0 by {
        assert(front[i] == listing[i]);
        assert(front[j] == listing[j]);
    }
}

/// Binding a key changes the listing as [`bound`] says, keeps the keys
/// distinct, and changes the mapping by one insertion.
pub proof fn lemma_bound<V>(listing: Seq<(Seq<char>, V)>, key: Seq<char>, value: V)
    requires
        distinct_keys(listing),
    ensures
        distinct_keys(bound(listing, key, value)),
        table_of(bound(listing, key, value)) == table_of(listing).insert(key, value),
    decreases listing.len(),
{
    let after = bound(listing, key, value);
    lemma_slot_binds(listing, key);
    match slot_of(listing, key) {
        Some(index) => {
            assert forall|i: int, j: int| 0 <= i < j < after.len() implies after[i].0
                != after[j].0 by {
                assert(after[i].0 == listing[i].0);
                assert(after[j].0 == listing[j].0);
            }
            let last = listing.len() - 1;
            if index == last {
                assert(after.drop_last() =~= listing.drop_last());
                assert(table_of(after) =~= table_of(listing).insert(key, value));
            } else {
                let front = listing.drop_last();
                lemma_distinct_front(listing);
                assert(binds(front, key, index));
                lemma_slot_unique(front, key, index);
                lemma_bound(front, key, value);
                assert(after.drop_last() =~= bound(front, key, value));
                assert(after.last() == listing.last());
                assert(listing[index].0 != listing[last].0);
                assert(table_of(after) =~= table_of(listing).insert(key, value));
            }
        },
        None => {
            assert forall|i: int, j: int| 0 <= i < j < after.len() implies after[i].0
                != after[j].0 by {
                if j < listing.len() {
                    assert(after[i] == listing[i]);
                    assert(after[j] == listing[j]);
                } else {
                    assert(after[i] == listing[i]);
                }
            }
            assert(after.drop_last() =~= listing);
        },
    }
}

/// Unbinding a key changes the listing as [`unbound`] says, keeps the keys
/// distinct, and changes the mapping by one removal.
pub proof fn lemma_unbound<V>(listing: Seq<(Seq<char>, V)>, key: Seq<char>)
    requires
        distinct_keys(listing),
    ensures
        distinct_keys(unbound(listing, key)),
        table_of(unbound(listing, key)) == table_of(listing).remove(key),
    decreases listing.len(),
{
    let after = unbound(listing, key);
    lemma_slot_binds(listing, key);
    match slot_of(listing, key) {
        Some(index) => {
            assert forall|i: int, j: int| 0 <= i < j < after.len() implies after[i].0
                != after[j].0 by {
                let before_i = if i < index { i } else { i + 1 };
                let before_j = if j < index { j } else { j + 1 };
                assert(after[i] == listing[before_i]);
                assert(after[j] == listing[before_j]);
            }
            let last = listing.len() - 1;
            let front = listing.drop_last();
            lemma_distinct_front(listing);
            if index == last {
                assert(after =~= front);
                lemma_table_keys(front, key);
                lemma_slot_binds(front, key);
                if slot_of(front, key) is Some {
                    let other = slot_of(front, key).unwrap();
                    assert(front[other] == listing[other]);
                    assert(listing[other].0 != listing[last].0);
                }
                assert(table_of(front) =~= table_of(listing).remove(key));
            } else {
                assert(binds(front, key, index));
                lemma_slot_unique(front, key, index);
                lemma_unbound(front, key);
                assert(after.drop_last() =~= unbound(front, key));
                assert(after.last() == listing.last());
                assert(listing[index].0 != listing[last].0);
                assert(table_of(after) =~= table_of(listing).remove(key));
            }
        },
        None => {
            lemma_table_keys(listing, key);
            assert(table_of(listing) =~= table_of(listing).remove(key));
        },
    }
}

/// A key that was unbound is bound nowhere, so unbinding it again changes
/// nothing.
pub proof fn lemma_unbound_twice<V>(listing: Seq<(Seq<char>, V)>, key: Seq<char>)
    requires
        distinct_keys(listing),
    ensures
        slot_of(unbound(listing, key), key) is None,
        unbound(unbound(listing, key), key) == unbound(listing, key),
{
    lemma_unbound(listing, key);
    lemma_table_keys(unbound(listing, key), key);
}

/// Binding or unbinding one key leaves every other key with its value.
pub proof fn lemma_other_key<V>(
    listing: Seq<(Seq<char>, V)>,
    key: Seq<char>,
    value: V,
    other: Seq<char>,
)
    requires
        distinct_keys(listing),
        other != key,
    ensures
        lookup(bound(listing, key, value), other) == lookup(listing, other),
        lookup(unbound(listing, key), other) == lookup(listing, other),
{
    let set = bound(listing, key, value);
    let cut = unbound(listing, key);
    lemma_bound(listing, key, value);
    lemma_unbound(listing, key);
    lemma_table_keys(listing, other);
    lemma_table_keys(set, other);
    lemma_table_keys(cut, other);
    lemma_slot_binds(listing, other);
    lemma_slot_binds(set, other);
    lemma_slot_binds(cut, other);
    if slot_of(listing, other) is Some {
        lemma_table_lookup(listing, slot_of(listing, other).unwrap());
        lemma_table_lookup(set, slot_of(set, other).unwrap());
        lemma_table_lookup(cut, slot_of(cut, other).unwrap());
    }
}

/// Of two bindings of one key in a row, the second is the one that stays.
pub proof fn lemma_bound_twice<V>(
    listing: Seq<(Seq<char>, V)>,
    key: Seq<char>,
    first: V,
    second: V,
)
    requires
        distinct_keys(listing),
    ensures
        bound(bound(listing, key, first), key, second) == bound(listing, key, second),
{
    let once = bound(listing, key, first);
    lemma_bound(listing, key, first);
    lemma_slot_binds(listing, key);
    match slot_of(listing, key) {
        Some(index) => {
            assert(binds(once, key, index));
            lemma_slot_unique(once, key, index);
            assert(bound(once, key, second) =~= bound(listing, key, second));
        },
        None => {
            assert(binds(once, key, listing.len() as int));
            lemma_slot_unique(once, key, listing.len() as int);
            assert(bound(once, key, second) =~= bound(listing, key, second));
        },
    }
}

/// The listing that comes of binding the entries one after another: each key
/// stands where it first came, with the value that it last came with.
pub open spec fn gathered<V>(entries: Seq<(Seq<char>, V)>) -> Seq<(Seq<char>, V)>
    decreases entries.len(),
{
    if entries.len() == 0 {
        Seq::empty()
    } else {
        bound(gathered(entries.drop_last()), entries.last().0, entries.last().1)
    }
}

/// Gathered entries have distinct keys and denote the mapping that the
/// entries denote.
pub proof fn lemma_gathered<V>(entries: Seq<(Seq<char>, V)>)
    ensures
        distinct_keys(gathered(entries)),
        table_of(gathered(entries)) == table_of(entries),
    decreases entries.len(),
{
    if entries.len() > 0 {
        lemma_gathered(entries.drop_last());
        lemma_bound(gathered(entries.drop_last()), entries.last().0, entries.last().1);
    }
}

/// Entries with distinct keys are gathered as they stand.
pub proof fn lemma_gathered_distinct<V>(entries: Seq<(Seq<char>, V)>)
    requires
        distinct_keys(entries),
    ensures
        gathered(entries) == entries,
    decreases entries.len(),
{
    if entries.len() > 0 {
        let front = entries.drop_last();
        lemma_distinct_front(entries);
        lemma_gathered_distinct(front);
        lemma_slot_binds(front, entries.last().0);
        if slot_of(front, entries.last().0) is Some {
            let index = slot_of(front, entries.last().0).unwrap();
            assert(front[index] == entries[index]);
            assert(entries[index].0 != entries[entries.len() - 1].0);
        }
        assert(front.push(entries.last()) =~= entries);
    } else {
        assert(entries =~= Seq::empty());
    }
}

/// A listing with each value replaced by what `f` makes of it.
pub open spec fn map_listing<T, U>(listing: Seq<(Seq<char>, T)>, f: spec_fn(T) -> U) -> Seq<
    (Seq<char>, U),
> {
    listing.map_values(|slot: (Seq<char>, T)| (slot.0, f(slot.1)))
}

/// Replacing the values of a listing keeps its keys where they are.
pub proof fn lemma_map_listing_slot<T, U>(
    listing: Seq<(Seq<char>, T)>,
    f: spec_fn(T) -> U,
    key: Seq<char>,
)
    requires
        distinct_keys(listing),
    ensures
        distinct_keys(map_listing(listing, f)),
        slot_of(map_listing(listing, f), key) == slot_of(listing, key),
{
    let mapped = map_listing(listing, f);
    assert forall|i: int, j: int| 0 <= i < j < mapped.len() implies mapped[i].0 != mapped[j].0 by {
        assert(mapped[i].0 == listing[i].0);
        assert(mapped[j].0 == listing[j].0);
    }
    lemma_slot_binds(listing, key);
    lemma_slot_binds(mapped, key);
    match slot_of(listing, key) {
        Some(index) => {
            assert(binds(mapped, key, index));
            lemma_slot_unique(mapped, key, index);
        },
        None => {
            if slot_of(mapped, key) is Some {
                let index = slot_of(mapped, key).unwrap();
                assert(mapped[index].0 == listing[index].0);
            }
        },
    }
}

/// Binding a key and replacing the values can be done in either order.
pub proof fn lemma_map_listing_bound<T, U>(
    listing: Seq<(Seq<char>, T)>,
    f: spec_fn(T) -> U,
    key: Seq<char>,
    value: T,
)
    requires
        distinct_keys(listing),
    ensures
        map_listing(bound(listing, key, value), f) == bound(map_listing(listing, f), key, f(value)),
{
    lemma_map_listing_slot(listing, f, key);
    lemma_slot_binds(listing, key);
    assert(map_listing(bound(listing, key, value), f) =~= bound(
        map_listing(listing, f),
        key,
        f(value),
    ));
}

/// Unbinding a key and replacing the values can be done in either order.
pub proof fn lemma_map_listing_unbound<T, U>(
    listing: Seq<(Seq<char>, T)>,
    f: spec_fn(T) -> U,
    key: Seq<char>,
)
    requires
        distinct_keys(listing),
    ensures
        map_listing(unbound(listing, key), f) == unbound(map_listing(listing, f), key),
{
    lemma_map_listing_slot(listing, f, key);
    lemma_slot_binds(listing, key);
    assert(map_listing(unbound(listing, key), f) =~= unbound(map_listing(listing, f), key));
}

/// The bindings that a vector of slots holds, each key as its characters.
spec fn listing_of<T>(slots: Seq<(String, T)>) -> Seq<(Seq<char>, T)> {
    slots.map_values(|slot: (String, T)| (slot.0@, slot.1))
}

/// An association list keyed by strings. No key is bound twice, and the
/// bindings stand in the order in which their keys first came.
#[derive(Debug)]
pub struct Table<T> {
    slots: Vec<(String, T)>,
}

impl<T> View for Table<T> {
    type V = Map<Seq<char>, T>;

    open spec fn view(&self) -> Map<Seq<char>, T> {
        table_of(self.listing())
    }
}

impl<T> Table<T> {
    /// The bindings in order, each key as its characters.
    pub closed spec fn listing(&self) -> Seq<(Seq<char>, T)> {
        listing_of(self.slots@)
    }

    #[verifier::type_invariant]
    spec fn keys_are_distinct(&self) -> bool {
        distinct_keys(self.listing())
    }

    /// A table without bindings.
    pub fn new() -> (table: Self)
        ensures
            table.listing() == Seq::<(Seq<char>, T)>::empty(),
            table@ == Map::<Seq<char>, T>::empty(),
    {
        let table = Table { slots: Vec::new() };
        assert(table.listing() =~= Seq::<(Seq<char>, T)>::empty());
        table
    }

    /// The number of bindings. The keys of a table are always distinct.
    pub fn len(&self) -> (count: usize)
        ensures
            count == self.listing().len(),
            distinct_keys(self.listing()),
    {
        proof {
            use_type_invariant(self);
        }
        self.slots.len()
    }

    /// The binding at `index`, if the table has that many.
    pub fn entry(&self, index: usize) -> (found: Option<(&String, &T)>)
        ensures
            distinct_keys(self.listing()),
            match found {
                Some((key, value)) => index < self.listing().len() && (key@, *value)
                    == self.listing()[index as int],
                None => index >= self.listing().len(),
            },
    {
        proof {
            use_type_invariant(self);
        }
        if index < self.slots.len() {
            Some((&self.slots[index].0, &self.slots[index].1))
        } else {
            None
        }
    }

    /// Moves the slots out and leaves the table empty.
    fn take_slots(&mut self) -> (slots: Vec<(String, T)>)
        ensures
            listing_of(slots@) == old(self).listing(),
            final(self).listing() == Seq::<(Seq<char>, T)>::empty(),
    {
        let mut slots = Vec::new();
        assert(listing_of(slots@) =~= Seq::<(Seq<char>, T)>::empty());
        std::mem::swap(&mut self.slots, &mut slots);
        slots
    }

    /// The index at which `key` is bound.
    pub fn position(&self, key: &str) -> (slot: Option<usize>)
        ensures
            distinct_keys(self.listing()),
            match slot {
                Some(index) => slot_of(self.listing(), key@) == Some(index as int),
                None => slot_of(self.listing(), key@) is None,
            },
            slot is Some <==> self@.contains_key(key@),
    {
        proof {
            use_type_invariant(self);
        }
        let needle = key.to_owned();
        let mut index: usize = 0;
        while index < self.slots.len()
            invariant
                index <= self.slots.len(),
                needle@ == key@,
                distinct_keys(self.listing()),
                forall|i: int| 0 <= i < index ==> self.listing()[i].0 != key@,
            decreases self.slots.len() - index,
        {
            if self.slots[index].0 == needle {
                proof {
                    assert(binds(self.listing(), key@, index as int));
                    lemma_slot_unique(self.listing(), key@, index as int);
                    lemma_table_keys(self.listing(), key@);
                }
                return Some(index);
            }
            index += 1;
        }
        proof {
            lemma_slot_binds(self.listing(), key@);
            lemma_table_keys(self.listing(), key@);
        }
        None
    }

    /// The value that `key` is bound to.
    pub fn get(&self, key: &str) -> (found: Option<&T>)
        ensures
            distinct_keys(self.listing()),
            match found {
                Some(value) => lookup(self.listing(), key@) == Some(*value) && self@.contains_key(
                    key@,
                ) && self@[key@] == *value,
                None => lookup(self.listing(), key@) is None && !self@.contains_key(key@),
            },
    {
        match self.position(key) {
            Some(index) => {
                proof {
                    lemma_slot_binds(self.listing(), key@);
                    lemma_table_lookup(self.listing(), index as int);
                }
                Some(&self.slots[index].1)
            },
            None => None,
        }
    }

    /// Binds `key` to `value` and hands back the value it was bound to.
    pub fn insert(&mut self, key: String, value: T) -> (previous: Option<T>)
        ensures
            final(self).listing() == bound(old(self).listing(), key@, value),
            final(self)@ == old(self)@.insert(key@, value),
            distinct_keys(old(self).listing()),
            distinct_keys(final(self).listing()),
            previous == lookup(old(self).listing(), key@),
    {
        proof {
            use_type_invariant(&*self);
            lemma_bound(self.listing(), key@, value);
            lemma_slot_binds(self.listing(), key@);
        }
        match self.position(key.as_str()) {
            Some(index) => {
                let ghost before = self.listing();
                let mut slots = self.take_slots();
                let (_, previous) = slots.remove(index);
                slots.insert(index, (key, value));
                assert(listing_of(slots@) =~= before.update(index as int, (key@, value)));
                self.slots = slots;
                Some(previous)
            },
            None => {
                let ghost before = self.listing();
                let mut slots = self.take_slots();
                slots.push((key, value));
                assert(listing_of(slots@) =~= before.push((key@, value)));
                self.slots = slots;
                None
            },
        }
    }

    /// Takes the binding of `key` out and hands back its value.
    pub fn remove(&mut self, key: &str) -> (previous: Option<T>)
        ensures
            final(self).listing() == unbound(old(self).listing(), key@),
            final(self)@ == old(self)@.remove(key@),
            distinct_keys(old(self).listing()),
            distinct_keys(final(self).listing()),
            previous == lookup(old(self).listing(), key@),
    {
        proof {
            use_type_invariant(&*self);
            lemma_unbound(self.listing(), key@);
            lemma_slot_binds(self.listing(), key@);
        }
        match self.position(key) {
            Some(index) => {
                let ghost before = self.listing();
                let mut slots = self.take_slots();
                let (_, previous) = slots.remove(index);
                assert(listing_of(slots@) =~= before.remove(index as int));
                self.slots = slots;
                Some(previous)
            },
            None => None,
        }
    }
}

} // verus!
