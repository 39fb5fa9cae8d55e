//! A small table from 64-bit identifiers to values, kept in the order in
//! which the identifiers were first seen. No identifier occurs twice.

use vstd::prelude::*;

verus! {

/// The place of `key` among `entries`, searched from `start`: the first
/// entry under that key, or the number of entries where there is none.
pub open spec fn place_from<V>(entries: Seq<(u64, V)>, key: u64, start: int) -> int
    decreases entries.len() - start,
{
    if start < 0 || start >= entries.len() {
        entries.len() as int
    } else if entries[start].0 == key {
        start
    } else {
        place_from(entries, key, start + 1)
    }
}

/// The place of `key` among `entries`.
pub open spec fn place_of<V>(entries: Seq<(u64, V)>, key: u64) -> int {
    place_from(entries, key, 0)
}

/// Whether no key occurs twice.
pub open spec fn distinct<V>(entries: Seq<(u64, V)>) -> bool {
    forall|i: int, j: int|
        0 <= i < j < entries.len() ==> (#[trigger] entries[i]).0 != (#[trigger] entries[j]).0
}

/// Whether `entries` holds `key`.
pub open spec fn holds<V>(entries: Seq<(u64, V)>, key: u64) -> bool {
    place_of(entries, key) < entries.len()
}

/// The value under `key`, if there is one.
pub open spec fn value_of<V>(entries: Seq<(u64, V)>, key: u64) -> Option<V> {
    if holds(entries, key) {
        Some(entries[place_of(entries, key)].1)
    } else {
        None
    }
}

/// The entries with `value` under `key`: in the place of the old value
/// where there was one, at the end otherwise.
pub open spec fn upserted<V>(entries: Seq<(u64, V)>, key: u64, value: V) -> Seq<(u64, V)> {
    if holds(entries, key) {
        entries.update(place_of(entries, key), (key, value))
    } else {
        entries.push((key, value))
    }
}

/// The entries without the one under `key`.
pub open spec fn without<V>(entries: Seq<(u64, V)>, key: u64) -> Seq<(u64, V)> {
    if holds(entries, key) {
        entries.remove(place_of(entries, key))
    } else {
        entries
    }
}

/// `place_from` finds the first entry under the key.
pub proof fn lemma_place_from<V>(entries: Seq<(u64, V)>, key: u64, start: int)
    requires
        0 <= start <= entries.len(),
    ensures
        start <= place_from(entries, key, start) <= entries.len(),
        place_from(entries, key, start) < entries.len() ==> entries[place_from(
            entries,
            key,
            start,
        )].0 == key,
        forall|i: int| start <= i < place_from(entries, key, start) ==> (#[trigger] entries[i]).0 != key,
    decreases entries.len() - start,
{
    if start < entries.len() && entries[start].0 != key {
        lemma_place_from(entries, key, start + 1);
    }
}

/// An entry under a key that occurs once is where `place_of` finds it.
pub proof fn lemma_place_of_entry<V>(entries: Seq<(u64, V)>, index: int)
    requires
        distinct(entries),
        0 <= index < entries.len(),
    ensures
        place_of(entries, entries[index].0) == index,
        holds(entries, entries[index].0),
        value_of(entries, entries[index].0) == Some(entries[index].1),
{
    lemma_place_from(entries, entries[index].0, 0);
    let found = place_of(entries, entries[index].0);
    if found < index {
        assert(entries[found].0 != entries[index].0);
    }
}

/// Putting a value under a key keeps the keys distinct, makes the key hold
/// that value, and leaves every other key as it was.
pub proof fn lemma_upserted<V>(entries: Seq<(u64, V)>, key: u64, value: V)
    requires
        distinct(entries),
    ensures
        distinct(upserted(entries, key, value)),
        value_of(upserted(entries, key, value), key) == Some(value),
        forall|other: u64|
            other != key ==> #[trigger] value_of(upserted(entries, key, value), other) == value_of(
                entries,
                other,
            ),
{
    let after = upserted(entries, key, value);
    lemma_place_from(entries, key, 0);
    let place = place_of(entries, key);
    assert(after.len() > place && after[place] == (key, value));
    assert forall|i: int, j: int| 0 <= i < j < after.len() implies (#[trigger] after[i]).0 != (
    #[trigger] after[j]).0 by {
        if i < entries.len() && i != place {
            assert(after[i] == entries[i]);
        }
        if j < entries.len() && j != place {
            assert(after[j] == entries[j]);
        }
        if j < entries.len() {
            assert(entries[i].0 != entries[j].0);
        }
    }
    lemma_place_of_entry(after, place);
    assert forall|other: u64| other != key implies #[trigger] value_of(after, other) == value_of(
        entries,
        other,
    ) by {
        lemma_place_from(entries, other, 0);
        lemma_place_from(after, other, 0);
        let before = place_of(entries, other);
        let now = place_of(after, other);
        if before < entries.len() {
            assert(after[before] == entries[before]);
            if now < before {
                assert(after[now] == entries[now]);
            }
        } else if now < after.len() {
            if now < entries.len() {
                assert(after[now] == entries[now] || now == place);
            }
        }
    }
}

/// Taking a key out keeps the keys distinct, leaves the key without a
/// value, and leaves every other key as it was.
pub proof fn lemma_without<V>(entries: Seq<(u64, V)>, key: u64)
    requires
        distinct(entries),
    ensures
        distinct(without(entries, key)),
        value_of(without(entries, key), key) == None::<V>,
        forall|other: u64|
            other != key ==> #[trigger] value_of(without(entries, key), other) == value_of(
                entries,
                other,
            ),
{
    let after = without(entries, key);
    lemma_place_from(entries, key, 0);
    let place = place_of(entries, key);
    assert forall|i: int| 0 <= i < after.len() implies #[trigger] after[i] == entries[if place
        < entries.len() && i >= place {
        i + 1
    } else {
        i
    }] by {}
    assert forall|i: int, j: int| 0 <= i < j < after.len() implies (#[trigger] after[i]).0 != (
    #[trigger] after[j]).0 by {
        let a = if place < entries.len() && i >= place {
            i + 1
        } else {
            i
        };
        let b = if place < entries.len() && j >= place {
            j + 1
        } else {
            j
        };
        assert(entries[a].0 != entries[b].0);
    }
    lemma_place_from(after, key, 0);
    let again = place_of(after, key);
    if again < after.len() {
        let a = if place < entries.len() && again >= place {
            again + 1
        } else {
            again
        };
        assert(entries[a].0 == key);
        assert(entries[place].0 == key);
    }
    assert forall|other: u64| other != key implies #[trigger] value_of(after, other) == value_of(
        entries,
        other,
    ) by {
        lemma_place_from(entries, other, 0);
        lemma_place_from(after, other, 0);
        let before = place_of(entries, other);
        let now = place_of(after, other);
        if before < entries.len() {
            let moved = if place < entries.len() && before > place {
                before - 1
            } else {
                before
            };
            assert(after[moved] == entries[before]);
            lemma_place_of_entry(after, moved);
        } else if now < after.len() {
            let a = if place < entries.len() && now >= place {
                now + 1
            } else {
                now
            };
            assert(entries[a].0 == other);
        }
    }
}

/// A table from identifiers to values of `V`.
pub struct Roster<V> {
    entries: Vec<(u64, V)>,
}

impl<V> View for Roster<V> {
    type V = Seq<(u64, V)>;

    closed spec fn view(&self) -> Seq<(u64, V)> {
        self.entries@
    }
}

impl<V: Copy> Roster<V> {
    /// Whether no identifier occurs twice.
    pub open spec fn wf(&self) -> bool {
        distinct(self@)
    }

    /// A table without entries.
    pub fn new() -> (roster: Roster<V>)
        ensures
            roster@ == Seq::<(u64, V)>::empty(),
            roster.wf(),
    {
        Roster { entries: Vec::new() }
    }

    /// The number of entries.
    pub fn len(&self) -> (n: usize)
        ensures
            n == self@.len(),
    {
        self.entries.len()
    }

    /// The entry at `index`.
    pub fn entry(&self, index: usize) -> (entry: (u64, V))
        requires
            index < self@.len(),
        ensures
            entry == self@[index as int],
    {
        self.entries[index]
    }

    /// The place of `key`, or the number of entries where it is not held.
    pub fn find(&self, key: u64) -> (place: usize)
        ensures
            place == place_of(self@, key),
            place <= self@.len(),
    {
        let mut i: usize = 0;
        proof {
            lemma_place_from(self@, key, 0);
        }
        while i < self.entries.len()
            invariant
                i <= self.entries.len(),
                place_from(self@, key, i as int) == place_of(self@, key),
            decreases self.entries.len() - i,
        {
            if self.entries[i].0 == key {
                return i;
            }
            i = i + 1;
        }
        i
    }

    /// The value under `key`, if there is one.
    pub fn get(&self, key: u64) -> (value: Option<V>)
        ensures
            value == value_of(self@, key),
    {
        let place = self.find(key);
        if place < self.entries.len() {
            Some(self.entries[place].1)
        } else {
            None
        }
    }

    /// Puts `value` under `key`.
    pub fn upsert(&mut self, key: u64, value: V)
        requires
            old(self).wf(),
        ensures
            final(self).wf(),
            final(self)@ == upserted(old(self)@, key, value),
    {
        let place = self.find(key);
        proof {
            lemma_upserted(self@, key, value);
        }
        if place < self.entries.len() {
            self.entries[place] = (key, value);
        } else {
            self.entries.push((key, value));
        }
    }

    /// Takes the entry under `key` out and hands back its value.
    pub fn remove(&mut self, key: u64) -> (value: Option<V>)
        requires
            old(self).wf(),
        ensures
            final(self).wf(),
            final(self)@ == without(old(self)@, key),
            value == value_of(old(self)@, key),
    {
        let place = self.find(key);
        proof {
            lemma_without(self@, key);
        }
        if place < self.entries.len() {
            let entry = self.entries.remove(place);
            Some(entry.1)
        } else {
            None
        }
    }

    /// Takes every entry out.
    pub fn clear(&mut self)
        ensures
            final(self).wf(),
            final(self)@ == Seq::<(u64, V)>::empty(),
    {
        self.entries.clear();
    }
}

} // verus!
