//! A small map from names to values, kept as a list of entries.
//!
//! The first entry of a name is the one that counts; `insert` replaces it in
//! place, or appends an entry where there is none. The model of a table is
//! the `Map` from names to the values of their first entries.

use vstd::prelude::*;

use crate::text::same_text;

verus! {

/// A name and the value it is bound to.
#[derive(Debug)]
pub struct Entry<V> {
    pub key: String,
    pub value: V,
}

/// A map from names to values.
#[derive(Debug)]
pub struct Table<V> {
    entries: Vec<Entry<V>>,
}

/// The map that a list of entries stands for: each name with the value of its first entry.
pub open spec fn entries_map<V>(entries: Seq<Entry<V>>) -> Map<Seq<char>, V>
    decreases entries.len(),
{
    if entries.len() == 0 {
        Map::empty()
    } else {
        entries_map(entries.drop_first()).insert(entries[0].key@, entries[0].value)
    }
}

/// The index of the first entry named `key` at or after `from`.
pub open spec fn first_entry<V>(entries: Seq<Entry<V>>, key: Seq<char>, from: int) -> Option<int>
    decreases entries.len() - from,
{
    if from < 0 || from >= entries.len() {
        None
    } else if entries[from].key@ == key {
        Some(from)
    } else {
        first_entry(entries, key, from + 1)
    }
}

/// What `first_entry` finds: the entry is named `key` and none before it is,
/// or no entry from `from` on is named `key`.
pub proof fn lemma_first_entry<V>(entries: Seq<Entry<V>>, key: Seq<char>, from: int)
    requires
        0 <= from,
    ensures
        match first_entry(entries, key, from) {
            Some(i) => from <= i < entries.len() && entries[i].key@ == key && forall|j: int|
                from <= j < i ==> (#[trigger] entries[j]).key@ != key,
            None => forall|j: int| from <= j < entries.len() ==> (#[trigger] entries[j]).key@ != key,
        },
    decreases entries.len() - from,
{
    if from < entries.len() && entries[from].key@ != key {
        lemma_first_entry(entries, key, from + 1);
    }
}

/// A name is in the map exactly if an entry bears it, and is then bound to
/// the value of the first such entry.
pub proof fn lemma_entries_map<V>(entries: Seq<Entry<V>>, key: Seq<char>)
    ensures
        match first_entry(entries, key, 0) {
            Some(i) => entries_map(entries).dom().contains(key) && entries_map(entries)[key]
                == entries[i].value,
            None => !entries_map(entries).dom().contains(key),
        },
    decreases entries.len(),
{
    if entries.len() > 0 {
        let rest = entries.drop_first();
        lemma_entries_map(rest, key);
        lemma_first_entry_shift(entries, key, 0);
        lemma_first_entry(rest, key, 0);
        if entries[0].key@ != key {
            match first_entry(rest, key, 0) {
                Some(i) => {
                    assert(rest[i] == entries[i + 1]);
                },
                None => {},
            }
        }
    }
}

/// Searching a list from `from + 1` on is searching its tail from `from` on.
pub proof fn lemma_first_entry_shift<V>(entries: Seq<Entry<V>>, key: Seq<char>, from: int)
    requires
        0 <= from,
        entries.len() > 0,
    ensures
        first_entry(entries, key, from + 1) == match first_entry(entries.drop_first(), key, from) {
            Some(i) => Some(i + 1),
            None => None,
        },
    decreases entries.len() - from,
{
    let rest = entries.drop_first();
    if from + 1 < entries.len() {
        assert(rest[from] == entries[from + 1]);
        if entries[from + 1].key@ != key {
            lemma_first_entry_shift(entries, key, from + 1);
        }
    }
}

/// Replacing the first entry of a name binds the name to the new value.
pub proof fn lemma_replace_first<V>(entries: Seq<Entry<V>>, i: int, entry: Entry<V>)
    requires
        first_entry(entries, entry.key@, 0) == Some(i),
    ensures
        entries_map(entries.update(i, entry)) == entries_map(entries).insert(entry.key@, entry.value),
    decreases entries.len(),
{
    lemma_first_entry(entries, entry.key@, 0);
    let rest = entries.drop_first();
    if i == 0 {
        assert(entries.update(0, entry).drop_first() =~= rest);
        assert(entries_map(entries.update(i, entry)) =~= entries_map(entries).insert(
            entry.key@,
            entry.value,
        ));
    } else {
        lemma_first_entry_shift(entries, entry.key@, 0);
        lemma_replace_first(rest, i - 1, entry);
        assert(entries.update(i, entry).drop_first() =~= rest.update(i - 1, entry));
        assert(entries_map(entries.update(i, entry)) =~= entries_map(entries).insert(
            entry.key@,
            entry.value,
        ));
    }
}

/// Appending an entry of a name that no entry bears binds the name to its value.
pub proof fn lemma_append_new<V>(entries: Seq<Entry<V>>, entry: Entry<V>)
    requires
        first_entry(entries, entry.key@, 0) is None,
    ensures
        entries_map(entries.push(entry)) == entries_map(entries).insert(entry.key@, entry.value),
    decreases entries.len(),
{
    if entries.len() == 0 {
        assert(entries.push(entry).drop_first() =~= entries);
    } else {
        let rest = entries.drop_first();
        lemma_first_entry_shift(entries, entry.key@, 0);
        lemma_append_new(rest, entry);
        assert(entries.push(entry).drop_first() =~= rest.push(entry));
        assert(entries_map(entries.push(entry)) =~= entries_map(entries).insert(
            entry.key@,
            entry.value,
        ));
    }
}

impl<V> View for Table<V> {
    type V = Map<Seq<char>, V>;

    closed spec fn view(&self) -> Map<Seq<char>, V> {
        entries_map(self.entries@)
    }
}

impl<V> Table<V> {
    /// The entries, in the order in which their names were first inserted.
    pub closed spec fn entries(&self) -> Seq<Entry<V>> {
        self.entries@
    }

    /// An empty table.
    pub fn new() -> (r: Table<V>)
        ensures
            r@ == Map::<Seq<char>, V>::empty(),
            r.entries() == Seq::<Entry<V>>::empty(),
    {
        Table { entries: Vec::new() }
    }

    /// The number of entries.
    pub fn len(&self) -> (r: usize)
        ensures
            r == self.entries().len(),
    {
        self.entries.len()
    }

    /// The entry at `index`.
    pub fn entry(&self, index: usize) -> (r: &Entry<V>)
        requires
            index < self.entries().len(),
        ensures
            *r == self.entries()[index as int],
    {
        &self.entries[index]
    }

    /// The index of the first entry named `key`.
    fn find(&self, key: &str) -> (r: Option<usize>)
        ensures
            match r {
                Some(i) => i < self.entries().len() && first_entry(self.entries(), key@, 0) == Some(
                    i as int,
                ),
                None => first_entry(self.entries(), key@, 0) is None,
            },
    {
        let mut i: usize = 0;
        while i < self.entries.len()
            invariant
                i <= self.entries.len(),
                first_entry(self.entries@, key@, i as int) == first_entry(self.entries@, key@, 0),
            decreases self.entries.len() - i,
        {
            if same_text(self.entries[i].key.as_str(), key) {
                return Some(i);
            }
            i += 1;
        }
        None
    }

    /// Whether `key` is bound.
    pub fn contains_key(&self, key: &str) -> (r: bool)
        ensures
            r == self@.dom().contains(key@),
    {
        proof {
            lemma_entries_map(self.entries@, key@);
        }
        self.find(key).is_some()
    }

    /// The value that `key` is bound to.
    pub fn get(&self, key: &str) -> (r: Option<&V>)
        ensures
            match r {
                Some(v) => self@.dom().contains(key@) && *v == self@[key@],
                None => !self@.dom().contains(key@),
            },
    {
        proof {
            lemma_entries_map(self.entries@, key@);
        }
        match self.find(key) {
            Some(i) => Some(&self.entries[i].value),
            None => None,
        }
    }

    /// Binds `key` to `value`, in place of what it was bound to: the first
    /// entry of the name is replaced where it stands, and a new name is entered last.
    pub fn insert(&mut self, key: String, value: V)
        ensures
            final(self)@ == old(self)@.insert(key@, value),
            final(self).entries() == match first_entry(old(self).entries(), key@, 0) {
                Some(i) => old(self).entries().update(i, Entry { key, value }),
                None => old(self).entries().push(Entry { key, value }),
            },
    {
        let found = self.find(key.as_str());
        let entry = Entry { key, value };
        match found {
            Some(i) => {
                proof {
                    lemma_first_entry(self.entries@, entry.key@, 0);
                    lemma_replace_first(self.entries@, i as int, entry);
                }
                self.entries.set(i, entry);
            },
            None => {
                proof {
                    lemma_append_new(self.entries@, entry);
                }
                self.entries.push(entry);
            },
        }
    }
}

} // verus!
