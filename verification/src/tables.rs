//! Maps keyed by a number or by a name.
//!
//! What is only filled, read and emptied is kept in a `HashMap` of the
//! standard library. What is walked, or changed in place, is kept in a
//! table: a table keeps its entries in the order in which their keys first
//! came, so walking it gives the same order on every run.

use crate::text::same_text;
use std::collections::HashMap;
use vstd::prelude::*;

verus! {

/// The first position at or after `from` at which `key` stands in `keys`;
/// the length of `keys` if there is none.
pub open spec fn position_from(keys: Seq<u64>, key: u64, from: int) -> int
    decreases keys.len() - from,
{
    if from < 0 || from >= keys.len() {
        keys.len() as int
    } else if keys[from] == key {
        from
    } else {
        position_from(keys, key, from + 1)
    }
}

/// The first position at which `key` stands in `keys`.
pub open spec fn position(keys: Seq<u64>, key: u64) -> Option<int> {
    if position_from(keys, key, 0) < keys.len() {
        Some(position_from(keys, key, 0))
    } else {
        None
    }
}

/// The first position found holds the key, and no earlier one does.
pub proof fn lemma_position(keys: Seq<u64>, key: u64)
    ensures
        match position(keys, key) {
            Some(i) => 0 <= i < keys.len() && keys[i] == key && forall|j: int|
                0 <= j < i ==> keys[j] != key,
            None => forall|j: int| 0 <= j < keys.len() ==> keys[j] != key,
        },
{
    lemma_position_from(keys, key, 0);
}

proof fn lemma_position_from(keys: Seq<u64>, key: u64, from: int)
    requires
        0 <= from,
    ensures
        from <= position_from(keys, key, from) || keys.len() < from,
        position_from(keys, key, from) <= keys.len() || keys.len() < from,
        position_from(keys, key, from) < keys.len() ==> keys[position_from(keys, key, from)] == key,
        forall|j: int| from <= j < position_from(keys, key, from) && j < keys.len() ==> keys[j] != key,
    decreases keys.len() - from,
{
    if from < keys.len() && keys[from] != key {
        lemma_position_from(keys, key, from + 1);
    }
}

/// Where the entry for `key` stands in a table.
pub open spec fn lookup<T>(table: Seq<(u64, T)>, key: u64) -> Option<int> {
    position(table.map_values(|e: (u64, T)| e.0), key)
}

/// The table with `value` under `key`: in place of the entry that is
/// there, or behind all entries.
pub open spec fn put<T>(table: Seq<(u64, T)>, key: u64, value: T) -> Seq<(u64, T)> {
    match lookup(table, key) {
        Some(i) => table.update(i, (key, value)),
        None => table.push((key, value)),
    }
}

/// Where `put` puts the entry for `key`.
pub open spec fn slot<T>(table: Seq<(u64, T)>, key: u64) -> int {
    match lookup(table, key) {
        Some(i) => i,
        None => table.len() as int,
    }
}

/// An entry that was found stands under its key.
pub proof fn lemma_lookup<T>(table: Seq<(u64, T)>, key: u64)
    ensures
        match lookup(table, key) {
            Some(i) => 0 <= i < table.len() && table[i].0 == key,
            None => forall|j: int| 0 <= j < table.len() ==> (#[trigger] table[j]).0 != key,
        },
{
    let keys = table.map_values(|e: (u64, T)| e.0);
    lemma_position(keys, key);
    assert forall|j: int| 0 <= j < table.len() implies keys[j] == (#[trigger] table[j]).0 by {}
}

/// After `put`, the entry for `key` is found where `slot` says.
pub proof fn lemma_put<T>(table: Seq<(u64, T)>, key: u64, value: T)
    ensures
        lookup(put(table, key, value), key) == Some(slot(table, key)),
        0 <= slot(table, key) < put(table, key, value).len(),
        put(table, key, value)[slot(table, key)] == (key, value),
{
    let keys = table.map_values(|e: (u64, T)| e.0);
    let after = put(table, key, value);
    let after_keys = after.map_values(|e: (u64, T)| e.0);
    lemma_position(keys, key);
    lemma_position(after_keys, key);
    let at = slot(table, key);
    assert(after_keys[at] == key);
    assert forall|j: int| 0 <= j < at implies after_keys[j] != key by {
        assert(after_keys[j] == keys[j]);
    }
}

/// One entry of a table keyed by a number.
pub struct Entry<V> {
    pub key: u64,
    pub value: V,
}

/// A table keyed by a number. Where a key stands more than once, the first
/// entry counts.
pub struct Table<V> {
    pub entries: Vec<Entry<V>>,
}

impl<V: View> View for Table<V> {
    type V = Seq<(u64, V::V)>;

    open spec fn view(&self) -> Seq<(u64, V::V)> {
        self.entries@.map_values(|e: Entry<V>| (e.key, e.value@))
    }
}

impl<V: View> Table<V> {
    pub fn new() -> (table: Self)
        ensures
            table@ == Seq::<(u64, V::V)>::empty(),
    {
        let table = Table { entries: Vec::new() };
        assert(table@ =~= Seq::<(u64, V::V)>::empty());
        table
    }

    pub fn len(&self) -> (n: usize)
        ensures
            n == self@.len(),
    {
        self.entries.len()
    }

    /// Where the entry for `key` stands.
    pub fn find(&self, key: u64) -> (found: Option<usize>)
        ensures
            match found {
                Some(i) => lookup(self@, key) == Some(i as int) && i < self.entries@.len()
                    && self.entries@[i as int].key == key,
                None => lookup(self@, key) is None,
            },
    {
        let ghost keys = self@.map_values(|e: (u64, V::V)| e.0);
        let mut i: usize = 0;
        while i < self.entries.len()
            invariant
                i <= self.entries.len(),
                keys == self@.map_values(|e: (u64, V::V)| e.0),
                position_from(keys, key, 0) == position_from(keys, key, i as int),
            decreases self.entries.len() - i,
        {
            assert(keys[i as int] == self.entries@[i as int].key);
            if self.entries[i].key == key {
                return Some(i);
            }
            i += 1;
        }
        None
    }

    /// Puts `value` under `key`: in place of the entry that is there, or
    /// behind all entries. Returns where it stands.
    pub fn put(&mut self, key: u64, value: V) -> (at: usize)
        ensures
            final(self)@ == put(old(self)@, key, value@),
            at == slot(old(self)@, key),
            at < final(self).entries@.len(),
            final(self).entries@[at as int].key == key,
            final(self).entries@[at as int].value == value,
    {
        match self.find(key) {
            Some(i) => {
                self.entries[i] = Entry { key, value };
                assert(self@ =~= put(old(self)@, key, value@));
                i
            },
            None => {
                self.entries.push(Entry { key, value });
                assert(self@ =~= put(old(self)@, key, value@));
                self.entries.len() - 1
            },
        }
    }

    /// Puts `value` behind all entries.
    pub fn push(&mut self, key: u64, value: V)
        ensures
            final(self)@ == old(self)@.push((key, value@)),
            final(self).entries@ == old(self).entries@.push(Entry { key, value }),
    {
        self.entries.push(Entry { key, value });
        assert(self@ =~= old(self)@.push((key, value@)));
    }
}

/// The first position at or after `from` at which `name` stands in
/// `names`; the length of `names` if there is none.
pub open spec fn name_position_from(names: Seq<Seq<char>>, name: Seq<char>, from: int) -> int
    decreases names.len() - from,
{
    if from < 0 || from >= names.len() {
        names.len() as int
    } else if names[from] == name {
        from
    } else {
        name_position_from(names, name, from + 1)
    }
}

/// The first position at which `name` stands in `names`.
pub open spec fn name_position(names: Seq<Seq<char>>, name: Seq<char>) -> Option<int> {
    if name_position_from(names, name, 0) < names.len() {
        Some(name_position_from(names, name, 0))
    } else {
        None
    }
}

/// Where the entry for `name` stands in a table.
pub open spec fn lookup_name<T>(table: Seq<(Seq<char>, T)>, name: Seq<char>) -> Option<int> {
    name_position(table.map_values(|e: (Seq<char>, T)| e.0), name)
}

/// The table without the entry for `name`.
pub open spec fn without_name<T>(table: Seq<(Seq<char>, T)>, name: Seq<char>) -> Seq<
    (Seq<char>, T),
> {
    match lookup_name(table, name) {
        Some(i) => table.remove(i),
        None => table,
    }
}

/// One entry of a table keyed by a name.
pub struct NamedEntry<V> {
    pub name: String,
    pub value: V,
}

/// A table keyed by a name. Where a name stands more than once, the first
/// entry counts.
pub struct NameTable<V> {
    pub entries: Vec<NamedEntry<V>>,
}

impl<V: View> View for NameTable<V> {
    type V = Seq<(Seq<char>, V::V)>;

    open spec fn view(&self) -> Seq<(Seq<char>, V::V)> {
        self.entries@.map_values(|e: NamedEntry<V>| (e.name@, e.value@))
    }
}

impl<V: View> NameTable<V> {
    pub fn new() -> (table: Self)
        ensures
            table@ == Seq::<(Seq<char>, V::V)>::empty(),
    {
        let table = NameTable { entries: Vec::new() };
        assert(table@ =~= Seq::<(Seq<char>, V::V)>::empty());
        table
    }

    pub fn len(&self) -> (n: usize)
        ensures
            n == self@.len(),
    {
        self.entries.len()
    }

    /// Where the entry for `name` stands.
    pub fn find(&self, name: &str) -> (found: Option<usize>)
        ensures
            match found {
                Some(i) => lookup_name(self@, name@) == Some(i as int) && i < self.entries@.len()
                    && self.entries@[i as int].name@ == name@,
                None => lookup_name(self@, name@) is None,
            },
    {
        let ghost names = self@.map_values(|e: (Seq<char>, V::V)| e.0);
        let mut i: usize = 0;
        while i < self.entries.len()
            invariant
                i <= self.entries.len(),
                names == self@.map_values(|e: (Seq<char>, V::V)| e.0),
                name_position_from(names, name@, 0) == name_position_from(names, name@, i as int),
            decreases self.entries.len() - i,
        {
            assert(names[i as int] == self.entries@[i as int].name@);
            if same_text(self.entries[i].name.as_str(), name) {
                return Some(i);
            }
            i += 1;
        }
        None
    }

    /// Puts an entry behind all entries.
    pub fn push(&mut self, name: String, value: V)
        ensures
            final(self)@ == old(self)@.push((name@, value@)),
    {
        self.entries.push(NamedEntry { name, value });
        assert(self@ =~= old(self)@.push((name@, value@)));
    }

    /// Takes the entry for `name` out of the table.
    pub fn take(&mut self, name: &str) -> (value: Option<V>)
        ensures
            final(self)@ == without_name(old(self)@, name@),
            match lookup_name(old(self)@, name@) {
                Some(i) => value matches Some(v) && v@ == old(self)@[i].1,
                None => value is None,
            },
    {
        match self.find(name) {
            Some(i) => {
                let entry = self.entries.remove(i);
                assert(self@ =~= without_name(old(self)@, name@));
                Some(entry.value)
            },
            None => None,
        }
    }
}

/// The views of the values of a map.
pub open spec fn views<V: View>(map: Map<u64, V>) -> Map<u64, V::V> {
    map.map_values(|value: V| value@)
}

/// A map keyed by a number that nothing has been put into.
pub fn new_map<V: View>() -> (map: HashMap<u64, V>)
    ensures
        views(map@) == Map::<u64, V::V>::empty(),
{
    let map: HashMap<u64, V> = HashMap::new();
    assert(views(map@) =~= Map::<u64, V::V>::empty());
    map
}

/// What stands under `key` in the map.
pub fn map_get<V: View>(map: &HashMap<u64, V>, key: u64) -> (found: Option<&V>)
    ensures
        match found {
            Some(value) => views(map@).contains_key(key) && map@.contains_key(key) && *value
                == map@[key] && value@ == views(map@)[key],
            None => !views(map@).contains_key(key),
        },
{
    broadcast use vstd::std_specs::hash::group_hash_axioms;

    map.get(&key)
}

/// Puts `value` under `key`, in place of what stands there.
pub fn map_put<V: View>(map: &mut HashMap<u64, V>, key: u64, value: V)
    ensures
        views(final(map)@) == views(old(map)@).insert(key, value@),
{
    broadcast use vstd::std_specs::hash::group_hash_axioms;

    map.insert(key, value);
    assert(views(map@) =~= views(old(map)@).insert(key, value@));
}

/// Takes what stands under `key` out of the map.
pub fn map_take<V: View>(map: &mut HashMap<u64, V>, key: u64) -> (taken: Option<V>)
    ensures
        views(final(map)@) == views(old(map)@).remove(key),
        match taken {
            Some(value) => views(old(map)@).contains_key(key) && value@ == views(old(map)@)[key],
            None => !views(old(map)@).contains_key(key) && views(final(map)@) == views(
                old(map)@,
            ),
        },
{
    broadcast use vstd::std_specs::hash::group_hash_axioms;

    let taken = map.remove(&key);
    assert(views(map@) =~= views(old(map)@).remove(key));
    if taken.is_none() {
        assert(views(map@) =~= views(old(map)@));
    }
    taken
}

} // verus!
