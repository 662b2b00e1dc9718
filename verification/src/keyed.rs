//! Lists of entries under distinct keys.
//!
//! A mapping whose keys are not integers is kept as a list of entries in
//! which no key stands twice. This module holds the model of such a list and
//! of putting an entry into it, and a list type over any key that can be
//! compared.

use vstd::prelude::*;

verus! {

/// Whether no key stands in two entries.
pub open spec fn distinct_keys<K, V>(entries: Seq<(K, V)>) -> bool {
    forall|i: int, j: int|
        0 <= i < j < entries.len() ==> (#[trigger] entries[i]).0 != (#[trigger] entries[j]).0
}

/// Whether `key` stands in an entry.
pub open spec fn has_key<K, V>(entries: Seq<(K, V)>, key: K) -> bool {
    exists|i: int| 0 <= i < entries.len() && (#[trigger] entries[i]).0 == key
}

/// The place of an entry in which `key` stands.
pub open spec fn index_of_key<K, V>(entries: Seq<(K, V)>, key: K) -> int {
    choose|i: int| 0 <= i < entries.len() && (#[trigger] entries[i]).0 == key
}

/// The entries after `entry` was put in: in the place of the entry with the
/// same key if there is one, else at the end.
pub open spec fn spec_insert<K, V>(entries: Seq<(K, V)>, entry: (K, V)) -> Seq<(K, V)> {
    if has_key(entries, entry.0) {
        entries.update(index_of_key(entries, entry.0), entry)
    } else {
        entries.push(entry)
    }
}

/// The entries after each entry of `raw` was put in, in order. Of two entries
/// with one key the later one stays.
pub open spec fn spec_collect<K, V>(raw: Seq<(K, V)>) -> Seq<(K, V)>
    decreases raw.len(),
{
    if raw.len() == 0 {
        Seq::empty()
    } else {
        spec_insert(spec_collect(raw.drop_last()), raw.last())
    }
}

/// The mapping that the entries stand for.
pub open spec fn spec_mapping<K, V>(entries: Seq<(K, V)>) -> Map<K, V> {
    Map::new(
        |key: K| has_key(entries, key),
        |key: K| entries[index_of_key(entries, key)].1,
    )
}

/// What was collected has distinct keys and is no longer than what it
/// was collected from.
pub proof fn lemma_collect_distinct<K, V>(raw: Seq<(K, V)>)
    ensures
        distinct_keys(spec_collect(raw)),
        spec_collect(raw).len() <= raw.len(),
    decreases raw.len(),
{
    if raw.len() > 0 {
        lemma_collect_distinct(raw.drop_last());
    }
}

/// Entries with distinct keys are collected as they stand.
pub proof fn lemma_collect_identity<K, V>(entries: Seq<(K, V)>)
    requires
        distinct_keys(entries),
    ensures
        spec_collect(entries) == entries,
    decreases entries.len(),
{
    if entries.len() > 0 {
        let front = entries.drop_last();
        lemma_collect_identity(front);
    }
}

/// Putting an entry into a list with distinct keys maps its key to its value
/// and leaves every other key as it was.
pub proof fn lemma_mapping_insert<K, V>(entries: Seq<(K, V)>, entry: (K, V))
    requires
        distinct_keys(entries),
    ensures
        spec_mapping(spec_insert(entries, entry)) == spec_mapping(entries).insert(
            entry.0,
            entry.1,
        ),
{
    let after = spec_insert(entries, entry);
    let left = spec_mapping(after);
    let right = spec_mapping(entries).insert(entry.0, entry.1);
    assert forall|key: K| left.dom().contains(key) == right.dom().contains(key) by {
        if right.dom().contains(key) {
            if key == entry.0 {
                if has_key(entries, entry.0) {
                    assert(after[index_of_key(entries, entry.0)].0 == key);
                } else {
                    assert(after[entries.len() as int].0 == key);
                }
            } else {
                let i = index_of_key(entries, key);
                assert(after[i].0 == key);
            }
        }
    }
}

/// A key with an equality that agrees with the equality of its view.
pub trait KeyEq: View + Sized {
    /// Whether the two keys are the same.
    fn key_eq(&self, other: &Self) -> (r: bool)
        ensures
            r == (self@ == other@),
    ;
}

/// The entries of a list with the keys taken by their views.
pub open spec fn keyed_views<K: View, V>(entries: Seq<(K, V)>) -> Seq<(K::V, V)> {
    entries.map_values(|e: (K, V)| (e.0@, e.1))
}

/// A mapping kept as a list of entries under distinct keys. Entries keep the
/// order in which their keys first came.
#[derive(Debug)]
pub struct KeyedList<K: KeyEq, V> {
    entries: Vec<(K, V)>,
}

impl<K: KeyEq, V> View for KeyedList<K, V> {
    type V = Map<K::V, V>;

    open spec fn view(&self) -> Map<K::V, V> {
        spec_mapping(self.entries())
    }
}

impl<K: KeyEq, V> KeyedList<K, V> {
    #[verifier::type_invariant]
    spec fn keys_are_distinct(self) -> bool {
        distinct_keys(keyed_views(self.entries@))
    }

    /// The entries, in order.
    pub closed spec fn entries(&self) -> Seq<(K::V, V)> {
        keyed_views(self.entries@)
    }

    /// The list without entries.
    pub fn new() -> (r: Self)
        ensures
            r.entries() == Seq::<(K::V, V)>::empty(),
            r@ == Map::<K::V, V>::empty(),
    {
        let entries: Vec<(K, V)> = Vec::new();
        KeyedList { entries }
    }

    /// The number of entries.
    pub fn len(&self) -> (r: usize)
        ensures
            r == self.entries().len(),
            distinct_keys(self.entries()),
    {
        proof {
            use_type_invariant(self);
        }
        self.entries.len()
    }

    /// The key and the value of the entry at `index`, if there is one.
    pub fn entry_at(&self, index: usize) -> (r: Option<(&K, &V)>)
        ensures
            match r {
                Some((key, value)) => index < self.entries().len() && key@
                    == self.entries()[index as int].0 && *value == self.entries()[index as int].1
                    && self@.dom().contains(key@) && self@[key@] == *value,
                None => index >= self.entries().len(),
            },
    {
        proof {
            use_type_invariant(self);
        }
        if index < self.entries.len() {
            Some((&self.entries[index].0, &self.entries[index].1))
        } else {
            None
        }
    }

    /// The place of the entry of `key`, if it has one.
    pub fn position(&self, key: &K) -> (r: Option<usize>)
        ensures
            distinct_keys(self.entries()),
            match r {
                Some(i) => has_key(self.entries(), key@) && i == index_of_key(
                    self.entries(),
                    key@,
                ) && i < self.entries().len(),
                None => !has_key(self.entries(), key@),
            },
    {
        proof {
            use_type_invariant(self);
        }
        let ghost all = keyed_views(self.entries@);
        let mut i: usize = 0;
        while i < self.entries.len()
            invariant
                i <= self.entries.len(),
                all == keyed_views(self.entries@),
                distinct_keys(all),
                forall|j: int| 0 <= j < i ==> (#[trigger] all[j]).0 != key@,
            decreases self.entries.len() - i,
        {
            if self.entries[i].0.key_eq(key) {
                proof {
                    let k = index_of_key(all, key@);
                    if k != i {
                        assert(all[k].0 == all[i as int].0);
                    }
                }
                return Some(i);
            }
            i = i + 1;
        }
        None
    }

    /// The value under `key`, if it has one.
    pub fn get(&self, key: &K) -> (r: Option<&V>)
        ensures
            match r {
                Some(value) => self@.dom().contains(key@) && self@[key@] == *value,
                None => !self@.dom().contains(key@),
            },
    {
        match self.position(key) {
            Some(i) => {
                Some(&self.entries[i].1)
            },
            None => None,
        }
    }

    /// Puts `value` under `key`. A value that the key had is replaced where
    /// it stands; else the new entry comes last.
    pub fn insert(&mut self, key: K, value: V)
        ensures
            final(self).entries() == spec_insert(old(self).entries(), (key@, value)),
            final(self)@ == old(self)@.insert(key@, value),
    {
        let found = self.position(&key);
        let ghost before = keyed_views(self.entries@);
        let ghost entry = (key@, value);
        proof {
            lemma_mapping_insert(before, entry);
        }
        let mut entries: Vec<(K, V)> = Vec::new();
        core::mem::swap(&mut self.entries, &mut entries);
        match found {
            Some(i) => {
                entries[i] = (key, value);
                proof {
                    assert(keyed_views(entries@) =~= before.update(i as int, entry));
                }
            },
            None => {
                entries.push((key, value));
                proof {
                    assert(keyed_views(entries@) =~= before.push(entry));
                }
            },
        }
        core::mem::swap(&mut self.entries, &mut entries);
    }
}

impl<K: KeyEq + Copy, V: Copy> KeyedList<K, V> {
    /// A list with the same entries.
    pub fn copy(&self) -> (r: Self)
        ensures
            r.entries() == self.entries(),
            r@ == self@,
    {
        proof {
            use_type_invariant(self);
        }
        let mut entries: Vec<(K, V)> = Vec::new();
        let mut i: usize = 0;
        while i < self.entries.len()
            invariant
                i <= self.entries.len(),
                entries@ == self.entries@.take(i as int),
            decreases self.entries.len() - i,
        {
            entries.push(self.entries[i]);
            i = i + 1;
        }
        proof {
            assert(self.entries@.take(i as int) =~= self.entries@);
        }
        KeyedList { entries }
    }
}

} // verus!
