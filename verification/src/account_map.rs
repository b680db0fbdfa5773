//! A small map keyed by account, kept as a list of entries in the order in
//! which the keys were first inserted. That order is part of the model: the
//! authority selection breaks ties by it.
use vstd::prelude::*;
use crate::types::AccountId;

verus! {

/// Whether some entry of `entries` has the key `key`.
pub open spec fn has_key<V>(entries: Seq<(AccountId, V)>, key: AccountId) -> bool {
    exists|i: int| 0 <= i < entries.len() && (#[trigger] entries[i]).0 == key
}

/// The place of an entry with the key `key`; meaningful where `has_key` holds.
pub open spec fn position<V>(entries: Seq<(AccountId, V)>, key: AccountId) -> int {
    choose|i: int| 0 <= i < entries.len() && (#[trigger] entries[i]).0 == key
}

/// No two entries share a key.
pub open spec fn keys_distinct<V>(entries: Seq<(AccountId, V)>) -> bool {
    forall|i: int, j: int|
        0 <= i < j < entries.len() ==> (#[trigger] entries[i]).0 != (#[trigger] entries[j]).0
}

/// The finite map that a list of entries with distinct keys stands for.
pub open spec fn entries_to_map<V>(entries: Seq<(AccountId, V)>) -> Map<AccountId, V> {
    Map::new(|key: AccountId| has_key(entries, key), |key: AccountId| entries[position(entries, key)].1)
}

/// In a list with distinct keys, the entry at `i` is the one its key maps to.
pub proof fn lemma_entry_in_map<V>(entries: Seq<(AccountId, V)>, i: int)
    requires
        keys_distinct(entries),
        0 <= i < entries.len(),
    ensures
        has_key(entries, entries[i].0),
        position(entries, entries[i].0) == i,
        entries_to_map(entries).contains_key(entries[i].0),
        entries_to_map(entries)[entries[i].0] == entries[i].1,
{
    let key = entries[i].0;
    assert(has_key(entries, key));
    let p = position(entries, key);
    assert(0 <= p < entries.len() && entries[p].0 == key);
    if p < i {
        assert(entries[p].0 != entries[i].0);
    } else if i < p {
        assert(entries[i].0 != entries[p].0);
    }
}

/// Appending an entry under a fresh key extends the map by that key.
pub proof fn lemma_push_fresh<V>(entries: Seq<(AccountId, V)>, key: AccountId, value: V)
    requires
        keys_distinct(entries),
        !has_key(entries, key),
    ensures
        keys_distinct(entries.push((key, value))),
        entries_to_map(entries.push((key, value))) == entries_to_map(entries).insert(key, value),
{
    let after = entries.push((key, value));
    assert forall|i: int, j: int| 0 <= i < j < after.len() implies (#[trigger] after[i]).0
        != (#[trigger] after[j]).0 by {
        if j < entries.len() {
            assert(entries[i].0 != entries[j].0);
        } else {
            assert(after[i] == entries[i]);
            if entries[i].0 == key {
                assert(has_key(entries, key));
            }
        }
    }
    assert forall|k: AccountId| has_key(after, k) <==> (k == key || has_key(entries, k)) by {
        if has_key(after, k) {
            let i = position(after, k);
            if i < entries.len() {
                assert(entries[i].0 == k);
            }
        }
        if k == key {
            assert(after[entries.len() as int].0 == key);
        }
        if has_key(entries, k) {
            let i = position(entries, k);
            assert(after[i].0 == k);
        }
    }
    assert forall|k: AccountId| has_key(after, k) implies #[trigger] entries_to_map(after)[k]
        == entries_to_map(entries).insert(key, value)[k] by {
        let i = position(after, k);
        lemma_entry_in_map(after, i);
        if i < entries.len() {
            assert(after[i] == entries[i]);
            lemma_entry_in_map(entries, i);
        }
    }
    assert(entries_to_map(after) =~= entries_to_map(entries).insert(key, value));
}

/// Replacing the value of the entry at `i` updates the map at that entry's key.
pub proof fn lemma_update_value<V>(entries: Seq<(AccountId, V)>, i: int, value: V)
    requires
        keys_distinct(entries),
        0 <= i < entries.len(),
    ensures
        keys_distinct(entries.update(i, (entries[i].0, value))),
        entries_to_map(entries.update(i, (entries[i].0, value))) == entries_to_map(entries).insert(
            entries[i].0,
            value,
        ),
{
    let key = entries[i].0;
    let after = entries.update(i, (key, value));
    assert forall|a: int| 0 <= a < after.len() implies (#[trigger] after[a]).0 == entries[a].0 by {}
    assert forall|a: int, b: int| 0 <= a < b < after.len() implies (#[trigger] after[a]).0 != (
    #[trigger] after[b]).0 by {
        assert(entries[a].0 != entries[b].0);
    }
    assert forall|k: AccountId| has_key(after, k) <==> has_key(entries, k) by {
        if has_key(after, k) {
            let a = position(after, k);
            assert(entries[a].0 == k);
        }
        if has_key(entries, k) {
            let a = position(entries, k);
            assert(after[a].0 == k);
        }
    }
    lemma_entry_in_map(entries, i);
    assert forall|k: AccountId| has_key(after, k) implies #[trigger] entries_to_map(after)[k]
        == entries_to_map(entries).insert(key, value)[k] by {
        let a = position(after, k);
        lemma_entry_in_map(after, a);
        if a != i {
            assert(after[a] == entries[a]);
            lemma_entry_in_map(entries, a);
        }
    }
    assert(entries_to_map(after) =~= entries_to_map(entries).insert(key, value));
}

/// The map of a list with distinct keys has as many keys as the list has
/// entries.
pub proof fn lemma_map_len<V>(entries: Seq<(AccountId, V)>)
    requires
        keys_distinct(entries),
    ensures
        entries_to_map(entries).dom().finite(),
        entries_to_map(entries).len() == entries.len(),
    decreases entries.len(),
{
    if entries.len() == 0 {
        assert(entries_to_map(entries) =~= Map::<AccountId, V>::empty());
    } else {
        let front = entries.drop_last();
        let last = entries.last();
        assert forall|i: int, j: int| 0 <= i < j < front.len() implies (#[trigger] front[i]).0 != (
        #[trigger] front[j]).0 by {
            assert(entries[i].0 != entries[j].0);
        }
        if has_key(front, last.0) {
            let place = position(front, last.0);
            assert(entries[place].0 != entries[entries.len() - 1].0);
        }
        lemma_map_len(front);
        lemma_push_fresh(front, last.0, last.1);
        assert(entries =~= front.push((last.0, last.1)));
    }
}

/// A map from accounts to values of type `V`.
#[derive(Clone, Debug, PartialEq, Eq)]
pub struct AccountMap<V> {
    entries: Vec<(AccountId, V)>,
}

impl<V: Copy> AccountMap<V> {
    /// The entries in the order in which their keys were first inserted.
    pub closed spec fn entries(&self) -> Seq<(AccountId, V)> {
        self.entries@
    }

    /// The invariant of the type: no key occurs twice.
    pub open spec fn wf(&self) -> bool {
        keys_distinct(self.entries())
    }

    /// The map that the entries stand for.
    pub open spec fn view(&self) -> Map<AccountId, V> {
        entries_to_map(self.entries())
    }

    /// The map has finitely many keys: as many as there are entries.
    pub proof fn lemma_view_len(&self)
        requires
            self.wf(),
        ensures
            self@.dom().finite(),
            self@.len() == self.entries().len(),
    {
        lemma_map_len(self.entries());
    }

    /// The empty map.
    pub fn new() -> (map: AccountMap<V>)
        ensures
            map.wf(),
            map.entries() == Seq::<(AccountId, V)>::empty(),
            map@ == Map::<AccountId, V>::empty(),
    {
        let map = AccountMap { entries: Vec::new() };
        assert(map@ =~= Map::<AccountId, V>::empty());
        map
    }

    /// The map that holds `entries` in their order, where no key occurs
    /// twice among them; `None` where one does.
    pub fn from_entries(entries: Vec<(AccountId, V)>) -> (map: Option<AccountMap<V>>)
        ensures
            map is Some <==> keys_distinct(entries@),
            map is Some ==> map->0.wf() && map->0.entries() == entries@,
    {
        let mut i: usize = 0;
        while i < entries.len()
            invariant
                i <= entries@.len(),
                keys_distinct(entries@.take(i as int)),
            decreases entries@.len() - i,
        {
            let mut j: usize = 0;
            while j < i
                invariant
                    j <= i < entries@.len(),
                    forall|k: int| 0 <= k < j ==> (#[trigger] entries@[k]).0 != entries@[i as int].0,
                decreases i - j,
            {
                if entries[j].0 == entries[i].0 {
                    return None;
                }
                j += 1;
            }
            proof {
                let before = entries@.take(i as int);
                let now = entries@.take(i + 1);
                assert forall|a: int, b: int| 0 <= a < b < now.len() implies (#[trigger] now[a]).0
                    != (#[trigger] now[b]).0 by {
                    if b < i {
                        assert(before[a].0 != before[b].0);
                    }
                }
            }
            i += 1;
        }
        assert(entries@.take(entries@.len() as int) =~= entries@);
        Some(AccountMap { entries })
    }

    /// The entries in the order in which their keys were first inserted.
    pub fn to_entries(&self) -> (entries: Vec<(AccountId, V)>)
        ensures
            entries@ == self.entries(),
    {
        let mut entries: Vec<(AccountId, V)> = Vec::new();
        let mut i: usize = 0;
        while i < self.entries.len()
            invariant
                i <= self.entries@.len(),
                entries@ == self.entries@.take(i as int),
            decreases self.entries@.len() - i,
        {
            entries.push(self.entries[i]);
            assert(self.entries@.take(i + 1) =~= self.entries@.take(i as int).push(
                self.entries@[i as int],
            ));
            i += 1;
        }
        assert(self.entries@.take(self.entries@.len() as int) =~= self.entries@);
        entries
    }

    /// The number of keys.
    pub fn len(&self) -> (n: usize)
        ensures
            n == self.entries().len(),
    {
        self.entries.len()
    }

    /// The entry at place `i` of the insertion order.
    pub fn entry(&self, i: usize) -> (e: (AccountId, V))
        requires
            i < self.entries().len(),
        ensures
            e == self.entries()[i as int],
    {
        self.entries[i]
    }

    /// Where the entry for `key` stands, if there is one.
    pub fn find(&self, key: &AccountId) -> (place: Option<usize>)
        ensures
            match place {
                Some(i) => i < self.entries().len() && self.entries()[i as int].0 == *key,
                None => !has_key(self.entries(), *key),
            },
    {
        let mut i: usize = 0;
        while i < self.entries.len()
            invariant
                i <= self.entries@.len(),
                forall|j: int| 0 <= j < i ==> (#[trigger] self.entries@[j]).0 != *key,
            decreases self.entries@.len() - i,
        {
            if self.entries[i].0 == *key {
                return Some(i);
            }
            i += 1;
        }
        None
    }

    /// Whether `key` has a value.
    pub fn contains_key(&self, key: &AccountId) -> (present: bool)
        ensures
            present == self@.contains_key(*key),
    {
        self.find(key).is_some()
    }

    /// The value stored under `key`, if there is one.
    pub fn get(&self, key: &AccountId) -> (value: Option<V>)
        requires
            self.wf(),
        ensures
            value == (if self@.contains_key(*key) {
                Some(self@[*key])
            } else {
                None
            }),
    {
        match self.find(key) {
            Some(i) => {
                proof {
                    lemma_entry_in_map(self.entries@, i as int);
                }
                Some(self.entries[i].1)
            },
            None => None,
        }
    }

    /// Stores `value` under `key`. An existing key keeps its place in the
    /// insertion order; a new key goes to the end.
    pub fn insert(&mut self, key: AccountId, value: V)
        requires
            old(self).wf(),
        ensures
            final(self).wf(),
            final(self)@ == old(self)@.insert(key, value),
            has_key(old(self).entries(), key) ==> final(self).entries() == old(self).entries().update(
                position(old(self).entries(), key),
                (key, value),
            ),
            !has_key(old(self).entries(), key) ==> final(self).entries() == old(self).entries().push(
                (key, value),
            ),
    {
        match self.find(&key) {
            Some(i) => {
                proof {
                    lemma_entry_in_map(self.entries@, i as int);
                    lemma_update_value(self.entries@, i as int, value);
                }
                self.entries.set(i, (key, value));
            },
            None => {
                proof {
                    lemma_push_fresh(self.entries@, key, value);
                }
                self.entries.push((key, value));
            },
        }
    }
}

} // verus!
