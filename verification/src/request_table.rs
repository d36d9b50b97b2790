//! A small map whose keys can be compared but not hashed.

use vstd::prelude::*;

use crate::buckets::Id;

verus! {

/// The map that a list of entries stands for; a later entry overrides an earlier one.
pub open spec fn table_map<K, V>(entries: Seq<(K, V)>) -> Map<K, V>
    decreases entries.len(),
{
    if entries.len() == 0 {
        Map::empty()
    } else {
        table_map(entries.drop_last()).insert(entries.last().0, entries.last().1)
    }
}

/// A map from keys to values.
pub struct Table<K, V> {
    /// The entries; a later one overrides an earlier one.
    pub entries: Vec<(K, V)>,
}

impl<K, V> View for Table<K, V> {
    type V = Map<K, V>;

    open spec fn view(&self) -> Map<K, V> {
        table_map(self.entries@)
    }
}

/// The keys of the map are those of the entries.
proof fn lemma_keys<K, V>(entries: Seq<(K, V)>)
    ensures
        forall|k: K| #[trigger]
            table_map(entries).contains_key(k) <==> exists|i: int|
                0 <= i < entries.len() && (#[trigger] entries[i]).0 == k,
        table_map(entries).dom().finite(),
    decreases entries.len(),
{
    if entries.len() > 0 {
        let rest = entries.drop_last();
        lemma_keys(rest);
        assert forall|k: K| #[trigger]
            table_map(entries).contains_key(k) <==> exists|i: int|
                0 <= i < entries.len() && (#[trigger] entries[i]).0 == k by {
            if table_map(entries).contains_key(k) {
                if k == entries.last().0 {
                    assert(entries[entries.len() - 1].0 == k);
                } else {
                    assert(table_map(rest).contains_key(k));
                    let i = choose|i: int| 0 <= i < rest.len() && (#[trigger] rest[i]).0 == k;
                    assert(entries[i].0 == k);
                }
            }
            if exists|i: int| 0 <= i < entries.len() && (#[trigger] entries[i]).0 == k {
                let i = choose|i: int| 0 <= i < entries.len() && (#[trigger] entries[i]).0 == k;
                if i < rest.len() {
                    assert(rest[i].0 == k);
                    assert(table_map(rest).contains_key(k));
                }
            }
        }
    }
}

/// The last entry with a key tells its value.
proof fn lemma_last_wins<K, V>(entries: Seq<(K, V)>, i: int)
    requires
        0 <= i < entries.len(),
        forall|j: int| i < j < entries.len() ==> (#[trigger] entries[j]).0 != entries[i].0,
    ensures
        table_map(entries).contains_key(entries[i].0),
        table_map(entries)[entries[i].0] == entries[i].1,
    decreases entries.len(),
{
    let rest = entries.drop_last();
    if i < rest.len() {
        assert forall|j: int| i < j < rest.len() implies (#[trigger] rest[j]).0 != rest[i].0 by {
            assert(entries[j].0 != entries[i].0);
        }
        lemma_last_wins(rest, i);
        assert(entries[entries.len() - 1].0 != entries[i].0);
    }
}

impl<K: Id, V: Copy> Table<K, V> {
    /// An empty map.
    pub fn new() -> (r: Self)
        ensures
            r@ == Map::<K, V>::empty(),
    {
        Table { entries: Vec::new() }
    }

    /// The value of a key.
    pub fn get(&self, key: K) -> (r: Option<V>)
        ensures
            match r {
                Some(value) => self@.contains_key(key) && self@[key] == value,
                None => !self@.contains_key(key),
            },
    {
        let mut i: usize = self.entries.len();
        while i > 0
            invariant
                i <= self.entries@.len(),
                forall|j: int|
                    i <= j < self.entries@.len() ==> (#[trigger] self.entries@[j]).0 != key,
            decreases i,
        {
            i = i - 1;
            if self.entries[i].0.same(&key) {
                proof {
                    lemma_last_wins(self.entries@, i as int);
                }
                return Some(self.entries[i].1);
            }
        }
        proof {
            lemma_keys(self.entries@);
        }
        None
    }

    /// Whether there is a value for a key.
    pub fn contains_key(&self, key: K) -> (r: bool)
        ensures
            r == self@.contains_key(key),
    {
        self.get(key).is_some()
    }

    /// Takes a key out, and gives back the value it had.
    pub fn remove(&mut self, key: K) -> (r: Option<V>)
        ensures
            final(self)@ == old(self)@.remove(key),
            match r {
                Some(value) => old(self)@.contains_key(key) && old(self)@[key] == value,
                None => !old(self)@.contains_key(key),
            },
    {
        let r = self.get(key);
        let mut kept: Vec<(K, V)> = Vec::new();
        let mut i: usize = 0;
        assert(table_map(kept@) =~= table_map(self.entries@.take(0)).remove(key));
        while i < self.entries.len()
            invariant
                i <= self.entries@.len(),
                table_map(kept@) == table_map(self.entries@.take(i as int)).remove(key),
            decreases self.entries@.len() - i,
        {
            let entry = self.entries[i];
            let ghost before = kept@;
            if !entry.0.same(&key) {
                kept.push(entry);
                assert(kept@.drop_last() =~= before);
            }
            proof {
                let more = self.entries@.take(i + 1);
                assert(more.drop_last() =~= self.entries@.take(i as int));
                assert(table_map(kept@) =~= table_map(more).remove(key));
            }
            i = i + 1;
        }
        assert(self.entries@.take(i as int) =~= self.entries@);
        self.entries = kept;
        r
    }

    /// Gives a key a value, in place of any other.
    pub fn insert(&mut self, key: K, value: V)
        ensures
            final(self)@ == old(self)@.insert(key, value),
    {
        let _ = self.remove(key);
        let ghost before = self.entries@;
        self.entries.push((key, value));
        assert(self.entries@.drop_last() =~= before);
        assert(self@ =~= old(self)@.insert(key, value));
    }

    /// The keys, each once.
    pub fn keys(&self) -> (r: Vec<K>)
        ensures
            r@.no_duplicates(),
            r@.to_set() == self@.dom(),
    {
        let mut keys: Vec<K> = Vec::new();
        let mut i: usize = 0;
        while i < self.entries.len()
            invariant
                i <= self.entries@.len(),
                keys@.no_duplicates(),
                forall|j: int| 0 <= j < i ==> keys@.contains((#[trigger] self.entries@[j]).0),
                forall|j: int|
                    0 <= j < keys@.len() ==> exists|m: int|
                        0 <= m < i && (#[trigger] self.entries@[m]).0 == #[trigger] keys@[j],
            decreases self.entries@.len() - i,
        {
            let key = self.entries[i].0;
            let ghost before = keys@;
            if !crate::buckets::contains_id(&keys, key) {
                keys.push(key);
                assert(keys@[before.len() as int] == key);
                assert forall|k: K| before.contains(k) implies keys@.contains(k) by {
                    let j = choose|j: int| 0 <= j < before.len() && before[j] == k;
                    assert(keys@[j] == k);
                }
            }
            assert forall|j: int| 0 <= j < keys@.len() implies exists|m: int|
                0 <= m < i + 1 && (#[trigger] self.entries@[m]).0 == #[trigger] keys@[j] by {
                if j < before.len() {
                    assert(before[j] == keys@[j]);
                    let m = choose|m: int|
                        0 <= m < i && (#[trigger] self.entries@[m]).0 == before[j];
                    assert(self.entries@[m].0 == keys@[j]);
                } else {
                    assert(self.entries@[i as int].0 == keys@[j]);
                }
            }
            i = i + 1;
        }
        proof {
            lemma_keys(self.entries@);
            assert forall|k: K| keys@.to_set().contains(k) <==> self@.dom().contains(k) by {
                if keys@.to_set().contains(k) {
                    let j = choose|j: int| 0 <= j < keys@.len() && keys@[j] == k;
                    assert(keys@[j] == k);
                    assert(self@.contains_key(k));
                }
                if self@.dom().contains(k) {
                    assert(self@.contains_key(k));
                    let m = choose|m: int|
                        0 <= m < self.entries@.len() && (#[trigger] self.entries@[m]).0 == k;
                    assert(keys@.contains(self.entries@[m].0));
                }
            }
            assert(keys@.to_set() =~= self@.dom());
        }
        keys
    }
}

} // verus!
