//! The storage engine: an in-memory mapping of string keys to values.
//!
//! [`InnerStore`] is the generic mapping; [`MemStore`] specialises it to
//! string values and adds the empty-string sentinel for absent keys.
//!
//! The mapping is kept as a vector of entries in first-insertion order,
//! beside a vector of 64-bit key hashes that lets a lookup skip almost all
//! key comparisons. Keys are unique; the model of a store is the map from
//! key characters to value characters.

use vstd::prelude::*;

use crate::text::fnv64;
use crate::text::fnv64_exec;
use crate::text::str_eq;

verus! {

/// The position of the entry with key `k`, if one is there.
pub open spec fn find_key<T>(es: Seq<(Seq<char>, T)>, k: Seq<char>) -> Option<int>
    decreases es.len(),
{
    if es.len() == 0 {
        None
    } else if es.last().0 == k {
        Some(es.len() - 1)
    } else {
        find_key(es.drop_last(), k)
    }
}

/// The value stored under key `k`, if one is there.
pub open spec fn lookup<T>(es: Seq<(Seq<char>, T)>, k: Seq<char>) -> Option<T> {
    match find_key(es, k) {
        Some(i) => Some(es[i].1),
        None => None,
    }
}

/// No two entries share a key.
pub open spec fn unique_keys<T>(es: Seq<(Seq<char>, T)>) -> bool {
    forall|i: int, j: int| 0 <= i < j < es.len() ==> es[i].0 != es[j].0
}

/// The map that a sequence of entries stands for.
pub open spec fn map_of<T>(es: Seq<(Seq<char>, T)>) -> Map<Seq<char>, T>
    decreases es.len(),
{
    if es.len() == 0 {
        Map::<Seq<char>, T>::empty()
    } else {
        map_of(es.drop_last()).insert(es.last().0, es.last().1)
    }
}

/// A found position holds the key; no position holds a key that is not
/// found.
pub proof fn lemma_find_key<T>(es: Seq<(Seq<char>, T)>, k: Seq<char>)
    ensures
        match find_key(es, k) {
            Some(i) => 0 <= i < es.len() && es[i].0 == k,
            None => forall|j: int| 0 <= j < es.len() ==> es[j].0 != k,
        },
    decreases es.len(),
{
    if es.len() == 0 {
    } else if es.last().0 == k {
    } else {
        let prefix = es.drop_last();
        lemma_find_key(prefix, k);
        match find_key(prefix, k) {
            Some(i) => {
                assert(es[i] == prefix[i]);
            },
            None => {
                assert forall|j: int| 0 <= j < es.len() implies es[j].0 != k by {
                    if j < es.len() - 1 {
                        assert(es[j] == prefix[j]);
                        assert(prefix[j].0 != k);
                    } else {
                        assert(es[j] == es.last());
                    }
                }
            },
        }
    }
}

/// The map of a sequence of entries holds exactly the entries' keys, each
/// bound to that entry's value.
pub proof fn lemma_map_of_lookup<T>(es: Seq<(Seq<char>, T)>, k: Seq<char>)
    requires
        unique_keys(es),
    ensures
        map_of(es).contains_key(k) == (find_key(es, k) is Some),
        find_key(es, k) matches Some(i) ==> map_of(es)[k] == es[i].1,
    decreases es.len(),
{
    if es.len() == 0 {
    } else {
        let prefix = es.drop_last();
        lemma_map_of_lookup(prefix, k);
        if es.last().0 == k {
        } else {
            lemma_find_key(prefix, k);
        }
    }
}

/// Replacing the value at position `i` changes the map by an insert of that
/// entry's key.
pub proof fn lemma_map_of_update<T>(es: Seq<(Seq<char>, T)>, i: int, v: T)
    requires
        unique_keys(es),
        0 <= i < es.len(),
    ensures
        map_of(es.update(i, (es[i].0, v))) == map_of(es).insert(es[i].0, v),
    decreases es.len(),
{
    let updated = es.update(i, (es[i].0, v));
    if i == es.len() - 1 {
        assert(updated.drop_last() =~= es.drop_last());
        assert(map_of(updated) == map_of(es.drop_last()).insert(es[i].0, v));
        assert(map_of(es.drop_last()).insert(es.last().0, es.last().1).insert(es[i].0, v)
            =~= map_of(es.drop_last()).insert(es[i].0, v));
    } else {
        let prefix = es.drop_last();
        lemma_map_of_update(prefix, i, v);
        assert(updated.drop_last() =~= prefix.update(i, (prefix[i].0, v)));
        assert(updated.last() == es.last());
        assert(es[i].0 != es.last().0);
        assert(map_of(prefix).insert(es[i].0, v).insert(es.last().0, es.last().1) =~= map_of(
            prefix,
        ).insert(es.last().0, es.last().1).insert(es[i].0, v));
    }
}

/// Taking out the entry at position `i` changes the map by a removal of that
/// entry's key.
pub proof fn lemma_map_of_remove<T>(es: Seq<(Seq<char>, T)>, i: int)
    requires
        unique_keys(es),
        0 <= i < es.len(),
    ensures
        map_of(es.remove(i)) == map_of(es).remove(es[i].0),
    decreases es.len(),
{
    let prefix = es.drop_last();
    if i == es.len() - 1 {
        assert(es.remove(i) =~= prefix);
        lemma_find_key(prefix, es[i].0);
        assert(find_key(prefix, es[i].0) is None);
        lemma_map_of_lookup(prefix, es[i].0);
        assert(map_of(prefix).insert(es[i].0, es[i].1).remove(es[i].0) =~= map_of(prefix));
    } else {
        lemma_map_of_remove(prefix, i);
        assert(es.remove(i).drop_last() =~= prefix.remove(i));
        assert(es.remove(i).last() == es.last());
        assert(es[i].0 != es.last().0);
        assert(map_of(prefix).remove(es[i].0).insert(es.last().0, es.last().1) =~= map_of(
            prefix,
        ).insert(es.last().0, es.last().1).remove(es[i].0));
    }
}

/// A key that is not in the entries leaves the map unchanged when removed.
pub proof fn lemma_map_of_remove_absent<T>(es: Seq<(Seq<char>, T)>, k: Seq<char>)
    requires
        unique_keys(es),
        find_key(es, k) is None,
    ensures
        map_of(es).remove(k) == map_of(es),
{
    lemma_map_of_lookup(es, k);
    assert(map_of(es).remove(k) =~= map_of(es));
}

/// A generic store of values under string keys. Entries keep their
/// first-insertion order; each key occurs once.
pub struct InnerStore<T> {
    data: (Vec<u64>, Vec<(String, T)>),
}

impl<T> InnerStore<T> {
    /// The hashes beside the entries each hash that entry's key, and the
    /// keys are pairwise distinct.
    #[verifier::type_invariant]
    spec fn inv(self) -> bool {
        &&& self.data.0@.len() == self.data.1@.len()
        &&& forall|i: int|
            0 <= i < self.data.1@.len() ==> self.data.0@[i] == fnv64(self.data.1@[i].0@)
        &&& forall|i: int, j: int|
            0 <= i < j < self.data.1@.len() ==> self.data.1@[i].0@ != self.data.1@[j].0@
    }

    /// The entries of the store, in first-insertion order.
    pub closed spec fn entries(self) -> Seq<(Seq<char>, T)> {
        self.data.1@.map_values(|e: (String, T)| (e.0@, e.1))
    }

    /// The map the store stands for.
    pub open spec fn view(self) -> Map<Seq<char>, T> {
        map_of(self.entries())
    }

    /// Builds an empty store.
    pub fn new() -> (r: Self)
        ensures
            r.entries() == Seq::<(Seq<char>, T)>::empty(),
    {
        let r = InnerStore { data: (Vec::new(), Vec::new()) };
        proof {
            assert(r.entries() =~= Seq::<(Seq<char>, T)>::empty());
        }
        r
    }

    /// The number of entries in the store.
    pub fn len(&self) -> (r: usize)
        ensures
            r == self.entries().len(),
            unique_keys(self.entries()),
    {
        proof {
            use_type_invariant(self);
        }
        self.data.1.len()
    }

    /// Whether the store has no entries.
    pub fn is_empty(&self) -> (r: bool)
        ensures
            r == (self.entries().len() == 0),
    {
        proof {
            use_type_invariant(self);
        }
        self.data.1.is_empty()
    }

    /// The position of the entry with the given key, if one is there.
    fn find(&self, key: &str) -> (r: Option<usize>)
        ensures
            match r {
                Some(i) => find_key(self.entries(), key@) == Some(i as int),
                None => find_key(self.entries(), key@) is None,
            },
    {
        proof {
            use_type_invariant(self);
        }
        let h = fnv64_exec(key);
        let n = self.data.0.len();
        let mut i: usize = 0;
        while i < n
            invariant
                n == self.data.0@.len(),
                n == self.entries().len(),
                i <= n,
                h == fnv64(key@),
                forall|j: int| 0 <= j < i ==> self.entries()[j].0 != key@,
            decreases n - i,
        {
            proof {
                use_type_invariant(self);
            }
            if self.data.0[i] == h {
                if str_eq(self.data.1[i].0.as_str(), key) {
                    proof {
                        lemma_find_key(self.entries(), key@);
                        use_type_invariant(self);
                        assert(self.entries()[i as int].0 == key@);
                        let r = find_key(self.entries(), key@);
                        assert(r matches Some(f) && self.entries()[f].0 == key@);
                        assert(r == Some(i as int));
                    }
                    return Some(i);
                }
            } else {
                proof {
                    assert(self.data.0@[i as int] == fnv64(self.data.1@[i as int].0@));
                    assert(self.entries()[i as int].0 != key@);
                }
            }
            i += 1;
        }
        proof {
            lemma_find_key(self.entries(), key@);
            assert(find_key(self.entries(), key@) is None) by {
                match find_key(self.entries(), key@) {
                    Some(f) => {
                        assert(self.entries()[f].0 == key@);
                    },
                    None => {},
                }
            }
        }
        None
    }

    /// Stores `value` under `key`: the value of an entry already keyed by
    /// `key` is replaced in place, else a new entry is appended.
    pub fn insert(&mut self, key: &str, value: T)
        ensures
            final(self).entries() == match find_key(old(self).entries(), key@) {
                Some(i) => old(self).entries().update(i, (key@, value)),
                None => old(self).entries().push((key@, value)),
            },
            final(self)@ == old(self)@.insert(key@, value),
            unique_keys(old(self).entries()),
    {
        proof {
            use_type_invariant(&*self);
        }
        let h = fnv64_exec(key);
        let found = self.find(key);
        let ghost old_entries = self.entries();
        let ghost old_raw = self.data.1@;
        let ghost old_hashes = self.data.0@;
        let mut data: (Vec<u64>, Vec<(String, T)>) = (Vec::new(), Vec::new());
        core::mem::swap(&mut data, &mut self.data);
        let (mut hashes, mut entries) = data;
        match found {
            Some(i) => {
                proof {
                    lemma_find_key(old_entries, key@);
                    assert(old_raw[i as int].0@ == key@);
                }
                let (k_old, _) = entries.remove(i);
                entries.insert(i, (k_old, value));
                proof {
                    assert(entries@ =~= old_raw.update(i as int, (old_raw[i as int].0, value)));
                    assert(forall|j: int|
                        0 <= j < entries@.len() ==> (#[trigger] entries@[j]).0 == old_raw[j].0);
                }
                self.data = (hashes, entries);
                proof {
                    assert(final(self).entries() =~= old_entries.update(i as int, (key@, value)));
                    lemma_map_of_update(old_entries, i as int, value);
                    assert(old_entries[i as int].0 == key@);
                }
            },
            None => {
                proof {
                    lemma_find_key(old_entries, key@);
                }
                hashes.push(h);
                let owned_key = key.to_owned();
                entries.push((owned_key, value));
                proof {
                    assert(entries@.drop_last() =~= old_raw);
                    assert(hashes@.drop_last() =~= old_hashes);
                    assert(forall|j: int|
                        0 <= j < old_raw.len() ==> old_entries[j].0 == (
                        #[trigger] old_raw[j]).0@);
                    assert(forall|j: int|
                        0 <= j < old_raw.len() ==> #[trigger] old_entries[j].0 != key@) by {
                        lemma_find_key(old_entries, key@);
                    }
                }
                self.data = (hashes, entries);
                proof {
                    assert(final(self).entries() =~= old_entries.push((key@, value)));
                    assert(final(self).entries().drop_last() =~= old_entries);
                }
            },
        }
    }

    /// Borrows the value stored under `key`, if one is there.
    pub fn retrieve(&self, key: &str) -> (r: Option<&T>)
        ensures
            match r {
                Some(v) => lookup(self.entries(), key@) == Some(*v) && self@.contains_key(key@)
                    && self@[key@] == *v,
                None => lookup(self.entries(), key@) is None && !self@.contains_key(key@),
            },
            unique_keys(self.entries()),
    {
        proof {
            use_type_invariant(self);
            lemma_map_of_lookup(self.entries(), key@);
            lemma_find_key(self.entries(), key@);
        }
        match self.find(key) {
            Some(i) => {
                proof {
                    assert(self.entries()[i as int].1 == self.data.1@[i as int].1);
                }
                Some(&self.data.1[i].1)
            },
            None => None,
        }
    }

    /// Takes the entry with the given key out of the store and hands its
    /// value back; entries keep their order.
    pub fn remove(&mut self, key: &str) -> (r: Option<T>)
        ensures
            r == lookup(old(self).entries(), key@),
            final(self).entries() == match find_key(old(self).entries(), key@) {
                Some(i) => old(self).entries().remove(i),
                None => old(self).entries(),
            },
            final(self)@ == old(self)@.remove(key@),
            unique_keys(old(self).entries()),
    {
        proof {
            use_type_invariant(&*self);
        }
        let found = self.find(key);
        let ghost old_entries = self.entries();
        match found {
            Some(i) => {
                proof {
                    lemma_find_key(old_entries, key@);
                }
                let mut data: (Vec<u64>, Vec<(String, T)>) = (Vec::new(), Vec::new());
                core::mem::swap(&mut data, &mut self.data);
                let (mut hashes, mut entries) = data;
                hashes.remove(i);
                let (_, v) = entries.remove(i);
                self.data = (hashes, entries);
                proof {
                    assert(final(self).entries() =~= old_entries.remove(i as int));
                    lemma_map_of_remove(old_entries, i as int);
                    assert(old_entries[i as int].0 == key@);
                }
                Some(v)
            },
            None => {
                proof {
                    lemma_map_of_remove_absent(old_entries, key@);
                }
                None
            },
        }
    }

    /// Empties the store.
    pub fn clear(&mut self)
        ensures
            final(self).entries() == Seq::<(Seq<char>, T)>::empty(),
            final(self)@ == Map::<Seq<char>, T>::empty(),
    {
        let mut data: (Vec<u64>, Vec<(String, T)>) = (Vec::new(), Vec::new());
        core::mem::swap(&mut data, &mut self.data);
        proof {
            assert(final(self).entries() =~= Seq::<(Seq<char>, T)>::empty());
        }
    }

    /// Borrows the entries, in first-insertion order.
    pub fn get_ref(&self) -> (r: &Vec<(String, T)>)
        ensures
            r@.len() == self.entries().len(),
            forall|i: int|
                0 <= i < r@.len() ==> (#[trigger] r@[i]).0@ == self.entries()[i].0 && r@[i].1
                    == self.entries()[i].1,
            unique_keys(self.entries()),
    {
        proof {
            use_type_invariant(self);
        }
        &self.data.1
    }
}

/// The entries with their values read as character sequences.
pub open spec fn deep_entries(es: Seq<(Seq<char>, String)>) -> Seq<(Seq<char>, Seq<char>)> {
    es.map_values(|e: (Seq<char>, String)| (e.0, e.1@))
}

/// Reading values as character sequences moves keys nowhere: the entry
/// found for a key is the same one.
pub proof fn lemma_find_key_deep(es: Seq<(Seq<char>, String)>, k: Seq<char>)
    ensures
        find_key(deep_entries(es), k) == find_key(es, k),
        unique_keys(es) ==> unique_keys(deep_entries(es)),
    decreases es.len(),
{
    if es.len() == 0 {
        assert(deep_entries(es).len() == 0);
    } else {
        lemma_find_key_deep(es.drop_last(), k);
        assert(deep_entries(es).last() == (es.last().0, es.last().1@));
        assert(deep_entries(es).drop_last() =~= deep_entries(es.drop_last()));
    }
}

/// An in-memory store of string values under string keys.
///
/// A key that was never stored, or was removed or cleared since, reads as
/// the empty string: absence is not an error.
pub struct MemStore {
    /// The string-to-string mapping.
    pub strings: InnerStore<String>,
}

impl MemStore {
    /// The entries of the store with keys and values as character
    /// sequences, in first-insertion order.
    pub open spec fn entries(&self) -> Seq<(Seq<char>, Seq<char>)> {
        deep_entries(self.strings.entries())
    }

    /// The mapping the store stands for, over characters.
    pub open spec fn view(&self) -> Map<Seq<char>, Seq<char>> {
        map_of(self.entries())
    }

    /// Builds an empty store.
    pub fn new() -> (r: Self)
        ensures
            r@ == Map::<Seq<char>, Seq<char>>::empty(),
            r.entries() == Seq::<(Seq<char>, Seq<char>)>::empty(),
    {
        let r = MemStore { strings: InnerStore::new() };
        proof {
            assert(r.entries() =~= Seq::<(Seq<char>, Seq<char>)>::empty());
        }
        r
    }

    /// Stores `value` under `key`, adding the key or replacing its old
    /// value, and hands the stored value back.
    pub fn insert_string(&mut self, key: &str, value: &str) -> (r: String)
        ensures
            r@ == value@,
            final(self)@ == old(self)@.insert(key@, value@),
            final(self).entries() == match find_key(old(self).entries(), key@) {
                Some(i) => old(self).entries().update(i, (key@, value@)),
                None => old(self).entries().push((key@, value@)),
            },
    {
        let ghost old_inner = self.strings.entries();
        let ghost old_deep = self.entries();
        let stored = value.to_owned();
        let ghost stored_view = stored@;
        self.strings.insert(key, stored);
        proof {
            lemma_find_key_deep(old_inner, key@);
            match find_key(old_inner, key@) {
                Some(i) => {
                    lemma_find_key(old_deep, key@);
                    assert(0 <= i < old_deep.len());
                    assert(old_deep[i].0 == key@);
                    assert(self.entries() =~= old_deep.update(i, (key@, value@)));
                    lemma_map_of_update(old_deep, i, value@);
                },
                None => {
                    assert(self.entries() =~= old_deep.push((key@, value@)));
                    assert(self.entries().drop_last() =~= old_deep);
                },
            }
        }
        value.to_owned()
    }

    /// Reads the value stored under `key`; an absent key reads as the
    /// empty string.
    pub fn get_string(&self, key: &str) -> (r: String)
        ensures
            r@ == if self@.contains_key(key@) {
                self@[key@]
            } else {
                Seq::<char>::empty()
            },
    {
        proof {
            lemma_find_key_deep(self.strings.entries(), key@);
        }
        match self.strings.retrieve(key) {
            Some(v) => {
                proof {
                    lemma_map_of_lookup(self.entries(), key@);
                    lemma_find_key(self.strings.entries(), key@);
                }
                v.clone()
            },
            None => {
                proof {
                    lemma_map_of_lookup(self.entries(), key@);
                }
                String::new()
            },
        }
    }

    /// Takes the entry with the given key out of the store and hands its
    /// value back; an absent key reads as the empty string and changes
    /// nothing.
    pub fn remove_string(&mut self, key: &str) -> (r: String)
        ensures
            final(self)@ == old(self)@.remove(key@),
            r@ == if old(self)@.contains_key(key@) {
                old(self)@[key@]
            } else {
                Seq::<char>::empty()
            },
    {
        let ghost old_inner = self.strings.entries();
        let ghost old_deep = self.entries();
        proof {
            lemma_find_key_deep(old_inner, key@);
        }
        match self.strings.remove(key) {
            Some(v) => {
                proof {
                    lemma_find_key(old_inner, key@);
                    let i = find_key(old_inner, key@)->Some_0;
                    assert(self.entries() =~= old_deep.remove(i));
                    assert(old_deep[i].0 == key@);
                    lemma_map_of_remove(old_deep, i);
                    lemma_map_of_lookup(old_deep, key@);
                }
                v
            },
            None => {
                proof {
                    assert(self.entries() =~= old_deep);
                    lemma_map_of_remove_absent(old_deep, key@);
                    lemma_map_of_lookup(old_deep, key@);
                }
                String::new()
            },
        }
    }

    /// Empties the store: every key reads as the empty string afterwards.
    pub fn clear_strings(&mut self)
        ensures
            final(self)@ == Map::<Seq<char>, Seq<char>>::empty(),
            final(self).entries() == Seq::<(Seq<char>, Seq<char>)>::empty(),
    {
        self.strings.clear();
        proof {
            assert(self.entries() =~= Seq::<(Seq<char>, Seq<char>)>::empty());
        }
    }

    /// The snapshot text of the store's current contents, for writing
    /// out to disk by a caller that keeps no persistence wrapper.
    pub fn dump_store(&self) -> (r: String)
        ensures
            r@ == crate::snapshot::snapshot_chars(self.entries()),
    {
        crate::snapshot::encode_snapshot(self)
    }

    /// Borrows the underlying entries for iteration, in first-insertion
    /// order.
    pub fn get_string_store_ref(&self) -> (r: &Vec<(String, String)>)
        ensures
            r@.len() == self.entries().len(),
            forall|i: int|
                0 <= i < r@.len() ==> (#[trigger] r@[i]).0@ == self.entries()[i].0 && r@[i].1@
                    == self.entries()[i].1,
            unique_keys(self.entries()),
    {
        let r = self.strings.get_ref();
        proof {
            lemma_find_key_deep(self.strings.entries(), Seq::<char>::empty());
        }
        r
    }
}

/// Storing a value and then reading the same key gives that value back,
/// for every key and value.
pub proof fn lemma_insert_then_get(m: Map<Seq<char>, Seq<char>>, k: Seq<char>, v: Seq<char>)
    ensures
        m.insert(k, v).contains_key(k),
        m.insert(k, v)[k] == v,
{
}

/// A key that was never stored reads as absent: the empty map holds no
/// key, and storing under one key adds no other.
pub proof fn lemma_untouched_key_absent(
    m: Map<Seq<char>, Seq<char>>,
    k: Seq<char>,
    other: Seq<char>,
    v: Seq<char>,
)
    requires
        !m.contains_key(k),
        other != k,
    ensures
        !m.insert(other, v).contains_key(k),
        !Map::<Seq<char>, Seq<char>>::empty().contains_key(k),
{
}

/// After a removal the removed key reads as absent, and no other key
/// changed.
pub proof fn lemma_remove_then_get(m: Map<Seq<char>, Seq<char>>, k: Seq<char>, other: Seq<char>)
    requires
        other != k,
    ensures
        !m.remove(k).contains_key(k),
        m.remove(k).contains_key(other) == m.contains_key(other),
        m.remove(k).contains_key(other) ==> m.remove(k)[other] == m[other],
{
}

/// Clearing leaves every key absent: the cleared store is the empty map.
pub proof fn lemma_clear_then_get(k: Seq<char>)
    ensures
        !Map::<Seq<char>, Seq<char>>::empty().contains_key(k),
{
}

} // verus!
