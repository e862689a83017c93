//! The persistence wrapper: a [`MemStore`] together with a storage
//! directory and a write-on-update flag.
//!
//! The wrapper owns the persistence *decisions*; the file work itself is
//! the caller's. Each mutating call hands back, beside its result, the
//! snapshot text that must now be written — present exactly when
//! write-on-update is set. [`PersistentStore::write`] gives the same text
//! for a manual flush, and [`PersistentStore::load`] takes the text read
//! from the storage file and replaces the store's contents with it.
//!
//! A snapshot write replaces the whole file and is not atomic: a crash in
//! the middle of one can leave a truncated file, which the next load then
//! rejects.

use vstd::prelude::*;
use vstd::string::StrSliceExecFns;
use vstd::string::StringExecFns;

use crate::errors::SnapshotError;
use crate::snapshot::decode_snapshot;
use crate::snapshot::encode_snapshot;
use crate::snapshot::snapshot_chars;
use crate::snapshot::spec_decode;
use crate::store::MemStore;
use crate::store::unique_keys;

verus! {

/// The fixed name of the snapshot file inside the storage directory.
pub open spec fn storage_file_chars() -> Seq<char> {
    seq!['r', 'u', 'b', 'i', 'n', 's', 't', 'o', 'r', 'e', '.', 'j', 's', 'o', 'n']
}

/// An in-memory store bound to a storage directory, with an optional
/// write-after-every-update policy.
pub struct PersistentStore {
    /// The directory that holds the snapshot file.
    pub path: String,
    /// The in-memory store.
    pub store: MemStore,
    /// Whether every mutation must be followed by a snapshot write.
    pub write_on_update: bool,
}

impl PersistentStore {
    /// Builds a wrapper over an empty store. Writing on update starts
    /// switched off.
    pub fn new(storage_loc: &str) -> (r: Self)
        ensures
            r.path@ == storage_loc@,
            r.store@ == Map::<Seq<char>, Seq<char>>::empty(),
            r.store.entries() == Seq::<(Seq<char>, Seq<char>)>::empty(),
            !r.write_on_update,
    {
        PersistentStore { path: storage_loc.to_owned(), store: MemStore::new(), write_on_update: false }
    }

    /// Builds a wrapper that takes over an existing store's contents.
    pub fn from_store(storage_loc: &str, memstore: MemStore) -> (r: Self)
        ensures
            r.path@ == storage_loc@,
            r.store == memstore,
            !r.write_on_update,
    {
        PersistentStore { path: storage_loc.to_owned(), store: memstore, write_on_update: false }
    }

    /// The path of the snapshot file: the storage directory, a slash and
    /// the fixed file name.
    pub fn storage_file_path(&self) -> (r: String)
        ensures
            r@ == self.path@ + seq!['/'] + storage_file_chars(),
    {
        let mut out = self.path.clone();
        out.append("/");
        out.append("rubinstore.json");
        proof {
            reveal_strlit("/");
            reveal_strlit("rubinstore.json");
            assert("/"@ =~= seq!['/']);
            assert("rubinstore.json"@ =~= storage_file_chars());
        }
        out
    }

    /// Replaces the store's contents with what a snapshot file held.
    /// Empty content stands for a missing or fresh file and leaves the
    /// store as it is; content that is no snapshot is an error and
    /// changes nothing.
    pub fn load(&mut self, contents: &str) -> (r: Result<(), SnapshotError>)
        ensures
            final(self).path == old(self).path,
            final(self).write_on_update == old(self).write_on_update,
            match r {
                Ok(()) => if contents@.len() == 0 {
                    final(self).store == old(self).store
                } else {
                    spec_decode(contents@) == Some(final(self).store.entries())
                },
                Err(_) => final(self).store == old(self).store && contents@.len() > 0 && (
                spec_decode(contents@) is None || !unique_keys(spec_decode(contents@)->Some_0)),
            },
    {
        if contents.unicode_len() == 0 {
            return Ok(());
        }
        match decode_snapshot(contents) {
            Ok(st) => {
                self.store = st;
                Ok(())
            },
            Err(e) => Err(e),
        }
    }

    /// Stores `value` under `key` and hands back the stored value, with
    /// the snapshot text to flush when write-on-update is set.
    pub fn insert_string(&mut self, key: &str, value: &str) -> (r: (String, Option<String>))
        ensures
            final(self).path == old(self).path,
            final(self).write_on_update == old(self).write_on_update,
            final(self).store@ == old(self).store@.insert(key@, value@),
            r.0@ == value@,
            (r.1 is Some) == old(self).write_on_update,
            r.1 matches Some(text) ==> text@ == snapshot_chars(final(self).store.entries()),
    {
        let stored = self.store.insert_string(key, value);
        let flush = if self.write_on_update {
            Some(encode_snapshot(&self.store))
        } else {
            None
        };
        (stored, flush)
    }

    /// Reads the value stored under `key`; an absent key reads as the
    /// empty string.
    pub fn get_string(&self, key: &str) -> (r: String)
        ensures
            r@ == if self.store@.contains_key(key@) {
                self.store@[key@]
            } else {
                Seq::<char>::empty()
            },
    {
        self.store.get_string(key)
    }

    /// Takes the entry under `key` out of the store and hands its value
    /// back — the empty string when the key was absent — with the
    /// snapshot text to flush when write-on-update is set.
    pub fn remove_string(&mut self, key: &str) -> (r: (String, Option<String>))
        ensures
            final(self).path == old(self).path,
            final(self).write_on_update == old(self).write_on_update,
            final(self).store@ == old(self).store@.remove(key@),
            r.0@ == if old(self).store@.contains_key(key@) {
                old(self).store@[key@]
            } else {
                Seq::<char>::empty()
            },
            (r.1 is Some) == old(self).write_on_update,
            r.1 matches Some(text) ==> text@ == snapshot_chars(final(self).store.entries()),
    {
        let removed = self.store.remove_string(key);
        let flush = if self.write_on_update {
            Some(encode_snapshot(&self.store))
        } else {
            None
        };
        (removed, flush)
    }

    /// Empties the store, handing back the snapshot text to flush when
    /// write-on-update is set.
    pub fn clear_strings(&mut self) -> (r: Option<String>)
        ensures
            final(self).path == old(self).path,
            final(self).write_on_update == old(self).write_on_update,
            final(self).store@ == Map::<Seq<char>, Seq<char>>::empty(),
            (r is Some) == old(self).write_on_update,
            r matches Some(text) ==> text@ == snapshot_chars(final(self).store.entries()),
    {
        self.store.clear_strings();
        if self.write_on_update {
            Some(encode_snapshot(&self.store))
        } else {
            None
        }
    }

    /// Borrows the underlying entries for iteration.
    pub fn get_string_store_ref(&self) -> (r: &Vec<(String, String)>)
        ensures
            r@.len() == self.store.entries().len(),
            forall|i: int|
                0 <= i < r@.len() ==> (#[trigger] r@[i]).0@ == self.store.entries()[i].0
                    && r@[i].1@ == self.store.entries()[i].1,
    {
        self.store.get_string_store_ref()
    }

    /// Switches the write-on-update policy. Eager writing pays one full
    /// snapshot per mutation; lazy writing risks losing unflushed updates
    /// on a crash.
    pub fn set_write_on_update(&mut self, set: bool)
        ensures
            final(self).path == old(self).path,
            final(self).store == old(self).store,
            final(self).write_on_update == set,
    {
        self.write_on_update = set;
    }

    /// The snapshot text of the store's current contents, for a manual
    /// flush.
    pub fn write(&self) -> (r: String)
        ensures
            r@ == snapshot_chars(self.store.entries()),
    {
        encode_snapshot(&self.store)
    }
}

} // verus!
