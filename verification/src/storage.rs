//! The key/value store behind the ledger, and typed pointers into it.
//!
//! Keys are strings and values are byte strings. A store's view is the
//! finite `Map` from each key's characters to the bytes stored under it.

use crate::codec::{decode_u128, encode_u128, u128_from_le_bytes, u128_to_le_bytes};
use vstd::prelude::*;
use vstd::string::StringExecFns;

verus! {

/// One key with the bytes stored under it.
struct Entry {
    key: String,
    value: Vec<u8>,
}

/// An in-memory key/value store. No key occurs twice among its entries.
pub struct Storage {
    entries: Vec<Entry>,
}

/// Whether some entry of `entries` has the key `key`.
spec fn has_key(entries: Seq<Entry>, key: Seq<char>) -> bool {
    exists|i: int| 0 <= i < entries.len() && #[trigger] entries[i].key@ == key
}

/// The position of an entry with the key `key`.
spec fn index_of(entries: Seq<Entry>, key: Seq<char>) -> int {
    choose|i: int| 0 <= i < entries.len() && #[trigger] entries[i].key@ == key
}

/// Whether all keys of `entries` differ.
spec fn keys_distinct(entries: Seq<Entry>) -> bool {
    forall|i: int, j: int|
        0 <= i < j < entries.len() ==> #[trigger] entries[i].key@ != #[trigger] entries[j].key@
}

/// The map that a list of entries denotes.
spec fn entries_map(entries: Seq<Entry>) -> Map<Seq<char>, Seq<u8>> {
    Map::new(
        |key: Seq<char>| has_key(entries, key),
        |key: Seq<char>| entries[index_of(entries, key)].value@,
    )
}

/// The counter stored under `key`: zero where the key is absent or holds
/// fewer than sixteen bytes.
pub open spec fn read_u128(store: Map<Seq<char>, Seq<u8>>, key: Seq<char>) -> u128 {
    if store.contains_key(key) {
        decode_u128(store[key])
    } else {
        0
    }
}

/// The store after the counter `value` has been written under `key`.
pub open spec fn write_u128(store: Map<Seq<char>, Seq<u8>>, key: Seq<char>, value: u128) -> Map<
    Seq<char>,
    Seq<u8>,
> {
    store.insert(key, encode_u128(value))
}

/// A counter that was written under a key is the counter read under it.
pub proof fn lemma_read_written(store: Map<Seq<char>, Seq<u8>>, key: Seq<char>, value: u128)
    ensures
        read_u128(write_u128(store, key, value), key) == value,
{
    crate::codec::lemma_decode_encode(value);
}

/// Writing under one key leaves what is read under every other key.
pub proof fn lemma_read_other(
    store: Map<Seq<char>, Seq<u8>>,
    key: Seq<char>,
    value: u128,
    other: Seq<char>,
)
    requires
        other != key,
    ensures
        read_u128(write_u128(store, key, value), other) == read_u128(store, other),
{
}

proof fn lemma_entries_map_at(entries: Seq<Entry>, i: int)
    requires
        keys_distinct(entries),
        0 <= i < entries.len(),
    ensures
        entries_map(entries).contains_key(entries[i].key@),
        entries_map(entries)[entries[i].key@] == entries[i].value@,
{
    let key = entries[i].key@;
    assert(has_key(entries, key));
    let j = index_of(entries, key);
    assert(0 <= j < entries.len() && entries[j].key@ == key);
    if j < i {
        assert(entries[j].key@ != entries[i].key@);
    } else if i < j {
        assert(entries[i].key@ != entries[j].key@);
    }
}

proof fn lemma_entries_map_push(entries: Seq<Entry>, entry: Entry)
    requires
        keys_distinct(entries),
        !has_key(entries, entry.key@),
    ensures
        keys_distinct(entries.push(entry)),
        entries_map(entries.push(entry)) == entries_map(entries).insert(entry.key@, entry.value@),
{
    let after = entries.push(entry);
    assert forall|i: int, j: int| 0 <= i < j < after.len() implies #[trigger] after[i].key@
        != #[trigger] after[j].key@ by {
        if j < entries.len() {
            assert(entries[i].key@ != entries[j].key@);
        } else {
            assert(after[i] == entries[i]);
            if entries[i].key@ == entry.key@ {
                assert(has_key(entries, entry.key@));
            }
        }
    }
    let expected = entries_map(entries).insert(entry.key@, entry.value@);
    assert forall|key: Seq<char>| #[trigger]
        entries_map(after).contains_key(key) == expected.contains_key(key) by {
        if has_key(after, key) {
            let i = index_of(after, key);
            if i < entries.len() {
                assert(entries[i].key@ == key);
            }
        }
        if has_key(entries, key) {
            let i = index_of(entries, key);
            assert(after[i].key@ == key);
        }
        if key == entry.key@ {
            assert(after[entries.len() as int].key@ == key);
        }
    }
    assert forall|key: Seq<char>| #[trigger] expected.contains_key(key) implies entries_map(
        after,
    )[key] == expected[key] by {
        if key == entry.key@ {
            lemma_entries_map_at(after, entries.len() as int);
        } else {
            let i = index_of(entries, key);
            assert(after[i] == entries[i]);
            lemma_entries_map_at(after, i);
            lemma_entries_map_at(entries, i);
        }
    }
    assert(entries_map(after) =~= expected);
}

proof fn lemma_entries_map_update(entries: Seq<Entry>, i: int, entry: Entry)
    requires
        keys_distinct(entries),
        0 <= i < entries.len(),
        entries[i].key@ == entry.key@,
    ensures
        keys_distinct(entries.update(i, entry)),
        entries_map(entries.update(i, entry)) == entries_map(entries).insert(
            entry.key@,
            entry.value@,
        ),
{
    let after = entries.update(i, entry);
    assert forall|a: int, b: int| 0 <= a < b < after.len() implies #[trigger] after[a].key@
        != #[trigger] after[b].key@ by {
        assert(entries[a].key@ != entries[b].key@);
    }
    let expected = entries_map(entries).insert(entry.key@, entry.value@);
    assert forall|key: Seq<char>| #[trigger]
        entries_map(after).contains_key(key) == expected.contains_key(key) by {
        if has_key(after, key) {
            let j = index_of(after, key);
            assert(entries[j].key@ == key);
        }
        if has_key(entries, key) {
            let j = index_of(entries, key);
            assert(after[j].key@ == key);
        }
        if key == entry.key@ {
            assert(after[i].key@ == key);
        }
    }
    assert forall|key: Seq<char>| #[trigger] expected.contains_key(key) implies entries_map(
        after,
    )[key] == expected[key] by {
        if key == entry.key@ {
            lemma_entries_map_at(after, i);
        } else {
            let j = index_of(entries, key);
            assert(after[j] == entries[j]);
            lemma_entries_map_at(after, j);
            lemma_entries_map_at(entries, j);
        }
    }
    assert(entries_map(after) =~= expected);
}

proof fn lemma_entries_map_finite(entries: Seq<Entry>)
    ensures
        entries_map(entries).dom().finite(),
{
    let keys = entries.map_values(|e: Entry| e.key@);
    vstd::seq_lib::seq_to_set_is_finite(keys);
    assert forall|key: Seq<char>| entries_map(entries).dom().contains(key) implies keys.to_set().contains(
        key,
    ) by {
        let i = index_of(entries, key);
        assert(keys[i] == key);
    }
    vstd::set_lib::lemma_set_subset_finite(keys.to_set(), entries_map(entries).dom());
}

impl View for Storage {
    type V = Map<Seq<char>, Seq<u8>>;

    closed spec fn view(&self) -> Map<Seq<char>, Seq<u8>> {
        entries_map(self.entries@)
    }
}

impl Storage {
    #[verifier::type_invariant]
    spec fn distinct_keys(self) -> bool {
        keys_distinct(self.entries@)
    }

    /// A store holds finitely many keys.
    pub proof fn lemma_finite(self)
        ensures
            self@.dom().finite(),
    {
        lemma_entries_map_finite(self.entries@);
    }

    /// The empty store.
    pub fn new() -> (storage: Self)
        ensures
            storage@ == Map::<Seq<char>, Seq<u8>>::empty(),
    {
        let storage = Storage { entries: Vec::new() };
        assert(storage@ =~= Map::<Seq<char>, Seq<u8>>::empty());
        storage
    }

    fn position(&self, key: &String) -> (found: Option<usize>)
        ensures
            match found {
                Some(i) => i < self.entries@.len() && self.entries@[i as int].key@ == key@,
                None => !has_key(self.entries@, key@),
            },
    {
        let mut i: usize = 0;
        while i < self.entries.len()
            invariant
                i <= self.entries@.len(),
                forall|j: int| 0 <= j < i ==> #[trigger] self.entries@[j].key@ != key@,
            decreases self.entries@.len() - i,
        {
            if self.entries[i].key == *key {
                return Some(i);
            }
            i += 1;
        }
        None
    }

    /// The bytes stored under `key`, if any.
    pub fn get(&self, key: &String) -> (value: Option<&Vec<u8>>)
        ensures
            match value {
                Some(bytes) => self@.contains_key(key@) && bytes@ == self@[key@],
                None => !self@.contains_key(key@),
            },
    {
        proof {
            use_type_invariant(self);
        }
        match self.position(key) {
            Some(i) => {
                proof {
                    lemma_entries_map_at(self.entries@, i as int);
                }
                Some(&self.entries[i].value)
            },
            None => None,
        }
    }

    /// Stores `value` under `key`, replacing what was stored there.
    pub fn set(&mut self, key: String, value: Vec<u8>)
        ensures
            final(self)@ == old(self)@.insert(key@, value@),
    {
        proof {
            use_type_invariant(&*self);
        }
        let found = self.position(&key);
        let entry = Entry { key, value };
        // The entries change outside the store, which holds none meanwhile
        // and so stays well-formed throughout.
        let mut entries: Vec<Entry> = Vec::new();
        core::mem::swap(&mut self.entries, &mut entries);
        match found {
            Some(i) => {
                proof {
                    lemma_entries_map_update(entries@, i as int, entry);
                }
                entries.set(i, entry);
            },
            None => {
                proof {
                    lemma_entries_map_push(entries@, entry);
                }
                entries.push(entry);
            },
        }
        self.entries = entries;
    }

    /// Every key of the store, each once.
    pub fn keys(&self) -> (keys: Vec<String>)
        ensures
            forall|key: Seq<char>|
                self@.contains_key(key) <==> exists|i: int|
                    0 <= i < keys@.len() && #[trigger] keys@[i]@ == key,
            forall|i: int, j: int|
                0 <= i < j < keys@.len() ==> #[trigger] keys@[i]@ != #[trigger] keys@[j]@,
    {
        proof {
            use_type_invariant(self);
        }
        let mut keys: Vec<String> = Vec::new();
        let mut i: usize = 0;
        while i < self.entries.len()
            invariant
                i <= self.entries@.len(),
                keys@.len() == i,
                forall|j: int| 0 <= j < i ==> #[trigger] keys@[j]@ == self.entries@[j].key@,
            decreases self.entries@.len() - i,
        {
            keys.push(self.entries[i].key.clone());
            i += 1;
        }
        proof {
            let entries = self.entries@;
            assert forall|key: Seq<char>|
                self@.contains_key(key) <==> exists|i: int|
                    0 <= i < keys@.len() && #[trigger] keys@[i]@ == key by {
                if has_key(entries, key) {
                    let j = index_of(entries, key);
                    assert(keys@[j]@ == key);
                }
                if exists|i: int| 0 <= i < keys@.len() && #[trigger] keys@[i]@ == key {
                    let j = choose|i: int| 0 <= i < keys@.len() && #[trigger] keys@[i]@ == key;
                    assert(entries[j].key@ == key);
                }
            }
            assert forall|i: int, j: int| 0 <= i < j < keys@.len() implies #[trigger] keys@[i]@
                != #[trigger] keys@[j]@ by {
                assert(entries[i].key@ != entries[j].key@);
            }
        }
        keys
    }
}

/// A typed handle on one key of a store.
pub struct StoragePointer {
    key: String,
}

impl View for StoragePointer {
    type V = Seq<char>;

    closed spec fn view(&self) -> Seq<char> {
        self.key@
    }
}

impl StoragePointer {
    /// The pointer to the key `key`.
    pub fn from_keyword(key: &str) -> (pointer: Self)
        ensures
            pointer@ == key@,
    {
        StoragePointer { key: String::from_str(key) }
    }

    /// The key this pointer names.
    pub fn key(&self) -> (key: &String)
        ensures
            key@ == self@,
    {
        &self.key
    }

    /// Reads the counter under this key: zero where the key is absent or
    /// holds fewer than sixteen bytes. Reading is permissive on purpose: a
    /// stored value that has lost bytes reads as zero, not as an error.
    pub fn get_value(&self, storage: &Storage) -> (value: u128)
        ensures
            value == read_u128(storage@, self@),
    {
        match storage.get(&self.key) {
            Some(bytes) => u128_from_le_bytes(bytes),
            None => 0,
        }
    }

    /// Writes `value` under this key as sixteen little-endian bytes.
    pub fn set_value(&self, storage: &mut Storage, value: u128)
        ensures
            final(storage)@ == write_u128(old(storage)@, self@, value),
    {
        storage.set(self.key.clone(), u128_to_le_bytes(value));
    }
}

} // verus!
