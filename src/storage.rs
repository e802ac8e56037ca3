use vstd::prelude::*;
use vstd::utf8::{decode_utf8, valid_utf8};
use vstd::std_specs::hash::group_hash_axioms;

use std::collections::HashMap;

use crate::shared::{same_text, utf8_text};

verus! {

broadcast use group_hash_axioms;

/// Why a storage operation failed.
#[derive(Debug)]
pub enum StorageError {
    UnknownStorageType(String),
    Unimplemented(String),
    NotFound,
    InvalidUtf8,
}

/// The text of a storage error.
pub open spec fn storage_message(e: StorageError) -> Seq<char> {
    match e {
        StorageError::UnknownStorageType(s) => "unknown storage type: "@ + s@,
        StorageError::Unimplemented(s) => "storage type is not implemented: "@ + s@,
        StorageError::NotFound => "not found"@,
        StorageError::InvalidUtf8 => "data is not valid UTF-8"@,
    }
}

impl StorageError {
    /// The error as text for a reader.
    pub fn message(&self) -> (r: String)
        ensures
            r@ == storage_message(*self),
    {
        match self {
            StorageError::UnknownStorageType(s) => {
                "unknown storage type: ".to_string().concat(s.as_str())
            },
            StorageError::Unimplemented(s) => {
                "storage type is not implemented: ".to_string().concat(s.as_str())
            },
            StorageError::NotFound => "not found".to_string(),
            StorageError::InvalidUtf8 => "data is not valid UTF-8".to_string(),
        }
    }
}

/// Name of the default in-memory storage.
pub const IN_MEMORY: &'static str = "in_memory";

/// Name of the file storage, which has no implementation.
pub const FILE: &'static str = "file";

/// Name of a storage kind that is not known.
pub const UNKNOWN: &'static str = "unknown";

/// The kinds of storage a configuration can name.
#[derive(Debug, Clone, Copy, PartialEq, Eq, Structural)]
pub enum StorageType {
    Unknown,
    InMemory,
    File,
}

impl StorageType {
    /// The kind that `name` names.
    pub fn from_name(name: &str) -> (r: StorageType)
        ensures
            name@ == IN_MEMORY@ ==> r == StorageType::InMemory,
            name@ == FILE@ ==> r == StorageType::File,
            name@ != IN_MEMORY@ && name@ != FILE@ ==> r == StorageType::Unknown,
    {
        proof {
            reveal_strlit("in_memory");
            reveal_strlit("file");
            assert(IN_MEMORY@.len() != FILE@.len());
        }
        if same_text(name, IN_MEMORY) {
            StorageType::InMemory
        } else if same_text(name, FILE) {
            StorageType::File
        } else {
            StorageType::Unknown
        }
    }

    /// The name of this kind.
    pub fn name(&self) -> (r: &'static str)
        ensures
            *self == StorageType::InMemory ==> r@ == IN_MEMORY@,
            *self == StorageType::File ==> r@ == FILE@,
            *self == StorageType::Unknown ==> r@ == UNKNOWN@,
    {
        match self {
            StorageType::Unknown => UNKNOWN,
            StorageType::InMemory => IN_MEMORY,
            StorageType::File => FILE,
        }
    }
}

/// Entries held in memory, keyed by a 64-bit key, with the order in which
/// their keys first arrived.
pub struct InMemory {
    values: HashMap<u64, Vec<u8>>,
    order: Vec<u64>,
}

impl InMemory {
    /// What each key holds.
    pub closed spec fn contents(&self) -> Map<u64, Seq<u8>> {
        self.values@.map_values(|v: Vec<u8>| v@)
    }

    /// The keys held, in the order they first arrived.
    pub closed spec fn keys(&self) -> Seq<u64> {
        self.order@
    }

    /// Each key is held once in the order, and the order holds exactly the
    /// keys with contents.
    pub open spec fn wf(&self) -> bool {
        &&& self.keys().no_duplicates()
        &&& forall|k: u64| #[trigger] self.contents().contains_key(k) <==> self.keys().contains(k)
    }

    /// The held entries, in the order of their keys.
    pub open spec fn entries(&self) -> Seq<(u64, Seq<u8>)> {
        self.keys().map_values(|k: u64| (k, self.contents()[k]))
    }

    /// An empty storage.
    pub fn new() -> (r: InMemory)
        ensures
            r.wf(),
            r.contents() == Map::<u64, Seq<u8>>::empty(),
            r.keys() == Seq::<u64>::empty(),
    {
        let r = InMemory { values: HashMap::new(), order: Vec::new() };
        assert(r.contents() =~= Map::<u64, Seq<u8>>::empty());
        r
    }

    /// Stores `data` under `key`, replacing what the key held before.
    pub fn write(&mut self, key: u64, data: &[u8]) -> (r: Result<(), StorageError>)
        requires
            old(self).wf(),
        ensures
            r is Ok,
            final(self).wf(),
            final(self).contents() == old(self).contents().insert(key, data@),
            old(self).contents().contains_key(key) ==> final(self).keys() == old(self).keys(),
            !old(self).contents().contains_key(key) ==> final(self).keys() == old(self).keys().push(
                key,
            ),
    {
        let ghost before = self.contents();
        let ghost keys0 = self.keys();
        let prior = self.values.insert(key, vstd::slice::slice_to_vec(data));
        assert(prior is Some <==> before.contains_key(key));
        if prior.is_none() {
            self.order.push(key);
            assert(!keys0.contains(key));
            assert forall|a: int, b: int|
                0 <= a < b < self.keys().len() implies self.keys()[a] != self.keys()[b] by {
                if b == keys0.len() {
                    assert(keys0[a] == self.keys()[a]);
                }
            }
        }
        assert(self.contents() =~= before.insert(key, data@));
        assert forall|k: u64| #[trigger]
            self.contents().contains_key(k) <==> self.keys().contains(k) by {
            if k != key {
                assert(before.contains_key(k) == keys0.contains(k));
                if self.keys().contains(k) {
                    let j = choose|j: int| 0 <= j < self.keys().len() && self.keys()[j] == k;
                    assert(keys0[j] == k);
                }
                if keys0.contains(k) {
                    let j = choose|j: int| 0 <= j < keys0.len() && keys0[j] == k;
                    assert(self.keys()[j] == k);
                }
            } else if prior.is_none() {
                assert(self.keys()[self.keys().len() - 1] == key);
            } else {
                assert(keys0.contains(key));
            }
        }
        Ok(())
    }

    /// What `key` holds; `NotFound` where it holds nothing.
    pub fn read(&self, key: u64) -> (r: Result<Vec<u8>, StorageError>)
        ensures
            self.contents().contains_key(key) ==> (r matches Ok(v) && v@ == self.contents()[key]),
            !self.contents().contains_key(key) ==> r matches Err(StorageError::NotFound),
    {
        match self.values.get(&key) {
            Some(v) => Ok(vstd::slice::slice_to_vec(v.as_slice())),
            None => Err(StorageError::NotFound),
        }
    }

    /// How many keys are held.
    pub fn len(&self) -> (r: usize)
        ensures
            r == self.keys().len(),
    {
        self.order.len()
    }

    /// Every held entry, in the order of its key's first arrival.
    pub fn list(&self) -> (r: Result<Vec<(u64, Vec<u8>)>, StorageError>)
        requires
            self.wf(),
        ensures
            r matches Ok(es) && es@.map_values(|e: (u64, Vec<u8>)| (e.0, e.1@)) == self.entries(),
    {
        let mut out: Vec<(u64, Vec<u8>)> = Vec::new();
        let mut i: usize = 0;
        while i < self.order.len()
            invariant
                self.wf(),
                0 <= i <= self.keys().len(),
                out@.map_values(|e: (u64, Vec<u8>)| (e.0, e.1@)) == self.entries().subrange(
                    0,
                    i as int,
                ),
            decreases self.keys().len() - i,
        {
            let k = self.order[i];
            assert(self.keys().contains(k));
            let v = self.read(k);
            match v {
                Ok(v) => {
                    let ghost prev = out@.map_values(|e: (u64, Vec<u8>)| (e.0, e.1@));
                    let ghost item = (k, v@);
                    out.push((k, v));
                    assert(out@.map_values(|e: (u64, Vec<u8>)| (e.0, e.1@)) =~= prev.push(item));
                    assert(self.entries().subrange(0, i + 1) =~= self.entries().subrange(
                        0,
                        i as int,
                    ).push(item));
                },
                Err(_) => {},
            }
            i = i + 1;
        }
        assert(self.entries().subrange(0, self.keys().len() as int) =~= self.entries());
        Ok(out)
    }
}

/// File-backed storage. It has no implementation: it cannot be built.
pub struct File {}

impl File {
    /// Always fails: file storage is not implemented.
    pub fn new() -> (r: Result<File, StorageError>)
        ensures
            r matches Err(StorageError::Unimplemented(n)) && n@ == FILE@,
    {
        Err(StorageError::Unimplemented(FILE.to_string()))
    }
}

/// A fresh, empty storage of the kind that `storage_name` names. Only the
/// in-memory storage can be built.
pub fn new_storage(storage_name: &str) -> (r: Result<InMemory, StorageError>)
    ensures
        storage_name@ == IN_MEMORY@ ==> (r matches Ok(s) && s.wf() && s.contents() == Map::<
            u64,
            Seq<u8>,
        >::empty() && s.keys() == Seq::<u64>::empty()),
        storage_name@ == FILE@ ==> (r matches Err(StorageError::Unimplemented(n)) && n@ == FILE@),
        storage_name@ != IN_MEMORY@ && storage_name@ != FILE@ ==> (r matches Err(
            StorageError::UnknownStorageType(n),
        ) && n@ == storage_name@),
{
    match StorageType::from_name(storage_name) {
        StorageType::InMemory => Ok(InMemory::new()),
        StorageType::File => match File::new() {
            Ok(_) => Err(StorageError::Unimplemented(FILE.to_string())),
            Err(e) => Err(e),
        },
        StorageType::Unknown => Err(StorageError::UnknownStorageType(storage_name.to_string())),
    }
}

/// A storage that keeps every entry as text, in arrival order.
pub struct Dummy {
    entries: Vec<String>,
}

impl Dummy {
    /// The kept entries, oldest first.
    pub closed spec fn texts(&self) -> Seq<Seq<char>> {
        self.entries@.map_values(|e: String| e@)
    }

    /// An empty storage.
    pub fn new() -> (r: Dummy)
        ensures
            r.texts() == Seq::<Seq<char>>::empty(),
    {
        let r = Dummy { entries: Vec::new() };
        assert(r.texts() =~= Seq::<Seq<char>>::empty());
        r
    }

    /// Keeps `data` as text; fails, keeping nothing, where it is not UTF-8.
    pub fn store(&mut self, data: &[u8]) -> (r: Result<(), StorageError>)
        ensures
            valid_utf8(data@) ==> r is Ok && final(self).texts() == old(self).texts().push(
                decode_utf8(data@),
            ),
            !valid_utf8(data@) ==> (r matches Err(StorageError::InvalidUtf8) && final(self).texts()
                == old(self).texts()),
    {
        match utf8_text(data) {
            Some(text) => {
                let ghost prev = self.texts();
                let ghost t = text@;
                self.entries.push(text);
                assert(self.texts() =~= prev.push(t));
                Ok(())
            },
            None => Err(StorageError::InvalidUtf8),
        }
    }

    /// How many entries are kept.
    pub fn len(&self) -> (r: usize)
        ensures
            r == self.texts().len(),
    {
        self.entries.len()
    }
}

} // verus!
