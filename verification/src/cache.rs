//! A cache of name digests that threads share.

use vstd::prelude::*;
use vstd::hash_map::StringHashMap;
use vstd::rwlock::RwLock;
use vstd::rwlock::RwLockPredicate;
use crate::checksum::name_digest;
use crate::checksum::Checksum;

verus! {

/// What the cache's lock guards: every entry holds the digest of its own name.
pub struct EntriesMatchNames;

impl RwLockPredicate<StringHashMap<Checksum>> for EntriesMatchNames {
    open spec fn inv(self, entries: StringHashMap<Checksum>) -> bool {
        forall|name: Seq<char>| #[trigger]
            entries@.contains_key(name) ==> entries@[name]@ == Some(name_digest(name))
    }
}

/// A map from names to their checksums behind a reader/writer lock. Whoever
/// reads an entry, and whenever, finds the digest of the name it asked for.
pub struct MemoCache {
    entries: RwLock<StringHashMap<Checksum>, EntriesMatchNames>,
}

impl MemoCache {
    /// An empty cache.
    pub fn new() -> (cache: Self) {
        MemoCache { entries: RwLock::new(StringHashMap::new(), Ghost(EntriesMatchNames)) }
    }

    /// A copy of the entry that `entries` holds for `name`, if it holds one.
    pub fn entry_of(entries: &StringHashMap<Checksum>, name: &String) -> (found: Option<Checksum>)
        ensures
            found == if entries@.contains_key(name@) {
                Some(entries@[name@])
            } else {
                None
            },
    {
        match entries.get(name.as_str()) {
            Some(checksum) => Some(checksum.clone()),
            None => None,
        }
    }

    /// The entry for `name`, if there is one at the moment at which the
    /// shared lock is granted. Whether there is one depends on what the
    /// threads have stored until then.
    pub fn lookup(&self, name: &String) -> (found: Option<Checksum>)
        ensures
            found matches Some(checksum) ==> checksum@ == Some(name_digest(name@)),
    {
        let reader = self.entries.acquire_read();
        let found = Self::entry_of(reader.borrow(), name);
        reader.release_read();
        found
    }

    /// Stores `checksum` as the entry for `name`, under the exclusive lock.
    /// An entry that another thread stored in the meantime is replaced by an
    /// equal one.
    pub fn store(&self, name: &String, checksum: &Checksum)
        requires
            checksum@ == Some(name_digest(name@)),
    {
        let (mut entries, writer) = self.entries.acquire_write();
        entries.insert(name.clone(), checksum.clone());
        writer.release_write(entries);
    }

    /// The checksum of `name`: the cached one on a hit; on a miss it is
    /// computed outside any lock and then stored. Hit or miss, and whatever
    /// other threads do meanwhile, the result is the same as hashing `name`
    /// directly.
    pub fn lookup_or_hash(&self, name: &String) -> (checksum: Checksum)
        ensures
            checksum@ == Some(name_digest(name@)),
    {
        match self.lookup(name) {
            Some(checksum) => checksum,
            None => {
                let checksum = Checksum::with_sha256(name.as_str());
                self.store(name, &checksum);
                checksum
            },
        }
    }
}

} // verus!
