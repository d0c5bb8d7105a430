//! Append-only blob store: a durable key-to-bytes mapping.
//!
//! A `put` never mutates an earlier entry in place; it appends, and the
//! view of the store is the last-writer-wins map over the entries. A
//! concurrent reader under the owner's lock therefore observes either the
//! complete prior content of a key or the complete new content, never a
//! partial write.

use vstd::prelude::*;

use crate::models::BlobKey;

verus! {

/// One stored blob: a key and its bytes.
pub struct BlobEntry {
    pub key: BlobKey,
    pub bytes: Vec<u8>,
}

/// The map described by a sequence of entries: later entries shadow
/// earlier ones with the same key.
pub open spec fn entries_map(s: Seq<BlobEntry>) -> Map<BlobKey, Seq<u8>>
    decreases s.len(),
{
    if s.len() == 0 {
        Map::empty()
    } else {
        entries_map(s.drop_last()).insert(s.last().key, s.last().bytes@)
    }
}

/// Key-to-bytes storage, append-only by construction.
pub struct BlobStore {
    entries: Vec<BlobEntry>,
}

impl View for BlobStore {
    type V = Map<BlobKey, Seq<u8>>;

    closed spec fn view(&self) -> Map<BlobKey, Seq<u8>> {
        entries_map(self.entries@)
    }
}

impl BlobStore {
    /// An empty store holds no keys.
    pub fn new() -> (r: BlobStore)
        ensures
            r@ == Map::<BlobKey, Seq<u8>>::empty(),
    {
        BlobStore { entries: Vec::new() }
    }

    /// Store `bytes` under `key`. The write is an append: it publishes the
    /// new content for `key` and leaves every other key unchanged.
    pub fn put(&mut self, key: BlobKey, bytes: Vec<u8>)
        ensures
            final(self)@ == old(self)@.insert(key, bytes@),
    {
        let ghost pre = self.entries@;
        let ghost b = bytes@;
        self.entries.push(BlobEntry { key, bytes });
        proof {
            assert(self.entries@.drop_last() == pre);
            assert(self.entries@.last().key == key);
            assert(self.entries@.last().bytes@ == b);
        }
    }

    /// Fetch a copy of the bytes stored under `key`, or `None` if the key
    /// was never written.
    pub fn get(&self, key: BlobKey) -> (r: Option<Vec<u8>>)
        ensures
            match r {
                Some(bytes) => self@.contains_key(key) && bytes@ == self@[key],
                None => !self@.contains_key(key),
            },
    {
        let ghost all = self.entries@;
        let mut i: usize = self.entries.len();
        proof {
            assert(all.take(all.len() as int) == all);
        }
        while i > 0
            invariant
                i <= self.entries.len(),
                all == self.entries@,
                self@ == entries_map(all),
                entries_map(all).contains_key(key) == entries_map(all.take(i as int)).contains_key(
                    key,
                ),
                entries_map(all).contains_key(key) ==> entries_map(all)[key] == entries_map(
                    all.take(i as int),
                )[key],
            decreases i,
        {
            i = i - 1;
            proof {
                assert(all.take(i + 1).drop_last() == all.take(i as int));
                assert(all.take(i + 1).last() == all[i as int]);
            }
            if self.entries[i].key == key {
                return Some(clone_bytes(&self.entries[i].bytes));
            }
        }
        proof {
            assert(all.take(0) == Seq::<BlobEntry>::empty());
        }
        None
    }

    /// Whether `key` has ever been written.
    pub fn contains(&self, key: BlobKey) -> (r: bool)
        ensures
            r == self@.contains_key(key),
    {
        let found = self.get(key);
        found.is_some()
    }
}

/// Byte-for-byte copy of a byte vector.
pub fn clone_bytes(v: &Vec<u8>) -> (r: Vec<u8>)
    ensures
        r@ == v@,
{
    let mut out: Vec<u8> = Vec::new();
    let mut i: usize = 0;
    while i < v.len()
        invariant
            i <= v.len(),
            out@ == v@.take(i as int),
        decreases v.len() - i,
    {
        out.push(v[i]);
        proof {
            assert(v@.take(i + 1) == v@.take(i as int).push(v@[i as int]));
        }
        i = i + 1;
    }
    proof {
        assert(v@.take(v@.len() as int) == v@);
    }
    out
}

} // verus!
