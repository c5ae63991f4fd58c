//! The blob store: physical byte payloads addressed solely by their content
//! key. At most one payload ever sits under a given key, which is what makes
//! deduplication work.

use crate::model::{blob_at, blobs_unique, has_blob, remove_blob, BlobModel};
use crate::util::copy_bytes;
use vstd::prelude::*;

verus! {

/// One stored payload and its content key.
#[derive(Debug)]
pub struct Blob {
    pub key: String,
    pub data: Vec<u8>,
}

impl View for Blob {
    type V = BlobModel;

    open spec fn view(&self) -> BlobModel {
        BlobModel { key: self.key@, data: self.data@ }
    }
}

/// The view of a sequence of stored blobs.
pub open spec fn blobs_model(rows: Seq<Blob>) -> Seq<BlobModel> {
    rows.map_values(|b: Blob| b@)
}

/// How a create-if-absent write ends. Either way the caller may rely on the
/// key being present afterwards.
#[derive(Debug)]
pub enum WriteOutcome {
    /// The key was free; the payload is now stored under it.
    Created,
    /// The key was already taken; the store is unchanged and the existing
    /// payload is trusted to equal the new one (dedup by key).
    AlreadyPresent,
}

/// The table of stored blobs.
#[derive(Debug)]
pub struct BlobStore {
    pub rows: Vec<Blob>,
}

impl View for BlobStore {
    type V = Seq<BlobModel>;

    open spec fn view(&self) -> Seq<BlobModel> {
        blobs_model(self.rows@)
    }
}

impl BlobStore {
    pub fn new() -> (r: BlobStore)
        ensures
            r@ == Seq::<BlobModel>::empty(),
    {
        let t = BlobStore { rows: Vec::new() };
        proof {
            assert(t@ =~= Seq::<BlobModel>::empty());
        }
        t
    }

    /// The index of a blob stored under `key`, if any.
    fn find(&self, key: &String) -> (r: Option<usize>)
        ensures
            match r {
                Some(i) => 0 <= i < self@.len() && self@[i as int].key == key@,
                None => !has_blob(self@, key@),
            },
    {
        let mut i: usize = 0;
        while i < self.rows.len()
            invariant
                i <= self.rows.len(),
                forall|j: int| 0 <= j < i ==> (#[trigger] self@[j].key) != key@,
            decreases self.rows.len() - i,
        {
            if self.rows[i].key == *key {
                return Some(i);
            }
            i += 1;
        }
        None
    }

    /// Whether a payload is stored under `key`.
    pub fn contains(&self, key: &String) -> (r: bool)
        ensures
            r == has_blob(self@, key@),
    {
        match self.find(key) {
            Some(i) => {
                proof {
                    assert(0 <= i < self@.len() && self@[i as int].key == key@);
                }
                true
            },
            None => false,
        }
    }

    /// Stores the payload under `key` unless the key is already taken.
    /// Racing writers of the same key may both see success; a key is never
    /// silently re-bound to different bytes.
    pub fn write_if_absent(&mut self, key: String, data: Vec<u8>) -> (r: WriteOutcome)
        ensures
            match r {
                WriteOutcome::Created => !has_blob(old(self)@, key@) && final(self)@ == old(
                    self,
                )@.push(BlobModel { key: key@, data: data@ }),
                WriteOutcome::AlreadyPresent => has_blob(old(self)@, key@) && final(self)@ == old(
                    self,
                )@,
            },
    {
        match self.find(&key) {
            Some(i) => {
                proof {
                    assert(0 <= i < self@.len() && self@[i as int].key == key@);
                }
                WriteOutcome::AlreadyPresent
            },
            None => {
                self.rows.push(Blob { key, data });
                proof {
                    assert(self@ =~= old(self)@.push(BlobModel { key: key@, data: data@ }));
                }
                WriteOutcome::Created
            },
        }
    }

    /// The payload stored under `key`, if any.
    pub fn open_read(&self, key: &String) -> (r: Option<Vec<u8>>)
        requires
            blobs_unique(self@),
        ensures
            match r {
                Some(d) => has_blob(self@, key@) && d@ == blob_at(self@, key@),
                None => !has_blob(self@, key@),
            },
    {
        match self.find(key) {
            Some(i) => {
                proof {
                    crate::model::lemma_blob_index_unique(self@, key@, i as int);
                }
                Some(copy_bytes(&self.rows[i].data))
            },
            None => None,
        }
    }

    /// Removes the payload stored under `key`; reports whether one was
    /// there. The caller is responsible for calling this only once no
    /// catalog record cites `key` any more.
    pub fn delete(&mut self, key: &String) -> (r: bool)
        requires
            blobs_unique(old(self)@),
        ensures
            r == has_blob(old(self)@, key@),
            final(self)@ == remove_blob(old(self)@, key@),
    {
        match self.find(key) {
            Some(i) => {
                proof {
                    crate::model::lemma_blob_index_unique(self@, key@, i as int);
                }
                self.rows.remove(i);
                proof {
                    assert(self@ =~= old(self)@.remove(i as int));
                }
                true
            },
            None => false,
        }
    }
}

} // verus!
