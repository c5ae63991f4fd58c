//! The file catalog: one metadata record per logical upload, each citing the
//! blob that holds its bytes through a content key.

use crate::model::{
    cite_count, file_at, file_index, files_unique, has_file, opt_int_view, opt_view, owned_files,
    FileModel, PartModel,
};
use crate::util::{copy_bytes, copy_opt_string};
use vstd::prelude::*;

verus! {

/// One catalog record: the metadata of one logical upload.
#[derive(Debug)]
pub struct SpaceFile {
    pub id: String,
    pub space_id: String,
    pub original_filename: String,
    pub file_size_bytes: u64,
    pub mime_type: Option<String>,
    pub upload_date: i64,
    pub last_accessed: Option<i64>,
    pub download_count: u64,
    pub checksum: String,
}

impl View for SpaceFile {
    type V = FileModel;

    open spec fn view(&self) -> FileModel {
        FileModel {
            id: self.id@,
            space_id: self.space_id@,
            original_filename: self.original_filename@,
            file_size_bytes: self.file_size_bytes as nat,
            mime_type: opt_view(self.mime_type),
            upload_date: self.upload_date as int,
            last_accessed: opt_int_view(self.last_accessed),
            download_count: self.download_count as nat,
            checksum: self.checksum@,
        }
    }
}

impl SpaceFile {
    /// A field-for-field copy.
    pub fn duplicate(&self) -> (r: SpaceFile)
        ensures
            r@ == self@,
    {
        SpaceFile {
            id: self.id.clone(),
            space_id: self.space_id.clone(),
            original_filename: self.original_filename.clone(),
            file_size_bytes: self.file_size_bytes,
            mime_type: copy_opt_string(&self.mime_type),
            upload_date: self.upload_date,
            last_accessed: self.last_accessed,
            download_count: self.download_count,
            checksum: self.checksum.clone(),
        }
    }
}

/// One part of a multipart upload: the fields the uploader supplies.
#[derive(Debug)]
pub struct UploadPart {
    pub filename: Option<String>,
    pub mime_type: Option<String>,
    pub data: Vec<u8>,
}

impl View for UploadPart {
    type V = PartModel;

    open spec fn view(&self) -> PartModel {
        PartModel {
            filename: opt_view(self.filename),
            mime_type: opt_view(self.mime_type),
            data: self.data@,
        }
    }
}

/// The view of a sequence of catalog rows.
pub open spec fn files_model(rows: Seq<SpaceFile>) -> Seq<FileModel> {
    rows.map_values(|f: SpaceFile| f@)
}

/// The view of a sequence of upload parts.
pub open spec fn parts_model(rows: Seq<UploadPart>) -> Seq<PartModel> {
    rows.map_values(|p: UploadPart| p@)
}

/// The view of a sequence of identifiers.
pub open spec fn ids_model(rows: Seq<String>) -> Seq<Seq<char>> {
    rows.map_values(|s: String| s@)
}

/// How recording an access ends.
#[derive(Debug)]
pub enum AccessOutcome {
    /// The updated record.
    Recorded(SpaceFile),
    /// No record has the requested id; nothing changed.
    Missing,
    /// The download counter cannot grow any further; nothing changed.
    CounterStuck,
}

/// The table of catalog records.
#[derive(Debug)]
pub struct FileCatalog {
    pub rows: Vec<SpaceFile>,
}

impl View for FileCatalog {
    type V = Seq<FileModel>;

    open spec fn view(&self) -> Seq<FileModel> {
        files_model(self.rows@)
    }
}

impl FileCatalog {
    pub fn new() -> (r: FileCatalog)
        ensures
            r@ == Seq::<FileModel>::empty(),
    {
        let t = FileCatalog { rows: Vec::new() };
        proof {
            assert(t@ =~= Seq::<FileModel>::empty());
        }
        t
    }

    /// The index of a record whose id is `id`, if any.
    fn find(&self, id: &String) -> (r: Option<usize>)
        ensures
            match r {
                Some(i) => 0 <= i < self@.len() && self@[i as int].id == id@,
                None => !has_file(self@, id@),
            },
    {
        let mut i: usize = 0;
        while i < self.rows.len()
            invariant
                i <= self.rows.len(),
                forall|j: int| 0 <= j < i ==> (#[trigger] self@[j].id) != id@,
            decreases self.rows.len() - i,
        {
            if self.rows[i].id == *id {
                return Some(i);
            }
            i += 1;
        }
        None
    }

    /// Whether a record with this id exists.
    pub fn contains(&self, id: &String) -> (r: bool)
        ensures
            r == has_file(self@, id@),
    {
        match self.find(id) {
            Some(i) => {
                proof {
                    assert(0 <= i < self@.len() && self@[i as int].id == id@);
                }
                true
            },
            None => false,
        }
    }

    /// The record with this id, if any.
    pub fn get_by_id(&self, id: &String) -> (r: Option<SpaceFile>)
        requires
            files_unique(self@),
        ensures
            match r {
                Some(f) => has_file(self@, id@) && f@ == file_at(self@, id@),
                None => !has_file(self@, id@),
            },
    {
        match self.find(id) {
            Some(i) => {
                proof {
                    crate::model::lemma_file_index_unique(self@, id@, i as int);
                }
                Some(self.rows[i].duplicate())
            },
            None => None,
        }
    }

    /// Appends a record; the caller is responsible for id freshness.
    pub fn insert(&mut self, f: SpaceFile)
        ensures
            final(self)@ == old(self)@.push(f@),
    {
        self.rows.push(f);
        proof {
            assert(self@ =~= old(self)@.push(f@));
        }
    }

    /// All records owned by the space `space_id`, in catalog order.
    pub fn list_by_owner(&self, space_id: &String) -> (r: Vec<SpaceFile>)
        ensures
            files_model(r@) == owned_files(self@, space_id@),
    {
        let mut r: Vec<SpaceFile> = Vec::new();
        let mut i: usize = 0;
        while i < self.rows.len()
            invariant
                i <= self.rows.len(),
                files_model(r@) == owned_files(self@.take(i as int), space_id@),
            decreases self.rows.len() - i,
        {
            let ghost prefix = self@.take(i as int);
            proof {
                assert(self@.take(i + 1).drop_last() =~= prefix);
                assert(self@.take(i + 1).last() == self@[i as int]);
            }
            if self.rows[i].space_id == *space_id {
                let ghost pre = r@;
                r.push(self.rows[i].duplicate());
                proof {
                    assert(files_model(r@) =~= files_model(pre).push(self@[i as int]));
                    assert(owned_files(self@.take(i + 1), space_id@) =~= owned_files(prefix, space_id@).push(self@[i as int]));
                }
            } else {
                proof {
                    assert(owned_files(self@.take(i + 1), space_id@) =~= owned_files(prefix, space_id@));
                }
            }
            i += 1;
        }
        proof {
            assert(self@.take(self@.len() as int) =~= self@);
        }
        r
    }

    /// Whether any record is owned by the space `space_id`.
    pub fn owns_any(&self, space_id: &String) -> (r: bool)
        ensures
            r == exists|i: int|
                0 <= i < self@.len() && (#[trigger] self@[i].space_id) == space_id@,
    {
        let mut i: usize = 0;
        while i < self.rows.len()
            invariant
                i <= self.rows.len(),
                forall|j: int| 0 <= j < i ==> (#[trigger] self@[j].space_id) != space_id@,
            decreases self.rows.len() - i,
        {
            if self.rows[i].space_id == *space_id {
                proof {
                    assert(0 <= i < self@.len() && self@[i as int].space_id == space_id@);
                }
                return true;
            }
            i += 1;
        }
        false
    }

    /// How many live records cite the content key `key`.
    pub fn count_by_content_key(&self, key: &String) -> (r: usize)
        ensures
            r == cite_count(self@, key@),
    {
        let mut count: usize = 0;
        let mut i: usize = 0;
        while i < self.rows.len()
            invariant
                i <= self.rows.len(),
                count <= i,
                count == cite_count(self@.take(i as int), key@),
            decreases self.rows.len() - i,
        {
            proof {
                assert(self@.take(i + 1).drop_last() =~= self@.take(i as int));
                assert(self@.take(i + 1).last() == self@[i as int]);
            }
            if self.rows[i].checksum == *key {
                count += 1;
            }
            i += 1;
        }
        proof {
            assert(self@.take(self@.len() as int) =~= self@);
        }
        count
    }

    /// Removes the record with this id and returns it.
    pub fn delete_by_id(&mut self, id: &String) -> (r: Option<SpaceFile>)
        requires
            files_unique(old(self)@),
        ensures
            match r {
                Some(f) => has_file(old(self)@, id@) && f@ == file_at(old(self)@, id@)
                    && final(self)@ == old(self)@.remove(file_index(old(self)@, id@)),
                None => !has_file(old(self)@, id@) && final(self)@ == old(self)@,
            },
    {
        match self.find(id) {
            Some(i) => {
                proof {
                    crate::model::lemma_file_index_unique(self@, id@, i as int);
                }
                let f = self.rows.remove(i);
                proof {
                    assert(self@ =~= old(self)@.remove(i as int));
                }
                Some(f)
            },
            None => None,
        }
    }

    /// Records one access to the record with this id: its download counter
    /// rises by one and its last-access time becomes `now`.
    pub fn record_access(&mut self, id: &String, now: i64) -> (r: AccessOutcome)
        requires
            files_unique(old(self)@),
        ensures
            match r {
                AccessOutcome::Recorded(f) => has_file(old(self)@, id@) && file_at(
                    old(self)@,
                    id@,
                ).download_count < u64::MAX && f@ == (FileModel {
                    download_count: file_at(old(self)@, id@).download_count + 1,
                    last_accessed: Some(now as int),
                    ..file_at(old(self)@, id@)
                }) && final(self)@ == old(self)@.update(file_index(old(self)@, id@), f@),
                AccessOutcome::Missing => !has_file(old(self)@, id@) && final(self)@ == old(self)@,
                AccessOutcome::CounterStuck => has_file(old(self)@, id@) && file_at(
                    old(self)@,
                    id@,
                ).download_count >= u64::MAX && final(self)@ == old(self)@,
            },
    {
        match self.find(id) {
            Some(i) => {
                proof {
                    crate::model::lemma_file_index_unique(self@, id@, i as int);
                }
                let count = self.rows[i].download_count;
                if count == u64::MAX {
                    AccessOutcome::CounterStuck
                } else {
                    let mut row = self.rows[i].duplicate();
                    row.download_count = count + 1;
                    row.last_accessed = Some(now);
                    let copy = row.duplicate();
                    self.rows[i] = row;
                    proof {
                        assert(self@ =~= old(self)@.update(i as int, copy@));
                    }
                    AccessOutcome::Recorded(copy)
                }
            },
            None => AccessOutcome::Missing,
        }
    }
}

} // verus!
