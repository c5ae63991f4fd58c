//! The store: the coordinators that tie the space table, the file catalog
//! and the blob store together. Uploads deduplicate content by key, deletes
//! reclaim a blob exactly when its last citation goes, and every operation
//! keeps each space's usage counter equal to the sizes of its live records.

use crate::blobs::BlobStore;
use crate::content::content_key;
use crate::errors::{AppError, ErrorType};
use crate::files::{
    files_model, ids_model, parts_model, AccessOutcome, FileCatalog, SpaceFile, UploadPart,
};
use crate::ids::fresh_uuid;
use crate::model::{
    apply_upload_part, has_file, has_space, lemma_space_index_unique,
    lemma_sum_owned_zero, lemma_wf_apply_upload_part, lemma_wf_delete_file, lemma_wf_download,
    opt_view, owned_files, part_failure, space_at, space_index, spec_delete_file, spec_download,
    spec_upload, spec_upload_parts, upload_record, DeleteOutcome, DownloadOutcome, FileModel,
    PartFailure, PartModel, SpaceModel, StoreModel, UploadOutcome,
};
use crate::spaces::{CreateSpaceRequest, QuotaOutcome, Space, SpaceTable, UpdateSpaceRequest};
use crate::util::copy_opt_string;
use vstd::prelude::*;
use vstd::string::StringExecFns;

verus! {

/// What a successful download hands back: the payload and the transfer
/// metadata of the record it came from. (Streaming the payload out is the
/// caller's business.)
#[derive(Debug)]
pub struct Download {
    pub data: Vec<u8>,
    pub filename: String,
    pub mime_type: Option<String>,
}

/// The transfer-metadata line that asks a client to save a payload under its
/// original filename.
pub fn content_disposition(filename: &String) -> (r: String)
    ensures
        r@ == "attachment; filename=\""@ + filename@ + "\""@,
{
    let mut s = String::from_str("attachment; filename=\"");
    s.append(filename.as_str());
    s.append("\"");
    s
}

/// The store: one space table, one file catalog, one blob store.
#[derive(Debug)]
pub struct Store {
    pub spaces: SpaceTable,
    pub catalog: FileCatalog,
    pub blobs: BlobStore,
}

impl View for Store {
    type V = StoreModel;

    open spec fn view(&self) -> StoreModel {
        StoreModel { spaces: self.spaces@, files: self.catalog@, blobs: self.blobs@ }
    }
}

impl Store {
    /// The store invariant; see `model::wf`.
    pub open spec fn wf(&self) -> bool {
        crate::model::wf(self@)
    }

    /// An empty store.
    pub fn new() -> (r: Store)
        ensures
            r.wf(),
            r@.spaces.len() == 0,
            r@.files.len() == 0,
            r@.blobs.len() == 0,
    {
        let s = Store { spaces: SpaceTable::new(), catalog: FileCatalog::new(), blobs: BlobStore::new() };
        s
    }

    // -----------------------------------------------------------------
    // Spaces
    // -----------------------------------------------------------------

    /// Creates a space under a caller-supplied id, refusing an id that is
    /// already taken (as the persistence layer would).
    pub fn create_space_with_id(&mut self, req: CreateSpaceRequest, id: String, now: i64) -> (r:
        Result<Space, AppError>)
        requires
            old(self).wf(),
        ensures
            final(self).wf(),
            match r {
                Ok(s) => !has_space(old(self)@.spaces, id@) && s@ == (SpaceModel {
                    id: id@,
                    name: req.name@,
                    description: opt_view(req.description),
                    created_at: now as int,
                    updated_at: now as int,
                    is_public: match req.is_public {
                        Some(b) => b,
                        None => false,
                    },
                    access_code: opt_view(req.access_code),
                    total_size_used_bytes: 0nat,
                }) && final(self)@.spaces == old(self)@.spaces.push(s@) && final(self)@.files == old(self)@.files && final(self)@.blobs == old(self)@.blobs,
                Err(e) => has_space(old(self)@.spaces, id@) && e.error_type is Database && final(self)@ == old(self)@,
            },
    {
        if self.spaces.contains(&id) {
            return Err(
                AppError::new(
                    ErrorType::Database(String::from_str("A space with this id already exists")),
                    String::from_str("id column must be unique"),
                ),
            );
        }
        let row = Space {
            id,
            name: req.name,
            description: req.description,
            created_at: now,
            updated_at: now,
            is_public: match req.is_public {
                Some(b) => b,
                None => false,
            },
            access_code: req.access_code,
            total_size_used_bytes: 0,
        };
        let result = row.duplicate();
        let ghost pre = self@;
        let ghost rowm = row@;
        self.spaces.insert(row);
        proof {
            assert(self@.files == pre.files && self@.blobs == pre.blobs);
            assert(self@.spaces == pre.spaces.push(rowm));
            // No record can already belong to the fresh space: every record
            // belongs to a space that exists, and this id named none.
            assert forall|x: int| 0 <= x < pre.files.len() implies (#[trigger] pre.files[x].space_id)
                != rowm.id by {
                if pre.files[x].space_id == rowm.id {
                    assert(has_space(pre.spaces, rowm.id));
                }
            }
            lemma_sum_owned_zero(pre.files, rowm.id);
            assert forall|x: int| 0 <= x < self@.files.len() implies has_space(
                self@.spaces,
                #[trigger] self@.files[x].space_id,
            ) by {
                let w = choose|w: int|
                    0 <= w < pre.spaces.len() && pre.spaces[w].id == pre.files[x].space_id;
                assert(self@.spaces[w].id == pre.files[x].space_id);
            }
        }
        Ok(result)
    }

    /// Creates a space under a freshly generated id.
    pub fn create_space(&mut self, req: CreateSpaceRequest, now: i64) -> (r: Result<
        Space,
        AppError,
    >)
        requires
            old(self).wf(),
        ensures
            final(self).wf(),
            match r {
                Ok(s) => !has_space(old(self)@.spaces, s@.id) && s@ == (SpaceModel {
                    id: s@.id,
                    name: req.name@,
                    description: opt_view(req.description),
                    created_at: now as int,
                    updated_at: now as int,
                    is_public: match req.is_public {
                        Some(b) => b,
                        None => false,
                    },
                    access_code: opt_view(req.access_code),
                    total_size_used_bytes: 0nat,
                }) && s@.id.len() == 36 && final(self)@.spaces == old(self)@.spaces.push(s@) && final(self)@.files == old(self)@.files && final(self)@.blobs == old(self)@.blobs,
                Err(e) => e.error_type is Database && final(self)@ == old(self)@ && (exists|
                    id: Seq<char>,
                |
                    #![trigger has_space(old(self)@.spaces, id)]
                    id.len() == 36 && has_space(old(self)@.spaces, id)),
            },
    {
        let id = fresh_uuid();
        self.create_space_with_id(req, id, now)
    }

    /// All spaces, newest creation first: the listing holds exactly the
    /// live spaces, reordered by creation time descending.
    pub fn list_spaces(&self) -> (r: Vec<Space>)
        ensures
            crate::spaces::spaces_model(r@).to_multiset() == self@.spaces.to_multiset(),
            crate::model::sorted_newest_first(crate::spaces::spaces_model(r@)),
    {
        self.spaces.list()
    }

    /// The space with this id, if any.
    pub fn get_space(&self, space_id: &String) -> (r: Option<Space>)
        requires
            self.wf(),
        ensures
            match r {
                Some(s) => has_space(self@.spaces, space_id@) && s@ == space_at(
                    self@.spaces,
                    space_id@,
                ),
                None => !has_space(self@.spaces, space_id@),
            },
    {
        self.spaces.get(space_id)
    }

    /// Updates a space: the name is always replaced, the optional fields
    /// only where the request supplies a value; the id, the timestamps and
    /// the usage counter stay.
    pub fn update_space(&mut self, space_id: &String, req: UpdateSpaceRequest) -> (r: Result<
        Space,
        AppError,
    >)
        requires
            old(self).wf(),
        ensures
            final(self).wf(),
            match r {
                Ok(s) => has_space(old(self)@.spaces, space_id@) && ({
                    let i = space_index(old(self)@.spaces, space_id@);
                    let before = old(self)@.spaces[i];
                    s@ == (SpaceModel {
                        name: req.name@,
                        description: match req.description {
                            Some(_) => opt_view(req.description),
                            None => before.description,
                        },
                        is_public: match req.is_public {
                            Some(b) => b,
                            None => before.is_public,
                        },
                        access_code: match req.access_code {
                            Some(_) => opt_view(req.access_code),
                            None => before.access_code,
                        },
                        ..before
                    }) && final(self)@.spaces == old(self)@.spaces.update(i, s@) && final(self)@.files == old(self)@.files && final(self)@.blobs == old(self)@.blobs
                }),
                Err(e) => !has_space(old(self)@.spaces, space_id@) && e.error_type is NotFound
                    && final(self)@ == old(self)@,
            },
    {
        let i = match self.spaces.find(space_id) {
            Some(i) => i,
            None => {
                return Err(
                    AppError::new(
                        ErrorType::NotFound(String::from_str("Space not found")),
                        String::from_str("Couldn't find requested Space"),
                    ),
                );
            },
        };
        proof {
            lemma_space_index_unique(self@.spaces, space_id@, i as int);
        }
        let row = &self.spaces.rows[i];
        let updated = Space {
            id: row.id.clone(),
            name: req.name,
            description: match req.description {
                Some(d) => Some(d),
                None => copy_opt_string(&row.description),
            },
            created_at: row.created_at,
            updated_at: row.updated_at,
            is_public: match req.is_public {
                Some(b) => b,
                None => row.is_public,
            },
            access_code: match req.access_code {
                Some(c) => Some(c),
                None => copy_opt_string(&row.access_code),
            },
            total_size_used_bytes: row.total_size_used_bytes,
        };
        let result = updated.duplicate();
        let ghost pre = self@;
        let ghost newm = updated@;
        self.spaces.replace(i, updated);
        proof {
            assert(self@.spaces == pre.spaces.update(i as int, newm));
            assert(forall|x: int|
                0 <= x < self@.spaces.len() ==> (#[trigger] self@.spaces[x].id) == pre.spaces[x].id
                    && self@.spaces[x].total_size_used_bytes == pre.spaces[x].total_size_used_bytes);
            assert forall|x: int| 0 <= x < self@.files.len() implies has_space(
                self@.spaces,
                #[trigger] self@.files[x].space_id,
            ) by {
                let w = choose|w: int|
                    0 <= w < pre.spaces.len() && pre.spaces[w].id == pre.files[x].space_id;
                assert(self@.spaces[w].id == pre.files[x].space_id);
            }
        }
        Ok(result)
    }

    /// Deletes a space. A missing id is reported as an absent value, not an
    /// error; a space that still owns records is refused, as the
    /// persistence layer's referential check would.
    pub fn delete_space(&mut self, space_id: &String) -> (r: Result<Option<Space>, AppError>)
        requires
            old(self).wf(),
        ensures
            final(self).wf(),
            match r {
                Ok(opt) => match opt {
                    Some(s) => has_space(old(self)@.spaces, space_id@) && (forall|x: int|
                        0 <= x < old(self)@.files.len() ==> (#[trigger] old(self)@.files[x].space_id) != space_id@) && s@ == space_at(
                        old(self)@.spaces,
                        space_id@,
                    ) && final(self)@.spaces == old(self)@.spaces.remove(
                        space_index(old(self)@.spaces, space_id@),
                    ) && final(self)@.files == old(self)@.files && final(self)@.blobs == old(self)@.blobs,
                    None => !has_space(old(self)@.spaces, space_id@) && final(self)@ == old(self)@,
                },
                Err(e) => has_space(old(self)@.spaces, space_id@) && (exists|x: int|
                    0 <= x < old(self)@.files.len() && (#[trigger] old(self)@.files[x].space_id)
                        == space_id@) && e.error_type is Database && final(self)@ == old(self)@,
            },
    {
        let i = match self.spaces.find(space_id) {
            Some(i) => i,
            None => {
                return Ok(None);
            },
        };
        proof {
            lemma_space_index_unique(self@.spaces, space_id@, i as int);
        }
        if self.catalog.owns_any(space_id) {
            return Err(
                AppError::new(
                    ErrorType::Database(String::from_str("Space still owns files")),
                    String::from_str("files reference the space that was to be removed"),
                ),
            );
        }
        let ghost pre = self@;
        let s = self.spaces.take_at(i);
        proof {
            assert(self@.files == pre.files && self@.blobs == pre.blobs);
            assert(self@.spaces == pre.spaces.remove(i as int));
            assert(forall|x: int| 0 <= x < i ==> self@.spaces[x] == #[trigger] pre.spaces[x]);
            assert(forall|x: int|
                i <= x < self@.spaces.len() ==> self@.spaces[x] == #[trigger] pre.spaces[x + 1]);
            assert(crate::model::spaces_unique(self@.spaces)) by {
                assert forall|x: int, y: int| 0 <= x < y < self@.spaces.len() implies self@.spaces[x].id
                    != self@.spaces[y].id by {
                    let x0 = if x < i { x } else { x + 1 };
                    let y0 = if y < i { y } else { y + 1 };
                    assert(pre.spaces[x0].id != pre.spaces[y0].id);
                }
            }
            assert forall|x: int| 0 <= x < self@.files.len() implies has_space(
                self@.spaces,
                #[trigger] self@.files[x].space_id,
            ) by {
                let w = choose|w: int|
                    0 <= w < pre.spaces.len() && pre.spaces[w].id == pre.files[x].space_id;
                assert(pre.files[x].space_id != space_id@);
                assert(w != i);
                if w < i {
                    assert(self@.spaces[w].id == pre.files[x].space_id);
                } else {
                    assert(self@.spaces[w - 1].id == pre.files[x].space_id);
                }
            }
            assert forall|k: int| 0 <= k < self@.spaces.len() implies #[trigger] self@.spaces[k].total_size_used_bytes
                == crate::model::sum_owned(self@.files, self@.spaces[k].id) by {
                let k0 = if k < i { k } else { k + 1 };
                assert(self@.spaces[k] == pre.spaces[k0]);
            }
        }
        Ok(Some(s))
    }

    // -----------------------------------------------------------------
    // Files
    // -----------------------------------------------------------------

    /// All records owned by a space, in catalog order.
    pub fn list_files(&self, space_id: &String) -> (r: Vec<SpaceFile>)
        ensures
            files_model(r@) == owned_files(self@.files, space_id@),
    {
        self.catalog.list_by_owner(space_id)
    }

    /// Resolves a record, opens its blob, records the access (download
    /// counter up by one, last access set to `now`), and hands back the
    /// payload with the record's transfer metadata.
    pub fn download(&mut self, file_id: &String, now: i64) -> (r: Result<Download, AppError>)
        requires
            old(self).wf(),
        ensures
            final(self).wf(),
            ({
                let step = spec_download(old(self)@, file_id@, now as int);
                final(self)@ == step.0 && (match r {
                    Ok(d) => step.1 == DownloadOutcome::Fetched(
                        d.data@,
                        d.filename@,
                        opt_view(d.mime_type),
                    ),
                    Err(e) => (step.1 is FileMissing && e.error_type is NotFound) || (
                    step.1 is BlobMissing && e.error_type is Internal) || (
                    step.1 is CounterStuck && e.error_type is Database),
                })
            }),
    {
        let meta = match self.catalog.get_by_id(file_id) {
            Some(f) => f,
            None => {
                return Err(
                    AppError::new(
                        ErrorType::NotFound(String::from_str("File not found")),
                        String::from_str("Requested file not stored in database"),
                    ),
                );
            },
        };
        let data = match self.blobs.open_read(&meta.checksum) {
            Some(d) => d,
            None => {
                return Err(
                    AppError::new(
                        ErrorType::Internal(String::from_str("Stored content is missing")),
                        String::from_str("catalog and blob store have desynchronized"),
                    ),
                );
            },
        };
        match self.catalog.record_access(file_id, now) {
            AccessOutcome::Recorded(_updated) => {
                proof {
                    lemma_wf_download(old(self)@, file_id@, now as int);
                    assert(self@ =~= spec_download(old(self)@, file_id@, now as int).0);
                }
                Ok(Download { data, filename: meta.original_filename, mime_type: meta.mime_type })
            },
            AccessOutcome::Missing => vstd::pervasive::unreached(),
            AccessOutcome::CounterStuck => {
                Err(
                    AppError::new(
                        ErrorType::Database(String::from_str("Download counter cannot grow")),
                        String::from_str("download_count is at its maximum"),
                    ),
                )
            },
        }
    }

    /// Uploads a sequence of parts into the space `space_id`, the record ids
    /// supplied by the caller. The space must exist before anything is
    /// touched. Then, for each part in order: a part without a filename is
    /// refused as malformed, a taken record id and a size the space's
    /// counter cannot hold are refused as the persistence layer would;
    /// otherwise the payload is stored unless its content key is already
    /// present, one catalog record citing that key is inserted either way,
    /// and the space's usage rises by the part's size. Parts before a
    /// refused one stay applied: a failed request does not roll back.
    pub fn upload_with_ids(
        &mut self,
        space_id: &String,
        parts: Vec<UploadPart>,
        ids: &Vec<String>,
        now: i64,
    ) -> (r: Result<Vec<SpaceFile>, AppError>)
        requires
            old(self).wf(),
            ids@.len() == parts@.len(),
        ensures
            final(self).wf(),
            ({
                let step = spec_upload(
                    old(self)@,
                    space_id@,
                    parts_model(parts@),
                    ids_model(ids@),
                    now as int,
                );
                final(self)@ == step.0 && (match r {
                    Ok(recs) => step.1 == UploadOutcome::Created(files_model(recs@)),
                    Err(e) => (step.1 is SpaceMissing && e.error_type is NotFound) || (
                    step.1 is PartUnnamed && e.error_type is Validation) || (step.1 is Rejected
                        && e.error_type is Database),
                })
            }),
    {
        let ghost m0 = self@;
        let ghost pseq = parts_model(parts@);
        let ghost iseq = ids_model(ids@);

        if !self.spaces.contains(space_id) {
            return Err(
                AppError::new(
                    ErrorType::NotFound(String::from_str("Space not found")),
                    String::from_str("Couldn't find requested Space"),
                ),
            );
        }

        let mut remaining = parts;
        let mut created: Vec<SpaceFile> = Vec::new();
        let mut k: usize = 0;
        let n_parts = remaining.len();
        proof {
            assert(pseq.len() == n_parts);
            assert(pseq.skip(0) =~= pseq);
            assert(iseq.skip(0) =~= iseq);
            assert(files_model(created@) =~= Seq::<FileModel>::empty());
            let full = spec_upload_parts(m0, space_id@, pseq, iseq, now as int);
            match full.1 {
                UploadOutcome::Created(recs) => {
                    assert(files_model(created@) + recs =~= recs);
                },
                _ => {},
            }
        }
        while remaining.len() > 0
            invariant
                self.wf(),
                has_space(self@.spaces, space_id@),
                m0 == old(self)@,
                has_space(m0.spaces, space_id@),
                pseq == parts_model(parts@),
                iseq == ids_model(ids@),
                pseq.len() == iseq.len(),
                ids@.len() == pseq.len(),
                pseq.len() <= usize::MAX,
                k + remaining@.len() == pseq.len(),
                parts_model(remaining@) == pseq.skip(k as int),
                ({
                    let full = spec_upload_parts(m0, space_id@, pseq, iseq, now as int);
                    let rest = spec_upload_parts(
                        self@,
                        space_id@,
                        pseq.skip(k as int),
                        iseq.skip(k as int),
                        now as int,
                    );
                    full.0 == rest.0 && full.1 == (match rest.1 {
                        UploadOutcome::Created(recs) => UploadOutcome::Created(
                            files_model(created@) + recs,
                        ),
                        other => other,
                    })
                }),
            decreases remaining@.len(),
    {
            let ghost m_pre = self@;
            let ghost rem0 = remaining@;
            let part = remaining.remove(0);
            let ghost pm = part@;
            let ghost idm = iseq[k as int];
            proof {
                assert(pm == parts_model(rem0)[0]);
                assert(pm == pseq.skip(k as int)[0]);
                assert(pseq.skip(k as int)[0] == pseq[k as int]);
                assert(remaining@ =~= rem0.drop_first());
                assert(parts_model(remaining@) =~= pseq.skip(k as int).drop_first());
                assert(pseq.skip(k as int).drop_first() =~= pseq.skip(k as int + 1));
                assert(iseq.skip(k as int)[0] == iseq[k as int]);
                assert(iseq.skip(k as int).drop_first() =~= iseq.skip(k as int + 1));
            }
            let UploadPart { filename, mime_type, data } = part;
            let name = match filename {
                Some(n) => n,
                None => {
                    proof {
                        assert(part_failure(m_pre, space_id@, pm, idm) == Some(
                            PartFailure::Unnamed,
                        ));
                    }
                    return Err(
                        AppError::new(
                            ErrorType::Validation(
                                String::from_str("Upload part declares no filename"),
                            ),
                            String::from_str("a multipart field arrived without a filename"),
                        ),
                    );
                },
            };
            if self.catalog.contains(&ids[k]) {
                proof {
                    assert(has_file(m_pre.files, idm));
                    assert(part_failure(m_pre, space_id@, pm, idm) == Some(PartFailure::Rejected));
                }
                return Err(
                    AppError::new(
                        ErrorType::Database(String::from_str("Record id already taken")),
                        String::from_str("id column must be unique"),
                    ),
                );
            }
            let size = data.len() as u64;
            let checksum = content_key(&data);
            match self.spaces.increase(space_id, size) {
                QuotaOutcome::Applied => {},
                QuotaOutcome::Overflow => {
                    proof {
                        assert(part_failure(m_pre, space_id@, pm, idm) == Some(
                            PartFailure::Rejected,
                        ));
                    }
                    return Err(
                        AppError::new(
                            ErrorType::Database(
                                String::from_str("Space usage counter cannot hold the new total"),
                            ),
                            String::from_str("total_size_used_bytes would overflow"),
                        ),
                    );
                },
                QuotaOutcome::Missing => {
                    return vstd::pervasive::unreached();
                },
            }
            let rec_checksum = checksum.clone();
            let _outcome = self.blobs.write_if_absent(checksum, data);
            let rec = SpaceFile {
                id: ids[k].clone(),
                space_id: space_id.clone(),
                original_filename: name,
                file_size_bytes: size,
                mime_type,
                upload_date: now,
                last_accessed: None,
                download_count: 0,
                checksum: rec_checksum,
            };
            let copy = rec.duplicate();
            let ghost recm = rec@;
            self.catalog.insert(rec);
            let ghost created_pre = files_model(created@);
            created.push(copy);
            proof {
                assert(part_failure(m_pre, space_id@, pm, idm) is None);
                assert(recm =~= upload_record(space_id@, pm, idm, now as int));
                assert(self@ =~= apply_upload_part(m_pre, space_id@, pm, idm, now as int));
                lemma_wf_apply_upload_part(m_pre, space_id@, pm, idm, now as int);
                assert(files_model(created@) =~= created_pre.push(recm));
                let w = choose|w: int|
                    0 <= w < m_pre.spaces.len() && m_pre.spaces[w].id == space_id@;
                assert(self@.spaces[w].id == space_id@);
                let rest_post = spec_upload_parts(
                    self@,
                    space_id@,
                    pseq.skip(k as int + 1),
                    iseq.skip(k as int + 1),
                    now as int,
                );
                match rest_post.1 {
                    UploadOutcome::Created(recs) => {
                        assert(files_model(created@) + recs =~= created_pre + (seq![recm] + recs));
                    },
                    _ => {},
                }
            }
            k += 1;
        }
        proof {
            assert(pseq.skip(pseq.len() as int) =~= Seq::<PartModel>::empty());
            assert(iseq.skip(iseq.len() as int) =~= Seq::<Seq<char>>::empty());
            assert(files_model(created@) + Seq::<FileModel>::empty() =~= files_model(created@));
        }
        Ok(created)
    }

    /// Uploads a sequence of parts into the space `space_id`, assigning each
    /// record a freshly generated id. Everything except the drawn id values
    /// is as in `upload_with_ids`.
    pub fn upload(&mut self, space_id: &String, parts: Vec<UploadPart>, now: i64) -> (r: Result<
        Vec<SpaceFile>,
        AppError,
    >)
        requires
            old(self).wf(),
        ensures
            final(self).wf(),
            exists|ids: Seq<Seq<char>>|
                #![trigger spec_upload(old(self)@, space_id@, parts_model(parts@), ids, now as int)]
                ids.len() == parts@.len() && (forall|i: int|
                    0 <= i < ids.len() ==> (#[trigger] ids[i]).len() == 36) && ({
                    let step = spec_upload(
                        old(self)@,
                        space_id@,
                        parts_model(parts@),
                        ids,
                        now as int,
                    );
                    final(self)@ == step.0 && (match r {
                        Ok(recs) => step.1 == UploadOutcome::Created(files_model(recs@)),
                        Err(e) => (step.1 is SpaceMissing && e.error_type is NotFound) || (
                        step.1 is PartUnnamed && e.error_type is Validation) || (
                        step.1 is Rejected && e.error_type is Database),
                    })
                }),
    {
        let mut ids: Vec<String> = Vec::new();
        while ids.len() < parts.len()
            invariant
                ids@.len() <= parts@.len(),
                forall|j: int| 0 <= j < ids@.len() ==> (#[trigger] ids@[j])@.len() == 36,
            decreases parts@.len() - ids@.len(),
        {
            ids.push(fresh_uuid());
        }
        let r = self.upload_with_ids(space_id, parts, &ids, now);
        proof {
            assert(ids_model(ids@).len() == parts@.len());
            assert(forall|i: int|
                0 <= i < ids_model(ids@).len() ==> (#[trigger] ids_model(ids@)[i]).len() == 36);
        }
        r
    }

    /// Removes a record, lowers the owning space's usage by its declared
    /// size, and reclaims the blob exactly when no remaining record cites
    /// its key.
    pub fn delete_file(&mut self, file_id: &String) -> (r: Result<SpaceFile, AppError>)
        requires
            old(self).wf(),
        ensures
            final(self).wf(),
            ({
                let step = spec_delete_file(old(self)@, file_id@);
                final(self)@ == step.0 && (match r {
                    Ok(f) => step.1 == DeleteOutcome::Removed(f@),
                    Err(e) => step.1 is FileMissing && e.error_type is NotFound,
                })
            }),
    {
        let rec = match self.catalog.delete_by_id(file_id) {
            Some(f) => f,
            None => {
                return Err(
                    AppError::new(
                        ErrorType::NotFound(String::from_str("File not found")),
                        String::from_str("Requested file not stored in database"),
                    ),
                );
            },
        };
        self.spaces.decrease(&rec.space_id, rec.file_size_bytes);
        let remaining = self.catalog.count_by_content_key(&rec.checksum);
        if remaining == 0 {
            let _had = self.blobs.delete(&rec.checksum);
        }
        proof {
            lemma_wf_delete_file(old(self)@, file_id@);
            assert(self@ =~= spec_delete_file(old(self)@, file_id@).0);
        }
        Ok(rec)
    }
}

} // verus!
