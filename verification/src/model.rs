//! The mathematical model of the store: abstract states for spaces, catalog
//! records and blobs, the well-formedness invariant that ties them together,
//! and the transition functions that say exactly what an upload, a download
//! and a deletion do to a state.

use crate::content::key_of;
use vstd::prelude::*;

verus! {

/// Abstract state of one space: a logical container for uploads, with the
/// running total of bytes attributed to it.
#[verifier::ext_equal]
pub struct SpaceModel {
    pub id: Seq<char>,
    pub name: Seq<char>,
    pub description: Option<Seq<char>>,
    pub created_at: int,
    pub updated_at: int,
    pub is_public: bool,
    pub access_code: Option<Seq<char>>,
    pub total_size_used_bytes: nat,
}

/// Abstract state of one catalog record: the metadata of one logical upload,
/// citing the blob that holds its bytes through `checksum`.
#[verifier::ext_equal]
pub struct FileModel {
    pub id: Seq<char>,
    pub space_id: Seq<char>,
    pub original_filename: Seq<char>,
    pub file_size_bytes: nat,
    pub mime_type: Option<Seq<char>>,
    pub upload_date: int,
    pub last_accessed: Option<int>,
    pub download_count: nat,
    pub checksum: Seq<char>,
}

/// Abstract state of one stored blob: a byte payload addressed by its
/// content key.
#[verifier::ext_equal]
pub struct BlobModel {
    pub key: Seq<char>,
    pub data: Seq<u8>,
}

/// Abstract form of one upload part: the fields a multipart upload supplies.
#[verifier::ext_equal]
pub struct PartModel {
    pub filename: Option<Seq<char>>,
    pub mime_type: Option<Seq<char>>,
    pub data: Seq<u8>,
}

/// Abstract state of the whole store.
#[verifier::ext_equal]
pub struct StoreModel {
    pub spaces: Seq<SpaceModel>,
    pub files: Seq<FileModel>,
    pub blobs: Seq<BlobModel>,
}

/// The view of an optional string.
pub open spec fn opt_view(o: Option<String>) -> Option<Seq<char>> {
    match o {
        Some(s) => Some(s@),
        None => None,
    }
}

/// The view of an optional timestamp.
pub open spec fn opt_int_view(o: Option<i64>) -> Option<int> {
    match o {
        Some(t) => Some(t as int),
        None => None,
    }
}

// ---------------------------------------------------------------------------
// Lookups
// ---------------------------------------------------------------------------

pub open spec fn has_space(spaces: Seq<SpaceModel>, id: Seq<char>) -> bool {
    exists|i: int| 0 <= i < spaces.len() && spaces[i].id == id
}

pub open spec fn space_index(spaces: Seq<SpaceModel>, id: Seq<char>) -> int {
    choose|i: int| 0 <= i < spaces.len() && spaces[i].id == id
}

pub open spec fn space_at(spaces: Seq<SpaceModel>, id: Seq<char>) -> SpaceModel {
    spaces[space_index(spaces, id)]
}

pub open spec fn has_file(files: Seq<FileModel>, id: Seq<char>) -> bool {
    exists|i: int| 0 <= i < files.len() && files[i].id == id
}

pub open spec fn file_index(files: Seq<FileModel>, id: Seq<char>) -> int {
    choose|i: int| 0 <= i < files.len() && files[i].id == id
}

pub open spec fn file_at(files: Seq<FileModel>, id: Seq<char>) -> FileModel {
    files[file_index(files, id)]
}

pub open spec fn has_blob(blobs: Seq<BlobModel>, key: Seq<char>) -> bool {
    exists|i: int| 0 <= i < blobs.len() && blobs[i].key == key
}

pub open spec fn blob_index(blobs: Seq<BlobModel>, key: Seq<char>) -> int {
    choose|i: int| 0 <= i < blobs.len() && blobs[i].key == key
}

/// The payload stored under `key`.
pub open spec fn blob_at(blobs: Seq<BlobModel>, key: Seq<char>) -> Seq<u8> {
    blobs[blob_index(blobs, key)].data
}

/// How many live catalog records cite the content key `key`.
pub open spec fn cite_count(files: Seq<FileModel>, key: Seq<char>) -> nat
    decreases files.len(),
{
    if files.len() == 0 {
        0
    } else {
        cite_count(files.drop_last(), key) + if files.last().checksum == key {
            1nat
        } else {
            0nat
        }
    }
}

/// The sum of the declared sizes of the records owned by space `id`.
pub open spec fn sum_owned(files: Seq<FileModel>, id: Seq<char>) -> nat
    decreases files.len(),
{
    if files.len() == 0 {
        0
    } else {
        sum_owned(files.drop_last(), id) + if files.last().space_id == id {
            files.last().file_size_bytes
        } else {
            0nat
        }
    }
}

/// The records owned by space `id`, in catalog order.
pub open spec fn owned_files(files: Seq<FileModel>, id: Seq<char>) -> Seq<FileModel>
    decreases files.len(),
{
    if files.len() == 0 {
        Seq::empty()
    } else {
        owned_files(files.drop_last(), id) + if files.last().space_id == id {
            seq![files.last()]
        } else {
            Seq::empty()
        }
    }
}

/// Whether the spaces are ordered by creation time, newest first.
pub open spec fn sorted_newest_first(spaces: Seq<SpaceModel>) -> bool {
    forall|i: int, j: int|
        0 <= i < j < spaces.len() ==> spaces[i].created_at >= spaces[j].created_at
}

// ---------------------------------------------------------------------------
// Well-formedness
// ---------------------------------------------------------------------------

pub open spec fn spaces_unique(spaces: Seq<SpaceModel>) -> bool {
    forall|i: int, j: int| 0 <= i < j < spaces.len() ==> spaces[i].id != spaces[j].id
}

pub open spec fn files_unique(files: Seq<FileModel>) -> bool {
    forall|i: int, j: int| 0 <= i < j < files.len() ==> files[i].id != files[j].id
}

pub open spec fn blobs_unique(blobs: Seq<BlobModel>) -> bool {
    forall|i: int, j: int| 0 <= i < j < blobs.len() ==> blobs[i].key != blobs[j].key
}

/// Every blob sits under the content key derived from its own bytes.
pub open spec fn blobs_keyed(blobs: Seq<BlobModel>) -> bool {
    forall|i: int| 0 <= i < blobs.len() ==> #[trigger] blobs[i].key == key_of(blobs[i].data)
}

/// Every record belongs to a space that exists.
pub open spec fn files_owned(m: StoreModel) -> bool {
    forall|i: int|
        0 <= i < m.files.len() ==> has_space(m.spaces, #[trigger] m.files[i].space_id)
}

/// Every record cites a blob that exists. (The record's declared size is the
/// length of the payload that produced its key at upload time; whether that
/// payload is byte-identical to the stored blob rests on the dedup-by-hash
/// trade-off: equal keys are trusted to mean equal content.)
pub open spec fn files_backed(m: StoreModel) -> bool {
    forall|i: int| 0 <= i < m.files.len() ==> has_blob(m.blobs, #[trigger] m.files[i].checksum)
}

/// Every blob is cited by at least one live record: no orphaned blobs.
pub open spec fn blobs_cited(m: StoreModel) -> bool {
    forall|j: int| 0 <= j < m.blobs.len() ==> cite_count(m.files, #[trigger] m.blobs[j].key) > 0
}

/// Every space's usage counter equals the sum of the sizes of its live
/// records.
pub open spec fn quota_consistent(m: StoreModel) -> bool {
    forall|k: int|
        0 <= k < m.spaces.len() ==> #[trigger] m.spaces[k].total_size_used_bytes == sum_owned(
            m.files,
            m.spaces[k].id,
        )
}

/// The store invariant: identifiers and content keys are unique, the catalog
/// and the blob store cite each other exactly (no dangling references, no
/// orphaned blobs), blobs sit under the key of their own content, and each
/// space's usage counter matches its live records.
pub open spec fn wf(m: StoreModel) -> bool {
    &&& spaces_unique(m.spaces)
    &&& files_unique(m.files)
    &&& blobs_unique(m.blobs)
    &&& blobs_keyed(m.blobs)
    &&& files_owned(m)
    &&& files_backed(m)
    &&& blobs_cited(m)
    &&& quota_consistent(m)
}

// ---------------------------------------------------------------------------
// Transitions
// ---------------------------------------------------------------------------

/// Every space called `id` with its usage raised by `delta`.
pub open spec fn bump_usage(spaces: Seq<SpaceModel>, id: Seq<char>, delta: nat) -> Seq<SpaceModel> {
    Seq::new(
        spaces.len(),
        |i: int|
            if spaces[i].id == id {
                SpaceModel { total_size_used_bytes: spaces[i].total_size_used_bytes + delta, ..spaces[i] }
            } else {
                spaces[i]
            },
    )
}

/// Every space called `id` with its usage lowered by `delta`, clamped at
/// zero so that drift can never drive the counter negative.
pub open spec fn drop_usage(spaces: Seq<SpaceModel>, id: Seq<char>, delta: nat) -> Seq<SpaceModel> {
    Seq::new(
        spaces.len(),
        |i: int|
            if spaces[i].id == id {
                SpaceModel {
                    total_size_used_bytes: if spaces[i].total_size_used_bytes >= delta {
                        (spaces[i].total_size_used_bytes - delta) as nat
                    } else {
                        0nat
                    },
                    ..spaces[i]
                }
            } else {
                spaces[i]
            },
    )
}

/// The blob store without the blob stored under `key` (unchanged when no
/// such blob exists).
pub open spec fn remove_blob(blobs: Seq<BlobModel>, key: Seq<char>) -> Seq<BlobModel> {
    if has_blob(blobs, key) {
        blobs.remove(blob_index(blobs, key))
    } else {
        blobs
    }
}

/// The catalog record created for one accepted upload part.
pub open spec fn upload_record(
    space_id: Seq<char>,
    p: PartModel,
    id: Seq<char>,
    now: int,
) -> FileModel {
    FileModel {
        id: id,
        space_id: space_id,
        original_filename: p.filename.unwrap(),
        file_size_bytes: p.data.len(),
        mime_type: p.mime_type,
        upload_date: now,
        last_accessed: None,
        download_count: 0,
        checksum: key_of(p.data),
    }
}

/// Why one upload part is refused, if it is.
pub enum PartFailure {
    /// The part is malformed: it declares no filename.
    Unnamed,
    /// The persistence layer refuses it: the identifier chosen for its
    /// record is already taken, or the space's usage counter cannot hold
    /// the new total.
    Rejected,
}

/// Whether the state `m` refuses the upload part `p` under record id `id`.
pub open spec fn part_failure(
    m: StoreModel,
    space_id: Seq<char>,
    p: PartModel,
    id: Seq<char>,
) -> Option<PartFailure> {
    if p.filename is None {
        Some(PartFailure::Unnamed)
    } else if has_file(m.files, id) {
        Some(PartFailure::Rejected)
    } else if space_at(m.spaces, space_id).total_size_used_bytes + p.data.len() > u64::MAX {
        Some(PartFailure::Rejected)
    } else {
        None
    }
}

/// The state after one accepted upload part: the blob is created unless its
/// key is already present, the catalog gains one record either way, and the
/// owning space's usage grows by the part's size.
pub open spec fn apply_upload_part(
    m: StoreModel,
    space_id: Seq<char>,
    p: PartModel,
    id: Seq<char>,
    now: int,
) -> StoreModel {
    StoreModel {
        spaces: bump_usage(m.spaces, space_id, p.data.len()),
        files: m.files.push(upload_record(space_id, p, id, now)),
        blobs: if has_blob(m.blobs, key_of(p.data)) {
            m.blobs
        } else {
            m.blobs.push(BlobModel { key: key_of(p.data), data: p.data })
        },
    }
}

/// How an upload request ends.
pub enum UploadOutcome {
    /// Every part was accepted; one record was created per part, in order.
    Created(Seq<FileModel>),
    /// The target space does not exist; nothing was touched.
    SpaceMissing,
    /// A part declares no filename; parts before it were kept.
    PartUnnamed,
    /// A record id collided or a usage counter would overflow; parts before
    /// the failing one were kept.
    Rejected,
}

/// The state and outcome of running the upload parts in order against `m`,
/// stopping at the first refused part. Parts already applied stay applied:
/// a failure does not roll earlier parts back.
pub open spec fn spec_upload_parts(
    m: StoreModel,
    space_id: Seq<char>,
    parts: Seq<PartModel>,
    ids: Seq<Seq<char>>,
    now: int,
) -> (StoreModel, UploadOutcome)
    decreases parts.len(),
{
    if parts.len() == 0 {
        (m, UploadOutcome::Created(Seq::empty()))
    } else {
        match part_failure(m, space_id, parts[0], ids[0]) {
            Some(PartFailure::Unnamed) => (m, UploadOutcome::PartUnnamed),
            Some(PartFailure::Rejected) => (m, UploadOutcome::Rejected),
            None => {
                let applied = apply_upload_part(m, space_id, parts[0], ids[0], now);
                let rest = spec_upload_parts(
                    applied,
                    space_id,
                    parts.drop_first(),
                    ids.drop_first(),
                    now,
                );
                match rest.1 {
                    UploadOutcome::Created(recs) => (
                        rest.0,
                        UploadOutcome::Created(
                            seq![upload_record(space_id, parts[0], ids[0], now)] + recs,
                        ),
                    ),
                    failure => (rest.0, failure),
                }
            },
        }
    }
}

/// The state and outcome of one whole upload request: the target space must
/// exist before anything is touched, then the parts run in order.
pub open spec fn spec_upload(
    m: StoreModel,
    space_id: Seq<char>,
    parts: Seq<PartModel>,
    ids: Seq<Seq<char>>,
    now: int,
) -> (StoreModel, UploadOutcome) {
    if !has_space(m.spaces, space_id) {
        (m, UploadOutcome::SpaceMissing)
    } else {
        spec_upload_parts(m, space_id, parts, ids, now)
    }
}

/// How a download request ends.
pub enum DownloadOutcome {
    /// The payload, the original filename, and the declared media type.
    Fetched(Seq<u8>, Seq<char>, Option<Seq<char>>),
    /// No record has the requested id; nothing was touched.
    FileMissing,
    /// The record cites a blob that does not exist: an integrity violation,
    /// impossible in a well-formed store.
    BlobMissing,
    /// The download counter cannot grow any further.
    CounterStuck,
}

/// The state and outcome of one download: resolve the record, resolve its
/// blob, then record the access (download counter up by one, last access
/// set to `now`).
pub open spec fn spec_download(m: StoreModel, file_id: Seq<char>, now: int) -> (
    StoreModel,
    DownloadOutcome,
) {
    if !has_file(m.files, file_id) {
        (m, DownloadOutcome::FileMissing)
    } else {
        let i = file_index(m.files, file_id);
        let f = m.files[i];
        if !has_blob(m.blobs, f.checksum) {
            (m, DownloadOutcome::BlobMissing)
        } else if f.download_count >= u64::MAX {
            (m, DownloadOutcome::CounterStuck)
        } else {
            let accessed = FileModel {
                download_count: f.download_count + 1,
                last_accessed: Some(now),
                ..f
            };
            (
                StoreModel { files: m.files.update(i, accessed), ..m },
                DownloadOutcome::Fetched(blob_at(m.blobs, f.checksum), f.original_filename, f.mime_type),
            )
        }
    }
}

/// How a deletion request ends.
pub enum DeleteOutcome {
    /// The removed record.
    Removed(FileModel),
    /// No record has the requested id; nothing was touched.
    FileMissing,
}

/// The state and outcome of one deletion: the record leaves the catalog, the
/// owning space's usage drops by the record's declared size, and the blob is
/// reclaimed exactly when no remaining record cites its key.
pub open spec fn spec_delete_file(m: StoreModel, file_id: Seq<char>) -> (
    StoreModel,
    DeleteOutcome,
) {
    if !has_file(m.files, file_id) {
        (m, DeleteOutcome::FileMissing)
    } else {
        let i = file_index(m.files, file_id);
        let f = m.files[i];
        let remaining = m.files.remove(i);
        (
            StoreModel {
                spaces: drop_usage(m.spaces, f.space_id, f.file_size_bytes),
                files: remaining,
                blobs: if cite_count(remaining, f.checksum) == 0 {
                    remove_blob(m.blobs, f.checksum)
                } else {
                    m.blobs
                },
            },
            DeleteOutcome::Removed(f),
        )
    }
}

// ---------------------------------------------------------------------------
// Facts about the counting functions
// ---------------------------------------------------------------------------

/// Appending a record raises `sum_owned` by its size when the space matches.
pub proof fn lemma_sum_owned_push(files: Seq<FileModel>, f: FileModel, id: Seq<char>)
    ensures
        sum_owned(files.push(f), id) == sum_owned(files, id) + if f.space_id == id {
            f.file_size_bytes
        } else {
            0nat
        },
{
    assert(files.push(f).drop_last() =~= files);
}

/// Appending a record raises `cite_count` by one when the key matches.
pub proof fn lemma_cite_count_push(files: Seq<FileModel>, f: FileModel, key: Seq<char>)
    ensures
        cite_count(files.push(f), key) == cite_count(files, key) + if f.checksum == key {
            1nat
        } else {
            0nat
        },
{
    assert(files.push(f).drop_last() =~= files);
}

/// Removing a record lowers `sum_owned` by its size when the space matches.
pub proof fn lemma_sum_owned_remove(files: Seq<FileModel>, i: int, id: Seq<char>)
    requires
        0 <= i < files.len(),
    ensures
        sum_owned(files, id) == sum_owned(files.remove(i), id) + if files[i].space_id == id {
            files[i].file_size_bytes
        } else {
            0nat
        },
    decreases files.len(),
{
    if i == files.len() - 1 {
        assert(files.remove(i) =~= files.drop_last());
    } else {
        assert(files.remove(i).drop_last() =~= files.drop_last().remove(i));
        assert(files.remove(i).last() == files.last());
        lemma_sum_owned_remove(files.drop_last(), i, id);
    }
}

/// Removing a record lowers `cite_count` by one when the key matches.
pub proof fn lemma_cite_count_remove(files: Seq<FileModel>, i: int, key: Seq<char>)
    requires
        0 <= i < files.len(),
    ensures
        cite_count(files, key) == cite_count(files.remove(i), key) + if files[i].checksum == key {
            1nat
        } else {
            0nat
        },
    decreases files.len(),
{
    if i == files.len() - 1 {
        assert(files.remove(i) =~= files.drop_last());
    } else {
        assert(files.remove(i).drop_last() =~= files.drop_last().remove(i));
        assert(files.remove(i).last() == files.last());
        lemma_cite_count_remove(files.drop_last(), i, key);
    }
}

/// Replacing a record with one of the same owner and size keeps `sum_owned`.
pub proof fn lemma_sum_owned_update(files: Seq<FileModel>, i: int, f: FileModel, id: Seq<char>)
    requires
        0 <= i < files.len(),
        f.space_id == files[i].space_id,
        f.file_size_bytes == files[i].file_size_bytes,
    ensures
        sum_owned(files.update(i, f), id) == sum_owned(files, id),
    decreases files.len(),
{
    if i == files.len() - 1 {
        assert(files.update(i, f).drop_last() =~= files.drop_last());
    } else {
        assert(files.update(i, f).drop_last() =~= files.drop_last().update(i, f));
        assert(files.update(i, f).last() == files.last());
        lemma_sum_owned_update(files.drop_last(), i, f, id);
    }
}

/// Replacing a record with one of the same key keeps `cite_count`.
pub proof fn lemma_cite_count_update(files: Seq<FileModel>, i: int, f: FileModel, key: Seq<char>)
    requires
        0 <= i < files.len(),
        f.checksum == files[i].checksum,
    ensures
        cite_count(files.update(i, f), key) == cite_count(files, key),
    decreases files.len(),
{
    if i == files.len() - 1 {
        assert(files.update(i, f).drop_last() =~= files.drop_last());
    } else {
        assert(files.update(i, f).drop_last() =~= files.drop_last().update(i, f));
        assert(files.update(i, f).last() == files.last());
        lemma_cite_count_update(files.drop_last(), i, f, key);
    }
}

/// A key is uncited exactly when no record carries it.
pub proof fn lemma_cite_count_zero(files: Seq<FileModel>, key: Seq<char>)
    ensures
        (cite_count(files, key) == 0) <==> (forall|i: int|
            0 <= i < files.len() ==> #[trigger] files[i].checksum != key),
    decreases files.len(),
{
    if files.len() > 0 {
        lemma_cite_count_zero(files.drop_last(), key);
        assert(forall|i: int|
            0 <= i < files.len() - 1 ==> files.drop_last()[i] == #[trigger] files[i]);
    }
}

/// A space that owns no record has an owned sum of zero.
pub proof fn lemma_sum_owned_zero(files: Seq<FileModel>, id: Seq<char>)
    requires
        forall|i: int| 0 <= i < files.len() ==> #[trigger] files[i].space_id != id,
    ensures
        sum_owned(files, id) == 0,
    decreases files.len(),
{
    if files.len() > 0 {
        assert(forall|i: int|
            0 <= i < files.len() - 1 ==> files.drop_last()[i] == #[trigger] files[i]);
        lemma_sum_owned_zero(files.drop_last(), id);
    }
}

// ---------------------------------------------------------------------------
// Unique lookups
// ---------------------------------------------------------------------------

/// In a catalog with unique ids, any index carrying `id` is the index that
/// `file_index` picks.
pub proof fn lemma_file_index_unique(files: Seq<FileModel>, id: Seq<char>, i: int)
    requires
        files_unique(files),
        0 <= i < files.len(),
        files[i].id == id,
    ensures
        has_file(files, id),
        file_index(files, id) == i,
{
    assert(has_file(files, id));
    let j = file_index(files, id);
    if i < j {
        assert(files[i].id != files[j].id);
    } else if j < i {
        assert(files[j].id != files[i].id);
    }
}

/// In a table with unique ids, any index carrying `id` is the index that
/// `space_index` picks.
pub proof fn lemma_space_index_unique(spaces: Seq<SpaceModel>, id: Seq<char>, i: int)
    requires
        spaces_unique(spaces),
        0 <= i < spaces.len(),
        spaces[i].id == id,
    ensures
        has_space(spaces, id),
        space_index(spaces, id) == i,
{
    assert(has_space(spaces, id));
    let j = space_index(spaces, id);
    if i < j {
        assert(spaces[i].id != spaces[j].id);
    } else if j < i {
        assert(spaces[j].id != spaces[i].id);
    }
}

/// In a blob store with unique keys, any index carrying `key` is the index
/// that `blob_index` picks.
pub proof fn lemma_blob_index_unique(blobs: Seq<BlobModel>, key: Seq<char>, i: int)
    requires
        blobs_unique(blobs),
        0 <= i < blobs.len(),
        blobs[i].key == key,
    ensures
        has_blob(blobs, key),
        blob_index(blobs, key) == i,
{
    assert(has_blob(blobs, key));
    let j = blob_index(blobs, key);
    if i < j {
        assert(blobs[i].key != blobs[j].key);
    } else if j < i {
        assert(blobs[j].key != blobs[i].key);
    }
}

// ---------------------------------------------------------------------------
// The invariant survives each transition
// ---------------------------------------------------------------------------

/// One accepted upload part keeps the store well-formed.
pub proof fn lemma_wf_apply_upload_part(
    m: StoreModel,
    space_id: Seq<char>,
    p: PartModel,
    id: Seq<char>,
    now: int,
)
    requires
        wf(m),
        has_space(m.spaces, space_id),
        part_failure(m, space_id, p, id) is None,
    ensures
        wf(apply_upload_part(m, space_id, p, id, now)),
{
    let m1 = apply_upload_part(m, space_id, p, id, now);
    let rec = upload_record(space_id, p, id, now);
    let key = key_of(p.data);

    assert(m1.spaces.len() == m.spaces.len());
    assert(forall|i: int| 0 <= i < m.spaces.len() ==> m1.spaces[i].id == #[trigger] m.spaces[i].id);

    // Record ids stay unique: the new id is taken by no existing record.
    assert(forall|i: int| 0 <= i < m.files.len() ==> (#[trigger] m.files[i].id) != id);

    // Every record still belongs to a live space.
    assert forall|i: int| 0 <= i < m1.files.len() implies has_space(
        m1.spaces,
        #[trigger] m1.files[i].space_id,
    ) by {
        if i < m.files.len() {
            let w = choose|w: int| 0 <= w < m.spaces.len() && m.spaces[w].id == m.files[i].space_id;
            assert(m1.spaces[w].id == m.files[i].space_id);
        } else {
            let w = choose|w: int| 0 <= w < m.spaces.len() && m.spaces[w].id == space_id;
            assert(m1.spaces[w].id == space_id);
        }
    }

    // Every record is still backed by a blob.
    assert forall|i: int| 0 <= i < m1.files.len() implies has_blob(
        m1.blobs,
        #[trigger] m1.files[i].checksum,
    ) by {
        if i < m.files.len() {
            let w = choose|w: int| 0 <= w < m.blobs.len() && m.blobs[w].key == m.files[i].checksum;
            assert(m1.blobs[w].key == m.files[i].checksum);
        } else {
            assert(m1.files[i].checksum == key);
            if has_blob(m.blobs, key) {
                let w = blob_index(m.blobs, key);
                assert(m1.blobs[w].key == key);
            } else {
                assert(m1.blobs[m1.blobs.len() - 1].key == key);
            }
        }
    }

    // Every blob is still cited.
    assert forall|j: int| 0 <= j < m1.blobs.len() implies cite_count(
        m1.files,
        #[trigger] m1.blobs[j].key,
    ) > 0 by {
        lemma_cite_count_push(m.files, rec, m1.blobs[j].key);
        if j < m.blobs.len() {
            assert(cite_count(m.files, m1.blobs[j].key) > 0);
        } else {
            assert(m1.blobs[j].key == key);
        }
    }

    // Each space's counter still matches its live records.
    assert forall|k: int| 0 <= k < m1.spaces.len() implies #[trigger] m1.spaces[k].total_size_used_bytes
        == sum_owned(m1.files, m1.spaces[k].id) by {
        lemma_sum_owned_push(m.files, rec, m.spaces[k].id);
    }
}

/// A recorded access keeps the store well-formed: only the download counter
/// and the last-access time of one record change.
pub proof fn lemma_wf_download(m: StoreModel, file_id: Seq<char>, now: int)
    requires
        wf(m),
    ensures
        wf(spec_download(m, file_id, now).0),
{
    let m1 = spec_download(m, file_id, now).0;
    if m1 != m {
        let i = file_index(m.files, file_id);
        let f = m.files[i];
        let accessed = FileModel { download_count: f.download_count + 1, last_accessed: Some(now), ..f };
        assert(m1.files == m.files.update(i, accessed));
        assert forall|j: int| 0 <= j < m1.blobs.len() implies cite_count(
            m1.files,
            #[trigger] m1.blobs[j].key,
        ) > 0 by {
            lemma_cite_count_update(m.files, i, accessed, m1.blobs[j].key);
        }
        assert forall|k: int| 0 <= k < m1.spaces.len() implies #[trigger] m1.spaces[k].total_size_used_bytes
            == sum_owned(m1.files, m1.spaces[k].id) by {
            lemma_sum_owned_update(m.files, i, accessed, m.spaces[k].id);
        }
        assert forall|x: int| 0 <= x < m1.files.len() implies has_space(
            m1.spaces,
            #[trigger] m1.files[x].space_id,
        ) by {
            assert(m1.files[x].space_id == m.files[x].space_id);
        }
        assert forall|x: int| 0 <= x < m1.files.len() implies has_blob(
            m1.blobs,
            #[trigger] m1.files[x].checksum,
        ) by {
            assert(m1.files[x].checksum == m.files[x].checksum);
        }
        assert(files_unique(m1.files)) by {
            assert(forall|x: int| 0 <= x < m1.files.len() ==> (#[trigger] m1.files[x].id) == m.files[x].id);
        }
    }
}

/// A deletion keeps the store well-formed, and because the counters were
/// consistent beforehand, the owner's usage drops by exactly the removed
/// record's size (the clamp at zero never engages).
pub proof fn lemma_wf_delete_file(m: StoreModel, file_id: Seq<char>)
    requires
        wf(m),
        has_file(m.files, file_id),
    ensures
        wf(spec_delete_file(m, file_id).0),
        ({
            let i = file_index(m.files, file_id);
            let f = m.files[i];
            let m1 = spec_delete_file(m, file_id).0;
            forall|k: int|
                0 <= k < m.spaces.len() && m.spaces[k].id == f.space_id
                    ==> (#[trigger] m1.spaces[k].total_size_used_bytes) == m.spaces[
                    k
                ].total_size_used_bytes - f.file_size_bytes
        }),
{
    let i = file_index(m.files, file_id);
    let f = m.files[i];
    let remaining = m.files.remove(i);
    let m1 = spec_delete_file(m, file_id).0;

    // Index bookkeeping for the shortened catalog.
    assert(forall|x: int| 0 <= x < i ==> remaining[x] == #[trigger] m.files[x]);
    assert(forall|x: int| i <= x < remaining.len() ==> remaining[x] == #[trigger] m.files[x + 1]);

    assert(files_unique(remaining)) by {
        assert forall|x: int, y: int| 0 <= x < y < remaining.len() implies remaining[x].id
            != remaining[y].id by {
            let x0 = if x < i { x } else { x + 1 };
            let y0 = if y < i { y } else { y + 1 };
            assert(m.files[x0].id != m.files[y0].id);
        }
    }

    // The owner's counter covers the removed record, so clamping is idle,
    // and every space's counter matches the shortened catalog.
    assert forall|k: int| 0 <= k < m1.spaces.len() implies #[trigger] m1.spaces[k].total_size_used_bytes
        == sum_owned(remaining, m1.spaces[k].id) by {
        lemma_sum_owned_remove(m.files, i, m.spaces[k].id);
    }

    // Every remaining record still belongs to a live space.
    assert forall|x: int| 0 <= x < remaining.len() implies has_space(
        m1.spaces,
        #[trigger] remaining[x].space_id,
    ) by {
        let x0 = if x < i { x } else { x + 1 };
        let w = choose|w: int| 0 <= w < m.spaces.len() && m.spaces[w].id == m.files[x0].space_id;
        assert(m1.spaces[w].id == m.files[x0].space_id);
    }

    assert forall|k: int|
        0 <= k < m.spaces.len() && m.spaces[k].id == f.space_id implies (
    #[trigger] m1.spaces[k].total_size_used_bytes) == m.spaces[k].total_size_used_bytes
        - f.file_size_bytes by {
        lemma_sum_owned_remove(m.files, i, m.spaces[k].id);
        assert(m.spaces[k].total_size_used_bytes == sum_owned(m.files, m.spaces[k].id));
        assert(m1.spaces[k].total_size_used_bytes == sum_owned(remaining, m.spaces[k].id));
    }

    if cite_count(remaining, f.checksum) == 0 {
        // The last citation is gone: the blob leaves with it.
        let bw = choose|w: int| 0 <= w < m.blobs.len() && m.blobs[w].key == f.checksum;
        lemma_blob_index_unique(m.blobs, f.checksum, bw);
        let bi = blob_index(m.blobs, f.checksum);
        assert(m1.blobs == m.blobs.remove(bi));
        assert(forall|x: int| 0 <= x < bi ==> m1.blobs[x] == #[trigger] m.blobs[x]);
        assert(forall|x: int| bi <= x < m1.blobs.len() ==> m1.blobs[x] == #[trigger] m.blobs[x + 1]);
        lemma_cite_count_zero(remaining, f.checksum);

        assert(blobs_unique(m1.blobs)) by {
            assert forall|x: int, y: int| 0 <= x < y < m1.blobs.len() implies m1.blobs[x].key
                != m1.blobs[y].key by {
                let x0 = if x < bi { x } else { x + 1 };
                let y0 = if y < bi { y } else { y + 1 };
                assert(m.blobs[x0].key != m.blobs[y0].key);
            }
        }
        assert(blobs_keyed(m1.blobs)) by {
            assert forall|x: int| 0 <= x < m1.blobs.len() implies #[trigger] m1.blobs[x].key
                == key_of(m1.blobs[x].data) by {
                let x0 = if x < bi { x } else { x + 1 };
                assert(m.blobs[x0].key == key_of(m.blobs[x0].data));
            }
        }
        // Remaining records cite keys other than the reclaimed one.
        assert forall|x: int| 0 <= x < remaining.len() implies has_blob(
            m1.blobs,
            #[trigger] remaining[x].checksum,
        ) by {
            let x0 = if x < i { x } else { x + 1 };
            assert(remaining[x].checksum == m.files[x0].checksum);
            assert(remaining[x].checksum != f.checksum);
            let w = choose|w: int| 0 <= w < m.blobs.len() && m.blobs[w].key == m.files[x0].checksum;
            assert(w != bi);
            if w < bi {
                assert(m1.blobs[w].key == remaining[x].checksum);
            } else {
                assert(m1.blobs[w - 1].key == remaining[x].checksum);
            }
        }
        assert forall|j: int| 0 <= j < m1.blobs.len() implies cite_count(
            remaining,
            #[trigger] m1.blobs[j].key,
        ) > 0 by {
            let j0 = if j < bi { j } else { j + 1 };
            assert(m1.blobs[j].key == m.blobs[j0].key);
            assert(m.blobs[j0].key != f.checksum);
            lemma_cite_count_remove(m.files, i, m.blobs[j0].key);
        }
    } else {
        // Other citations remain: the blob store is untouched.
        assert(m1.blobs == m.blobs);
        assert forall|x: int| 0 <= x < remaining.len() implies has_blob(
            m1.blobs,
            #[trigger] remaining[x].checksum,
        ) by {
            let x0 = if x < i { x } else { x + 1 };
            assert(remaining[x].checksum == m.files[x0].checksum);
        }
        assert forall|j: int| 0 <= j < m1.blobs.len() implies cite_count(
            remaining,
            #[trigger] m1.blobs[j].key,
        ) > 0 by {
            lemma_cite_count_remove(m.files, i, m.blobs[j].key);
            if m.blobs[j].key != f.checksum {
                assert(cite_count(m.files, m.blobs[j].key) > 0);
            }
        }
    }
}

} // verus!
