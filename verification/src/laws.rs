//! The store's governing properties, each proved once and for all over the
//! abstract model: content deduplication, reference-counted blob lifetime,
//! quota consistency, the download side effect, and idempotent reclaim.

use crate::content::key_of;
use crate::model::{
    apply_upload_part, cite_count, file_index, files_unique, has_blob, has_file,
    lemma_cite_count_zero, lemma_wf_delete_file, spec_delete_file, spec_download, spec_upload,
    spec_upload_parts, sum_owned, wf, DeleteOutcome, PartModel, StoreModel,
};
use vstd::prelude::*;

verus! {

/// In a well-formed store there is at most one physical blob per content
/// key: two blob entries with the same key are the same entry.
pub proof fn law_one_blob_per_key(m: StoreModel, i: int, j: int)
    requires
        wf(m),
        0 <= i < m.blobs.len(),
        0 <= j < m.blobs.len(),
        m.blobs[i].key == m.blobs[j].key,
    ensures
        i == j,
{
    if i < j {
        assert(m.blobs[i].key != m.blobs[j].key);
    } else if j < i {
        assert(m.blobs[j].key != m.blobs[i].key);
    }
}

/// Uploading the same byte payload twice, to any spaces, leaves exactly one
/// blob for its content key: the second upload adds a catalog record but no
/// blob, however many records already cite the key.
pub proof fn law_dedup_second_upload_adds_no_blob(
    m: StoreModel,
    sid1: Seq<char>,
    sid2: Seq<char>,
    p: PartModel,
    id1: Seq<char>,
    id2: Seq<char>,
    now1: int,
    now2: int,
)
    requires
        wf(m),
        spec_upload(m, sid1, seq![p], seq![id1], now1).1 is Created,
        spec_upload(
            spec_upload(m, sid1, seq![p], seq![id1], now1).0,
            sid2,
            seq![p],
            seq![id2],
            now2,
        ).1 is Created,
    ensures
        ({
            let m1 = spec_upload(m, sid1, seq![p], seq![id1], now1).0;
            let m2 = spec_upload(m1, sid2, seq![p], seq![id2], now2).0;
            &&& has_blob(m1.blobs, key_of(p.data))
            &&& m2.blobs == m1.blobs
            &&& m1.files.len() == m.files.len() + 1
            &&& m2.files.len() == m1.files.len() + 1
        }),
{
    reveal_with_fuel(spec_upload_parts, 3);
    let parts = seq![p];
    assert(parts.drop_first() =~= Seq::<PartModel>::empty());
    assert(seq![id1].drop_first() =~= Seq::<Seq<char>>::empty());
    assert(seq![id2].drop_first() =~= Seq::<Seq<char>>::empty());
    let m1 = spec_upload(m, sid1, parts, seq![id1], now1).0;
    assert(m1 == apply_upload_part(m, sid1, p, id1, now1));
    let key = key_of(p.data);
    if !has_blob(m.blobs, key) {
        assert(m1.blobs[m1.blobs.len() - 1].key == key);
    } else {
        let w = choose|w: int| 0 <= w < m.blobs.len() && m.blobs[w].key == key;
        assert(m1.blobs[w].key == key);
    }
    let m2 = spec_upload(m1, sid2, parts, seq![id2], now2).0;
    assert(m2 == apply_upload_part(m1, sid2, p, id2, now2));
}

/// A blob exists exactly while at least one live record cites its key: no
/// orphaned blobs, no dangling references.
pub proof fn law_blob_lives_iff_cited(m: StoreModel, key: Seq<char>)
    requires
        wf(m),
    ensures
        has_blob(m.blobs, key) <==> cite_count(m.files, key) > 0,
{
    lemma_cite_count_zero(m.files, key);
    if has_blob(m.blobs, key) {
        let j = choose|j: int| 0 <= j < m.blobs.len() && m.blobs[j].key == key;
        assert(cite_count(m.files, m.blobs[j].key) > 0);
    }
    if cite_count(m.files, key) > 0 {
        let i = choose|i: int| 0 <= i < m.files.len() && m.files[i].checksum == key;
        assert(has_blob(m.blobs, m.files[i].checksum));
    }
}

/// Deleting a record reclaims its blob exactly when the record was the last
/// one citing the key: the blob stays retrievable while other citations
/// remain, and is gone once none do.
pub proof fn law_delete_reclaims_last_citation(m: StoreModel, file_id: Seq<char>)
    requires
        wf(m),
        spec_delete_file(m, file_id).1 is Removed,
    ensures
        ({
            let m1 = spec_delete_file(m, file_id).0;
            let f = spec_delete_file(m, file_id).1->Removed_0;
            &&& wf(m1)
            &&& (cite_count(m1.files, f.checksum) == 0 <==> !has_blob(m1.blobs, f.checksum))
        }),
{
    assert(has_file(m.files, file_id));
    lemma_wf_delete_file(m, file_id);
    let m1 = spec_delete_file(m, file_id).0;
    let f = spec_delete_file(m, file_id).1->Removed_0;
    law_blob_lives_iff_cited(m1, f.checksum);
}

/// A space's usage counter always equals the sum of the declared sizes of
/// its live records; being a natural number, it can never be negative.
pub proof fn law_usage_matches_live_files(m: StoreModel, k: int)
    requires
        wf(m),
        0 <= k < m.spaces.len(),
    ensures
        m.spaces[k].total_size_used_bytes == sum_owned(m.files, m.spaces[k].id),
        m.spaces[k].total_size_used_bytes >= 0,
{
}

/// A successful download changes exactly one thing: the requested record's
/// download counter rises by one and its last-access time is set; every
/// other record, every space and every blob stays as it was.
pub proof fn law_download_side_effect(m: StoreModel, file_id: Seq<char>, now: int)
    requires
        wf(m),
        spec_download(m, file_id, now).1 is Fetched,
    ensures
        ({
            let m1 = spec_download(m, file_id, now).0;
            let i = file_index(m.files, file_id);
            &&& m1.files[i].download_count == m.files[i].download_count + 1
            &&& m1.files[i].last_accessed == Some(now)
            &&& m1.files[i].id == m.files[i].id
            &&& m1.files[i].space_id == m.files[i].space_id
            &&& m1.files[i].original_filename == m.files[i].original_filename
            &&& m1.files[i].file_size_bytes == m.files[i].file_size_bytes
            &&& m1.files[i].checksum == m.files[i].checksum
            &&& m1.files.len() == m.files.len()
            &&& (forall|x: int| 0 <= x < m.files.len() && x != i ==> m1.files[x] == #[trigger] m.files[x])
            &&& m1.spaces == m.spaces
            &&& m1.blobs == m.blobs
        }),
{
}

/// Deleting the same file id twice fails the second time with a missing
/// file and leaves the state of the first deletion untouched: the quota is
/// not decremented again and no second blob deletion is attempted.
pub proof fn law_delete_twice_fails(m: StoreModel, file_id: Seq<char>)
    requires
        wf(m),
        spec_delete_file(m, file_id).1 is Removed,
    ensures
        ({
            let m1 = spec_delete_file(m, file_id).0;
            spec_delete_file(m1, file_id) == (m1, DeleteOutcome::FileMissing)
        }),
{
    assert(has_file(m.files, file_id));
    let i = file_index(m.files, file_id);
    let m1 = spec_delete_file(m, file_id).0;
    assert(m1.files == m.files.remove(i));
    assert(!has_file(m1.files, file_id)) by {
        if has_file(m1.files, file_id) {
            let x = choose|x: int| 0 <= x < m1.files.len() && m1.files[x].id == file_id;
            let x0 = if x < i {
                x
            } else {
                x + 1
            };
            assert(m.files[x0].id == file_id);
            assert(files_unique(m.files));
            if x0 < i {
                assert(m.files[x0].id != m.files[i].id);
            } else {
                assert(m.files[i].id != m.files[x0].id);
            }
        }
    }
}

} // verus!
