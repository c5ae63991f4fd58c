//! Spaces: the logical containers that own uploads, together with the quota
//! ledger that tracks each container's byte usage.

use crate::model::{
    bump_usage, drop_usage, has_space, opt_view, sorted_newest_first, space_at, spaces_unique,
    SpaceModel,
};
use crate::util::copy_opt_string;
use vstd::prelude::*;

verus! {

/// One space: a named container for uploads with a running byte-usage total.
#[derive(Debug)]
pub struct Space {
    pub id: String,
    pub name: String,
    pub description: Option<String>,
    pub created_at: i64,
    pub updated_at: i64,
    pub is_public: bool,
    pub access_code: Option<String>,
    pub total_size_used_bytes: u64,
}

impl View for Space {
    type V = SpaceModel;

    open spec fn view(&self) -> SpaceModel {
        SpaceModel {
            id: self.id@,
            name: self.name@,
            description: opt_view(self.description),
            created_at: self.created_at as int,
            updated_at: self.updated_at as int,
            is_public: self.is_public,
            access_code: opt_view(self.access_code),
            total_size_used_bytes: self.total_size_used_bytes as nat,
        }
    }
}

impl Space {
    /// A field-for-field copy.
    pub fn duplicate(&self) -> (r: Space)
        ensures
            r@ == self@,
    {
        Space {
            id: self.id.clone(),
            name: self.name.clone(),
            description: copy_opt_string(&self.description),
            created_at: self.created_at,
            updated_at: self.updated_at,
            is_public: self.is_public,
            access_code: copy_opt_string(&self.access_code),
            total_size_used_bytes: self.total_size_used_bytes,
        }
    }
}

/// What a caller asks for when creating a space.
#[derive(Debug)]
pub struct CreateSpaceRequest {
    pub name: String,
    pub description: Option<String>,
    pub is_public: Option<bool>,
    pub access_code: Option<String>,
}

/// What a caller asks for when updating a space: the name is always
/// replaced, the optional fields only where a value is supplied.
#[derive(Debug)]
pub struct UpdateSpaceRequest {
    pub name: String,
    pub description: Option<String>,
    pub is_public: Option<bool>,
    pub access_code: Option<String>,
}

/// The view of a sequence of space rows.
pub open spec fn spaces_model(rows: Seq<Space>) -> Seq<SpaceModel> {
    rows.map_values(|s: Space| s@)
}

/// Reorders rows so that the newest creation time comes first: a selection
/// sort that repeatedly moves a remaining row of greatest creation time to
/// the end of the sorted part.
fn sort_newest_first(rows: Vec<Space>) -> (r: Vec<Space>)
    ensures
        spaces_model(r@).to_multiset() == spaces_model(rows@).to_multiset(),
        sorted_newest_first(spaces_model(r@)),
{
    let ghost all = spaces_model(rows@);
    let mut src = rows;
    let mut out: Vec<Space> = Vec::new();
    proof {
        broadcast use vstd::seq_lib::group_to_multiset_ensures;
        broadcast use vstd::multiset::group_multiset_axioms;

        assert(spaces_model(out@).to_multiset().add(spaces_model(src@).to_multiset())
            =~= all.to_multiset());
    }
    while src.len() > 0
        invariant
            all == spaces_model(rows@),
            spaces_model(out@).to_multiset().add(spaces_model(src@).to_multiset())
                == all.to_multiset(),
            sorted_newest_first(spaces_model(out@)),
            forall|i: int, j: int|
                0 <= i < out@.len() && 0 <= j < src@.len() ==> (#[trigger] out@[i]@.created_at)
                    >= (#[trigger] src@[j]@.created_at),
        decreases src@.len(),
    {
        let mut m: usize = 0;
        let mut k: usize = 1;
        while k < src.len()
            invariant
                src@.len() > 0,
                m < src@.len(),
                k <= src@.len(),
                forall|j: int|
                    0 <= j < k ==> (#[trigger] src@[j]@.created_at) <= src@[
                        m as int
                    ]@.created_at,
            decreases src@.len() - k,
        {
            if src[k].created_at > src[m].created_at {
                m = k;
            }
            k += 1;
        }
        let ghost pre_out = spaces_model(out@);
        let ghost pre_src = spaces_model(src@);
        let ghost mi = m as int;
        let x = src.remove(m);
        out.push(x);
        proof {
            broadcast use vstd::seq_lib::group_to_multiset_ensures;
            broadcast use vstd::multiset::group_multiset_axioms;

            assert(spaces_model(out@) =~= pre_out.push(x@));
            assert(spaces_model(src@) =~= pre_src.remove(mi));
            assert(pre_src.push(x@) == pre_src.push(pre_src[mi]));
            assert(pre_out.push(x@).to_multiset() =~= pre_out.to_multiset().insert(x@));
            assert(pre_src.remove(mi).to_multiset() =~= pre_src.to_multiset().remove(x@));
            assert(pre_src.contains(x@)) by {
                assert(pre_src[mi] == x@);
            }
            assert(pre_src.to_multiset().count(x@) > 0);
            assert(spaces_model(out@).to_multiset().add(spaces_model(src@).to_multiset())
                =~= all.to_multiset());
            // The moved row carries the greatest remaining creation time, so
            // the sorted part stays sorted and still dominates the rest.
            assert(forall|j: int|
                0 <= j < spaces_model(src@).len() ==> (#[trigger] spaces_model(src@)[j])
                    == if j < mi {
                    pre_src[j]
                } else {
                    pre_src[j + 1]
                });
        }
    }
    out
}

/// How a quota increase ends.
#[derive(Debug)]
pub enum QuotaOutcome {
    /// The delta was applied.
    Applied,
    /// The counter cannot hold the new total; nothing changed.
    Overflow,
    /// No space has the requested id; nothing changed.
    Missing,
}

/// The table of spaces, which also serves as the quota ledger: it is the one
/// owner of every `total_size_used_bytes` counter.
#[derive(Debug)]
pub struct SpaceTable {
    pub rows: Vec<Space>,
}

impl View for SpaceTable {
    type V = Seq<SpaceModel>;

    open spec fn view(&self) -> Seq<SpaceModel> {
        spaces_model(self.rows@)
    }
}

impl SpaceTable {
    pub fn new() -> (r: SpaceTable)
        ensures
            r@ == Seq::<SpaceModel>::empty(),
    {
        let t = SpaceTable { rows: Vec::new() };
        proof {
            assert(t@ =~= Seq::<SpaceModel>::empty());
        }
        t
    }

    /// The index of a row whose id is `id`, if any.
    pub(crate) fn find(&self, id: &String) -> (r: Option<usize>)
        ensures
            match r {
                Some(i) => 0 <= i < self@.len() && self@[i as int].id == id@,
                None => !has_space(self@, id@),
            },
    {
        let mut i: usize = 0;
        while i < self.rows.len()
            invariant
                i <= self.rows.len(),
                forall|j: int| 0 <= j < i ==> (#[trigger] self@[j].id) != id@,
            decreases self.rows.len() - i,
        {
            if self.rows[i].id == *id {
                return Some(i);
            }
            i += 1;
        }
        None
    }

    /// Whether a space with this id exists.
    pub fn contains(&self, id: &String) -> (r: bool)
        ensures
            r == has_space(self@, id@),
    {
        match self.find(id) {
            Some(i) => {
                proof {
                    assert(0 <= i < self@.len() && self@[i as int].id == id@);
                }
                true
            },
            None => false,
        }
    }

    /// The space with this id, if any.
    pub fn get(&self, id: &String) -> (r: Option<Space>)
        requires
            spaces_unique(self@),
        ensures
            match r {
                Some(s) => has_space(self@, id@) && s@ == space_at(self@, id@),
                None => !has_space(self@, id@),
            },
    {
        match self.find(id) {
            Some(i) => {
                proof {
                    crate::model::lemma_space_index_unique(self@, id@, i as int);
                }
                Some(self.rows[i].duplicate())
            },
            None => None,
        }
    }

    /// All spaces, newest creation first: the listing holds exactly the
    /// rows of the table, reordered by creation time descending.
    pub fn list(&self) -> (r: Vec<Space>)
        ensures
            spaces_model(r@).to_multiset() == self@.to_multiset(),
            sorted_newest_first(spaces_model(r@)),
    {
        let mut copies: Vec<Space> = Vec::new();
        let mut i: usize = 0;
        while i < self.rows.len()
            invariant
                i <= self.rows.len(),
                copies@.len() == i,
                forall|j: int| 0 <= j < i ==> (#[trigger] copies@[j])@ == self@[j],
            decreases self.rows.len() - i,
        {
            copies.push(self.rows[i].duplicate());
            i += 1;
        }
        proof {
            assert(spaces_model(copies@) =~= self@);
        }
        sort_newest_first(copies)
    }

    /// Appends a row; the caller is responsible for id freshness.
    pub fn insert(&mut self, s: Space)
        ensures
            final(self)@ == old(self)@.push(s@),
    {
        self.rows.push(s);
        proof {
            assert(self@ =~= old(self)@.push(s@));
        }
    }

    /// Replaces the row at `i`.
    pub fn replace(&mut self, i: usize, s: Space)
        requires
            i < old(self)@.len(),
        ensures
            final(self)@ == old(self)@.update(i as int, s@),
    {
        self.rows[i] = s;
        proof {
            assert(self@ =~= old(self)@.update(i as int, s@));
        }
    }

    /// Removes the row at `i` and returns it.
    pub fn take_at(&mut self, i: usize) -> (r: Space)
        requires
            i < old(self)@.len(),
        ensures
            r@ == old(self)@[i as int],
            final(self)@ == old(self)@.remove(i as int),
    {
        let s = self.rows.remove(i);
        proof {
            assert(self@ =~= old(self)@.remove(i as int));
        }
        s
    }

    /// Raises the usage counter of the space `id` by `delta` atomically,
    /// refusing a delta the counter cannot hold.
    pub fn increase(&mut self, id: &String, delta: u64) -> (r: QuotaOutcome)
        requires
            spaces_unique(old(self)@),
        ensures
            match r {
                QuotaOutcome::Applied => has_space(old(self)@, id@) && space_at(old(self)@, id@).total_size_used_bytes
                    + delta <= u64::MAX && final(self)@ == bump_usage(old(self)@, id@, delta as nat),
                QuotaOutcome::Overflow => has_space(old(self)@, id@) && space_at(old(self)@, id@).total_size_used_bytes
                    + delta > u64::MAX && final(self)@ == old(self)@,
                QuotaOutcome::Missing => !has_space(old(self)@, id@) && final(self)@ == old(self)@,
            },
    {
        match self.find(id) {
            None => QuotaOutcome::Missing,
            Some(i) => {
                proof {
                    crate::model::lemma_space_index_unique(self@, id@, i as int);
                }
                let cur = self.rows[i].total_size_used_bytes;
                if u64::MAX - cur < delta {
                    QuotaOutcome::Overflow
                } else {
                    let mut row = self.rows[i].duplicate();
                    row.total_size_used_bytes = cur + delta;
                    self.replace(i, row);
                    proof {
                        assert(self@ =~= bump_usage(old(self)@, id@, delta as nat));
                    }
                    QuotaOutcome::Applied
                }
            },
        }
    }

    /// Lowers the usage counter of the space `id` by `delta` atomically,
    /// clamped at zero; a missing space is left as a no-op.
    pub fn decrease(&mut self, id: &String, delta: u64)
        requires
            spaces_unique(old(self)@),
        ensures
            final(self)@ == drop_usage(old(self)@, id@, delta as nat),
    {
        match self.find(id) {
            None => {
                proof {
                    assert(self@ =~= drop_usage(old(self)@, id@, delta as nat));
                }
            },
            Some(i) => {
                proof {
                    crate::model::lemma_space_index_unique(self@, id@, i as int);
                }
                let cur = self.rows[i].total_size_used_bytes;
                let mut row = self.rows[i].duplicate();
                row.total_size_used_bytes = if cur >= delta {
                    cur - delta
                } else {
                    0
                };
                self.replace(i, row);
                proof {
                    assert(self@ =~= drop_usage(old(self)@, id@, delta as nat));
                }
            },
        }
    }
}

} // verus!
