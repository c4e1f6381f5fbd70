use vstd::prelude::*;

use crate::range_pool::RangePool;

verus! {

/// The largest index of an odd id: `2 * ODD_INDEX_MAX + 1 == u32::MAX`.
pub const ODD_INDEX_MAX: u32 = 0x7fff_ffff;

pub open spec fn is_odd(id: u32) -> bool {
    id % 2 == 1
}

/// The odd id at index `k`.
pub open spec fn odd_at(k: u32) -> u32
    recommends
        k <= ODD_INDEX_MAX,
{
    (2 * k + 1) as u32
}

/// An allocator of stream ids that can hand out the smallest free odd id
/// and also reserve or release any particular id.
pub struct OddRangePool {
    all: RangePool,
    odd: RangePool,
}

impl OddRangePool {
    /// The ids that can still be handed out or requested.
    pub closed spec fn free_ids(&self) -> Set<u32> {
        self.all.free_ids()
    }

    /// The ids that are owned by someone.
    pub open spec fn used_ids(&self) -> Set<u32> {
        Set::new(|x: u32| !self.free_ids().contains(x))
    }

    pub closed spec fn wf(&self) -> bool {
        &&& self.all.wf()
        &&& self.odd.wf()
        &&& forall|k: u32|
            #[trigger] self.odd.free_ids().contains(k) == (k <= ODD_INDEX_MAX && self.all.free_ids().contains(
                odd_at(k),
            ))
    }

    /// Hands out the smallest free odd id, or `None` when every odd id is used.
    pub fn new_id(&mut self) -> (r: Option<u32>)
        requires
            old(self).wf(),
        ensures
            final(self).wf(),
            match r {
                None => {
                    &&& forall|x: u32| is_odd(x) ==> !(#[trigger] old(self).free_ids().contains(x))
                    &&& final(self).free_ids() == old(self).free_ids()
                },
                Some(id) => {
                    &&& is_odd(id)
                    &&& old(self).free_ids().contains(id)
                    &&& forall|x: u32| is_odd(x) && #[trigger] old(self).free_ids().contains(x) ==> id <= x
                    &&& final(self).free_ids() == old(self).free_ids().remove(id)
                },
            },
    {
        let odd_id = match self.odd.new_id() {
            Some(k) => k,
            None => {
                proof {
                    assert forall|x: u32| is_odd(x) implies !(#[trigger] old(self).free_ids().contains(x)) by {
                        let k = ((x - 1) / 2) as u32;
                        assert(odd_at(k) == x);
                        assert(!old(self).odd.free_ids().contains(k));
                    }
                }
                return None;
            },
        };
        proof {
            assert(old(self).odd.free_ids().contains(odd_id));
        }
        let id = to_all(odd_id);
        let r = self.all.request_id(id);
        proof {
            assert forall|x: u32| is_odd(x) && #[trigger] old(self).free_ids().contains(x) implies id <= x by {
                let k = ((x - 1) / 2) as u32;
                assert(odd_at(k) == x);
                assert(old(self).odd.free_ids().contains(k));
            }
            assert forall|k: u32|
                #[trigger] self.odd.free_ids().contains(k) == (k <= ODD_INDEX_MAX && self.all.free_ids().contains(
                    odd_at(k),
                )) by {
                assert(old(self).odd.free_ids().contains(k) == (k <= ODD_INDEX_MAX
                    && old(self).all.free_ids().contains(odd_at(k))));
            }
        }
        r
    }

    /// Reserves the given id if it is free. An odd id also leaves the odd
    /// pool, so that `new_id` will not hand it out.
    pub fn request_id(&mut self, id: u32) -> (r: Option<u32>)
        requires
            old(self).wf(),
        ensures
            final(self).wf(),
            r == (if old(self).free_ids().contains(id) { Some(id) } else { None::<u32> }),
            final(self).free_ids() == old(self).free_ids().remove(id),
    {
        if let Some(odd_id) = to_odd(id) {
            proof {
                assert(old(self).odd.free_ids().contains(odd_id) == old(self).all.free_ids().contains(id));
            }
            if self.odd.request_id(odd_id).is_none() {
                proof {
                    assert(self.free_ids() =~= old(self).free_ids().remove(id));
                }
                return None;
            }
        }
        let r = self.all.request_id(id);
        proof {
            assert forall|k: u32|
                #[trigger] self.odd.free_ids().contains(k) == (k <= ODD_INDEX_MAX && self.all.free_ids().contains(
                    odd_at(k),
                )) by {
                assert(old(self).odd.free_ids().contains(k) == (k <= ODD_INDEX_MAX
                    && old(self).all.free_ids().contains(odd_at(k))));
            }
        }
        r
    }

    /// Releases an id. An id that was already free is handed back as the error.
    pub fn return_id(&mut self, id: u32) -> (r: Result<(), u32>)
        requires
            old(self).wf(),
        ensures
            final(self).wf(),
            r == (if old(self).free_ids().contains(id) { Err::<(), u32>(id) } else { Ok(()) }),
            final(self).free_ids() == old(self).free_ids().insert(id),
    {
        if let Some(odd_id) = to_odd(id) {
            proof {
                assert(old(self).odd.free_ids().contains(odd_id) == old(self).all.free_ids().contains(id));
            }
            if self.odd.return_id(odd_id).is_err() {
                proof {
                    assert(self.free_ids() =~= old(self).free_ids().insert(id));
                }
                return Err(id);
            }
        }
        let r = self.all.return_id(id);
        proof {
            assert forall|k: u32|
                #[trigger] self.odd.free_ids().contains(k) == (k <= ODD_INDEX_MAX && self.all.free_ids().contains(
                    odd_at(k),
                )) by {
                assert(old(self).odd.free_ids().contains(k) == (k <= ODD_INDEX_MAX
                    && old(self).all.free_ids().contains(odd_at(k))));
            }
        }
        r
    }
}

impl Default for OddRangePool {
    /// A pool in which every id is free.
    fn default() -> (r: OddRangePool)
        ensures
            r.wf(),
            r.free_ids() == Set::new(|x: u32| true),
    {
        let r = OddRangePool { odd: RangePool::from_bounds(0, ODD_INDEX_MAX), all: RangePool::default() };
        r
    }
}

/// The index of an odd id among the odd ids; `None` for an even id.
pub fn to_odd(id: u32) -> (r: Option<u32>)
    ensures
        r == (if is_odd(id) { Some(((id - 1) / 2) as u32) } else { None::<u32> }),
        r matches Some(k) ==> k <= ODD_INDEX_MAX && odd_at(k) == id,
{
    if id % 2 == 1 {
        Some((id - 1) / 2)
    } else {
        None
    }
}

/// The odd id at index `k`.
pub fn to_all(k: u32) -> (r: u32)
    requires
        k <= ODD_INDEX_MAX,
    ensures
        r == odd_at(k),
        is_odd(r),
{
    1 + 2 * k
}

/// Handing out an id never duplicates an outstanding one: the id was not
/// in use, and afterwards the ids in use are the old ones and it.
pub proof fn lemma_new_id_fresh(before: OddRangePool, after: OddRangePool, id: u32)
    requires
        before.free_ids().contains(id),
        after.free_ids() == before.free_ids().remove(id),
    ensures
        !before.used_ids().contains(id),
        after.used_ids() == before.used_ids().insert(id),
{
    assert(after.used_ids() =~= before.used_ids().insert(id));
}

/// A returned id can be allocated again: it is free afterwards, so asking
/// for it succeeds, and `new_id` hands it out once no smaller odd id is
/// free.
pub proof fn lemma_returned_id_allocatable(before: OddRangePool, after: OddRangePool, id: u32)
    requires
        after.free_ids() == before.free_ids().insert(id),
    ensures
        after.free_ids().contains(id),
        !after.used_ids().contains(id),
        is_odd(id) && (forall|x: u32| is_odd(x) && #[trigger] after.free_ids().contains(x) ==> id <= x) ==> (forall|
            r: u32,
        |
            is_odd(r) && after.free_ids().contains(r) && (forall|x: u32|
                is_odd(x) && #[trigger] after.free_ids().contains(x) ==> r <= x) ==> r == id),
{
    assert(after.free_ids().contains(id));
    if is_odd(id) && (forall|x: u32| is_odd(x) && #[trigger] after.free_ids().contains(x) ==> id <= x) {
        assert forall|r: u32|
            is_odd(r) && after.free_ids().contains(r) && (forall|x: u32|
                is_odd(x) && #[trigger] after.free_ids().contains(x) ==> r <= x) implies r == id by {
            assert(id <= r);
            assert(r <= id);
        }
    }
}

} // verus!
