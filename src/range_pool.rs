use vstd::prelude::*;

verus! {

/// A run of free ids, both ends included.
#[derive(Clone, Copy, Debug, PartialEq, Eq, Structural)]
pub struct FreeRange {
    pub start: u32,
    pub end: u32,
}

pub open spec fn range_holds(r: FreeRange, x: u32) -> bool {
    r.start <= x && x <= r.end
}

/// Whether some range of `s` holds `x`.
pub open spec fn ranges_hold(s: Seq<FreeRange>, x: u32) -> bool {
    exists|i: int| 0 <= i < s.len() && #[trigger] range_holds(s[i], x)
}

/// The ids that the ranges of `s` hold.
pub open spec fn ids_of(s: Seq<FreeRange>) -> Set<u32> {
    Set::new(|x: u32| ranges_hold(s, x))
}

/// Every range is non-empty, and the ranges are sorted and disjoint.
pub open spec fn ranges_wf(s: Seq<FreeRange>) -> bool {
    &&& forall|i: int| 0 <= i < s.len() ==> (#[trigger] s[i]).start <= s[i].end
    &&& forall|i: int, j: int|
        0 <= i < j < s.len() ==> (#[trigger] s[i]).end < (#[trigger] s[j]).start
}

/// Ids of ranges other than the one at `p` are never in that one.
proof fn lemma_other_ranges(s: Seq<FreeRange>, p: int, i: int, x: u32)
    requires
        ranges_wf(s),
        0 <= p < s.len(),
        0 <= i < s.len(),
        i != p,
        range_holds(s[i], x),
    ensures
        !range_holds(s[p], x),
{
    if i < p {
        assert(s[i].end < s[p].start);
    } else {
        assert(s[p].end < s[i].start);
    }
}

proof fn lemma_take_whole(s: Seq<FreeRange>, p: int, id: u32)
    requires
        ranges_wf(s),
        0 <= p < s.len(),
        s[p].start == id,
        s[p].end == id,
    ensures
        ranges_wf(s.remove(p)),
        ids_of(s.remove(p)) == ids_of(s).remove(id),
{
    let n = s.remove(p);
    assert forall|i: int, j: int| 0 <= i < j < n.len() implies (#[trigger] n[i]).end < (#[trigger] n[j]).start by {
        let oi = if i >= p { i + 1 } else { i };
        let oj = if j >= p { j + 1 } else { j };
        assert(s[oi].end < s[oj].start);
    }
    assert forall|i: int| 0 <= i < n.len() implies (#[trigger] n[i]).start <= n[i].end by {
        let oi = if i >= p { i + 1 } else { i };
        assert(s[oi].start <= s[oi].end);
    }
    assert forall|x: u32| #[trigger] ids_of(n).contains(x) == ids_of(s).remove(id).contains(x) by {
        if ids_of(s).contains(x) && x != id {
            let i = choose|i: int| 0 <= i < s.len() && #[trigger] range_holds(s[i], x);
            if i > p {
                assert(range_holds(n[i - 1], x));
            } else {
                assert(range_holds(n[i], x));
            }
        }
        if ids_of(n).contains(x) {
            let i = choose|i: int| 0 <= i < n.len() && #[trigger] range_holds(n[i], x);
            let oi = if i >= p { i + 1 } else { i };
            assert(range_holds(s[oi], x));
            lemma_other_ranges(s, p, oi, x);
        }
    }
    assert(ids_of(n) =~= ids_of(s).remove(id));
}

proof fn lemma_take_first(s: Seq<FreeRange>, p: int, id: u32)
    requires
        ranges_wf(s),
        0 <= p < s.len(),
        s[p].start == id,
        id < s[p].end,
    ensures
        ranges_wf(s.update(p, FreeRange { start: (id + 1) as u32, end: s[p].end })),
        ids_of(s.update(p, FreeRange { start: (id + 1) as u32, end: s[p].end })) == ids_of(s).remove(id),
{
    let n = s.update(p, FreeRange { start: (id + 1) as u32, end: s[p].end });
    assert forall|i: int, j: int| 0 <= i < j < n.len() implies (#[trigger] n[i]).end < (#[trigger] n[j]).start by {
        assert(s[i].end < s[j].start);
    }
    assert forall|i: int| 0 <= i < n.len() implies (#[trigger] n[i]).start <= n[i].end by {
        assert(s[i].start <= s[i].end);
    }
    assert forall|x: u32| #[trigger] ids_of(n).contains(x) == ids_of(s).remove(id).contains(x) by {
        if ids_of(s).contains(x) && x != id {
            let i = choose|i: int| 0 <= i < s.len() && #[trigger] range_holds(s[i], x);
            assert(range_holds(n[i], x));
        }
        if ids_of(n).contains(x) {
            let i = choose|i: int| 0 <= i < n.len() && #[trigger] range_holds(n[i], x);
            assert(range_holds(s[i], x));
            if i != p {
                lemma_other_ranges(s, p, i, x);
            }
        }
    }
    assert(ids_of(n) =~= ids_of(s).remove(id));
}

proof fn lemma_take_last(s: Seq<FreeRange>, p: int, id: u32)
    requires
        ranges_wf(s),
        0 <= p < s.len(),
        s[p].start < id,
        s[p].end == id,
    ensures
        ranges_wf(s.update(p, FreeRange { start: s[p].start, end: (id - 1) as u32 })),
        ids_of(s.update(p, FreeRange { start: s[p].start, end: (id - 1) as u32 })) == ids_of(s).remove(id),
{
    let n = s.update(p, FreeRange { start: s[p].start, end: (id - 1) as u32 });
    assert forall|i: int, j: int| 0 <= i < j < n.len() implies (#[trigger] n[i]).end < (#[trigger] n[j]).start by {
        assert(s[i].end < s[j].start);
    }
    assert forall|i: int| 0 <= i < n.len() implies (#[trigger] n[i]).start <= n[i].end by {
        assert(s[i].start <= s[i].end);
    }
    assert forall|x: u32| #[trigger] ids_of(n).contains(x) == ids_of(s).remove(id).contains(x) by {
        if ids_of(s).contains(x) && x != id {
            let i = choose|i: int| 0 <= i < s.len() && #[trigger] range_holds(s[i], x);
            assert(range_holds(n[i], x));
        }
        if ids_of(n).contains(x) {
            let i = choose|i: int| 0 <= i < n.len() && #[trigger] range_holds(n[i], x);
            assert(range_holds(s[i], x));
            if i != p {
                lemma_other_ranges(s, p, i, x);
            }
        }
    }
    assert(ids_of(n) =~= ids_of(s).remove(id));
}

proof fn lemma_split(s: Seq<FreeRange>, p: int, id: u32)
    requires
        ranges_wf(s),
        0 <= p < s.len(),
        s[p].start < id < s[p].end,
    ensures
        ({
            let n = s.update(p, FreeRange { start: (id + 1) as u32, end: s[p].end }).insert(
                p,
                FreeRange { start: s[p].start, end: (id - 1) as u32 },
            );
            ranges_wf(n) && ids_of(n) == ids_of(s).remove(id)
        }),
{
    let n = s.update(p, FreeRange { start: (id + 1) as u32, end: s[p].end }).insert(
        p,
        FreeRange { start: s[p].start, end: (id - 1) as u32 },
    );
    assert forall|i: int, j: int| 0 <= i < j < n.len() implies (#[trigger] n[i]).end < (#[trigger] n[j]).start by {
        let oi = if i > p { i - 1 } else { i };
        let oj = if j > p { j - 1 } else { j };
        if oi != oj {
            assert(s[oi].end < s[oj].start);
        }
        assert(s[oi].start <= s[oi].end);
        assert(s[oj].start <= s[oj].end);
    }
    assert forall|i: int| 0 <= i < n.len() implies (#[trigger] n[i]).start <= n[i].end by {
        let oi = if i > p { i - 1 } else { i };
        assert(s[oi].start <= s[oi].end);
    }
    assert forall|x: u32| #[trigger] ids_of(n).contains(x) == ids_of(s).remove(id).contains(x) by {
        if ids_of(s).contains(x) && x != id {
            let i = choose|i: int| 0 <= i < s.len() && #[trigger] range_holds(s[i], x);
            if i == p {
                if x < id {
                    assert(range_holds(n[p], x));
                } else {
                    assert(range_holds(n[p + 1], x));
                }
            } else if i > p {
                assert(range_holds(n[i + 1], x));
            } else {
                assert(range_holds(n[i], x));
            }
        }
        if ids_of(n).contains(x) {
            let i = choose|i: int| 0 <= i < n.len() && #[trigger] range_holds(n[i], x);
            let oi = if i > p { i - 1 } else { i };
            assert(range_holds(s[oi], x));
            if oi != p {
                lemma_other_ranges(s, p, oi, x);
            }
        }
    }
    assert(ids_of(n) =~= ids_of(s).remove(id));
}

/// Where `id` would sit at index `p` between the ranges of `s`.
pub open spec fn gap_at(s: Seq<FreeRange>, p: int, id: u32) -> bool {
    &&& 0 <= p <= s.len()
    &&& forall|i: int| 0 <= i < p ==> (#[trigger] s[i]).end < id
    &&& forall|i: int| p <= i < s.len() ==> id < (#[trigger] s[i]).start
}

proof fn lemma_insert_single(s: Seq<FreeRange>, p: int, id: u32)
    requires
        ranges_wf(s),
        gap_at(s, p, id),
    ensures
        ranges_wf(s.insert(p, FreeRange { start: id, end: id })),
        ids_of(s.insert(p, FreeRange { start: id, end: id })) == ids_of(s).insert(id),
{
    let n = s.insert(p, FreeRange { start: id, end: id });
    assert forall|i: int, j: int| 0 <= i < j < n.len() implies (#[trigger] n[i]).end < (#[trigger] n[j]).start by {
        if i == p {
            assert(id < s[j - 1].start);
        } else if j == p {
            assert(s[i].end < id);
        } else {
            let oi = if i > p { i - 1 } else { i };
            let oj = if j > p { j - 1 } else { j };
            assert(s[oi].end < s[oj].start);
        }
    }
    assert forall|i: int| 0 <= i < n.len() implies (#[trigger] n[i]).start <= n[i].end by {
        if i < p {
            assert(s[i].start <= s[i].end);
        } else if i > p {
            assert(s[i - 1].start <= s[i - 1].end);
        }
    }
    assert forall|x: u32| #[trigger] ids_of(n).contains(x) == ids_of(s).insert(id).contains(x) by {
        if x == id {
            assert(range_holds(n[p], x));
        } else if ids_of(s).contains(x) {
            let i = choose|i: int| 0 <= i < s.len() && #[trigger] range_holds(s[i], x);
            if i >= p {
                assert(range_holds(n[i + 1], x));
            } else {
                assert(range_holds(n[i], x));
            }
        }
        if ids_of(n).contains(x) && x != id {
            let i = choose|i: int| 0 <= i < n.len() && #[trigger] range_holds(n[i], x);
            if i > p {
                assert(range_holds(s[i - 1], x));
            } else {
                assert(range_holds(s[i], x));
            }
        }
    }
    assert(ids_of(n) =~= ids_of(s).insert(id));
}

proof fn lemma_extend_next(s: Seq<FreeRange>, p: int, id: u32)
    requires
        ranges_wf(s),
        gap_at(s, p, id),
        p < s.len(),
        s[p].start == id + 1,
    ensures
        ranges_wf(s.update(p, FreeRange { start: id, end: s[p].end })),
        ids_of(s.update(p, FreeRange { start: id, end: s[p].end })) == ids_of(s).insert(id),
{
    let n = s.update(p, FreeRange { start: id, end: s[p].end });
    assert forall|i: int, j: int| 0 <= i < j < n.len() implies (#[trigger] n[i]).end < (#[trigger] n[j]).start by {
        if j == p {
            assert(s[i].end < id);
        } else {
            assert(s[i].end < s[j].start);
        }
    }
    assert forall|i: int| 0 <= i < n.len() implies (#[trigger] n[i]).start <= n[i].end by {
        assert(s[i].start <= s[i].end);
    }
    assert forall|x: u32| #[trigger] ids_of(n).contains(x) == ids_of(s).insert(id).contains(x) by {
        if x == id {
            assert(range_holds(n[p], x));
        } else if ids_of(s).contains(x) {
            let i = choose|i: int| 0 <= i < s.len() && #[trigger] range_holds(s[i], x);
            assert(range_holds(n[i], x));
        }
        if ids_of(n).contains(x) && x != id {
            let i = choose|i: int| 0 <= i < n.len() && #[trigger] range_holds(n[i], x);
            assert(range_holds(s[i], x));
        }
    }
    assert(ids_of(n) =~= ids_of(s).insert(id));
}

proof fn lemma_extend_prev(s: Seq<FreeRange>, p: int, id: u32)
    requires
        ranges_wf(s),
        gap_at(s, p, id),
        0 < p,
        s[p - 1].end + 1 == id,
    ensures
        ranges_wf(s.update(p - 1, FreeRange { start: s[p - 1].start, end: id })),
        ids_of(s.update(p - 1, FreeRange { start: s[p - 1].start, end: id })) == ids_of(s).insert(id),
{
    let n = s.update(p - 1, FreeRange { start: s[p - 1].start, end: id });
    assert forall|i: int, j: int| 0 <= i < j < n.len() implies (#[trigger] n[i]).end < (#[trigger] n[j]).start by {
        if i == p - 1 {
            assert(id < s[j].start);
        } else {
            assert(s[i].end < s[j].start);
        }
    }
    assert forall|i: int| 0 <= i < n.len() implies (#[trigger] n[i]).start <= n[i].end by {
        assert(s[i].start <= s[i].end);
    }
    assert forall|x: u32| #[trigger] ids_of(n).contains(x) == ids_of(s).insert(id).contains(x) by {
        if x == id {
            assert(range_holds(n[p - 1], x));
        } else if ids_of(s).contains(x) {
            let i = choose|i: int| 0 <= i < s.len() && #[trigger] range_holds(s[i], x);
            assert(range_holds(n[i], x));
        }
        if ids_of(n).contains(x) && x != id {
            let i = choose|i: int| 0 <= i < n.len() && #[trigger] range_holds(n[i], x);
            assert(range_holds(s[i], x));
        }
    }
    assert(ids_of(n) =~= ids_of(s).insert(id));
}

proof fn lemma_merge(s: Seq<FreeRange>, p: int, id: u32)
    requires
        ranges_wf(s),
        gap_at(s, p, id),
        0 < p < s.len(),
        s[p - 1].end + 1 == id,
        s[p].start == id + 1,
    ensures
        ranges_wf(s.update(p - 1, FreeRange { start: s[p - 1].start, end: s[p].end }).remove(p)),
        ids_of(s.update(p - 1, FreeRange { start: s[p - 1].start, end: s[p].end }).remove(p))
            == ids_of(s).insert(id),
{
    let n = s.update(p - 1, FreeRange { start: s[p - 1].start, end: s[p].end }).remove(p);
    assert(s[p - 1].start <= s[p - 1].end);
    assert(s[p].start <= s[p].end);
    assert forall|i: int, j: int| 0 <= i < j < n.len() implies (#[trigger] n[i]).end < (#[trigger] n[j]).start by {
        let oj = if j >= p { j + 1 } else { j };
        if i == p - 1 {
            assert(s[p].end < s[oj].start);
        } else {
            let oi = if i >= p { i + 1 } else { i };
            assert(s[oi].end < s[oj].start);
        }
    }
    assert forall|i: int| 0 <= i < n.len() implies (#[trigger] n[i]).start <= n[i].end by {
        let oi = if i >= p { i + 1 } else { i };
        assert(s[oi].start <= s[oi].end);
    }
    assert forall|x: u32| #[trigger] ids_of(n).contains(x) == ids_of(s).insert(id).contains(x) by {
        if x == id {
            assert(range_holds(n[p - 1], x));
        } else if ids_of(s).contains(x) {
            let i = choose|i: int| 0 <= i < s.len() && #[trigger] range_holds(s[i], x);
            if i == p || i == p - 1 {
                assert(range_holds(n[p - 1], x));
            } else if i > p {
                assert(range_holds(n[i - 1], x));
            } else {
                assert(range_holds(n[i], x));
            }
        }
        if ids_of(n).contains(x) && x != id {
            let i = choose|i: int| 0 <= i < n.len() && #[trigger] range_holds(n[i], x);
            if i == p - 1 {
                if x < id {
                    assert(range_holds(s[p - 1], x));
                } else {
                    assert(range_holds(s[p], x));
                }
            } else if i >= p {
                assert(range_holds(s[i + 1], x));
            } else {
                assert(range_holds(s[i], x));
            }
        }
    }
    assert(ids_of(n) =~= ids_of(s).insert(id));
}

/// An allocator of `u32` ids that keeps its free ids as sorted ranges.
pub struct RangePool {
    free: Vec<FreeRange>,
}

impl RangePool {
    pub closed spec fn ranges(&self) -> Seq<FreeRange> {
        self.free@
    }

    /// The ids that the pool can still hand out.
    pub open spec fn free_ids(&self) -> Set<u32> {
        ids_of(self.ranges())
    }

    pub open spec fn wf(&self) -> bool {
        ranges_wf(self.ranges())
    }

    /// A pool whose free ids are `start ..= end` (none if `start > end`).
    pub fn from_bounds(start: u32, end: u32) -> (r: RangePool)
        ensures
            r.wf(),
            r.free_ids() == Set::new(|x: u32| start <= x && x <= end),
    {
        let mut free: Vec<FreeRange> = Vec::new();
        if start <= end {
            free.push(FreeRange { start, end });
        }
        let r = RangePool { free };
        proof {
            assert forall|x: u32| #[trigger] r.free_ids().contains(x) == (start <= x && x <= end) by {
                if start <= x && x <= end {
                    assert(range_holds(r.free@[0], x));
                }
            }
            assert(r.free_ids() =~= Set::new(|x: u32| start <= x && x <= end));
        }
        r
    }

    /// A pool over the ids that `range` covers. An excluded bound that leaves
    /// no id (below zero or above `u32::MAX`) gives an empty pool.
    pub fn ranged<R: std::ops::RangeBounds<u32>>(range: R) -> (r: RangePool)
        ensures
            r.wf(),
    {
        let (start, start_empty) = match start_bound_of(&range) {
            Some((s, true)) => (s, false),
            Some((s, false)) => if s == u32::MAX {
                (0, true)
            } else {
                (s + 1, false)
            },
            None => (u32::MIN, false),
        };
        let (end, end_empty) = match end_bound_of(&range) {
            Some((e, true)) => (e, false),
            Some((e, false)) => if e == 0 {
                (0, true)
            } else {
                (e - 1, false)
            },
            None => (u32::MAX, false),
        };
        if start_empty || end_empty {
            RangePool { free: Vec::new() }
        } else {
            RangePool::from_bounds(start, end)
        }
    }

    /// Hands out the smallest free id, or `None` when no id is free.
    pub fn new_id(&mut self) -> (r: Option<u32>)
        requires
            old(self).wf(),
        ensures
            final(self).wf(),
            match r {
                None => old(self).free_ids().is_empty() && final(self).free_ids() == old(self).free_ids(),
                Some(id) => {
                    &&& old(self).free_ids().contains(id)
                    &&& forall|x: u32| #[trigger] old(self).free_ids().contains(x) ==> id <= x
                    &&& final(self).free_ids() == old(self).free_ids().remove(id)
                },
            },
    {
        if self.free.len() == 0 {
            proof {
                assert(self.free_ids() =~= Set::empty());
            }
            return None;
        }
        let first = self.free[0];
        let id = first.start;
        let ghost old_ranges = self.free@;
        if first.start < first.end {
            self.free.set(0, FreeRange { start: first.start + 1, end: first.end });
        } else {
            self.free.remove(0);
        }
        proof {
            let new_ranges = self.free@;
            assert(range_holds(old_ranges[0], id));
            assert forall|x: u32| #[trigger] old(self).free_ids().contains(x) implies id <= x by {
                let i = choose|i: int| 0 <= i < old_ranges.len() && #[trigger] range_holds(old_ranges[i], x);
                if i > 0 {
                    assert(old_ranges[0].end < old_ranges[i].start);
                }
            }
            assert forall|i: int, j: int| 0 <= i < j < new_ranges.len()
                implies (#[trigger] new_ranges[i]).end < (#[trigger] new_ranges[j]).start by {
                if first.start < first.end {
                    assert(old_ranges[i].end < old_ranges[j].start);
                } else {
                    assert(old_ranges[i + 1].end < old_ranges[j + 1].start);
                }
            }
            assert forall|i: int| 0 <= i < new_ranges.len() implies (#[trigger] new_ranges[i]).start <= new_ranges[i].end by {
                if !(first.start < first.end) {
                    assert(old_ranges[i + 1].start <= old_ranges[i + 1].end);
                }
            }
            assert forall|x: u32| #[trigger] final(self).free_ids().contains(x) == old(self).free_ids().remove(id).contains(x) by {
                if old(self).free_ids().contains(x) && x != id {
                    let i = choose|i: int| 0 <= i < old_ranges.len() && #[trigger] range_holds(old_ranges[i], x);
                    if first.start < first.end {
                        assert(range_holds(new_ranges[i], x));
                    } else {
                        if i == 0 {
                            assert(false);
                        }
                        assert(range_holds(new_ranges[i - 1], x));
                    }
                }
                if final(self).free_ids().contains(x) {
                    let i = choose|i: int| 0 <= i < new_ranges.len() && #[trigger] range_holds(new_ranges[i], x);
                    if first.start < first.end {
                        assert(range_holds(old_ranges[i], x));
                        if i > 0 {
                            assert(old_ranges[0].end < old_ranges[i].start);
                        }
                    } else {
                        assert(range_holds(old_ranges[i + 1], x));
                        assert(old_ranges[0].end < old_ranges[i + 1].start);
                    }
                }
            }
            assert(final(self).free_ids() =~= old(self).free_ids().remove(id));
        }
        Some(id)
    }

    /// Takes the given id out of the pool if it is free.
    pub fn request_id(&mut self, id: u32) -> (r: Option<u32>)
        requires
            old(self).wf(),
        ensures
            final(self).wf(),
            r == (if old(self).free_ids().contains(id) { Some(id) } else { None::<u32> }),
            final(self).free_ids() == old(self).free_ids().remove(id),
    {
        let ghost old_ranges = self.free@;
        let pos = match self.locate(id) {
            Ok(pos) => pos,
            Err(pos) => {
                proof {
                    assert forall|x: u32| #[trigger] old(self).free_ids().contains(x) implies x != id by {
                        let i = choose|i: int| 0 <= i < old_ranges.len() && #[trigger] range_holds(old_ranges[i], x);
                    }
                    assert(self.free_ids() =~= old(self).free_ids().remove(id));
                }
                return None;
            },
        };
        let range = self.free[pos];
        if range.start == range.end {
            self.free.remove(pos);
        } else if range.start == id {
            self.free.set(pos, FreeRange { start: id + 1, end: range.end });
        } else if range.end == id {
            self.free.set(pos, FreeRange { start: range.start, end: id - 1 });
        } else {
            self.free.set(pos, FreeRange { start: id + 1, end: range.end });
            self.free.insert(pos, FreeRange { start: range.start, end: id - 1 });
        }
        proof {
            let p = pos as int;
            assert(range_holds(old_ranges[p], id));
            if range.start == range.end {
                lemma_take_whole(old_ranges, p, id);
            } else if range.start == id {
                lemma_take_first(old_ranges, p, id);
            } else if range.end == id {
                lemma_take_last(old_ranges, p, id);
            } else {
                lemma_split(old_ranges, p, id);
            }
            assert(self.free@ == self.ranges());
        }
        Some(id)
    }

    /// Puts an id back into the pool, joining it with the ranges next to it.
    /// An id that is already free is handed back as the error.
    pub fn return_id(&mut self, id: u32) -> (r: Result<(), u32>)
        requires
            old(self).wf(),
        ensures
            final(self).wf(),
            r == (if old(self).free_ids().contains(id) { Err::<(), u32>(id) } else { Ok(()) }),
            final(self).free_ids() == old(self).free_ids().insert(id),
    {
        let ghost old_ranges = self.free@;
        let pos = match self.locate(id) {
            Ok(pos) => {
                proof {
                    assert(range_holds(old_ranges[pos as int], id));
                    assert(self.free_ids() =~= old(self).free_ids().insert(id));
                }
                return Err(id);
            },
            Err(pos) => pos,
        };
        let adjacent_next = pos < self.free.len() && id < u32::MAX && self.free[pos].start == id + 1;
        let adjacent_prev = pos > 0 && id > 0 && self.free[pos - 1].end == id - 1;
        if adjacent_prev && adjacent_next {
            let merged_end = self.free[pos].end;
            let prev_start = self.free[pos - 1].start;
            self.free.set(pos - 1, FreeRange { start: prev_start, end: merged_end });
            self.free.remove(pos);
        } else if adjacent_next {
            let next_end = self.free[pos].end;
            self.free.set(pos, FreeRange { start: id, end: next_end });
        } else if adjacent_prev {
            let prev_start = self.free[pos - 1].start;
            self.free.set(pos - 1, FreeRange { start: prev_start, end: id });
        } else {
            self.free.insert(pos, FreeRange { start: id, end: id });
        }
        proof {
            let p = pos as int;
            assert(!old(self).free_ids().contains(id)) by {
                if old(self).free_ids().contains(id) {
                    let i = choose|i: int| 0 <= i < old_ranges.len() && #[trigger] range_holds(old_ranges[i], id);
                }
            }
            if adjacent_prev && adjacent_next {
                lemma_merge(old_ranges, p, id);
            } else if adjacent_next {
                lemma_extend_next(old_ranges, p, id);
            } else if adjacent_prev {
                lemma_extend_prev(old_ranges, p, id);
            } else {
                lemma_insert_single(old_ranges, p, id);
            }
            assert(self.free@ == self.ranges());
        }
        Ok(())
    }

    /// Finds the range that holds `id` (`Ok`), or else where a range holding
    /// `id` would be inserted (`Err`).
    fn locate(&self, id: u32) -> (r: Result<usize, usize>)
        requires
            self.wf(),
        ensures
            match r {
                Ok(pos) => pos < self.ranges().len() && range_holds(self.ranges()[pos as int], id),
                Err(pos) => {
                    &&& pos <= self.ranges().len()
                    &&& forall|i: int| 0 <= i < pos ==> (#[trigger] self.ranges()[i]).end < id
                    &&& forall|i: int|
                        pos <= i < self.ranges().len() ==> id < (#[trigger] self.ranges()[i]).start
                },
            },
    {
        let mut lo: usize = 0;
        let mut hi: usize = self.free.len();
        while lo < hi
            invariant
                self.wf(),
                lo <= hi <= self.free@.len(),
                forall|i: int| 0 <= i < lo ==> (#[trigger] self.free@[i]).end < id,
                forall|i: int| hi <= i < self.free@.len() ==> id < (#[trigger] self.free@[i]).start,
            decreases hi - lo,
        {
            let mid = lo + (hi - lo) / 2;
            let range = self.free[mid];
            if range.start <= id && id <= range.end {
                return Ok(mid);
            } else if range.end < id {
                proof {
                    assert forall|i: int| 0 <= i < mid + 1 implies (#[trigger] self.free@[i]).end < id by {
                        if i < mid {
                            assert(self.free@[i].end < self.free@[mid as int].start);
                        }
                    }
                }
                lo = mid + 1;
            } else {
                proof {
                    assert forall|i: int| mid <= i < self.free@.len() implies id < (#[trigger] self.free@[i]).start by {
                        if i > mid {
                            assert(self.free@[mid as int].end < self.free@[i].start);
                        }
                    }
                }
                hi = mid;
            }
        }
        Err(lo)
    }
}

/// Relies on `RangeBounds::start_bound`: the value and whether it is included,
/// or `None` for an unbounded start.
#[verifier::external_body]
fn start_bound_of<R: std::ops::RangeBounds<u32>>(range: &R) -> (r: Option<(u32, bool)>) {
    match range.start_bound() {
        std::ops::Bound::Included(s) => Some((*s, true)),
        std::ops::Bound::Excluded(s) => Some((*s, false)),
        std::ops::Bound::Unbounded => None,
    }
}

/// Relies on `RangeBounds::end_bound`: the value and whether it is included,
/// or `None` for an unbounded end.
#[verifier::external_body]
fn end_bound_of<R: std::ops::RangeBounds<u32>>(range: &R) -> (r: Option<(u32, bool)>) {
    match range.end_bound() {
        std::ops::Bound::Included(e) => Some((*e, true)),
        std::ops::Bound::Excluded(e) => Some((*e, false)),
        std::ops::Bound::Unbounded => None,
    }
}

impl Default for RangePool {
    /// A pool holding every `u32`.
    fn default() -> (r: RangePool)
        ensures
            r.wf(),
            r.free_ids() == Set::new(|x: u32| true),
    {
        let r = RangePool::from_bounds(u32::MIN, u32::MAX);
        assert(r.free_ids() =~= Set::new(|x: u32| true));
        r
    }
}

} // verus!
