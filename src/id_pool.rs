use vstd::prelude::*;
use std::collections::BTreeMap;

verus! {

broadcast use vstd::std_specs::btree::group_btree_axioms;

/// The streams open on a connection: each claimed id with the value that
/// routes its frames. An id is owned by at most one stream at a time.
pub struct IdPool<T> {
    used: BTreeMap<u32, T>,
}

impl<T> IdPool<T> {
    pub closed spec fn view(&self) -> Map<u32, T> {
        self.used@
    }

    pub fn new() -> (r: IdPool<T>)
        ensures
            r@ == Map::<u32, T>::empty(),
    {
        IdPool { used: BTreeMap::new() }
    }

    /// Claims `id` for a new stream, unless a stream already owns it.
    pub fn claim(&mut self, id: u32, value: T) -> (r: bool)
        ensures
            r == !old(self)@.contains_key(id),
            r ==> final(self)@ == old(self)@.insert(id, value),
            !r ==> final(self)@ == old(self)@,
    {
        proof {
            reveal(vstd::laws_cmp::obeys_cmp);
        }
        if self.used.contains_key(&id) {
            return false;
        }
        self.used.insert(id, value);
        true
    }

    /// The value of the stream that owns `id`, if one does.
    pub fn get(&self, id: u32) -> (r: Option<&T>)
        ensures
            match r {
                Some(v) => self@.contains_key(id) && *v == self@[id],
                None => !self@.contains_key(id),
            },
    {
        self.used.get(&id)
    }

    /// Frees `id`; whether a stream owned it.
    pub fn release(&mut self, id: u32) -> (r: bool)
        ensures
            r == old(self)@.contains_key(id),
            final(self)@ == old(self)@.remove(id),
    {
        let removed = self.used.remove(&id);
        match removed {
            Some(_) => true,
            None => false,
        }
    }

    /// Frees every id of `ids`, as the streams that owned them have ended.
    pub fn recycle(&mut self, ids: &Vec<u32>)
        ensures
            final(self)@ == old(self)@.remove_keys(Set::new(|x: u32| ids@.contains(x))),
    {
        let mut i: usize = 0;
        while i < ids.len()
            invariant
                i <= ids@.len(),
                self@ == old(self)@.remove_keys(Set::new(|x: u32| ids@.subrange(0, i as int).contains(x))),
            decreases ids@.len() - i,
        {
            let ghost before = self@;
            self.release(ids[i]);
            proof {
                let prev = ids@.subrange(0, i as int);
                let next = ids@.subrange(0, i + 1);
                assert(next =~= prev.push(ids@[i as int]));
                assert(Set::new(|x: u32| next.contains(x)) =~= Set::new(|x: u32| prev.contains(x)).insert(ids@[i as int])) by {
                    assert forall|x: u32| next.contains(x) == (prev.contains(x) || x == ids@[i as int]) by {
                        if next.contains(x) {
                            let j = choose|j: int| 0 <= j < next.len() && next[j] == x;
                            if j < i {
                                assert(prev[j] == x);
                            }
                        }
                        if prev.contains(x) {
                            let j = choose|j: int| 0 <= j < prev.len() && prev[j] == x;
                            assert(next[j] == x);
                        }
                        if x == ids@[i as int] {
                            assert(next[i as int] == x);
                        }
                    }
                }
                assert(self@ =~= old(self)@.remove_keys(Set::new(|x: u32| next.contains(x))));
            }
            i = i + 1;
        }
        assert(ids@.subrange(0, ids@.len() as int) =~= ids@);
    }
}

/// Where the connection reader sends an inbound frame.
#[derive(Clone, Copy, Debug, PartialEq, Eq, Structural)]
pub enum Route<T> {
    /// To the stream that owns the frame's id.
    Stream(T),
    /// To the server's accept side: no stream owns the id.
    Stray,
}

/// Routes a frame of stream `id`: to its stream when one owns the id, else
/// to the stray frames.
pub fn route_frame<T: Copy>(pool: &IdPool<T>, id: u32) -> (r: Route<T>)
    ensures
        pool@.contains_key(id) ==> r == Route::Stream(pool@[id]),
        !pool@.contains_key(id) ==> r == Route::<T>::Stray,
{
    match pool.get(id) {
        Some(v) => Route::Stream(*v),
        None => Route::Stray,
    }
}

} // verus!
