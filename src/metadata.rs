use vstd::prelude::*;

use crate::timeout::Timeout;

verus! {

/// One metadata entry as sent in a request.
#[derive(Clone, Debug, PartialEq, Eq)]
pub struct KeyValue {
    pub key: String,
    pub value: String,
}

/// The values that `kvs` gives for `key`, in the order they appear.
pub open spec fn values_for(kvs: Seq<KeyValue>, key: Seq<char>) -> Seq<Seq<char>>
    decreases kvs.len(),
{
    if kvs.len() == 0 {
        Seq::empty()
    } else {
        let last = kvs.last();
        let prev = values_for(kvs.drop_last(), key);
        if last.key@ == key {
            prev.push(last.value@)
        } else {
            prev
        }
    }
}

pub open spec fn strings_view(v: Seq<String>) -> Seq<Seq<char>> {
    v.map_values(|s: String| s@)
}

/// Request metadata: each key with its values in the order received.
/// Keys are compared exactly, case included.
#[derive(Clone, Debug)]
pub struct Metadata {
    keys: Vec<String>,
    values: Vec<Vec<String>>,
}

impl Metadata {
    pub closed spec fn key_seq(&self) -> Seq<Seq<char>> {
        strings_view(self.keys@)
    }

    pub closed spec fn wf(&self) -> bool {
        &&& self.keys@.len() == self.values@.len()
        &&& forall|i: int, j: int|
            0 <= i < j < self.keys@.len() ==> (#[trigger] self.keys@[i])@ != (#[trigger] self.keys@[j])@
    }

    /// The values held for `key`, empty when the key is absent.
    pub closed spec fn lookup(&self, key: Seq<char>) -> Seq<Seq<char>> {
        if exists|i: int| 0 <= i < self.keys@.len() && (#[trigger] self.keys@[i])@ == key {
            let i = choose|i: int| 0 <= i < self.keys@.len() && (#[trigger] self.keys@[i])@ == key;
            strings_view(self.values@[i]@)
        } else {
            Seq::empty()
        }
    }

    pub fn new() -> (r: Metadata)
        ensures
            r.wf(),
            forall|k: Seq<char>| #[trigger] r.lookup(k) == Seq::<Seq<char>>::empty(),
    {
        Metadata { keys: Vec::new(), values: Vec::new() }
    }

    fn position(&self, key: &String) -> (r: Option<usize>)
        requires
            self.wf(),
        ensures
            match r {
                Some(i) => i < self.keys@.len() && self.keys@[i as int]@ == key@,
                None => forall|i: int| 0 <= i < self.keys@.len() ==> (#[trigger] self.keys@[i])@ != key@,
            },
    {
        let mut i: usize = 0;
        while i < self.keys.len()
            invariant
                i <= self.keys@.len(),
                forall|j: int| 0 <= j < i ==> (#[trigger] self.keys@[j])@ != key@,
            decreases self.keys@.len() - i,
        {
            if self.keys[i] == *key {
                return Some(i);
            }
            i = i + 1;
        }
        None
    }

    /// Adds `value` after the values already held for `key`.
    pub fn append(&mut self, key: String, value: String)
        requires
            old(self).wf(),
        ensures
            final(self).wf(),
            forall|k: Seq<char>| #[trigger] final(self).lookup(k) == if k == key@ {
                old(self).lookup(k).push(value@)
            } else {
                old(self).lookup(k)
            },
    {
        let ghost old_self = *self;
        match self.position(&key) {
            Some(i) => {
                let mut vs = self.values.remove(i);
                vs.push(value);
                self.values.insert(i, vs);
                proof {
                    assert forall|k: Seq<char>| #[trigger] self.lookup(k) == if k == key@ {
                        old_self.lookup(k).push(value@)
                    } else {
                        old_self.lookup(k)
                    } by {
                        assert(self.keys@ == old_self.keys@);
                        if exists|j: int| 0 <= j < self.keys@.len() && (#[trigger] self.keys@[j])@ == k {
                            let j = choose|j: int| 0 <= j < self.keys@.len() && (#[trigger] self.keys@[j])@ == k;
                            if j == i {
                                assert(strings_view(self.values@[j]@) =~= strings_view(old_self.values@[j]@).push(value@));
                            } else {
                                assert(self.values@[j] == old_self.values@[j]);
                            }
                        }
                    }
                }
            },
            None => {
                let mut vs: Vec<String> = Vec::new();
                vs.push(value);
                self.keys.push(key);
                self.values.push(vs);
                proof {
                    let n = old_self.keys@.len() as int;
                    assert forall|k: Seq<char>| #[trigger] self.lookup(k) == if k == key@ {
                        old_self.lookup(k).push(value@)
                    } else {
                        old_self.lookup(k)
                    } by {
                        if k == key@ {
                            assert(self.keys@[n]@ == k);
                            assert(strings_view(self.values@[n]@) =~= seq![value@]);
                            assert(old_self.lookup(k) =~= Seq::<Seq<char>>::empty());
                        } else if exists|j: int| 0 <= j < self.keys@.len() && (#[trigger] self.keys@[j])@ == k {
                            let j = choose|j: int| 0 <= j < self.keys@.len() && (#[trigger] self.keys@[j])@ == k;
                            assert(j < n);
                            assert(old_self.keys@[j]@ == k);
                        } else {
                            assert forall|j: int| 0 <= j < old_self.keys@.len() implies (#[trigger] old_self.keys@[j])@ != k by {
                                assert(self.keys@[j] == old_self.keys@[j]);
                            }
                        }
                    }
                }
            },
        }
    }

    /// Groups the entries of a request by key, keeping the order of each
    /// key's values.
    pub fn from_pairs(kvs: &Vec<KeyValue>) -> (r: Metadata)
        ensures
            r.wf(),
            forall|k: Seq<char>| #[trigger] r.lookup(k) == values_for(kvs@, k),
    {
        let mut m = Metadata::new();
        let mut i: usize = 0;
        while i < kvs.len()
            invariant
                i <= kvs@.len(),
                m.wf(),
                forall|k: Seq<char>| #[trigger] m.lookup(k) == values_for(kvs@.subrange(0, i as int), k),
            decreases kvs@.len() - i,
        {
            let kv = &kvs[i];
            m.append(kv.key.clone(), kv.value.clone());
            proof {
                let s = kvs@.subrange(0, i + 1);
                assert(s.drop_last() =~= kvs@.subrange(0, i as int));
                assert(s.last() == kvs@[i as int]);
            }
            i = i + 1;
        }
        assert(kvs@.subrange(0, kvs@.len() as int) =~= kvs@);
        m
    }

    /// The values held for `key`.
    pub fn get(&self, key: &String) -> (r: Option<&Vec<String>>)
        requires
            self.wf(),
        ensures
            match r {
                Some(v) => strings_view(v@) == self.lookup(key@),
                None => self.lookup(key@) == Seq::<Seq<char>>::empty(),
            },
    {
        match self.position(key) {
            Some(i) => Some(&self.values[i]),
            None => None,
        }
    }

    /// Every key and value as request entries: keys in the order they were
    /// first added, each key's values in order.
    pub fn iter(&self) -> (r: Vec<KeyValue>)
        requires
            self.wf(),
        ensures
            forall|k: Seq<char>| #[trigger] values_for(r@, k) == self.lookup(k),
    {
        let mut out: Vec<KeyValue> = Vec::new();
        let mut i: usize = 0;
        while i < self.keys.len()
            invariant
                self.wf(),
                i <= self.keys@.len(),
                forall|k: Seq<char>| #[trigger] values_for(out@, k) == if exists|j: int| 0 <= j < i && (#[trigger] self.keys@[j])@ == k {
                    self.lookup(k)
                } else {
                    Seq::<Seq<char>>::empty()
                },
            decreases self.keys@.len() - i,
        {
            let vs = &self.values[i];
            let ghost before = out@;
            let mut j: usize = 0;
            while j < vs.len()
                invariant
                    i < self.keys@.len(),
                    vs == &self.values@[i as int],
                    j <= vs@.len(),
                    out@.len() == before.len() + j,
                    out@.subrange(0, before.len() as int) == before,
                    forall|t: int| before.len() <= t < out@.len() ==> (#[trigger] out@[t]).key@ == self.keys@[i as int]@
                        && out@[t].value@ == vs@[t - before.len()]@,
                decreases vs@.len() - j,
            {
                out.push(KeyValue { key: self.keys[i].clone(), value: vs[j].clone() });
                proof {
                    assert(out@.subrange(0, before.len() as int) =~= before);
                }
                j = j + 1;
            }
            proof {
                lemma_values_for_append(before, out@, self.keys@[i as int]@, strings_view(vs@));
                assert forall|k: Seq<char>| #[trigger] values_for(out@, k) == if exists|j: int| 0 <= j < i + 1 && (#[trigger] self.keys@[j])@ == k {
                    self.lookup(k)
                } else {
                    Seq::<Seq<char>>::empty()
                } by {
                    let key_i = self.keys@[i as int]@;
                    if k == key_i {
                        assert(self.keys@[i as int]@ == k);
                        assert(!exists|j: int| 0 <= j < i && (#[trigger] self.keys@[j])@ == k);
                        let c = choose|c: int| 0 <= c < self.keys@.len() && (#[trigger] self.keys@[c])@ == k;
                        assert(c == i);
                        assert(values_for(before, k) =~= Seq::<Seq<char>>::empty());
                        assert(Seq::<Seq<char>>::empty() + strings_view(vs@) =~= strings_view(vs@));
                    } else {
                        if exists|j: int| 0 <= j < i + 1 && (#[trigger] self.keys@[j])@ == k {
                            let j = choose|j: int| 0 <= j < i + 1 && (#[trigger] self.keys@[j])@ == k;
                            assert(j < i);
                        }
                    }
                }
            }
            i = i + 1;
        }
        out
    }
}

/// Appending entries that all carry key `key`, with values `vals`, adds
/// `vals` to that key's values and nothing to any other key's.
proof fn lemma_values_for_append(before: Seq<KeyValue>, after: Seq<KeyValue>, key: Seq<char>, vals: Seq<Seq<char>>)
    requires
        after.len() == before.len() + vals.len(),
        after.subrange(0, before.len() as int) == before,
        forall|t: int| before.len() <= t < after.len() ==> (#[trigger] after[t]).key@ == key
            && after[t].value@ == vals[t - before.len()],
    ensures
        forall|k: Seq<char>| #[trigger] values_for(after, k) == if k == key {
            values_for(before, k) + vals
        } else {
            values_for(before, k)
        },
    decreases vals.len(),
{
    if vals.len() == 0 {
        assert(after =~= before);
        assert forall|k: Seq<char>| #[trigger] values_for(after, k) == if k == key {
            values_for(before, k) + vals
        } else {
            values_for(before, k)
        } by {
            assert(values_for(before, k) + vals =~= values_for(before, k));
        }
    } else {
        let shorter = after.drop_last();
        let vs = vals.drop_last();
        assert(shorter.subrange(0, before.len() as int) =~= before);
        assert forall|t: int| before.len() <= t < shorter.len() implies (#[trigger] shorter[t]).key@ == key
            && shorter[t].value@ == vs[t - before.len()] by {
            assert(shorter[t] == after[t]);
        }
        lemma_values_for_append(before, shorter, key, vs);
        assert forall|k: Seq<char>| #[trigger] values_for(after, k) == if k == key {
            values_for(before, k) + vals
        } else {
            values_for(before, k)
        } by {
            assert(after.drop_last() == shorter);
            let last = after.last();
            assert(last == after[after.len() - 1]);
            assert(last.key@ == key);
            assert(last.value@ == vals.last());
            assert(after.len() > 0);
            assert(values_for(after, k) == if last.key@ == k {
                values_for(shorter, k).push(last.value@)
            } else {
                values_for(shorter, k)
            });
            assert(values_for(shorter, k) == if k == key {
                values_for(before, k) + vs
            } else {
                values_for(before, k)
            });
            if k == key {
                assert(values_for(before, k) + vals =~= (values_for(before, k) + vs).push(vals.last()));
            }
        }
    }
}

/// What a handler knows of its call: the request's metadata and timeout.
#[derive(Clone, Debug)]
pub struct Context {
    pub metadata: Metadata,
    pub timeout: Timeout,
}

impl Context {
    /// The context of a request with these metadata entries and this
    /// `timeout_nano` field.
    pub fn from_request(metadata: &Vec<KeyValue>, timeout_nano: i64) -> (r: Context)
        ensures
            r.metadata.wf(),
            forall|k: Seq<char>| #[trigger] r.metadata.lookup(k) == values_for(metadata@, k),
            r.timeout == (if timeout_nano <= 0 { Timeout::Unlimited } else { Timeout::Duration(timeout_nano as u64) }),
    {
        Context { metadata: Metadata::from_pairs(metadata), timeout: Timeout::from_nanos(timeout_nano) }
    }
}

/// Listing metadata as request entries and grouping them again gives the
/// same values for every key.
pub proof fn lemma_metadata_round_trip(m: Metadata, listed: Seq<KeyValue>, regrouped: Metadata)
    requires
        m.wf(),
        forall|k: Seq<char>| #[trigger] values_for(listed, k) == m.lookup(k),
        forall|k: Seq<char>| #[trigger] regrouped.lookup(k) == values_for(listed, k),
    ensures
        forall|k: Seq<char>| #[trigger] regrouped.lookup(k) == m.lookup(k),
{
    assert forall|k: Seq<char>| #[trigger] regrouped.lookup(k) == m.lookup(k) by {
        assert(regrouped.lookup(k) == values_for(listed, k));
    }
}

} // verus!
