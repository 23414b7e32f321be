use vstd::prelude::*;
use crate::text_map::TextMap;
use vstd::string::StringExecFns;
use crate::cache::Evr;
use crate::cache::EvrView;

verus! {

/// The key under which an epoch, version and release are filed: version, colon, release.
pub open spec fn bucket_key(e: EvrView) -> Seq<char> {
    e.version + seq![':'] + e.release
}

/// The id of the first entry of `bucket` that holds `e`.
pub open spec fn first_match(bucket: Seq<(Evr, i64)>, e: EvrView) -> Option<i64>
    decreases bucket.len(),
{
    if bucket.len() == 0 {
        None
    } else if bucket[0].0@ == e {
        Some(bucket[0].1)
    } else {
        first_match(bucket.skip(1), e)
    }
}

/// A map from epoch, version and release to an id. Entries are filed by version and
/// release; within one file the first entry that holds the whole key counts.
pub struct EvrIndex {
    buckets: TextMap<Vec<(Evr, i64)>>,
}

impl EvrIndex {
    /// The id filed under `e`, if any.
    pub closed spec fn lookup(&self, e: EvrView) -> Option<i64> {
        if self.buckets@.contains_key(bucket_key(e)) {
            first_match(self.buckets@[bucket_key(e)]@, e)
        } else {
            None
        }
    }
}

impl View for EvrIndex {
    type V = Map<EvrView, i64>;

    closed spec fn view(&self) -> Map<EvrView, i64> {
        Map::new(|e: EvrView| self.lookup(e) is Some, |e: EvrView| self.lookup(e)->0)
    }
}

fn key_of(evr: &Evr) -> (r: String)
    ensures
        r@ == bucket_key(evr@),
{
    proof {
        reveal_strlit(":");
    }
    let mut key = String::new();
    key.append(evr.1.as_str());
    key.append(":");
    key.append(evr.2.as_str());
    assert(key@ =~= bucket_key(evr@));
    key
}

impl Evr {
    /// Whether two values hold the same epoch, version and release.
    pub fn same(&self, other: &Evr) -> (r: bool)
        ensures
            r == (self@ == other@),
    {
        self.0 == other.0 && self.1 == other.1 && self.2 == other.2
    }
}

fn find_in_bucket(bucket: &Vec<(Evr, i64)>, evr: &Evr) -> (r: Option<i64>)
    ensures
        r == first_match(bucket@, evr@),
{
    let mut i: usize = 0;
    proof {
        assert(bucket@.skip(0) == bucket@);
    }
    while i < bucket.len()
        invariant
            i <= bucket.len(),
            first_match(bucket@, evr@) == first_match(bucket@.skip(i as int), evr@),
        decreases bucket.len() - i,
    {
        proof {
            assert(bucket@.skip(i as int)[0] == bucket@[i as int]);
            assert(bucket@.skip(i as int).skip(1) == bucket@.skip(i + 1));
        }
        if bucket[i].0.same(evr) {
            return Some(bucket[i].1);
        }
        i += 1;
    }
    None
}

impl EvrIndex {
    /// An index that holds nothing.
    pub fn new() -> (r: EvrIndex)
        ensures
            r@ == Map::<EvrView, i64>::empty(),
    {
        let r = EvrIndex { buckets: TextMap::new() };
        assert(r@ =~= Map::<EvrView, i64>::empty());
        r
    }

    /// The id filed under `evr`.
    pub fn get(&self, evr: &Evr) -> (r: Option<i64>)
        ensures
            r == (if self@.contains_key(evr@) {
                Some(self@[evr@])
            } else {
                None
            }),
    {
        let key = key_of(evr);
        match self.buckets.get(key.as_str()) {
            Some(bucket) => find_in_bucket(bucket, evr),
            None => None,
        }
    }

    /// Files `id` under `evr`; an earlier id under the same key no longer counts.
    pub fn insert(&mut self, evr: Evr, id: i64)
        ensures
            final(self)@ == old(self)@.insert(evr@, id),
    {
        let key = key_of(&evr);
        let ghost e = evr@;
        let ghost before: Seq<(Evr, i64)> = if self.buckets@.contains_key(key@) {
            self.buckets@[key@]@
        } else {
            Seq::empty()
        };
        let mut bucket: Vec<(Evr, i64)> = Vec::new();
        bucket.push((evr, id));
        match self.buckets.get(key.as_str()) {
            Some(old_bucket) => {
                let mut i: usize = 0;
                while i < old_bucket.len()
                    invariant
                        i <= old_bucket.len(),
                        old_bucket@ == before,
                        bucket@.len() == i + 1,
                        bucket@[0].0@ == e,
                        bucket@[0].1 == id,
                        bucket@.skip(1) == before.take(i as int),
                    decreases old_bucket.len() - i,
                {
                    let entry = (old_bucket[i].0.clone(), old_bucket[i].1);
                    bucket.push(entry);
                    proof {
                        assert(bucket@.skip(1) =~= before.take(i as int).push(before[i as int]));
                        assert(before.take(i + 1) =~= before.take(i as int).push(before[i as int]));
                    }
                    i += 1;
                }
                proof {
                    assert(before.take(i as int) == before);
                }
            },
            None => {
                proof {
                    assert(bucket@.skip(1) =~= before);
                }
            },
        }
        proof {
            assert forall|q: EvrView| q != e implies first_match(bucket@, q) == first_match(
                before,
                q,
            ) by {
                assert(bucket@[0].0@ != q);
            }
            assert(first_match(bucket@, e) == Some(id));
            assert(first_match(Seq::<(Evr, i64)>::empty(), e) is None);
        }
        self.buckets.insert(key, bucket);
        proof {
            assert forall|q: EvrView| final(self).lookup(q) == (if q == e {
                Some(id)
            } else {
                old(self).lookup(q)
            }) by {
                if q != e && bucket_key(q) == bucket_key(e) {
                    assert(first_match(Seq::<(Evr, i64)>::empty(), q) is None);
                }
            }
            assert(final(self)@ =~= old(self)@.insert(e, id));
        }
    }
}

} // verus!
