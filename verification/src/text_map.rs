use std::collections::HashMap;
use std::hash::Hasher;
use fnv::FnvHasher;
use vstd::prelude::*;
use vstd::string::StringExecFns;
use vstd::utf8::encode_utf8;

verus! {

/// The state of the FNV-1a hash after the given bytes: it starts from the offset basis,
/// and each byte is mixed in by exclusive or and a multiplication that wraps around.
pub open spec fn fnv1a(bytes: Seq<u8>) -> u64
    decreases bytes.len(),
{
    if bytes.len() == 0 {
        0xcbf29ce484222325u64
    } else {
        (((fnv1a(bytes.drop_last()) ^ (bytes.last() as u64)) as int * 0x100000001b3)
            % 0x1_0000_0000_0000_0000) as u64
    }
}

/// The digest under which a text is filed: the FNV-1a hash of its bytes in UTF-8.
pub open spec fn text_digest(text: Seq<char>) -> u64 {
    fnv1a(encode_utf8(text))
}

/// `FnvHasher` of the `fnv` crate, from `default` through one `write` to `finish`: the
/// FNV-1a hash of the bytes of `text`.
#[verifier::external_body]
fn fnv_digest(text: &str) -> (r: u64)
    ensures
        r == text_digest(text@),
{
    let mut hasher = FnvHasher::default();
    hasher.write(text.as_bytes());
    hasher.finish()
}

/// The position of the first entry of `bucket` with the key `k`, or -1.
pub open spec fn first_entry<V>(bucket: Seq<(String, V)>, k: Seq<char>) -> int
    decreases bucket.len(),
{
    if bucket.len() == 0 {
        -1
    } else if bucket[0].0@ == k {
        0
    } else {
        let rest = first_entry(bucket.skip(1), k);
        if rest < 0 {
            -1
        } else {
            rest + 1
        }
    }
}

pub proof fn lemma_first_entry<V>(bucket: Seq<(String, V)>, k: Seq<char>)
    ensures
        -1 <= first_entry(bucket, k) < bucket.len(),
        first_entry(bucket, k) >= 0 ==> bucket[first_entry(bucket, k)].0@ == k,
        forall|j: int|
            0 <= j < bucket.len() && (first_entry(bucket, k) < 0 || j < first_entry(bucket, k))
                ==> (#[trigger] bucket[j]).0@ != k,
    decreases bucket.len(),
{
    if bucket.len() > 0 && bucket[0].0@ != k {
        let rest = bucket.skip(1);
        lemma_first_entry(rest, k);
        let r = first_entry(rest, k);
        if r >= 0 {
            assert(rest[r] == bucket[r + 1]);
        }
        assert forall|j: int|
            0 <= j < bucket.len() && (first_entry(bucket, k) < 0 || j < first_entry(bucket, k))
                implies (#[trigger] bucket[j]).0@ != k by {
            if j > 0 {
                assert(rest[j - 1] == bucket[j]);
            }
        }
    }
}

pub proof fn lemma_first_entry_is<V>(bucket: Seq<(String, V)>, k: Seq<char>, i: int)
    requires
        0 <= i < bucket.len(),
        bucket[i].0@ == k,
        forall|j: int| 0 <= j < i ==> (#[trigger] bucket[j]).0@ != k,
    ensures
        first_entry(bucket, k) == i,
{
    lemma_first_entry(bucket, k);
}

pub proof fn lemma_first_entry_none<V>(bucket: Seq<(String, V)>, k: Seq<char>)
    requires
        forall|j: int| 0 <= j < bucket.len() ==> (#[trigger] bucket[j]).0@ != k,
    ensures
        first_entry(bucket, k) < 0,
{
    lemma_first_entry(bucket, k);
}

/// The value of the first entry of `bucket` with the key `k`.
pub open spec fn bucket_value<V>(bucket: Seq<(String, V)>, k: Seq<char>) -> Option<V> {
    if first_entry(bucket, k) >= 0 {
        Some(bucket[first_entry(bucket, k)].1)
    } else {
        None
    }
}

/// A map from text to values. Entries are filed by the digest of their key; among the
/// entries of one digest the first with the whole key counts.
#[verifier::reject_recursive_types(V)]
pub struct TextMap<V> {
    buckets: HashMap<u64, Vec<(String, V)>>,
}

impl<V> TextMap<V> {
    /// The value that the map holds for `k`, if any.
    pub closed spec fn lookup(&self, k: Seq<char>) -> Option<V> {
        if self.buckets@.contains_key(text_digest(k)) {
            bucket_value(self.buckets@[text_digest(k)]@, k)
        } else {
            None
        }
    }
}

impl<V> View for TextMap<V> {
    type V = Map<Seq<char>, V>;

    closed spec fn view(&self) -> Map<Seq<char>, V> {
        Map::new(|k: Seq<char>| self.lookup(k) is Some, |k: Seq<char>| self.lookup(k)->0)
    }
}

fn find_entry<V>(bucket: &Vec<(String, V)>, key: &String) -> (r: Option<usize>)
    ensures
        match r {
            Some(i) => i < bucket@.len() && i == first_entry(bucket@, key@),
            None => first_entry(bucket@, key@) < 0,
        },
{
    let mut i: usize = 0;
    while i < bucket.len()
        invariant
            i <= bucket.len(),
            forall|j: int| 0 <= j < i ==> (#[trigger] bucket@[j]).0@ != key@,
        decreases bucket.len() - i,
    {
        if bucket[i].0 == *key {
            proof {
                lemma_first_entry_is(bucket@, key@, i as int);
            }
            return Some(i);
        }
        i += 1;
    }
    proof {
        lemma_first_entry_none(bucket@, key@);
    }
    None
}

/// Enters the value `v` for the key `k` in a bucket: in the place of the first entry
/// with that key, or behind all entries where there is none.
fn put_entry<V>(bucket: &mut Vec<(String, V)>, k: String, v: V)
    ensures
        forall|q: Seq<char>|
            #[trigger] bucket_value(final(bucket)@, q) == (if q == k@ {
                Some(v)
            } else {
                bucket_value(old(bucket)@, q)
            }),
{
    let ghost key = k@;
    let ghost before = bucket@;
    match find_entry(bucket, &k) {
        Some(i) => {
            bucket.set(i, (k, v));
            proof {
                lemma_first_entry(before, key);
                assert(bucket@ == before.update(i as int, bucket@[i as int]));
                assert forall|j: int| 0 <= j < before.len() implies (#[trigger] bucket@[j]).0@
                    == before[j].0@ by {
                    if j != i {
                        assert(bucket@[j] == before[j]);
                    }
                }
                assert forall|q: Seq<char>| first_entry(bucket@, q) == first_entry(before, q) by {
                    lemma_first_entry(before, q);
                    let p = first_entry(before, q);
                    if p >= 0 {
                        assert forall|j: int| 0 <= j < p implies (#[trigger] bucket@[j]).0@ != q by {
                            assert(bucket@[j].0@ == before[j].0@);
                        }
                        assert(bucket@[p].0@ == before[p].0@);
                        lemma_first_entry_is(bucket@, q, p);
                    } else {
                        assert forall|j: int| 0 <= j < bucket@.len() implies (
                        #[trigger] bucket@[j]).0@ != q by {
                            assert(bucket@[j].0@ == before[j].0@);
                        }
                        lemma_first_entry_none(bucket@, q);
                    }
                }
            }
        },
        None => {
            bucket.push((k, v));
            proof {
                assert forall|q: Seq<char>|
                    first_entry(bucket@, q) == (if q == key {
                        before.len() as int
                    } else {
                        first_entry(before, q)
                    }) by {
                    lemma_first_entry(before, q);
                    let p = first_entry(before, q);
                    if p >= 0 {
                        assert forall|j: int| 0 <= j < p implies (#[trigger] bucket@[j]).0@ != q by {
                            assert(bucket@[j] == before[j]);
                        }
                        assert(bucket@[p] == before[p]);
                        lemma_first_entry_is(bucket@, q, p);
                    } else if q == key {
                        assert forall|j: int| 0 <= j < before.len() implies (
                        #[trigger] bucket@[j]).0@ != q by {
                            assert(bucket@[j] == before[j]);
                        }
                        lemma_first_entry_is(bucket@, q, before.len() as int);
                    } else {
                        assert forall|j: int| 0 <= j < bucket@.len() implies (
                        #[trigger] bucket@[j]).0@ != q by {
                            if j < before.len() {
                                assert(bucket@[j] == before[j]);
                            }
                        }
                        lemma_first_entry_none(bucket@, q);
                    }
                }
            }
        },
    }
    proof {
        assert forall|q: Seq<char>|
            #[trigger] bucket_value(bucket@, q) == (if q == key {
                Some(v)
            } else {
                bucket_value(before, q)
            }) by {
            lemma_first_entry(before, q);
            lemma_first_entry(bucket@, q);
        }
    }
}

impl<V> TextMap<V> {
    /// A map that holds nothing.
    pub fn new() -> (r: TextMap<V>)
        ensures
            r@ == Map::<Seq<char>, V>::empty(),
    {
        let r = TextMap { buckets: HashMap::new() };
        assert(r@ =~= Map::<Seq<char>, V>::empty());
        r
    }

    /// The digest under which the map files the key `k`.
    pub fn digest_of(k: &str) -> (r: u64)
        ensures
            r == text_digest(k@),
    {
        fnv_digest(k)
    }

    /// The value for the key `k`.
    pub fn get(&self, k: &str) -> (r: Option<&V>)
        ensures
            match r {
                Some(v) => self@.contains_key(k@) && *v == self@[k@],
                None => !self@.contains_key(k@),
            },
    {
        let key = String::from_str(k);
        match self.buckets.get(&fnv_digest(k)) {
            Some(bucket) => match find_entry(bucket, &key) {
                Some(i) => Some(&bucket[i].1),
                None => None,
            },
            None => None,
        }
    }

    /// Whether the map has a value for the key `k`.
    pub fn contains_key(&self, k: &str) -> (r: bool)
        ensures
            r == self@.contains_key(k@),
    {
        self.get(k).is_some()
    }

    /// Enters the value `v` for the key `k`, in the place of an earlier value for it.
    pub fn insert(&mut self, k: String, v: V)
        ensures
            final(self)@ == old(self)@.insert(k@, v),
    {
        let digest = fnv_digest(k.as_str());
        let ghost key = k@;
        let mut bucket = match self.buckets.remove(&digest) {
            Some(b) => b,
            None => Vec::new(),
        };
        let ghost before = bucket@;
        proof {
            if !old(self).buckets@.contains_key(digest) {
                assert forall|q: Seq<char>| bucket_value(before, q) is None by {
                    lemma_first_entry_none(before, q);
                }
            }
        }
        put_entry(&mut bucket, k, v);
        let ghost after = bucket@;
        self.buckets.insert(digest, bucket);
        proof {
            assert forall|q: Seq<char>| #[trigger]
                final(self).lookup(q) == (if q == key {
                    Some(v)
                } else {
                    old(self).lookup(q)
                }) by {
                if text_digest(q) == digest {
                    assert(final(self).buckets@[digest]@ == after);
                    assert(bucket_value(after, q) == (if q == key {
                        Some(v)
                    } else {
                        bucket_value(before, q)
                    }));
                }
            }
            assert(final(self)@ =~= old(self)@.insert(key, v));
        }
    }
}

} // verus!
