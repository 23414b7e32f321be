use vstd::prelude::*;
use crate::text_map::TextMap;
use crate::calc::model::UpdatesPkgDetailView;
use crate::calc::updates::UpdatesPkgDetail;

verus! {

/// The answers of a response, one for each package that was taken up: a map from the
/// package's text to its answer that also keeps the order in which the packages came.
pub struct UpdateList {
    index: TextMap<usize>,
    entries: Vec<(String, UpdatesPkgDetail)>,
}

/// The keys `keys`, and `k` behind them where it is not among them.
pub open spec fn with_key(keys: Seq<Seq<char>>, k: Seq<char>) -> Seq<Seq<char>> {
    if keys.contains(k) {
        keys
    } else {
        keys.push(k)
    }
}

/// The keys `keys`, and behind them each text of `list` that is not yet among them, in
/// the order of `list`.
pub open spec fn with_keys(keys: Seq<Seq<char>>, list: Seq<Seq<char>>) -> Seq<Seq<char>>
    decreases list.len(),
{
    if list.len() == 0 {
        keys
    } else {
        with_key(with_keys(keys, list.drop_last()), list.last())
    }
}

/// The texts of `list` without repetition, each where it first stands.
pub open spec fn distinct(list: Seq<Seq<char>>) -> Seq<Seq<char>> {
    with_keys(Seq::empty(), list)
}

/// A text is among the keys and the list's additions exactly when it is among the keys
/// or in the list.
pub proof fn lemma_with_keys_contains(keys: Seq<Seq<char>>, list: Seq<Seq<char>>, k: Seq<char>)
    ensures
        with_keys(keys, list).contains(k) <==> keys.contains(k) || list.contains(k),
    decreases list.len(),
{
    if list.len() > 0 {
        let head = list.drop_last();
        lemma_with_keys_contains(keys, head, k);
        let before = with_keys(keys, head);
        let all = with_keys(keys, list);
        if all.contains(k) && !before.contains(k) {
            let j = choose|j: int| 0 <= j < all.len() && all[j] == k;
            if j < before.len() {
                assert(before[j] == k);
            }
            assert(list[list.len() - 1] == k);
        }
        if before.contains(k) {
            let j = choose|j: int| 0 <= j < before.len() && before[j] == k;
            assert(all[j] == k);
        }
        if list.contains(k) {
            let j = choose|j: int| 0 <= j < list.len() && list[j] == k;
            if j < head.len() {
                assert(head[j] == k);
            } else if !before.contains(k) {
                assert(all[all.len() - 1] == k);
            }
        }
        if head.contains(k) {
            let j = choose|j: int| 0 <= j < head.len() && head[j] == k;
            assert(list[j] == k);
        }
    }
}

/// A list of texts that are all among the keys adds nothing to them.
pub proof fn lemma_with_keys_known(keys: Seq<Seq<char>>, list: Seq<Seq<char>>)
    requires
        forall|j: int| 0 <= j < list.len() ==> keys.contains(#[trigger] list[j]),
    ensures
        with_keys(keys, list) == keys,
    decreases list.len(),
{
    if list.len() > 0 {
        let head = list.drop_last();
        assert forall|j: int| 0 <= j < head.len() implies keys.contains(#[trigger] head[j]) by {
            assert(head[j] == list[j]);
        }
        lemma_with_keys_known(keys, head);
        assert(keys.contains(list[list.len() - 1]));
    }
}

impl UpdateList {
    /// The index finds each entry, and nothing else.
    #[verifier::type_invariant]
    closed spec fn indexed(&self) -> bool {
        &&& forall|k: Seq<char>| #[trigger]
            self.index@.contains_key(k) ==> self.index@[k] < self.entries@.len()
                && self.entries@[self.index@[k] as int].0@ == k
        &&& forall|i: int|
            0 <= i < self.entries@.len() ==> self.index@.contains_key(
                (#[trigger] self.entries@[i]).0@,
            ) && self.index@[self.entries@[i].0@] == i
    }

    /// The texts of the packages, in the order in which they came.
    pub closed spec fn keys(&self) -> Seq<Seq<char>> {
        Seq::new(self.entries@.len(), |i: int| self.entries@[i].0@)
    }
}

impl View for UpdateList {
    type V = Map<Seq<char>, UpdatesPkgDetailView>;

    closed spec fn view(&self) -> Map<Seq<char>, UpdatesPkgDetailView> {
        Map::new(
            |k: Seq<char>| self.index@.contains_key(k),
            |k: Seq<char>| self.entries@[self.index@[k] as int].1@,
        )
    }
}

impl UpdateList {
    /// A list that holds nothing.
    pub fn new() -> (r: UpdateList)
        ensures
            r@ == Map::<Seq<char>, UpdatesPkgDetailView>::empty(),
            r.keys() == Seq::<Seq<char>>::empty(),
    {
        let r = UpdateList { index: TextMap::new(), entries: Vec::new() };
        assert(r@ =~= Map::<Seq<char>, UpdatesPkgDetailView>::empty());
        assert(r.keys() =~= Seq::<Seq<char>>::empty());
        r
    }

    /// The number of packages that have an answer.
    pub fn len(&self) -> (r: usize)
        ensures
            r == self.keys().len(),
    {
        self.entries.len()
    }

    /// The answer for the package `k`.
    pub fn get(&self, k: &str) -> (r: Option<&UpdatesPkgDetail>)
        ensures
            match r {
                Some(d) => self@.contains_key(k@) && d@ == self@[k@],
                None => !self@.contains_key(k@),
            },
    {
        proof {
            use_type_invariant(self);
        }
        match self.index.get(k) {
            Some(i) => Some(&self.entries[*i].1),
            None => None,
        }
    }

    /// The packages and their answers, in the order in which the packages came: each
    /// package of the map once, with its answer.
    pub fn entries(&self) -> (r: &Vec<(String, UpdatesPkgDetail)>)
        ensures
            package_keys(r@) == self.keys(),
            package_keys(r@).no_duplicates(),
            forall|k: Seq<char>| package_keys(r@).contains(k) <==> self@.contains_key(k),
            forall|i: int| 0 <= i < r@.len() ==> (#[trigger] r@[i]).1@ == self@[r@[i].0@],
    {
        proof {
            use_type_invariant(self);
            let keys = self.keys();
            assert(package_keys(self.entries@) =~= keys);
            assert forall|k: Seq<char>| keys.contains(k) <==> self@.contains_key(k) by {
                if keys.contains(k) {
                    let i = choose|i: int| 0 <= i < keys.len() && keys[i] == k;
                    assert(self.entries@[i].0@ == k);
                }
                if self@.contains_key(k) {
                    assert(keys[self.index@[k] as int] == k);
                }
            }
            assert forall|i: int, j: int|
                0 <= i < keys.len() && 0 <= j < keys.len() && i != j implies keys[i] != keys[j] by {
                assert(self.index@[self.entries@[i].0@] == i);
                assert(self.index@[self.entries@[j].0@] == j);
            }
            assert forall|i: int| 0 <= i < self.entries@.len() implies (
            #[trigger] self.entries@[i]).1@ == self@[self.entries@[i].0@] by {
                assert(self.index@[self.entries@[i].0@] == i);
            }
        }
        &self.entries
    }

    /// Enters the answer `d` for the package `k`, in the place of an earlier answer for
    /// it, or behind all others where there is none.
    pub fn insert(&mut self, k: String, d: UpdatesPkgDetail)
        ensures
            final(self)@ == old(self)@.insert(k@, d@),
            final(self).keys() == with_key(old(self).keys(), k@),
    {
        let mut taken = UpdateList::new();
        core::mem::swap(self, &mut taken);
        proof {
            use_type_invariant(&taken);
            let keys = taken.keys();
            assert(keys.contains(k@) <==> taken@.contains_key(k@)) by {
                if keys.contains(k@) {
                    let i = choose|i: int| 0 <= i < keys.len() && keys[i] == k@;
                    assert(taken.entries@[i].0@ == k@);
                }
                if taken@.contains_key(k@) {
                    assert(keys[taken.index@[k@] as int] == k@);
                }
            }
        }
        let UpdateList { index, entries } = taken;
        let mut index = index;
        let mut entries = entries;
        let ghost index_before = index@;
        let ghost entries_before = entries@;
        let n = entries.len();
        let at = match index.get(k.as_str()) {
            Some(i) => Some(*i),
            None => None,
        };
        match at {
            Some(i) => {
                entries.set(i, (k, d));
            },
            None => {
                index.insert(k.clone(), n);
                entries.push((k, d));
            },
        }
        proof {
            assert forall|i: int| 0 <= i < entries@.len() implies index@.contains_key(
                (#[trigger] entries@[i]).0@,
            ) && index@[entries@[i].0@] == i by {
                if i < entries_before.len() {
                    assert(entries@[i].0@ == entries_before[i].0@);
                    assert(index_before.contains_key(entries_before[i].0@));
                }
            }
        }
        *self = UpdateList { index, entries };
        proof {
            if at is Some {
                assert(final(self).keys() =~= old(self).keys());
            } else {
                assert(final(self).keys() =~= old(self).keys().push(k@));
            }
            assert(final(self)@ =~= old(self)@.insert(k@, d@));
        }
    }
}

/// The texts of a list of packages with their answers.
pub open spec fn package_keys(list: Seq<(String, UpdatesPkgDetail)>) -> Seq<Seq<char>> {
    Seq::new(list.len(), |i: int| list[i].0@)
}

} // verus!
