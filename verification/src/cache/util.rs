use std::collections::HashMap;
use vstd::prelude::*;
use crate::text_map::TextMap;
use vstd::std_specs::iter::IteratorSpec;
use crate::cache::evr_index::EvrIndex;
use crate::cache::Evr;
use crate::cache::EvrView;

verus! {

/// The map that holds `init` and then each of the first `n` rows, a later row for a key
/// taking the place of an earlier one.
pub open spec fn inserted<V>(init: Map<i64, V>, rows: Seq<(i64, V)>, n: int) -> Map<i64, V>
    decreases n,
{
    if n <= 0 {
        init
    } else {
        inserted(init, rows, n - 1).insert(rows[n - 1].0, rows[n - 1].1)
    }
}

/// The smaller of two lengths.
pub open spec fn shorter(a: int, b: int) -> int {
    if a <= b {
        a
    } else {
        b
    }
}

/// The map that pairs the first `n` keys with the first `n` values by position, a later
/// pair for a key taking the place of an earlier one.
pub open spec fn paired_upto<K, V>(keys: Seq<K>, vals: Seq<V>, n: int) -> Map<K, V> {
    paired_onto(Map::empty(), keys, vals, n)
}

/// The map that holds `init` and then the first `n` keys paired with the first `n`
/// values by position, a later pair for a key taking the place of an earlier one.
pub open spec fn paired_onto<K, V>(init: Map<K, V>, keys: Seq<K>, vals: Seq<V>, n: int) -> Map<K, V>
    decreases n,
{
    if n <= 0 {
        init
    } else {
        paired_onto(init, keys, vals, n - 1).insert(keys[n - 1], vals[n - 1])
    }
}

/// The map that pairs keys and values by position, as far as both columns reach.
pub open spec fn paired<K, V>(keys: Seq<K>, vals: Seq<V>) -> Map<K, V> {
    paired_upto(keys, vals, shorter(keys.len() as int, vals.len() as int))
}

/// The lists of `init`, with each of the first `n` values appended to the list of the
/// key at its position.
pub open spec fn grouped_onto<K, V>(init: Map<K, Seq<V>>, keys: Seq<K>, vals: Seq<V>, n: int) -> Map<
    K,
    Seq<V>,
>
    decreases n,
{
    if n <= 0 {
        init
    } else {
        appended(grouped_onto(init, keys, vals, n - 1), keys[n - 1], vals[n - 1])
    }
}

/// The lists of `m`, with `v` appended to the list of `k`, which starts empty where `m`
/// has none.
pub open spec fn appended<K, V>(m: Map<K, Seq<V>>, k: K, v: V) -> Map<K, Seq<V>> {
    m.insert(
        k,
        (if m.contains_key(k) {
            m[k]
        } else {
            Seq::empty()
        }).push(v),
    )
}

/// For each key the values at its positions, in order, as far as both columns reach.
pub open spec fn grouped<K, V>(keys: Seq<K>, vals: Seq<V>) -> Map<K, Seq<V>> {
    grouped_onto(Map::empty(), keys, vals, shorter(keys.len() as int, vals.len() as int))
}

/// The lists of `init`, with the value of each of the first `n` rows appended to the
/// list of the row's key.
pub open spec fn grouped_rows_onto<K, V>(init: Map<K, Seq<V>>, rows: Seq<(K, V)>, n: int) -> Map<
    K,
    Seq<V>,
>
    decreases n,
{
    if n <= 0 {
        init
    } else {
        appended(grouped_rows_onto(init, rows, n - 1), rows[n - 1].0, rows[n - 1].1)
    }
}

/// The lists of `init`, with each of the first `n` values appended to the list of the
/// key at its position, a value without a key being passed over.
pub open spec fn grouped_some_onto<K, V>(
    init: Map<K, Seq<V>>,
    keys: Seq<Option<K>>,
    vals: Seq<V>,
    n: int,
) -> Map<K, Seq<V>>
    decreases n,
{
    if n <= 0 {
        init
    } else {
        let before = grouped_some_onto(init, keys, vals, n - 1);
        match keys[n - 1] {
            Some(k) => appended(before, k, vals[n - 1]),
            None => before,
        }
    }
}

/// The lists that a map of vectors holds.
pub open spec fn lists<K, V>(m: Map<K, Vec<V>>) -> Map<K, Seq<V>> {
    Map::new(|k: K| m.contains_key(k), |k: K| m[k]@)
}

/// The keys of rows.
pub open spec fn firsts<K, V>(rows: Seq<(K, V)>) -> Seq<K> {
    Seq::new(rows.len(), |i: int| rows[i].0)
}

/// The values of rows.
pub open spec fn seconds<K, V>(rows: Seq<(K, V)>) -> Seq<V> {
    Seq::new(rows.len(), |i: int| rows[i].1)
}

/// The last of the first `n` positions at which `k` stands in `keys`, or -1.
pub open spec fn last_position_of<K>(keys: Seq<K>, k: K, n: int) -> int
    decreases n,
{
    if n <= 0 {
        -1
    } else if keys[n - 1] == k {
        n - 1
    } else {
        last_position_of(keys, k, n - 1)
    }
}

/// The values at those of the first `n` positions at which `k` stands in `keys`, in
/// order.
pub open spec fn values_of<K, V>(keys: Seq<K>, vals: Seq<V>, k: K, n: int) -> Seq<V>
    decreases n,
{
    if n <= 0 {
        Seq::empty()
    } else if keys[n - 1] == k {
        values_of(keys, vals, k, n - 1).push(vals[n - 1])
    } else {
        values_of(keys, vals, k, n - 1)
    }
}

/// The list of `k` in `m`; the empty list where `m` has none.
pub open spec fn list_of<K, V>(m: Map<K, Seq<V>>, k: K) -> Seq<V> {
    if m.contains_key(k) {
        m[k]
    } else {
        Seq::empty()
    }
}

/// Where `k` last stands among the first `n` keys, it stands, and not behind.
pub proof fn lemma_last_position_of<K>(keys: Seq<K>, k: K, n: int)
    requires
        0 <= n <= keys.len(),
    ensures
        -1 <= last_position_of(keys, k, n) < n,
        last_position_of(keys, k, n) >= 0 ==> keys[last_position_of(keys, k, n)] == k,
        forall|i: int| last_position_of(keys, k, n) < i < n ==> keys[i] != k,
    decreases n,
{
    if n > 0 && keys[n - 1] != k {
        lemma_last_position_of(keys, k, n - 1);
    }
}

/// A map paired from two columns holds a key exactly when it held it before or the key
/// stands in the column, and holds for it the value at the key's last position.
pub proof fn lemma_paired_onto<K, V>(init: Map<K, V>, keys: Seq<K>, vals: Seq<V>, n: int, k: K)
    requires
        0 <= n <= keys.len(),
    ensures
        paired_onto(init, keys, vals, n).contains_key(k) <==> init.contains_key(k)
            || last_position_of(keys, k, n) >= 0,
        paired_onto(init, keys, vals, n).contains_key(k) ==> paired_onto(init, keys, vals, n)[k]
            == (if last_position_of(keys, k, n) >= 0 {
            vals[last_position_of(keys, k, n)]
        } else {
            init[k]
        }),
    decreases n,
{
    if n > 0 {
        lemma_paired_onto(init, keys, vals, n - 1, k);
    }
}

/// A map grouped from two columns holds for each key its earlier list, and behind it the
/// values at the key's positions, in order.
pub proof fn lemma_grouped_onto<K, V>(init: Map<K, Seq<V>>, keys: Seq<K>, vals: Seq<V>, n: int, k: K)
    requires
        0 <= n <= keys.len(),
    ensures
        list_of(grouped_onto(init, keys, vals, n), k) == list_of(init, k) + values_of(
            keys,
            vals,
            k,
            n,
        ),
        grouped_onto(init, keys, vals, n).contains_key(k) <==> init.contains_key(k)
            || last_position_of(keys, k, n) >= 0,
    decreases n,
{
    if n > 0 {
        lemma_grouped_onto(init, keys, vals, n - 1, k);
        let before = grouped_onto(init, keys, vals, n - 1);
        if keys[n - 1] == k {
            assert(list_of(grouped_onto(init, keys, vals, n), k) =~= list_of(init, k) + values_of(
                keys,
                vals,
                k,
                n,
            ));
        }
    } else {
        assert(list_of(init, k) =~= list_of(init, k) + values_of(keys, vals, k, n));
    }
}

/// Entering rows is pairing their keys with their values.
pub proof fn lemma_inserted_is_paired<V>(init: Map<i64, V>, rows: Seq<(i64, V)>, n: int)
    requires
        0 <= n <= rows.len(),
    ensures
        inserted(init, rows, n) == paired_onto(init, firsts(rows), seconds(rows), n),
    decreases n,
{
    if n > 0 {
        lemma_inserted_is_paired(init, rows, n - 1);
    }
}

/// Grouping rows is grouping their values by their keys.
pub proof fn lemma_grouped_rows_is_grouped<K, V>(init: Map<K, Seq<V>>, rows: Seq<(K, V)>, n: int)
    requires
        0 <= n <= rows.len(),
    ensures
        grouped_rows_onto(init, rows, n) == grouped_onto(init, firsts(rows), seconds(rows), n),
    decreases n,
{
    if n > 0 {
        lemma_grouped_rows_is_grouped(init, rows, n - 1);
    }
}

/// A list that is grouped from values that are all different holds each of its values
/// once, and holds a value exactly when the value's key is the list's key.
pub proof fn lemma_grouped_some_members<K, V>(keys: Seq<Option<K>>, vals: Seq<V>, n: int, k: K)
    requires
        0 <= n <= keys.len(),
        n <= vals.len(),
        vals.no_duplicates(),
    ensures
        list_of(grouped_some_onto(Map::empty(), keys, vals, n), k).no_duplicates(),
        forall|v: V|
            list_of(grouped_some_onto(Map::empty(), keys, vals, n), k).contains(v) <==> exists|
                i: int,
            | 0 <= i < n && keys[i] == Some(k) && #[trigger] vals[i] == v,
        grouped_some_onto(Map::<K, Seq<V>>::empty(), keys, vals, n).contains_key(k) <==> exists|
            i: int,
        | 0 <= i < n && #[trigger] keys[i] == Some(k),
    decreases n,
{
    let all = list_of(grouped_some_onto(Map::empty(), keys, vals, n), k);
    if n > 0 {
        lemma_grouped_some_members(keys, vals, n - 1, k);
        let before = list_of(grouped_some_onto(Map::empty(), keys, vals, n - 1), k);
        if keys[n - 1] == Some(k) {
            assert(all =~= before.push(vals[n - 1]));
            assert(!before.contains(vals[n - 1])) by {
                if before.contains(vals[n - 1]) {
                    let i = choose|i: int|
                        0 <= i < n - 1 && keys[i] == Some(k) && #[trigger] vals[i] == vals[n - 1];
                    assert(vals[i] != vals[n - 1]);
                }
            }
        } else {
            assert(all =~= before);
        }
        assert forall|v: V|
            all.contains(v) <==> exists|i: int|
                0 <= i < n && keys[i] == Some(k) && #[trigger] vals[i] == v by {
            if all.contains(v) {
                let j = choose|j: int| 0 <= j < all.len() && all[j] == v;
                if j < before.len() {
                    assert(before[j] == v);
                    assert(before.contains(v));
                    let i = choose|i: int|
                        0 <= i < n - 1 && keys[i] == Some(k) && #[trigger] vals[i] == v;
                    assert(0 <= i < n && keys[i] == Some(k) && vals[i] == v);
                } else {
                    assert(keys[n - 1] == Some(k) && vals[n - 1] == v);
                }
            }
            if exists|i: int| 0 <= i < n && keys[i] == Some(k) && #[trigger] vals[i] == v {
                let i = choose|i: int| 0 <= i < n && keys[i] == Some(k) && #[trigger] vals[i] == v;
                if i < n - 1 {
                    assert(before.contains(v));
                    let j = choose|j: int| 0 <= j < before.len() && before[j] == v;
                    assert(all[j] == v);
                } else {
                    assert(all[all.len() - 1] == v);
                }
            }
        }
        assert(grouped_some_onto(Map::<K, Seq<V>>::empty(), keys, vals, n).contains_key(k) <==> exists|
            i: int,
        | 0 <= i < n && #[trigger] keys[i] == Some(k)) by {
            if grouped_some_onto(Map::<K, Seq<V>>::empty(), keys, vals, n - 1).contains_key(k) {
                let i = choose|i: int| 0 <= i < n - 1 && #[trigger] keys[i] == Some(k);
                assert(0 <= i < n && keys[i] == Some(k));
            }
            if exists|i: int| 0 <= i < n && #[trigger] keys[i] == Some(k) {
                let i = choose|i: int| 0 <= i < n && #[trigger] keys[i] == Some(k);
                if i < n - 1 {
                    assert(0 <= i < n - 1 && keys[i] == Some(k));
                }
            }
        }
    }
}

/// Whether `names` finds, for each text that `ids` holds, an id that holds it, and
/// nothing else.
pub open spec fn is_inverse(names: Map<Seq<char>, i64>, ids: Map<i64, String>) -> bool {
    &&& forall|s: Seq<char>| #[trigger]
        names.contains_key(s) <==> exists|id: i64| ids.contains_key(id) && (#[trigger] ids[id])@ == s
    &&& forall|s: Seq<char>|
        names.contains_key(s) ==> ids.contains_key(#[trigger] names[s]) && ids[names[s]]@ == s
}

/// Whether `index` finds, for each epoch, version and release that `ids` holds, an id
/// that holds it, and nothing else.
pub open spec fn is_evr_inverse(index: Map<EvrView, i64>, ids: Map<i64, Evr>) -> bool {
    &&& forall|e: EvrView| #[trigger]
        index.contains_key(e) <==> exists|id: i64| ids.contains_key(id) && (#[trigger] ids[id])@ == e
    &&& forall|e: EvrView|
        index.contains_key(e) ==> ids.contains_key(#[trigger] index[e]) && ids[index[e]]@ == e
}

/// Where no two ids hold the same text, the inverse finds for each id's text that id.
pub proof fn lemma_inverse_of_injective(names: Map<Seq<char>, i64>, ids: Map<i64, String>, id: i64)
    requires
        is_inverse(names, ids),
        ids.contains_key(id),
        forall|a: i64, b: i64|
            ids.contains_key(a) && ids.contains_key(b) && (#[trigger] ids[a])@ == (
            #[trigger] ids[b])@ ==> a == b,
    ensures
        names.contains_key(ids[id]@),
        names[ids[id]@] == id,
{
    let s = ids[id]@;
    assert(names.contains_key(s));
    assert(ids[names[s]]@ == ids[id]@);
}

/// Enters each row into `m`, in order.
pub fn insert_rows<V>(m: &mut HashMap<i64, V>, rows: Vec<(i64, V)>)
    ensures
        final(m)@ == inserted(old(m)@, rows@, rows@.len() as int),
{
    let ghost all = rows@;
    for row in it: rows
        invariant
            it.seq() == all,
            m@ == inserted(old(m)@, all, it.index() as int),
    {
        let (k, v) = row;
        m.insert(k, v);
    }
}

/// The keys of a map, each once, in no stated order.
pub fn keys_of<V>(m: &HashMap<i64, V>) -> (r: Vec<i64>)
    ensures
        r@.to_set() == m@.dom(),
        r@.no_duplicates(),
        forall|i: int| 0 <= i < r@.len() ==> m@.contains_key(#[trigger] r@[i]),
{
    let mut out: Vec<i64> = Vec::new();
    let ghost ks: Seq<i64> = m.keys().remaining().unref();
    for k in it: m.keys()
        invariant
            it.seq().unref() == ks,
            out@ == ks.take(it.index() as int),
    {
        out.push(*k);
    }
    proof {
        assert(out@ == ks);
        assert forall|i: int, j: int| 0 <= i < ks.len() && 0 <= j < ks.len() && i != j implies ks[i]
            != ks[j] by {
            let rem = m.keys().remaining();
            assert(rem[i] != rem[j]);
        }
        assert forall|i: int| 0 <= i < ks.len() implies m@.contains_key(#[trigger] ks[i]) by {
            assert(ks.to_set().contains(ks[i]));
        }
    }
    out
}

/// Builds a map from a column of keys and a column of values that were read in the same
/// order: the value at a position belongs to the key at that position.
pub fn load_map<V>(keys: Vec<i64>, vals: Vec<V>) -> (r: HashMap<i64, V>)
    ensures
        r@ == paired(keys@, vals@),
{
    let mut m: HashMap<i64, V> = HashMap::new();
    let ghost all = vals@;
    let mut n: usize = 0;
    for v in it: vals
        invariant
            it.seq() == all,
            n == shorter(it.index() as int, keys@.len() as int),
            m@ == paired_upto(keys@, all, n as int),
    {
        if n < keys.len() {
            m.insert(keys[n], v);
            n += 1;
        }
    }
    m
}

/// Appends each value to the list of the key at its position, as far as both columns
/// reach.
pub fn push_pairs<V>(m: &mut HashMap<i64, Vec<V>>, keys: &Vec<i64>, vals: Vec<V>)
    ensures
        lists(final(m)@) == grouped_onto(
            lists(old(m)@),
            keys@,
            vals@,
            shorter(keys@.len() as int, vals@.len() as int),
        ),
{
    let ghost all = vals@;
    let mut n: usize = 0;
    for v in it: vals
        invariant
            it.seq() == all,
            n == shorter(it.index() as int, keys@.len() as int),
            lists(m@) == grouped_onto(lists(old(m)@), keys@, all, n as int),
    {
        if n < keys.len() {
            push_to(m, keys[n], v);
            n += 1;
        }
    }
}

/// Appends the value of each row to the list of the row's key, in order.
pub fn push_rows<V>(m: &mut HashMap<i64, Vec<V>>, rows: Vec<(i64, V)>)
    ensures
        lists(final(m)@) == grouped_rows_onto(lists(old(m)@), rows@, rows@.len() as int),
{
    let ghost all = rows@;
    for row in it: rows
        invariant
            it.seq() == all,
            lists(m@) == grouped_rows_onto(lists(old(m)@), all, it.index() as int),
    {
        let (k, v) = row;
        push_to(m, k, v);
    }
}

/// Appends `v` to the list under `k`, which starts empty where the map has none.
pub fn push_to<V>(m: &mut HashMap<i64, Vec<V>>, k: i64, v: V)
    ensures
        lists(final(m)@) == appended(lists(old(m)@), k, v),
{
    let mut list = match m.remove(&k) {
        Some(l) => l,
        None => Vec::new(),
    };
    list.push(v);
    m.insert(k, list);
    assert(lists(m@) =~= appended(lists(old(m)@), k, v));
}

/// Builds a map of lists from a column of keys and a column of values that were read in
/// the same order: each key gets the values at its positions, in order.
pub fn load_multimap<V>(keys: Vec<i64>, vals: Vec<V>) -> (r: HashMap<i64, Vec<V>>)
    ensures
        lists(r@) == grouped(keys@, vals@),
{
    let mut m: HashMap<i64, Vec<V>> = HashMap::new();
    assert(lists(m@) =~= Map::<i64, Seq<V>>::empty());
    push_pairs(&mut m, &keys, vals);
    m
}

/// Turns a catalog from id to text round: the result finds, for each text of the
/// catalog, an id that holds it. Where two ids hold the same text, it finds one of them.
pub fn invert(v: &HashMap<i64, String>) -> (r: TextMap<i64>)
    ensures
        is_inverse(r@, v@),
{
    let keys = keys_of(v);
    let mut out: TextMap<i64> = TextMap::new();
    let mut i: usize = 0;
    while i < keys.len()
        invariant
            i <= keys.len(),
            forall|j: int| 0 <= j < keys@.len() ==> v@.contains_key(#[trigger] keys@[j]),
            forall|s: Seq<char>| #[trigger]
                out@.contains_key(s) <==> exists|j: int| 0 <= j < i && v@[#[trigger] keys@[j]]@ == s,
            forall|s: Seq<char>|
                out@.contains_key(s) ==> v@.contains_key(#[trigger] out@[s]) && v@[out@[s]]@ == s,
        decreases keys.len() - i,
    {
        let id = keys[i];
        match v.get(&id) {
            Some(text) => {
                let ghost before = out@;
                out.insert(text.clone(), id);
                proof {
                    assert forall|s: Seq<char>| #[trigger]
                        out@.contains_key(s) <==> exists|j: int|
                            0 <= j < i + 1 && v@[#[trigger] keys@[j]]@ == s by {
                        if out@.contains_key(s) {
                            if s == text@ {
                                assert(v@[keys@[i as int]]@ == s);
                            } else {
                                assert(before.contains_key(s));
                                let j = choose|j: int| 0 <= j < i && v@[#[trigger] keys@[j]]@ == s;
                                assert(0 <= j < i + 1 && v@[keys@[j]]@ == s);
                            }
                        }
                        if exists|j: int| 0 <= j < i + 1 && v@[#[trigger] keys@[j]]@ == s {
                            let j = choose|j: int| 0 <= j < i + 1 && v@[#[trigger] keys@[j]]@ == s;
                            if j < i {
                                assert(before.contains_key(s));
                            }
                        }
                    }
                }
            },
            None => {
                assert(false);
            },
        }
        i += 1;
    }
    proof {
        assert forall|s: Seq<char>| #[trigger]
            out@.contains_key(s) <==> exists|id: i64|
                v@.contains_key(id) && (#[trigger] v@[id])@ == s by {
            if out@.contains_key(s) {
                let j = choose|j: int| 0 <= j < keys@.len() && v@[#[trigger] keys@[j]]@ == s;
                assert(v@.contains_key(keys@[j]) && v@[keys@[j]]@ == s);
            }
            if exists|id: i64| v@.contains_key(id) && (#[trigger] v@[id])@ == s {
                let id = choose|id: i64| v@.contains_key(id) && (#[trigger] v@[id])@ == s;
                assert(keys@.to_set().contains(id));
                let j = choose|j: int| 0 <= j < keys@.len() && keys@[j] == id;
                assert(v@[keys@[j]]@ == s);
            }
        }
    }
    out
}

/// Turns the catalog of epochs, versions and releases round, as `invert` does a catalog
/// of texts.
pub fn invert_evrs(v: &HashMap<i64, Evr>) -> (r: EvrIndex)
    ensures
        is_evr_inverse(r@, v@),
{
    let keys = keys_of(v);
    let mut out = EvrIndex::new();
    let mut i: usize = 0;
    while i < keys.len()
        invariant
            i <= keys.len(),
            forall|j: int| 0 <= j < keys@.len() ==> v@.contains_key(#[trigger] keys@[j]),
            forall|e: EvrView| #[trigger]
                out@.contains_key(e) <==> exists|j: int| 0 <= j < i && v@[#[trigger] keys@[j]]@ == e,
            forall|e: EvrView|
                out@.contains_key(e) ==> v@.contains_key(#[trigger] out@[e]) && v@[out@[e]]@ == e,
        decreases keys.len() - i,
    {
        let id = keys[i];
        match v.get(&id) {
            Some(evr) => {
                let ghost before = out@;
                out.insert(evr.clone(), id);
                proof {
                    assert forall|e: EvrView| #[trigger]
                        out@.contains_key(e) <==> exists|j: int|
                            0 <= j < i + 1 && v@[#[trigger] keys@[j]]@ == e by {
                        if out@.contains_key(e) {
                            if e == evr@ {
                                assert(v@[keys@[i as int]]@ == e);
                            } else {
                                assert(before.contains_key(e));
                                let j = choose|j: int| 0 <= j < i && v@[#[trigger] keys@[j]]@ == e;
                                assert(0 <= j < i + 1 && v@[keys@[j]]@ == e);
                            }
                        }
                        if exists|j: int| 0 <= j < i + 1 && v@[#[trigger] keys@[j]]@ == e {
                            let j = choose|j: int| 0 <= j < i + 1 && v@[#[trigger] keys@[j]]@ == e;
                            if j < i {
                                assert(before.contains_key(e));
                            }
                        }
                    }
                }
            },
            None => {
                assert(false);
            },
        }
        i += 1;
    }
    proof {
        assert forall|e: EvrView| #[trigger]
            out@.contains_key(e) <==> exists|id: i64|
                v@.contains_key(id) && (#[trigger] v@[id])@ == e by {
            if out@.contains_key(e) {
                let j = choose|j: int| 0 <= j < keys@.len() && v@[#[trigger] keys@[j]]@ == e;
                assert(v@.contains_key(keys@[j]) && v@[keys@[j]]@ == e);
            }
            if exists|id: i64| v@.contains_key(id) && (#[trigger] v@[id])@ == e {
                let id = choose|id: i64| v@.contains_key(id) && (#[trigger] v@[id])@ == e;
                assert(keys@.to_set().contains(id));
                let j = choose|j: int| 0 <= j < keys@.len() && keys@[j] == id;
                assert(v@[keys@[j]]@ == e);
            }
        }
    }
    out
}

} // verus!
