use std::collections::HashMap;
use vstd::prelude::*;
use crate::text_map::TextMap;
use crate::prelude::opt_view;
use crate::calc::model::texts;
use crate::cache::util::appended;
use crate::cache::util::grouped;
use crate::cache::util::grouped_onto;
use crate::cache::util::grouped_rows_onto;
use crate::cache::util::grouped_some_onto;
use crate::cache::util::insert_rows;
use crate::cache::util::inserted;
use crate::cache::util::invert;
use crate::cache::util::invert_evrs;
use crate::cache::util::is_evr_inverse;
use crate::cache::util::is_inverse;
use crate::cache::util::keys_of;
use crate::cache::util::lists;
use crate::cache::util::load_map;
use crate::cache::util::load_multimap;
use crate::cache::util::paired;
use crate::cache::util::paired_onto;
use crate::cache::util::push_pairs;
use crate::cache::util::push_rows;
use crate::cache::util::push_to;
use crate::cache::util::shorter;

pub mod evr_index;
pub mod identity;
pub mod util;

pub use crate::cache::evr_index::EvrIndex;

verus! {

/// An epoch, version and release: the part of a package identity that tells builds apart.
#[derive(Debug, Hash, PartialEq, Eq)]
pub struct Evr(pub i64, pub String, pub String);

/// What an `Evr` holds, as plain values.
pub struct EvrView {
    pub epoch: i64,
    pub version: Seq<char>,
    pub release: Seq<char>,
}

impl View for Evr {
    type V = EvrView;

    open spec fn view(&self) -> EvrView {
        EvrView { epoch: self.0, version: self.1@, release: self.2@ }
    }
}

impl Clone for Evr {
    fn clone(&self) -> (r: Self)
        ensures
            r == *self,
    {
        Evr(self.0, self.1.clone(), self.2.clone())
    }
}

/// The ids of a package's name, version data and architecture.
#[derive(Debug, Clone, Copy, Hash, PartialOrd, PartialEq, Eq)]
pub struct NevraId(pub i64, pub i64, pub i64);

/// A package, by the ids of its parts.
#[derive(Debug, Default, Clone, Copy, Hash)]
pub struct Package {
    pub name_id: i64,
    pub evr_id: i64,
    pub arch_id: i64,
    pub summary: Option<i64>,
    pub desc: Option<i64>,
    pub source_pkg_id: Option<i64>,
}

/// A vulnerability record. A score is held as the bit pattern of its 64-bit float.
#[derive(Debug)]
pub struct Cve {
    pub name: String,
    pub redhat_url: Option<String>,
    pub secondary_url: Option<String>,
    pub cvss3_score: Option<u64>,
    pub cvss3_metrics: Option<String>,
    pub impact: String,
    pub published_date: Option<String>,
    pub modified_date: Option<String>,
    pub iava: Option<String>,
    pub description: Option<String>,
    pub cvss2_score: Option<u64>,
    pub cvss2_metrics: Option<String>,
    pub cve_source: String,
    pub cwes: Vec<String>,
    pub pkgids: Vec<i64>,
    pub errataids: Vec<i64>,
}

/// A content repository.
#[derive(Debug, Hash)]
pub struct Repo {
    pub label: String,
    pub name: String,
    pub url: String,
    pub basearch: Option<String>,
    pub releasever: Option<String>,
    pub product: Option<String>,
    pub product_id: Option<i64>,
    pub revision: Option<String>,
}

impl Repo {
    /// The release version the repository is for, as characters.
    pub open spec fn releasever_view(&self) -> Option<Seq<char>> {
        opt_view(self.releasever)
    }

    /// The base architecture the repository is for, as characters.
    pub open spec fn basearch_view(&self) -> Option<Seq<char>> {
        opt_view(self.basearch)
    }
}

/// An advisory.
#[derive(Debug, Hash)]
pub struct Errata {
    pub name: String,
    pub synopsis: String,
    pub summary: String,
    pub typ: String,
    pub severity: String,
    pub description: Option<String>,
    pub solution: String,
    pub issued: String,
    pub updated: String,
    pub url: String,
}

/// The snapshot of package, advisory and repository data that updates are resolved
/// against: a set of maps, filled once and read from then on.
pub struct Cache {
    pub name_to_id: TextMap<i64>,
    pub id_to_name: HashMap<i64, String>,
    pub updates: HashMap<i64, Vec<i64>>,
    pub updates_index: HashMap<i64, HashMap<i64, usize>>,
    pub evr_to_id: EvrIndex,
    pub id_to_evr: HashMap<i64, Evr>,
    pub arch_to_id: TextMap<i64>,
    pub id_to_arch: HashMap<i64, String>,
    pub arch_compat: HashMap<i64, Vec<i64>>,
    pub pkg_details: HashMap<i64, Package>,
    pub nevra_to_pkgid: HashMap<i64, HashMap<i64, HashMap<i64, i64>>>,
    pub repo_detail: HashMap<i64, Repo>,
    pub repolabel_to_ids: TextMap<Vec<i64>>,
    pub productid_to_repoids: HashMap<i64, Vec<i64>>,
    pub pkgid_to_repoids: HashMap<i64, Vec<i64>>,
    pub errataid_to_name: HashMap<i64, String>,
    pub pkgid_to_errataids: HashMap<i64, Vec<i64>>,
    pub errataid_to_repoids: HashMap<i64, Vec<i64>>,
    pub cve_detail: HashMap<i64, Cve>,
    pub dbchange: TextMap<String>,
    pub errata_detail: HashMap<i64, Errata>,
    pub pkgerrata_to_module: TextMap<String>,
    pub modulename_to_id: TextMap<Vec<i64>>,
    pub src_pkg_id_to_pkg_ids: HashMap<i64, Vec<i64>>,
    pub strings: HashMap<i64, Option<String>>,
}

impl Cache {
    /// Whether every map of the cache is empty.
    pub open spec fn is_empty(&self) -> bool {
        &&& self.name_to_id@ == Map::<Seq<char>, i64>::empty()
        &&& self.id_to_name@ == Map::<i64, String>::empty()
        &&& self.updates@ == Map::<i64, Vec<i64>>::empty()
        &&& self.updates_index@ == Map::<i64, HashMap<i64, usize>>::empty()
        &&& self.evr_to_id@ == Map::<EvrView, i64>::empty()
        &&& self.id_to_evr@ == Map::<i64, Evr>::empty()
        &&& self.arch_to_id@ == Map::<Seq<char>, i64>::empty()
        &&& self.id_to_arch@ == Map::<i64, String>::empty()
        &&& self.arch_compat@ == Map::<i64, Vec<i64>>::empty()
        &&& self.pkg_details@ == Map::<i64, Package>::empty()
        &&& self.nevra_to_pkgid@ == Map::<i64, HashMap<i64, HashMap<i64, i64>>>::empty()
        &&& self.repo_detail@ == Map::<i64, Repo>::empty()
        &&& self.repolabel_to_ids@ == Map::<Seq<char>, Vec<i64>>::empty()
        &&& self.productid_to_repoids@ == Map::<i64, Vec<i64>>::empty()
        &&& self.pkgid_to_repoids@ == Map::<i64, Vec<i64>>::empty()
        &&& self.errataid_to_name@ == Map::<i64, String>::empty()
        &&& self.pkgid_to_errataids@ == Map::<i64, Vec<i64>>::empty()
        &&& self.errataid_to_repoids@ == Map::<i64, Vec<i64>>::empty()
        &&& self.cve_detail@ == Map::<i64, Cve>::empty()
        &&& self.dbchange@ == Map::<Seq<char>, String>::empty()
        &&& self.errata_detail@ == Map::<i64, Errata>::empty()
        &&& self.pkgerrata_to_module@ == Map::<Seq<char>, String>::empty()
        &&& self.modulename_to_id@ == Map::<Seq<char>, Vec<i64>>::empty()
        &&& self.src_pkg_id_to_pkg_ids@ == Map::<i64, Vec<i64>>::empty()
        &&& self.strings@ == Map::<i64, Option<String>>::empty()
    }
}

impl Default for Cache {
    fn default() -> (r: Cache)
        ensures
            r.is_empty(),
    {
        Cache {
            name_to_id: TextMap::new(),
            id_to_name: HashMap::new(),
            updates: HashMap::new(),
            updates_index: HashMap::new(),
            evr_to_id: EvrIndex::new(),
            id_to_evr: HashMap::new(),
            arch_to_id: TextMap::new(),
            id_to_arch: HashMap::new(),
            arch_compat: HashMap::new(),
            pkg_details: HashMap::new(),
            nevra_to_pkgid: HashMap::new(),
            repo_detail: HashMap::new(),
            repolabel_to_ids: TextMap::new(),
            productid_to_repoids: HashMap::new(),
            pkgid_to_repoids: HashMap::new(),
            errataid_to_name: HashMap::new(),
            pkgid_to_errataids: HashMap::new(),
            errataid_to_repoids: HashMap::new(),
            cve_detail: HashMap::new(),
            dbchange: TextMap::new(),
            errata_detail: HashMap::new(),
            pkgerrata_to_module: TextMap::new(),
            modulename_to_id: TextMap::new(),
            src_pkg_id_to_pkg_ids: HashMap::new(),
            strings: HashMap::new(),
        }
    }
}


/// The tables that a map of maps holds.
pub open spec fn tables(m: Map<i64, HashMap<i64, usize>>) -> Map<i64, Map<i64, usize>> {
    Map::new(|k: i64| m.contains_key(k), |k: i64| m[k]@)
}

/// The tables of `init`, with each of the first `n` rows entered: a row holds the id of
/// a name, the id of an epoch, version and release, and the position of that build among
/// the builds of the name.
pub open spec fn positioned_onto(
    init: Map<i64, Map<i64, usize>>,
    rows: Seq<(i64, i64, usize)>,
    n: int,
) -> Map<i64, Map<i64, usize>>
    decreases n,
{
    if n <= 0 {
        init
    } else {
        let before = positioned_onto(init, rows, n - 1);
        let row = rows[n - 1];
        before.insert(
            row.0,
            (if before.contains_key(row.0) {
                before[row.0]
            } else {
                Map::empty()
            }).insert(row.1, row.2),
        )
    }
}

/// Enters each row into the tables of positions, in order.
pub fn position_rows(m: &mut HashMap<i64, HashMap<i64, usize>>, rows: Vec<(i64, i64, usize)>)
    ensures
        tables(final(m)@) == positioned_onto(tables(old(m)@), rows@, rows@.len() as int),
{
    let ghost all = rows@;
    for row in it: rows
        invariant
            it.seq() == all,
            tables(m@) == positioned_onto(tables(old(m)@), all, it.index() as int),
    {
        let (name_id, evr_id, position) = row;
        let ghost before = m@;
        let mut table = match m.remove(&name_id) {
            Some(t) => t,
            None => HashMap::new(),
        };
        table.insert(evr_id, position);
        m.insert(name_id, table);
        proof {
            assert(tables(m@) =~= tables(before).insert(
                name_id,
                (if tables(before).contains_key(name_id) {
                    tables(before)[name_id]
                } else {
                    Map::empty()
                }).insert(evr_id, position),
            ));
        }
    }
}

/// What a map from the id of a name, through the id of an epoch, version and release, to
/// the id of an architecture finds for each triple of ids.
pub open spec fn nevra_index(m: Map<i64, HashMap<i64, HashMap<i64, i64>>>) -> Map<NevraId, i64> {
    Map::new(
        |t: NevraId|
            m.contains_key(t.0) && m[t.0]@.contains_key(t.1) && m[t.0]@[t.1]@.contains_key(t.2),
        |t: NevraId| m[t.0]@[t.1]@[t.2],
    )
}

/// Files package `id` under the ids of its name, version data and architecture.
pub fn file_nevra(m: &mut HashMap<i64, HashMap<i64, HashMap<i64, i64>>>, t: NevraId, id: i64)
    ensures
        nevra_index(final(m)@) == nevra_index(old(m)@).insert(t, id),
{
    let mut by_evr = match m.remove(&t.0) {
        Some(x) => x,
        None => HashMap::new(),
    };
    let mut by_arch = match by_evr.remove(&t.1) {
        Some(x) => x,
        None => HashMap::new(),
    };
    by_arch.insert(t.2, id);
    by_evr.insert(t.1, by_arch);
    m.insert(t.0, by_evr);
    assert(nevra_index(m@) =~= nevra_index(old(m)@).insert(t, id));
}

impl Cache {
    /// The package that is filed under the ids of a name, of an epoch, version and
    /// release, and of an architecture.
    pub fn pkgid_of(&self, t: &NevraId) -> (r: Option<i64>)
        ensures
            r == (if nevra_index(self.nevra_to_pkgid@).contains_key(*t) {
                Some(nevra_index(self.nevra_to_pkgid@)[*t])
            } else {
                None
            }),
    {
        let by_evr = match self.nevra_to_pkgid.get(&t.0) {
            Some(m) => m,
            None => {
                return None;
            },
        };
        let by_arch = match by_evr.get(&t.1) {
            Some(m) => m,
            None => {
                return None;
            },
        };
        match by_arch.get(&t.2) {
            Some(id) => Some(*id),
            None => None,
        }
    }
}

/// Appends `id` to the list under `label`, which starts empty where the map has none.
pub fn push_label(m: &mut TextMap<Vec<i64>>, label: &String, id: i64)
    ensures
        lists(final(m)@) == appended(lists(old(m)@), label@, id),
{
    let mut list: Vec<i64> = Vec::new();
    match m.get(label.as_str()) {
        Some(ids) => {
            let mut i: usize = 0;
            while i < ids.len()
                invariant
                    i <= ids.len(),
                    list@ == ids@.take(i as int),
                decreases ids.len() - i,
            {
                list.push(ids[i]);
                proof {
                    assert(ids@.take(i + 1) =~= ids@.take(i as int).push(ids@[i as int]));
                }
                i += 1;
            }
            proof {
                assert(ids@.take(ids.len() as int) == ids@);
            }
        },
        None => {},
    }
    list.push(id);
    m.insert(label.clone(), list);
    assert(lists(m@) =~= appended(lists(old(m)@), label@, id));
}

/// Whether `ks` names each key of `m` once.
pub open spec fn names_each_once<V>(ks: Seq<i64>, m: Map<i64, V>) -> bool {
    ks.no_duplicates() && ks.to_set() == m.dom()
}

/// For each of the packages `ks`, the ids of its name, version data and architecture.
pub open spec fn nevra_column(details: Map<i64, Package>, ks: Seq<i64>) -> Seq<NevraId> {
    Seq::new(
        ks.len(),
        |i: int| NevraId(details[ks[i]].name_id, details[ks[i]].evr_id, details[ks[i]].arch_id),
    )
}

/// For each of the packages `ks`, the package it was built from.
pub open spec fn source_column(details: Map<i64, Package>, ks: Seq<i64>) -> Seq<Option<i64>> {
    Seq::new(ks.len(), |i: int| details[ks[i]].source_pkg_id)
}

/// For each of the repositories `ks`, its label.
pub open spec fn label_column(details: Map<i64, Repo>, ks: Seq<i64>) -> Seq<Seq<char>> {
    Seq::new(ks.len(), |i: int| details[ks[i]].label@)
}

/// For each of the repositories `ks`, its product.
pub open spec fn product_column(details: Map<i64, Repo>, ks: Seq<i64>) -> Seq<Option<i64>> {
    Seq::new(ks.len(), |i: int| details[ks[i]].product_id)
}

/// Fills the catalog of package names from a column of ids and a column of names, and
/// its inverse.
pub fn load_names(ids: Vec<i64>, names: Vec<String>, cache: &mut Cache)
    ensures
        final(cache).id_to_name@ == paired(ids@, names@),
        is_inverse(final(cache).name_to_id@, final(cache).id_to_name@),
        *final(cache) == (Cache {
            id_to_name: final(cache).id_to_name,
            name_to_id: final(cache).name_to_id,
            ..*old(cache)
        }),
{
    cache.id_to_name = load_map(ids, names);
    cache.name_to_id = invert(&cache.id_to_name);
}

/// Adds the builds of each name, in the order given, and the positions of the builds: a
/// row of `rows` holds the id of a name and the id of a package, the rows come in the
/// order of the builds; a row of `index_rows` holds the id of a name, the id of an
/// epoch, version and release, and a position.
pub fn load_updates(rows: Vec<(i64, i64)>, index_rows: Vec<(i64, i64, usize)>, cache: &mut Cache)
    ensures
        lists(final(cache).updates@) == grouped_rows_onto(
            lists(old(cache).updates@),
            rows@,
            rows@.len() as int,
        ),
        tables(final(cache).updates_index@) == positioned_onto(
            tables(old(cache).updates_index@),
            index_rows@,
            index_rows@.len() as int,
        ),
        *final(cache) == (Cache {
            updates: final(cache).updates,
            updates_index: final(cache).updates_index,
            ..*old(cache)
        }),
{
    push_rows(&mut cache.updates, rows);
    position_rows(&mut cache.updates_index, index_rows);
}

/// Fills the catalog of epochs, versions and releases from its rows, and its inverse.
pub fn load_evr(rows: Vec<(i64, Evr)>, cache: &mut Cache)
    ensures
        final(cache).id_to_evr@ == inserted(Map::empty(), rows@, rows@.len() as int),
        is_evr_inverse(final(cache).evr_to_id@, final(cache).id_to_evr@),
        *final(cache) == (Cache {
            id_to_evr: final(cache).id_to_evr,
            evr_to_id: final(cache).evr_to_id,
            ..*old(cache)
        }),
{
    let mut catalog: HashMap<i64, Evr> = HashMap::new();
    insert_rows(&mut catalog, rows);
    cache.evr_to_id = invert_evrs(&catalog);
    cache.id_to_evr = catalog;
}

/// Fills the catalog of architectures from a column of ids and a column of names, its
/// inverse, and adds to each architecture those that may stand in for it, from two
/// columns read in the same order.
pub fn load_arch(
    ids: Vec<i64>,
    archs: Vec<String>,
    compat_from: Vec<i64>,
    compat_to: Vec<i64>,
    cache: &mut Cache,
)
    ensures
        final(cache).id_to_arch@ == paired(ids@, archs@),
        is_inverse(final(cache).arch_to_id@, final(cache).id_to_arch@),
        lists(final(cache).arch_compat@) == grouped_onto(
            lists(old(cache).arch_compat@),
            compat_from@,
            compat_to@,
            shorter(compat_from@.len() as int, compat_to@.len() as int),
        ),
        *final(cache) == (Cache {
            id_to_arch: final(cache).id_to_arch,
            arch_to_id: final(cache).arch_to_id,
            arch_compat: final(cache).arch_compat,
            ..*old(cache)
        }),
{
    cache.id_to_arch = load_map(ids, archs);
    cache.arch_to_id = invert(&cache.id_to_arch);
    push_pairs(&mut cache.arch_compat, &compat_from, compat_to);
}

/// Goes once through the packages of `details` and files each under the ids of its
/// parts and, where it was built from another package, in the list of that package.
/// Hands back the order in which it went.
fn index_packages(
    details: &HashMap<i64, Package>,
    by_nevra: &mut HashMap<i64, HashMap<i64, HashMap<i64, i64>>>,
    by_source: &mut HashMap<i64, Vec<i64>>,
) -> (order: Ghost<Seq<i64>>)
    ensures
        names_each_once(order@, details@),
        nevra_index(final(by_nevra)@) == paired_onto(
            nevra_index(old(by_nevra)@),
            nevra_column(details@, order@),
            order@,
            order@.len() as int,
        ),
        lists(final(by_source)@) == grouped_some_onto(
            lists(old(by_source)@),
            source_column(details@, order@),
            order@,
            order@.len() as int,
        ),
{
    let keys = keys_of(details);
    let mut i: usize = 0;
    while i < keys.len()
        invariant
            i <= keys.len(),
            forall|j: int| 0 <= j < keys@.len() ==> details@.contains_key(#[trigger] keys@[j]),
            nevra_index(by_nevra@) == paired_onto(
                nevra_index(old(by_nevra)@),
                nevra_column(details@, keys@),
                keys@,
                i as int,
            ),
            lists(by_source@) == grouped_some_onto(
                lists(old(by_source)@),
                source_column(details@, keys@),
                keys@,
                i as int,
            ),
        decreases keys.len() - i,
    {
        let id = keys[i];
        match details.get(&id) {
            Some(p) => {
                file_nevra(by_nevra, NevraId(p.name_id, p.evr_id, p.arch_id), id);
                match p.source_pkg_id {
                    Some(source) => {
                        push_to(by_source, source, id);
                    },
                    None => {},
                }
            },
            None => {
                assert(false);
            },
        }
        i += 1;
    }
    Ghost(keys@)
}

/// Enters the packages, then goes once through all packages that the cache holds and
/// files each under the ids of its parts and, where it was built from another package,
/// in the list of that package. The order of that pass is not stated: it names each
/// package once.
pub fn load_pkg(rows: Vec<(i64, Package)>, cache: &mut Cache)
    ensures
        final(cache).pkg_details@ == inserted(old(cache).pkg_details@, rows@, rows@.len() as int),
        exists|order: Seq<i64>|
            {
                &&& #[trigger] names_each_once(order, final(cache).pkg_details@)
                &&& nevra_index(final(cache).nevra_to_pkgid@) == paired_onto(
                    nevra_index(old(cache).nevra_to_pkgid@),
                    nevra_column(final(cache).pkg_details@, order),
                    order,
                    order.len() as int,
                )
                &&& lists(final(cache).src_pkg_id_to_pkg_ids@) == grouped_some_onto(
                    lists(old(cache).src_pkg_id_to_pkg_ids@),
                    source_column(final(cache).pkg_details@, order),
                    order,
                    order.len() as int,
                )
            },
        *final(cache) == (Cache {
            pkg_details: final(cache).pkg_details,
            nevra_to_pkgid: final(cache).nevra_to_pkgid,
            src_pkg_id_to_pkg_ids: final(cache).src_pkg_id_to_pkg_ids,
            ..*old(cache)
        }),
{
    insert_rows(&mut cache.pkg_details, rows);
    let order = index_packages(
        &cache.pkg_details,
        &mut cache.nevra_to_pkgid,
        &mut cache.src_pkg_id_to_pkg_ids,
    );
    assert(names_each_once(order@, cache.pkg_details@));
}

/// Goes once through the repositories of `details` and enters each in the list of its
/// label and, where it has a product, in the list of that product. Hands back the order
/// in which it went.
fn index_repos(
    details: &HashMap<i64, Repo>,
    by_label: &mut TextMap<Vec<i64>>,
    by_product: &mut HashMap<i64, Vec<i64>>,
) -> (order: Ghost<Seq<i64>>)
    ensures
        names_each_once(order@, details@),
        lists(final(by_label)@) == grouped_onto(
            lists(old(by_label)@),
            label_column(details@, order@),
            order@,
            order@.len() as int,
        ),
        lists(final(by_product)@) == grouped_some_onto(
            lists(old(by_product)@),
            product_column(details@, order@),
            order@,
            order@.len() as int,
        ),
{
    let keys = keys_of(details);
    let mut i: usize = 0;
    while i < keys.len()
        invariant
            i <= keys.len(),
            forall|j: int| 0 <= j < keys@.len() ==> details@.contains_key(#[trigger] keys@[j]),
            lists(by_label@) == grouped_onto(
                lists(old(by_label)@),
                label_column(details@, keys@),
                keys@,
                i as int,
            ),
            lists(by_product@) == grouped_some_onto(
                lists(old(by_product)@),
                product_column(details@, keys@),
                keys@,
                i as int,
            ),
        decreases keys.len() - i,
    {
        let id = keys[i];
        match details.get(&id) {
            Some(r) => {
                push_label(by_label, &r.label, id);
                match r.product_id {
                    Some(product) => {
                        push_to(by_product, product, id);
                    },
                    None => {},
                }
            },
            None => {
                assert(false);
            },
        }
        i += 1;
    }
    Ghost(keys@)
}

/// Enters the repositories, then goes once through all repositories that the cache holds
/// and enters each in the list of its label and, where it has a product, in the list of
/// that product. The order of that pass is not stated: it names each repository once.
pub fn load_repos(rows: Vec<(i64, Repo)>, cache: &mut Cache)
    ensures
        final(cache).repo_detail@ == inserted(old(cache).repo_detail@, rows@, rows@.len() as int),
        exists|order: Seq<i64>|
            {
                &&& #[trigger] names_each_once(order, final(cache).repo_detail@)
                &&& lists(final(cache).repolabel_to_ids@) == grouped_onto(
                    lists(old(cache).repolabel_to_ids@),
                    label_column(final(cache).repo_detail@, order),
                    order,
                    order.len() as int,
                )
                &&& lists(final(cache).productid_to_repoids@) == grouped_some_onto(
                    lists(old(cache).productid_to_repoids@),
                    product_column(final(cache).repo_detail@, order),
                    order,
                    order.len() as int,
                )
            },
        *final(cache) == (Cache {
            repo_detail: final(cache).repo_detail,
            repolabel_to_ids: final(cache).repolabel_to_ids,
            productid_to_repoids: final(cache).productid_to_repoids,
            ..*old(cache)
        }),
{
    insert_rows(&mut cache.repo_detail, rows);
    let order = index_repos(
        &cache.repo_detail,
        &mut cache.repolabel_to_ids,
        &mut cache.productid_to_repoids,
    );
    assert(names_each_once(order@, cache.repo_detail@));
}

/// Enters the advisories.
pub fn load_errata(rows: Vec<(i64, Errata)>, cache: &mut Cache)
    ensures
        final(cache).errata_detail@ == inserted(
            old(cache).errata_detail@,
            rows@,
            rows@.len() as int,
        ),
        *final(cache) == (Cache { errata_detail: final(cache).errata_detail, ..*old(cache) }),
{
    insert_rows(&mut cache.errata_detail, rows);
}

/// Fills the lists of module streams from a column of module names and a column of
/// stream ids that were read in the same order.
pub fn load_modules(names: Vec<String>, stream_ids: Vec<i64>, cache: &mut Cache)
    ensures
        lists(final(cache).modulename_to_id@) == grouped(texts(names@), stream_ids@),
        *final(cache) == (Cache { modulename_to_id: final(cache).modulename_to_id, ..*old(cache) }),
{
    let mut m: TextMap<Vec<i64>> = TextMap::new();
    assert(lists(m@) =~= Map::<Seq<char>, Seq<i64>>::empty());
    let ghost keys = texts(names@);
    let mut i: usize = 0;
    while i < names.len() && i < stream_ids.len()
        invariant
            i <= names.len(),
            i <= stream_ids.len(),
            keys == texts(names@),
            lists(m@) == grouped_onto(Map::empty(), keys, stream_ids@, i as int),
        decreases names.len() - i,
    {
        push_label(&mut m, &names[i], stream_ids[i]);
        i += 1;
    }
    cache.modulename_to_id = m;
}

/// The record of changes to the data has nothing to fill in.
pub fn load_dbchange(cache: &mut Cache)
    ensures
        *final(cache) == *old(cache),
{
}

/// Whether two vulnerability records agree in all but their lists.
pub open spec fn same_record(a: Cve, b: Cve) -> bool {
    &&& a.name == b.name
    &&& a.redhat_url == b.redhat_url
    &&& a.secondary_url == b.secondary_url
    &&& a.cvss3_score == b.cvss3_score
    &&& a.cvss3_metrics == b.cvss3_metrics
    &&& a.impact == b.impact
    &&& a.published_date == b.published_date
    &&& a.modified_date == b.modified_date
    &&& a.iava == b.iava
    &&& a.description == b.description
    &&& a.cvss2_score == b.cvss2_score
    &&& a.cvss2_metrics == b.cvss2_metrics
    &&& a.cve_source == b.cve_source
}

/// The list that a record has once the lists of `given` are attached: that of `given`
/// for the record's id, or its own where `given` has none.
pub open spec fn attached<V>(own: Seq<V>, given: Map<i64, Seq<V>>, id: i64) -> Seq<V> {
    if given.contains_key(id) {
        given[id]
    } else {
        own
    }
}

/// Whether `after` is `before` with the lists of weaknesses, advisories and packages
/// attached to the record `id`.
pub open spec fn record_attached(
    after: Cve,
    before: Cve,
    id: i64,
    cwes: Map<i64, Seq<String>>,
    errata: Map<i64, Seq<i64>>,
    packages: Map<i64, Seq<i64>>,
) -> bool {
    &&& same_record(after, before)
    &&& after.cwes@ == attached(before.cwes@, cwes, id)
    &&& after.errataids@ == attached(before.errataids@, errata, id)
    &&& after.pkgids@ == attached(before.pkgids@, packages, id)
}

/// Whether `after` holds the records of `before`, each with its lists attached.
pub open spec fn records_attached(
    after: Map<i64, Cve>,
    before: Map<i64, Cve>,
    cwes: Map<i64, Seq<String>>,
    errata: Map<i64, Seq<i64>>,
    packages: Map<i64, Seq<i64>>,
) -> bool {
    &&& after.dom() == before.dom()
    &&& forall|id: i64|
        before.contains_key(id) ==> record_attached(
            #[trigger] after[id],
            before[id],
            id,
            cwes,
            errata,
            packages,
        )
}

/// Attaches to each record the lists that are given for its id; a list for an id
/// without a record is dropped.
fn attach_lists(
    details: &mut HashMap<i64, Cve>,
    cwes: HashMap<i64, Vec<String>>,
    errata: HashMap<i64, Vec<i64>>,
    packages: HashMap<i64, Vec<i64>>,
)
    ensures
        records_attached(
            final(details)@,
            old(details)@,
            lists(cwes@),
            lists(errata@),
            lists(packages@),
        ),
{
    let mut cwes = cwes;
    let mut errata = errata;
    let mut packages = packages;
    let ghost given_cwes = lists(cwes@);
    let ghost given_errata = lists(errata@);
    let ghost given_packages = lists(packages@);
    let keys = keys_of(details);
    let mut i: usize = 0;
    while i < keys.len()
        invariant
            i <= keys.len(),
            keys@.no_duplicates(),
            keys@.to_set() == old(details)@.dom(),
            details@.dom() == old(details)@.dom(),
            forall|j: int|
                0 <= j < i ==> record_attached(
                    details@[#[trigger] keys@[j]],
                    old(details)@[keys@[j]],
                    keys@[j],
                    given_cwes,
                    given_errata,
                    given_packages,
                ),
            forall|j: int| i <= j < keys@.len() ==> details@[#[trigger] keys@[j]] == old(details)@[keys@[j]],
            forall|j: int|
                i <= j < keys@.len() ==> {
                    &&& cwes@.contains_key(#[trigger] keys@[j]) == given_cwes.contains_key(keys@[j])
                    &&& cwes@.contains_key(keys@[j]) ==> cwes@[keys@[j]]@ == given_cwes[keys@[j]]
                    &&& errata@.contains_key(keys@[j]) == given_errata.contains_key(keys@[j])
                    &&& errata@.contains_key(keys@[j]) ==> errata@[keys@[j]]@ == given_errata[keys@[j]]
                    &&& packages@.contains_key(keys@[j]) == given_packages.contains_key(keys@[j])
                    &&& packages@.contains_key(keys@[j]) ==> packages@[keys@[j]]@
                        == given_packages[keys@[j]]
                },
        decreases keys.len() - i,
    {
        let id = keys[i];
        proof {
            assert(keys@.to_set().contains(keys@[i as int]));
        }
        match details.remove(&id) {
            Some(cve) => {
                let mut cve = cve;
                match cwes.remove(&id) {
                    Some(l) => {
                        cve.cwes = l;
                    },
                    None => {},
                }
                match errata.remove(&id) {
                    Some(l) => {
                        cve.errataids = l;
                    },
                    None => {},
                }
                match packages.remove(&id) {
                    Some(l) => {
                        cve.pkgids = l;
                    },
                    None => {},
                }
                details.insert(id, cve);
            },
            None => {
                assert(false);
            },
        }
        proof {
            assert(details@.dom() =~= old(details)@.dom());
        }
        i += 1;
    }
    proof {
        assert forall|id: i64| old(details)@.contains_key(id) implies record_attached(
            #[trigger] details@[id],
            old(details)@[id],
            id,
            given_cwes,
            given_errata,
            given_packages,
        ) by {
            assert(keys@.to_set().contains(id));
            let j = choose|j: int| 0 <= j < keys@.len() && keys@[j] == id;
            assert(details@[keys@[j]] == details@[id]);
        }
    }
}

/// Enters the vulnerability records, then attaches to each record that the cache holds
/// its weaknesses, advisories and packages. Each of the three comes as a column of
/// record ids and a column of values that were read in the same order.
pub fn load_cve(
    rows: Vec<(i64, Cve)>,
    cwe_cve_ids: Vec<i64>,
    cwes: Vec<String>,
    errata_cve_ids: Vec<i64>,
    errata_ids: Vec<i64>,
    pkg_cve_ids: Vec<i64>,
    pkg_ids: Vec<i64>,
    cache: &mut Cache,
)
    ensures
        records_attached(
            final(cache).cve_detail@,
            inserted(old(cache).cve_detail@, rows@, rows@.len() as int),
            grouped(cwe_cve_ids@, cwes@),
            grouped(errata_cve_ids@, errata_ids@),
            grouped(pkg_cve_ids@, pkg_ids@),
        ),
        *final(cache) == (Cache { cve_detail: final(cache).cve_detail, ..*old(cache) }),
{
    insert_rows(&mut cache.cve_detail, rows);
    let by_cwe = load_multimap(cwe_cve_ids, cwes);
    let by_errata = load_multimap(errata_cve_ids, errata_ids);
    let by_package = load_multimap(pkg_cve_ids, pkg_ids);
    attach_lists(&mut cache.cve_detail, by_cwe, by_errata, by_package);
}

/// The tables of a snapshot, each as the rows or columns that were read from it. Two
/// columns of one table were read in the same order.
pub struct Snapshot {
    pub name_ids: Vec<i64>,
    pub names: Vec<String>,
    pub updates: Vec<(i64, i64)>,
    pub update_index: Vec<(i64, i64, usize)>,
    pub evrs: Vec<(i64, Evr)>,
    pub arch_ids: Vec<i64>,
    pub archs: Vec<String>,
    pub arch_compat_from: Vec<i64>,
    pub arch_compat_to: Vec<i64>,
    pub packages: Vec<(i64, Package)>,
    pub repos: Vec<(i64, Repo)>,
    pub pkg_repo_pkg_ids: Vec<i64>,
    pub pkg_repo_repo_ids: Vec<i64>,
    pub errata_name_ids: Vec<i64>,
    pub errata_names: Vec<String>,
    pub pkg_errata_pkg_ids: Vec<i64>,
    pub pkg_errata_errata_ids: Vec<i64>,
    pub errata_repo_errata_ids: Vec<i64>,
    pub errata_repo_repo_ids: Vec<i64>,
    pub cves: Vec<(i64, Cve)>,
    pub cve_cwe_cve_ids: Vec<i64>,
    pub cve_cwes: Vec<String>,
    pub errata_cve_cve_ids: Vec<i64>,
    pub errata_cve_errata_ids: Vec<i64>,
    pub cve_pkg_cve_ids: Vec<i64>,
    pub cve_pkg_pkg_ids: Vec<i64>,
    pub errata: Vec<(i64, Errata)>,
    pub module_names: Vec<String>,
    pub module_stream_ids: Vec<i64>,
    pub string_ids: Vec<i64>,
    pub strings: Vec<Option<String>>,
}

impl Cache {
    /// Whether the three catalogs and their inverses agree: what a name, an epoch,
    /// version and release, or an architecture is found under holds that very value.
    pub open spec fn catalogs_inverted(&self) -> bool {
        &&& is_inverse(self.name_to_id@, self.id_to_name@)
        &&& is_evr_inverse(self.evr_to_id@, self.id_to_evr@)
        &&& is_inverse(self.arch_to_id@, self.id_to_arch@)
    }

    /// Whether the package tables of the cache are those of the snapshot `s`.
    pub open spec fn holds_packages(&self, s: &Snapshot) -> bool {
        &&& self.id_to_name@ == paired(s.name_ids@, s.names@)
        &&& lists(self.updates@) == grouped_rows_onto(
            Map::empty(),
            s.updates@,
            s.updates@.len() as int,
        )
        &&& tables(self.updates_index@) == positioned_onto(
            Map::empty(),
            s.update_index@,
            s.update_index@.len() as int,
        )
        &&& self.id_to_evr@ == inserted(Map::empty(), s.evrs@, s.evrs@.len() as int)
        &&& self.id_to_arch@ == paired(s.arch_ids@, s.archs@)
        &&& lists(self.arch_compat@) == grouped(s.arch_compat_from@, s.arch_compat_to@)
        &&& self.pkg_details@ == inserted(Map::empty(), s.packages@, s.packages@.len() as int)
        &&& exists|order: Seq<i64>|
            {
                &&& #[trigger] names_each_once(order, self.pkg_details@)
                &&& nevra_index(self.nevra_to_pkgid@) == paired_onto(
                    Map::empty(),
                    nevra_column(self.pkg_details@, order),
                    order,
                    order.len() as int,
                )
                &&& lists(self.src_pkg_id_to_pkg_ids@) == grouped_some_onto(
                    Map::empty(),
                    source_column(self.pkg_details@, order),
                    order,
                    order.len() as int,
                )
            }
        &&& lists(self.modulename_to_id@) == grouped(texts(s.module_names@), s.module_stream_ids@)
        &&& self.strings@ == paired(s.string_ids@, s.strings@)
    }

    /// Whether the repository and advisory tables of the cache are those of the
    /// snapshot `s`.
    pub open spec fn holds_repos(&self, s: &Snapshot) -> bool {
        &&& self.repo_detail@ == inserted(Map::empty(), s.repos@, s.repos@.len() as int)
        &&& exists|order: Seq<i64>|
            {
                &&& #[trigger] names_each_once(order, self.repo_detail@)
                &&& lists(self.repolabel_to_ids@) == grouped_onto(
                    Map::empty(),
                    label_column(self.repo_detail@, order),
                    order,
                    order.len() as int,
                )
                &&& lists(self.productid_to_repoids@) == grouped_some_onto(
                    Map::empty(),
                    product_column(self.repo_detail@, order),
                    order,
                    order.len() as int,
                )
            }
        &&& lists(self.pkgid_to_repoids@) == grouped(s.pkg_repo_pkg_ids@, s.pkg_repo_repo_ids@)
        &&& self.errataid_to_name@ == paired(s.errata_name_ids@, s.errata_names@)
        &&& lists(self.pkgid_to_errataids@) == grouped(
            s.pkg_errata_pkg_ids@,
            s.pkg_errata_errata_ids@,
        )
        &&& lists(self.errataid_to_repoids@) == grouped(
            s.errata_repo_errata_ids@,
            s.errata_repo_repo_ids@,
        )
        &&& records_attached(
            self.cve_detail@,
            inserted(Map::empty(), s.cves@, s.cves@.len() as int),
            grouped(s.cve_cwe_cve_ids@, s.cve_cwes@),
            grouped(s.errata_cve_cve_ids@, s.errata_cve_errata_ids@),
            grouped(s.cve_pkg_cve_ids@, s.cve_pkg_pkg_ids@),
        )
        &&& self.errata_detail@ == inserted(Map::empty(), s.errata@, s.errata@.len() as int)
        &&& self.dbchange@ == Map::<Seq<char>, String>::empty()
        &&& self.pkgerrata_to_module@ == Map::<Seq<char>, String>::empty()
    }
}

/// Builds the cache from the tables of a snapshot: the catalogs of names, of epochs,
/// versions and releases and of architectures with their inverses, the builds of each
/// name, the packages, repositories, advisories and vulnerability records, and the
/// tables that join them.
pub fn load(snapshot: Snapshot) -> (r: Cache)
    ensures
        r.catalogs_inverted(),
        r.holds_packages(&snapshot),
        r.holds_repos(&snapshot),
{
    let Snapshot {
        name_ids,
        names,
        updates,
        update_index,
        evrs,
        arch_ids,
        archs,
        arch_compat_from,
        arch_compat_to,
        packages,
        repos,
        pkg_repo_pkg_ids,
        pkg_repo_repo_ids,
        errata_name_ids,
        errata_names,
        pkg_errata_pkg_ids,
        pkg_errata_errata_ids,
        errata_repo_errata_ids,
        errata_repo_repo_ids,
        cves,
        cve_cwe_cve_ids,
        cve_cwes,
        errata_cve_cve_ids,
        errata_cve_errata_ids,
        cve_pkg_cve_ids,
        cve_pkg_pkg_ids,
        errata,
        module_names,
        module_stream_ids,
        string_ids,
        strings,
    } = snapshot;
    let mut cache = Cache::default();
    proof {
        assert(lists(cache.updates@) =~= Map::<i64, Seq<i64>>::empty());
        assert(tables(cache.updates_index@) =~= Map::<i64, Map<i64, usize>>::empty());
        assert(lists(cache.arch_compat@) =~= Map::<i64, Seq<i64>>::empty());
        assert(nevra_index(cache.nevra_to_pkgid@) =~= Map::<NevraId, i64>::empty());
        assert(lists(cache.src_pkg_id_to_pkg_ids@) =~= Map::<i64, Seq<i64>>::empty());
        assert(lists(cache.repolabel_to_ids@) =~= Map::<Seq<char>, Seq<i64>>::empty());
        assert(lists(cache.productid_to_repoids@) =~= Map::<i64, Seq<i64>>::empty());
    }
    load_names(name_ids, names, &mut cache);
    load_updates(updates, update_index, &mut cache);
    load_evr(evrs, &mut cache);
    load_arch(arch_ids, archs, arch_compat_from, arch_compat_to, &mut cache);
    load_pkg(packages, &mut cache);
    let ghost package_order = choose|order: Seq<i64>|
        {
            &&& #[trigger] names_each_once(order, cache.pkg_details@)
            &&& nevra_index(cache.nevra_to_pkgid@) == paired_onto(
                Map::empty(),
                nevra_column(cache.pkg_details@, order),
                order,
                order.len() as int,
            )
            &&& lists(cache.src_pkg_id_to_pkg_ids@) == grouped_some_onto(
                Map::empty(),
                source_column(cache.pkg_details@, order),
                order,
                order.len() as int,
            )
        };
    load_repos(repos, &mut cache);
    let ghost repo_order = choose|order: Seq<i64>|
        {
            &&& #[trigger] names_each_once(order, cache.repo_detail@)
            &&& lists(cache.repolabel_to_ids@) == grouped_onto(
                Map::empty(),
                label_column(cache.repo_detail@, order),
                order,
                order.len() as int,
            )
            &&& lists(cache.productid_to_repoids@) == grouped_some_onto(
                Map::empty(),
                product_column(cache.repo_detail@, order),
                order,
                order.len() as int,
            )
        };
    cache.pkgid_to_repoids = load_multimap(pkg_repo_pkg_ids, pkg_repo_repo_ids);
    cache.errataid_to_name = load_map(errata_name_ids, errata_names);
    cache.pkgid_to_errataids = load_multimap(pkg_errata_pkg_ids, pkg_errata_errata_ids);
    cache.errataid_to_repoids = load_multimap(errata_repo_errata_ids, errata_repo_repo_ids);
    load_cve(
        cves,
        cve_cwe_cve_ids,
        cve_cwes,
        errata_cve_cve_ids,
        errata_cve_errata_ids,
        cve_pkg_cve_ids,
        cve_pkg_pkg_ids,
        &mut cache,
    );
    load_dbchange(&mut cache);
    load_errata(errata, &mut cache);
    load_modules(module_names, module_stream_ids, &mut cache);
    cache.strings = load_map(string_ids, strings);
    proof {
        assert(names_each_once(package_order, cache.pkg_details@));
        assert(names_each_once(repo_order, cache.repo_detail@));
        assert(cache.holds_packages(&snapshot));
        assert(cache.holds_repos(&snapshot));
    }
    cache
}

} // verus!
