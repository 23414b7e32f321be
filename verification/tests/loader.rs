use std::collections::HashMap;
use upcache::cache::util::{
    insert_rows, invert, invert_evrs, keys_of, load_map, load_multimap, push_pairs, push_rows, push_to,
};
use upcache::cache::{
    file_nevra, load, load_arch, load_cve, load_dbchange, load_errata, load_evr, load_modules,
    load_names, load_pkg, load_repos, load_updates, position_rows, push_label, Cache, Cve, Errata,
    Evr, NevraId, Package, Repo, Snapshot,
};

fn strings(v: &[&str]) -> Vec<String> {
    v.iter().map(|s| s.to_string()).collect()
}

fn sorted(mut v: Vec<i64>) -> Vec<i64> {
    v.sort();
    v
}

#[test]
fn load_map_pairs_by_position() {
    let m = load_map(vec![3, 1, 2], strings(&["c", "a", "b"]));
    assert_eq!(m.len(), 3);
    assert_eq!(m.get(&1), Some(&"a".to_string()));
    assert_eq!(m.get(&2), Some(&"b".to_string()));
    assert_eq!(m.get(&3), Some(&"c".to_string()));
}

#[test]
fn load_map_later_pair_wins_and_longer_column_is_cut() {
    let m = load_map(vec![1, 2, 1, 9], vec![10, 20, 30]);
    assert_eq!(m.len(), 2);
    assert_eq!(m.get(&1), Some(&30));
    assert_eq!(m.get(&2), Some(&20));
    assert_eq!(m.get(&9), None);
    let m = load_map(vec![1], vec![10, 20, 30]);
    assert_eq!(m.len(), 1);
    assert_eq!(m.get(&1), Some(&10));
    let m: HashMap<i64, i64> = load_map(vec![], vec![]);
    assert_eq!(m.len(), 0);
}

#[test]
fn load_multimap_groups_in_order() {
    let m = load_multimap(vec![1, 1, 2, 1, 3], vec![10, 11, 20, 12, 30]);
    assert_eq!(m.len(), 3);
    assert_eq!(m.get(&1), Some(&vec![10, 11, 12]));
    assert_eq!(m.get(&2), Some(&vec![20]));
    assert_eq!(m.get(&3), Some(&vec![30]));
    let m = load_multimap(vec![1, 1, 2], vec![10]);
    assert_eq!(m.get(&1), Some(&vec![10]));
    assert_eq!(m.get(&2), None);
}

#[test]
fn push_pairs_adds_to_what_is_there() {
    let mut m = load_multimap(vec![1], vec![10]);
    push_pairs(&mut m, &vec![1, 2], vec![11, 20]);
    assert_eq!(m.get(&1), Some(&vec![10, 11]));
    assert_eq!(m.get(&2), Some(&vec![20]));
    push_rows(&mut m, vec![(2, 22), (4, 40), (2, 23)]);
    assert_eq!(m.get(&2), Some(&vec![20, 22, 23]));
    assert_eq!(m.get(&4), Some(&vec![40]));
    push_to(&mut m, 2, 21);
    push_to(&mut m, 3, 30);
    assert_eq!(m.get(&2), Some(&vec![20, 22, 23, 21]));
    assert_eq!(m.get(&3), Some(&vec![30]));
}

#[test]
fn insert_rows_later_row_wins() {
    let mut m: HashMap<i64, &str> = HashMap::new();
    m.insert(5, "old");
    insert_rows(&mut m, vec![(1, "a"), (2, "b"), (1, "c")]);
    assert_eq!(m.len(), 3);
    assert_eq!(m.get(&1), Some(&"c"));
    assert_eq!(m.get(&2), Some(&"b"));
    assert_eq!(m.get(&5), Some(&"old"));
}

#[test]
fn keys_of_names_each_key_once() {
    let m = load_map(vec![4, 2, 9, 2], vec![0, 0, 0, 0]);
    assert_eq!(sorted(keys_of(&m)), vec![2, 4, 9]);
}

#[test]
fn invert_leads_back() {
    let ids = load_map(vec![1, 2, 3], strings(&["foo", "bar", "baz"]));
    let names = invert(&ids);
    for (id, name) in [(1, "foo"), (2, "bar"), (3, "baz")] {
        assert_eq!(names.get(name), Some(&id));
        assert_eq!(ids.get(names.get(name).unwrap()).unwrap(), name);
    }
    assert_eq!(names.get("nope"), None);
}

#[test]
fn invert_of_a_repeated_text_finds_one_of_its_ids() {
    let ids = load_map(vec![1, 2, 3], strings(&["same", "same", "other"]));
    let names = invert(&ids);
    assert_eq!(names.get("other"), Some(&3));
    let found = *names.get("same").unwrap();
    assert!(found == 1 || found == 2);
    assert_eq!(ids.get(&found).unwrap(), "same");
}

#[test]
fn invert_evrs_leads_back() {
    let e = |n: i64, v: &str, r: &str| Evr(n, v.to_string(), r.to_string());
    let mut ids: HashMap<i64, Evr> = HashMap::new();
    insert_rows(&mut ids, vec![(10, e(0, "1.0", "1")), (11, e(0, "2.0", "1")), (12, e(1, "1.0", "1"))]);
    let index = invert_evrs(&ids);
    for id in [10, 11, 12] {
        assert_eq!(index.get(ids.get(&id).unwrap()), Some(id));
    }
    assert_eq!(index.get(&e(0, "3.0", "1")), None);
}

#[test]
fn load_names_fills_both_directions() {
    let mut cache = Cache::default();
    load_names(vec![1, 2], strings(&["foo", "bar"]), &mut cache);
    assert_eq!(cache.id_to_name.get(&1).unwrap(), "foo");
    assert_eq!(cache.name_to_id.get("bar"), Some(&2));
    assert_eq!(cache.id_to_name.get(cache.name_to_id.get("foo").unwrap()).unwrap(), "foo");
    assert_eq!(cache.repo_detail.len(), 0);
}

#[test]
fn load_updates_keeps_the_order_of_the_builds() {
    let mut cache = Cache::default();
    load_updates(
        vec![(1, 100), (2, 200), (1, 101), (1, 102)],
        vec![(1, 10, 0), (1, 11, 1), (2, 10, 0), (1, 11, 2)],
        &mut cache,
    );
    assert_eq!(cache.updates.get(&1), Some(&vec![100, 101, 102]));
    assert_eq!(cache.updates.get(&2), Some(&vec![200]));
    assert_eq!(cache.updates_index.get(&1).unwrap().get(&10), Some(&0));
    assert_eq!(cache.updates_index.get(&1).unwrap().get(&11), Some(&2));
    assert_eq!(cache.updates_index.get(&2).unwrap().get(&10), Some(&0));
    assert_eq!(cache.updates_index.get(&3), None);
    let mut m = HashMap::new();
    position_rows(&mut m, vec![(7, 8, 9)]);
    assert_eq!(m.get(&7).unwrap().get(&8), Some(&9));
}

#[test]
fn load_evr_fills_both_directions() {
    let e = |n: i64, v: &str, r: &str| Evr(n, v.to_string(), r.to_string());
    let mut cache = Cache::default();
    load_evr(vec![(10, e(0, "1.0", "1")), (11, e(2, "1.0", "1"))], &mut cache);
    assert_eq!(cache.id_to_evr.get(&11), Some(&e(2, "1.0", "1")));
    assert_eq!(cache.evr_to_id.get(&e(0, "1.0", "1")), Some(10));
    assert_eq!(cache.evr_to_id.get(&e(2, "1.0", "1")), Some(11));
    assert_eq!(cache.evr_to_id.get(&e(1, "1.0", "1")), None);
}

#[test]
fn load_arch_fills_catalog_and_compatibility() {
    let mut cache = Cache::default();
    load_arch(vec![1, 2, 3], strings(&["noarch", "i686", "x86_64"]), vec![3, 3, 2], vec![1, 2, 1], &mut cache);
    assert_eq!(cache.arch_to_id.get("i686"), Some(&2));
    assert_eq!(cache.id_to_arch.get(&3).unwrap(), "x86_64");
    assert_eq!(cache.arch_compat.get(&3), Some(&vec![1, 2]));
    assert_eq!(cache.arch_compat.get(&2), Some(&vec![1]));
    assert_eq!(cache.arch_compat.get(&1), None);
}

fn package(name_id: i64, evr_id: i64, arch_id: i64, source: Option<i64>) -> Package {
    Package { name_id, evr_id, arch_id, summary: None, desc: None, source_pkg_id: source }
}

fn pkgid(cache: &Cache, t: NevraId) -> Option<i64> {
    cache.pkgid_of(&t)
}

#[test]
fn load_pkg_files_each_package() {
    let mut cache = Cache::default();
    load_pkg(
        vec![
            (100, package(1, 10, 5, None)),
            (101, package(1, 11, 5, Some(100))),
            (102, package(2, 10, 5, Some(100))),
            (103, package(2, 10, 6, Some(101))),
        ],
        &mut cache,
    );
    assert_eq!(cache.pkg_details.len(), 4);
    assert_eq!(cache.pkg_details.get(&101).unwrap().evr_id, 11);
    assert_eq!(pkgid(&cache, NevraId(1, 10, 5)), Some(100));
    assert_eq!(pkgid(&cache, NevraId(2, 10, 6)), Some(103));
    assert_eq!(pkgid(&cache, NevraId(2, 11, 5)), None);
    assert_eq!(sorted(cache.src_pkg_id_to_pkg_ids.get(&100).unwrap().clone()), vec![101, 102]);
    assert_eq!(cache.src_pkg_id_to_pkg_ids.get(&101), Some(&vec![103]));
    assert_eq!(cache.src_pkg_id_to_pkg_ids.get(&102), None);
    let mut m = HashMap::new();
    file_nevra(&mut m, NevraId(1, 2, 3), 4);
    file_nevra(&mut m, NevraId(1, 2, 5), 6);
    assert_eq!(m.get(&1).unwrap().get(&2).unwrap().get(&3), Some(&4));
    assert_eq!(m.get(&1).unwrap().get(&2).unwrap().get(&5), Some(&6));
}

fn repo(label: &str, product_id: Option<i64>) -> Repo {
    Repo {
        label: label.to_string(),
        name: "n".to_string(),
        url: "u".to_string(),
        basearch: None,
        releasever: None,
        product: None,
        product_id,
        revision: None,
    }
}

#[test]
fn load_repos_lists_by_label_and_product() {
    let mut cache = Cache::default();
    load_repos(
        vec![(1, repo("a", Some(7))), (2, repo("b", None)), (3, repo("a", Some(8))), (4, repo("c", Some(7)))],
        &mut cache,
    );
    assert_eq!(cache.repo_detail.len(), 4);
    assert_eq!(sorted(cache.repolabel_to_ids.get("a").unwrap().clone()), vec![1, 3]);
    assert_eq!(cache.repolabel_to_ids.get("b"), Some(&vec![2]));
    assert_eq!(cache.repolabel_to_ids.get("d"), None);
    assert_eq!(sorted(cache.productid_to_repoids.get(&7).unwrap().clone()), vec![1, 4]);
    assert_eq!(cache.productid_to_repoids.get(&8), Some(&vec![3]));
    let mut m = upcache::text_map::TextMap::new();
    push_label(&mut m, &"x".to_string(), 1);
    push_label(&mut m, &"x".to_string(), 2);
    assert_eq!(m.get("x"), Some(&vec![1, 2]));
}

fn cve(name: &str) -> Cve {
    Cve {
        name: name.to_string(),
        redhat_url: None,
        secondary_url: None,
        cvss3_score: Some(7.5f64.to_bits()),
        cvss3_metrics: None,
        impact: "low".to_string(),
        published_date: None,
        modified_date: None,
        iava: None,
        description: None,
        cvss2_score: None,
        cvss2_metrics: None,
        cve_source: "src".to_string(),
        cwes: vec![],
        pkgids: vec![],
        errataids: vec![],
    }
}

#[test]
fn load_cve_attaches_the_lists() {
    let mut cache = Cache::default();
    load_cve(
        vec![(1, cve("CVE-1")), (2, cve("CVE-2"))],
        vec![1, 1, 3],
        strings(&["CWE-1", "CWE-2", "CWE-3"]),
        vec![2, 1, 2],
        vec![900, 901, 902],
        vec![1],
        vec![1000],
        &mut cache,
    );
    assert_eq!(cache.cve_detail.len(), 2);
    let one = cache.cve_detail.get(&1).unwrap();
    assert_eq!(one.name, "CVE-1");
    assert_eq!(one.cwes, strings(&["CWE-1", "CWE-2"]));
    assert_eq!(one.errataids, vec![901]);
    assert_eq!(one.pkgids, vec![1000]);
    assert_eq!(one.cvss3_score.map(f64::from_bits), Some(7.5));
    let two = cache.cve_detail.get(&2).unwrap();
    assert_eq!(two.cwes, Vec::<String>::new());
    assert_eq!(two.errataids, vec![900, 902]);
    assert_eq!(two.pkgids, Vec::<i64>::new());
    assert_eq!(cache.cve_detail.get(&3).map(|c| c.name.clone()), None);
}

#[test]
fn load_errata_modules_and_dbchange() {
    let mut cache = Cache::default();
    load_errata(
        vec![(
            900,
            Errata {
                name: "ADV-1".to_string(),
                synopsis: "".to_string(),
                summary: "".to_string(),
                typ: "bugfix".to_string(),
                severity: "".to_string(),
                description: Some("d".to_string()),
                solution: "".to_string(),
                issued: "".to_string(),
                updated: "".to_string(),
                url: "".to_string(),
            },
        )],
        &mut cache,
    );
    assert_eq!(cache.errata_detail.get(&900).unwrap().name, "ADV-1");
    load_modules(strings(&["perl", "ruby", "perl", "php"]), vec![1, 2, 3], &mut cache);
    assert_eq!(cache.modulename_to_id.get("perl"), Some(&vec![1, 3]));
    assert_eq!(cache.modulename_to_id.get("ruby"), Some(&vec![2]));
    assert_eq!(cache.modulename_to_id.get("php"), None);
    load_dbchange(&mut cache);
    assert!(!cache.dbchange.contains_key("ADV-1"));
    assert_eq!(cache.errata_detail.len(), 1);
}

#[test]
fn load_fills_the_whole_cache() {
    let s = Snapshot {
        name_ids: vec![1],
        names: strings(&["foo"]),
        updates: vec![(1, 100)],
        update_index: vec![(1, 10, 0)],
        evrs: vec![(10, Evr(0, "1".to_string(), "1".to_string()))],
        arch_ids: vec![5],
        archs: strings(&["noarch"]),
        arch_compat_from: vec![5],
        arch_compat_to: vec![5],
        packages: vec![(100, package(1, 10, 5, None))],
        repos: vec![(1, repo("a", Some(7)))],
        pkg_repo_pkg_ids: vec![100],
        pkg_repo_repo_ids: vec![1],
        errata_name_ids: vec![900],
        errata_names: strings(&["ADV-1"]),
        pkg_errata_pkg_ids: vec![100],
        pkg_errata_errata_ids: vec![900],
        errata_repo_errata_ids: vec![900],
        errata_repo_repo_ids: vec![1],
        cves: vec![(1, cve("CVE-1"))],
        cve_cwe_cve_ids: vec![1],
        cve_cwes: strings(&["CWE-1"]),
        errata_cve_cve_ids: vec![],
        errata_cve_errata_ids: vec![],
        cve_pkg_cve_ids: vec![],
        cve_pkg_pkg_ids: vec![],
        errata: vec![],
        module_names: strings(&["perl"]),
        module_stream_ids: vec![4],
        string_ids: vec![1, 2],
        strings: vec![Some("text".to_string()), None],
    };
    let cache = load(s);
    assert_eq!(cache.name_to_id.get("foo"), Some(&1));
    assert_eq!(cache.id_to_name.get(&1).unwrap(), "foo");
    assert_eq!(cache.updates.get(&1), Some(&vec![100]));
    assert_eq!(cache.updates_index.get(&1).unwrap().get(&10), Some(&0));
    assert_eq!(cache.evr_to_id.get(&Evr(0, "1".to_string(), "1".to_string())), Some(10));
    assert_eq!(cache.arch_to_id.get("noarch"), Some(&5));
    assert_eq!(cache.arch_compat.get(&5), Some(&vec![5]));
    assert_eq!(pkgid(&cache, NevraId(1, 10, 5)), Some(100));
    assert_eq!(cache.repolabel_to_ids.get("a"), Some(&vec![1]));
    assert_eq!(cache.productid_to_repoids.get(&7), Some(&vec![1]));
    assert_eq!(cache.pkgid_to_repoids.get(&100), Some(&vec![1]));
    assert_eq!(cache.errataid_to_name.get(&900).unwrap(), "ADV-1");
    assert_eq!(cache.pkgid_to_errataids.get(&100), Some(&vec![900]));
    assert_eq!(cache.errataid_to_repoids.get(&900), Some(&vec![1]));
    assert_eq!(cache.cve_detail.get(&1).unwrap().cwes, strings(&["CWE-1"]));
    assert_eq!(cache.modulename_to_id.get("perl"), Some(&vec![4]));
    assert_eq!(cache.strings.get(&1), Some(&Some("text".to_string())));
    assert_eq!(cache.strings.get(&2), Some(&None));
    assert!(!cache.dbchange.contains_key("foo"));
    assert!(!cache.pkgerrata_to_module.contains_key("foo"));
}

#[test]
fn default_cache_is_empty() {
    let cache = Cache::default();
    assert_eq!(cache.name_to_id.get(""), None);
    assert_eq!(cache.id_to_name.len(), 0);
    assert_eq!(cache.updates.len(), 0);
    assert_eq!(cache.repo_detail.len(), 0);
    assert_eq!(cache.evr_to_id.get(&Evr(0, "".to_string(), "".to_string())), None);
}
