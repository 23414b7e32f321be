use upcache::cache::{load, Cache, Errata, Evr, Package, Repo, Snapshot};
use upcache::calc::model::{Outcome, Rejection, SkipReason};
use upcache::calc::updates::{Request, Response, Updates};
use upcache::prelude::Nevra;

fn empty_snapshot() -> Snapshot {
    Snapshot {
        name_ids: vec![],
        names: vec![],
        updates: vec![],
        update_index: vec![],
        evrs: vec![],
        arch_ids: vec![],
        archs: vec![],
        arch_compat_from: vec![],
        arch_compat_to: vec![],
        packages: vec![],
        repos: vec![],
        pkg_repo_pkg_ids: vec![],
        pkg_repo_repo_ids: vec![],
        errata_name_ids: vec![],
        errata_names: vec![],
        pkg_errata_pkg_ids: vec![],
        pkg_errata_errata_ids: vec![],
        errata_repo_errata_ids: vec![],
        errata_repo_repo_ids: vec![],
        cves: vec![],
        cve_cwe_cve_ids: vec![],
        cve_cwes: vec![],
        errata_cve_cve_ids: vec![],
        errata_cve_errata_ids: vec![],
        cve_pkg_cve_ids: vec![],
        cve_pkg_pkg_ids: vec![],
        errata: vec![],
        module_names: vec![],
        module_stream_ids: vec![],
        string_ids: vec![],
        strings: vec![],
    }
}

fn package(name_id: i64, evr_id: i64, arch_id: i64) -> Package {
    Package { name_id, evr_id, arch_id, summary: None, desc: None, source_pkg_id: None }
}

fn repo(label: &str, url: &str, basearch: Option<&str>, releasever: Option<&str>, product_id: Option<i64>) -> Repo {
    Repo {
        label: label.to_string(),
        name: label.to_string(),
        url: url.to_string(),
        basearch: basearch.map(|s| s.to_string()),
        releasever: releasever.map(|s| s.to_string()),
        product: None,
        product_id,
        revision: None,
    }
}

// foo-1.0-1.noarch (package 1000) and foo-2.0-1.noarch (package 1001); the newer build
// has the advisory ADV-1, which the repository "updates" (500) offers; "legacy" (501)
// offers only the older build.
fn foo_snapshot() -> Snapshot {
    let mut s = empty_snapshot();
    s.name_ids = vec![1];
    s.names = vec!["foo".to_string()];
    s.evrs = vec![
        (10, Evr(0, "1.0".to_string(), "1".to_string())),
        (11, Evr(0, "2.0".to_string(), "1".to_string())),
    ];
    s.arch_ids = vec![100, 101, 102];
    s.archs = vec!["noarch".to_string(), "x86_64".to_string(), "s390x".to_string()];
    s.arch_compat_from = vec![100, 101, 101];
    s.arch_compat_to = vec![100, 100, 101];
    s.packages = vec![(1000, package(1, 10, 100)), (1001, package(1, 11, 100))];
    s.updates = vec![(1, 1000), (1, 1001)];
    s.update_index = vec![(1, 10, 0), (1, 11, 1)];
    s.repos = vec![
        (500, repo("updates", "http://example.com/updates", Some("noarch"), Some("39"), Some(7))),
        (501, repo("legacy", "http://example.com/legacy", Some("noarch"), Some("39"), Some(7))),
    ];
    s.pkg_repo_pkg_ids = vec![1000, 1000, 1001];
    s.pkg_repo_repo_ids = vec![501, 500, 500];
    s.errata_name_ids = vec![900];
    s.errata_names = vec!["ADV-1".to_string()];
    s.pkg_errata_pkg_ids = vec![1001];
    s.pkg_errata_errata_ids = vec![900];
    s.errata_repo_errata_ids = vec![900];
    s.errata_repo_repo_ids = vec![500];
    s
}

fn foo_cache() -> Cache {
    load(foo_snapshot())
}

fn request(packages: &[&str]) -> Request {
    Request {
        package_list: packages.iter().map(|s| s.to_string()).collect(),
        repository_list: None,
        modules_list: None,
        releasever: None,
        basearch: None,
    }
}

fn summary(resp: &Response, key: &str) -> Option<Vec<(String, String, Option<String>, Option<String>, String)>> {
    resp.update_list.get(key).map(|d| {
        d.available_updates
            .iter()
            .map(|u| {
                (
                    u.package.to_string(),
                    u.erratum.clone(),
                    u.repository.clone(),
                    u.basearch.clone(),
                    u.releasever.clone(),
                )
            })
            .collect()
    })
}

fn adv1() -> (String, String, Option<String>, Option<String>, String) {
    (
        "foo-2.0-1.noarch".to_string(),
        "ADV-1".to_string(),
        Some("updates".to_string()),
        Some("noarch".to_string()),
        "39".to_string(),
    )
}

#[test]
fn older_build_gets_the_advisory_update() {
    let cache = foo_cache();
    let resp = Updates::calc_updates(&cache, request(&["foo-1.0-1.noarch"]));
    assert_eq!(resp.update_list.len(), 1);
    assert_eq!(summary(&resp, "foo-1.0-1.noarch"), Some(vec![adv1()]));
    let detail = resp.update_list.get("foo-1.0-1.noarch").unwrap();
    assert_eq!(detail.summary, None);
    assert_eq!(detail.description, None);
    assert_eq!(resp.repository_list, None);
    assert_eq!(resp.releasever, None);
    assert_eq!(resp.basearch, None);
}

#[test]
fn newest_build_has_no_updates() {
    let cache = foo_cache();
    let resp = Updates::calc_updates(&cache, request(&["foo-2.0-1.noarch"]));
    assert_eq!(summary(&resp, "foo-2.0-1.noarch"), Some(vec![]));
}

#[test]
fn repository_that_lacks_the_candidate_gives_no_update() {
    let cache = foo_cache();
    let mut req = request(&["foo-1.0-1.noarch"]);
    req.repository_list = Some(vec!["legacy".to_string()]);
    let resp = Updates::calc_updates(&cache, req);
    assert_eq!(summary(&resp, "foo-1.0-1.noarch"), Some(vec![]));
    assert_eq!(resp.repository_list, Some(vec!["legacy".to_string()]));
}

#[test]
fn unknown_name_has_no_entry() {
    let cache = foo_cache();
    let resp = Updates::calc_updates(&cache, request(&["nope-1-1.noarch"]));
    assert!(resp.update_list.get("nope-1-1.noarch").is_none());
    assert_eq!(resp.update_list.len(), 0);
}

#[test]
fn unparseable_text_has_no_entry_and_others_are_answered() {
    let cache = foo_cache();
    let resp = Updates::calc_updates(
        &cache,
        request(&["not a package", "foo-1.0-1.noarch", "nope-1-1.noarch", "foo"]),
    );
    assert_eq!(resp.update_list.len(), 1);
    assert!(resp.update_list.get("not a package").is_none());
    assert!(resp.update_list.get("foo").is_none());
    assert_eq!(summary(&resp, "foo-1.0-1.noarch"), Some(vec![adv1()]));
}

#[test]
fn every_admitted_package_has_an_entry() {
    let cache = foo_cache();
    let resp = Updates::calc_updates(
        &cache,
        request(&["foo-1.0-1.noarch", "foo-2.0-1.noarch", "foo-3.0-1.noarch", "foo-1.0-1.noarch"]),
    );
    assert_eq!(resp.update_list.len(), 3);
    assert_eq!(summary(&resp, "foo-1.0-1.noarch"), Some(vec![adv1()]));
    assert_eq!(summary(&resp, "foo-2.0-1.noarch"), Some(vec![]));
    // a build that the cache does not index is taken up and has nothing to report
    assert_eq!(summary(&resp, "foo-3.0-1.noarch"), Some(vec![]));
}

#[test]
fn labelled_repository_that_offers_the_candidate_gives_the_update() {
    let cache = foo_cache();
    let mut req = request(&["foo-1.0-1.noarch"]);
    req.repository_list = Some(vec!["updates".to_string(), "missing".to_string()]);
    let resp = Updates::calc_updates(&cache, req);
    assert_eq!(summary(&resp, "foo-1.0-1.noarch"), Some(vec![adv1()]));
}

#[test]
fn releasever_narrows_the_repositories() {
    let cache = foo_cache();
    let mut req = request(&["foo-1.0-1.noarch"]);
    req.releasever = Some("39".to_string());
    let resp = Updates::calc_updates(&cache, req);
    assert_eq!(summary(&resp, "foo-1.0-1.noarch"), Some(vec![adv1()]));
    assert_eq!(resp.releasever, Some("39".to_string()));

    let mut req = request(&["foo-1.0-1.noarch"]);
    req.releasever = Some("40".to_string());
    let resp = Updates::calc_updates(&cache, req);
    assert_eq!(summary(&resp, "foo-1.0-1.noarch"), Some(vec![]));
}

#[test]
fn basearch_narrows_the_repositories() {
    let cache = foo_cache();
    let mut req = request(&["foo-1.0-1.noarch"]);
    req.basearch = Some("noarch".to_string());
    let resp = Updates::calc_updates(&cache, req);
    assert_eq!(summary(&resp, "foo-1.0-1.noarch"), Some(vec![adv1()]));
    assert_eq!(resp.basearch, Some("noarch".to_string()));

    let mut req = request(&["foo-1.0-1.noarch"]);
    req.basearch = Some("x86_64".to_string());
    let resp = Updates::calc_updates(&cache, req);
    assert_eq!(summary(&resp, "foo-1.0-1.noarch"), Some(vec![]));
}

// A repository without a release version is in scope where its url holds the wanted
// text, and only there.
#[test]
fn repository_without_releasever_is_matched_by_its_url() {
    let mut s = foo_snapshot();
    s.repos = vec![
        (500, repo("updates", "http://example.com/f39/updates", Some("noarch"), None, Some(7))),
        (501, repo("legacy", "http://example.com/legacy", Some("noarch"), None, Some(7))),
    ];
    let cache = load(s);
    let mut response = Response::default();
    let mut req = request(&[]);
    req.releasever = Some("f39".to_string());
    let available = Updates::process_repositories(&cache, &req, &mut response);
    assert!(available.contains(&500));
    assert!(!available.contains(&501));
    assert_eq!(available.len(), 1);

    req.releasever = Some("example".to_string());
    let available = Updates::process_repositories(&cache, &req, &mut response);
    assert_eq!(available.len(), 2);

    req.releasever = Some("f39/updates/".to_string());
    let available = Updates::process_repositories(&cache, &req, &mut response);
    assert_eq!(available.len(), 0);

    let mut req = request(&["foo-1.0-1.noarch"]);
    req.releasever = Some("f39".to_string());
    let resp = Updates::calc_updates(&cache, req);
    let found = summary(&resp, "foo-1.0-1.noarch").unwrap();
    assert_eq!(found.len(), 1);
    assert_eq!(found[0].4, "".to_string());
    assert_eq!(found[0].2, Some("updates".to_string()));
}

#[test]
fn all_known_repositories_are_in_scope_without_narrowing() {
    let cache = foo_cache();
    let mut response = Response::default();
    let available = Updates::process_repositories(&cache, &request(&[]), &mut response);
    assert_eq!(available.len(), 2);
    assert!(available.contains(&500) && available.contains(&501));
    assert_eq!(response.repository_list, None);
}

#[test]
fn no_update_comes_from_a_repository_out_of_scope() {
    let cache = foo_cache();
    for labels in [vec!["legacy"], vec!["updates"], vec!["legacy", "updates"], vec![]] {
        let mut req = request(&["foo-1.0-1.noarch"]);
        req.repository_list = Some(labels.iter().map(|s| s.to_string()).collect());
        let resp = Updates::calc_updates(&cache, req);
        for u in summary(&resp, "foo-1.0-1.noarch").unwrap() {
            let label = u.2.unwrap();
            assert!(labels.contains(&label.as_str()));
        }
    }
}

#[test]
fn update_needs_the_product_of_the_installed_build() {
    let mut s = foo_snapshot();
    s.repos = vec![
        (500, repo("updates", "http://example.com/updates", Some("noarch"), Some("39"), Some(8))),
        (501, repo("legacy", "http://example.com/legacy", Some("noarch"), Some("39"), Some(7))),
    ];
    s.pkg_repo_pkg_ids = vec![1000, 1001];
    s.pkg_repo_repo_ids = vec![501, 500];
    let cache = load(s);
    let resp = Updates::calc_updates(&cache, request(&["foo-1.0-1.noarch"]));
    assert_eq!(summary(&resp, "foo-1.0-1.noarch"), Some(vec![]));
}

#[test]
fn update_needs_the_releasever_of_the_installed_build() {
    let mut s = foo_snapshot();
    s.repos = vec![
        (500, repo("updates", "http://example.com/updates", Some("noarch"), Some("40"), Some(7))),
        (501, repo("legacy", "http://example.com/legacy", Some("noarch"), Some("39"), Some(7))),
    ];
    s.pkg_repo_pkg_ids = vec![1000, 1001];
    s.pkg_repo_repo_ids = vec![501, 500];
    let cache = load(s);
    let resp = Updates::calc_updates(&cache, request(&["foo-1.0-1.noarch"]));
    assert_eq!(summary(&resp, "foo-1.0-1.noarch"), Some(vec![]));
}

#[test]
fn build_without_advisory_is_not_reported() {
    let mut s = foo_snapshot();
    s.pkg_errata_pkg_ids = vec![];
    s.pkg_errata_errata_ids = vec![];
    let cache = load(s);
    let resp = Updates::calc_updates(&cache, request(&["foo-1.0-1.noarch"]));
    assert_eq!(summary(&resp, "foo-1.0-1.noarch"), Some(vec![]));
}

// Three builds of bar for x86_64 (101); the second is for s390x (102), which is not
// compatible with x86_64, the third for noarch (100), which is.
fn bar_snapshot() -> Snapshot {
    let mut s = foo_snapshot();
    s.name_ids = vec![1, 2];
    s.names = vec!["foo".to_string(), "bar".to_string()];
    s.evrs.push((12, Evr(3, "3.0".to_string(), "1".to_string())));
    s.packages.push((2000, package(2, 10, 101)));
    s.packages.push((2001, package(2, 11, 102)));
    s.packages.push((2002, package(2, 12, 100)));
    s.updates = vec![(1, 1000), (1, 1001), (2, 2000), (2, 2001), (2, 2002)];
    s.update_index.push((2, 10, 0));
    s.update_index.push((2, 11, 1));
    s.update_index.push((2, 12, 2));
    s.pkg_repo_pkg_ids = vec![1000, 1000, 1001, 2000, 2001, 2002, 2002];
    s.pkg_repo_repo_ids = vec![501, 500, 500, 500, 500, 501, 500];
    s.errata_name_ids = vec![900, 901];
    s.errata_names = vec!["ADV-1".to_string(), "ADV-2".to_string()];
    s.pkg_errata_pkg_ids = vec![1001, 2001, 2002, 2002];
    s.pkg_errata_errata_ids = vec![900, 900, 901, 900];
    s.errata_repo_errata_ids = vec![900, 901, 901];
    s.errata_repo_repo_ids = vec![500, 500, 501];
    s
}

#[test]
fn only_builds_of_a_fitting_architecture_are_reported() {
    let cache = load(bar_snapshot());
    let resp = Updates::calc_updates(&cache, request(&["bar-1.0-1.x86_64"]));
    let found = summary(&resp, "bar-1.0-1.x86_64").unwrap();
    let noarch = Some("noarch".to_string());
    assert_eq!(
        found,
        vec![
            ("bar-3:3.0-1.noarch".to_string(), "ADV-2".to_string(), Some("legacy".to_string()), noarch.clone(), "39".to_string()),
            ("bar-3:3.0-1.noarch".to_string(), "ADV-2".to_string(), Some("updates".to_string()), noarch.clone(), "39".to_string()),
            ("bar-3:3.0-1.noarch".to_string(), "ADV-1".to_string(), Some("updates".to_string()), noarch.clone(), "39".to_string()),
        ]
    );
    for u in &found {
        let nevra = Nevra::from_str(&u.0).unwrap();
        assert!(nevra.arch == "x86_64" || nevra.arch == "noarch");
    }
}

#[test]
fn architecture_without_compatibility_entry_gives_no_update() {
    let mut s = bar_snapshot();
    s.arch_compat_from = vec![100];
    s.arch_compat_to = vec![100];
    let cache = load(s);
    let resp = Updates::calc_updates(&cache, request(&["bar-1.0-1.x86_64", "foo-1.0-1.noarch"]));
    assert_eq!(summary(&resp, "bar-1.0-1.x86_64"), Some(vec![]));
    assert_eq!(summary(&resp, "foo-1.0-1.noarch"), Some(vec![adv1()]));
}

#[test]
fn unknown_architecture_fails_only_its_own_package() {
    let cache = load(bar_snapshot());
    let resp = Updates::calc_updates(&cache, request(&["bar-1.0-1.riscv", "foo-1.0-1.noarch"]));
    assert_eq!(summary(&resp, "bar-1.0-1.riscv"), Some(vec![]));
    assert_eq!(summary(&resp, "foo-1.0-1.noarch"), Some(vec![adv1()]));
}

#[test]
fn epoch_that_is_no_number_fails_only_its_own_package() {
    let cache = load(bar_snapshot());
    let huge = "foo-99999999999999999999:1.0-1.noarch";
    let resp = Updates::calc_updates(&cache, request(&[huge, "foo-1.0-1.noarch"]));
    assert_eq!(summary(&resp, huge), Some(vec![]));
    assert_eq!(summary(&resp, "foo-1.0-1.noarch"), Some(vec![adv1()]));
}

#[test]
fn epoch_zero_written_out_finds_the_same_build() {
    let cache = foo_cache();
    let resp = Updates::calc_updates(&cache, request(&["foo-0:1.0-1.noarch"]));
    assert_eq!(summary(&resp, "foo-0:1.0-1.noarch"), Some(vec![adv1()]));
}

#[test]
fn missing_details_of_a_candidate_give_no_update() {
    let mut s = foo_snapshot();
    s.packages = vec![(1000, package(1, 10, 100))];
    let cache = load(s);
    let resp = Updates::calc_updates(&cache, request(&["foo-1.0-1.noarch"]));
    assert_eq!(summary(&resp, "foo-1.0-1.noarch"), Some(vec![]));
}

#[test]
fn missing_advisory_name_gives_no_update() {
    let mut s = foo_snapshot();
    s.errata_name_ids = vec![];
    s.errata_names = vec![];
    let cache = load(s);
    let resp = Updates::calc_updates(&cache, request(&["foo-1.0-1.noarch"]));
    assert_eq!(summary(&resp, "foo-1.0-1.noarch"), Some(vec![]));
}

#[test]
fn position_outside_the_builds_gives_no_update() {
    let mut s = foo_snapshot();
    s.update_index = vec![(1, 10, 5), (1, 11, 1)];
    let cache = load(s);
    let resp = Updates::calc_updates(&cache, request(&["foo-1.0-1.noarch"]));
    assert_eq!(summary(&resp, "foo-1.0-1.noarch"), Some(vec![]));
}

#[test]
fn a_repository_listed_twice_is_reported_once() {
    let mut s = foo_snapshot();
    s.pkg_repo_pkg_ids = vec![1000, 1001, 1001];
    s.pkg_repo_repo_ids = vec![500, 500, 500];
    let cache = load(s);
    let resp = Updates::calc_updates(&cache, request(&["foo-1.0-1.noarch"]));
    assert_eq!(summary(&resp, "foo-1.0-1.noarch"), Some(vec![adv1()]));
}

#[test]
fn same_request_gives_same_answer() {
    let cache = load(bar_snapshot());
    let keys = ["bar-1.0-1.x86_64", "foo-1.0-1.noarch", "nope-1-1.noarch"];
    let a = Updates::calc_updates(&cache, request(&keys));
    let b = Updates::calc_updates(&cache, request(&keys));
    assert_eq!(a.update_list.len(), b.update_list.len());
    for k in keys {
        assert_eq!(summary(&a, k), summary(&b, k));
    }
}

#[test]
fn entries_stand_in_the_order_of_the_request() {
    let cache = load(bar_snapshot());
    let resp = Updates::calc_updates(
        &cache,
        request(&["foo-2.0-1.noarch", "bad", "bar-1.0-1.x86_64", "foo-2.0-1.noarch", "foo-1.0-1.noarch"]),
    );
    let keys: Vec<&str> = resp.update_list.entries().iter().map(|e| e.0.as_str()).collect();
    assert_eq!(keys, vec!["foo-2.0-1.noarch", "bar-1.0-1.x86_64", "foo-1.0-1.noarch"]);
    assert_eq!(resp.update_list.entries()[2].1.available_updates.len(), 1);
    assert_eq!(resp.update_list.entries()[1].1.available_updates.len(), 3);
}

#[test]
fn input_packages_are_taken_up_in_order() {
    let cache = foo_cache();
    let mut response = Response::default();
    let req = request(&["foo-2.0-1.noarch", "bad", "nope-1-1.noarch", "foo-1.0-1.noarch"]);
    let taken = Updates::process_input_packages(&cache, &req, &mut response);
    assert_eq!(taken.len(), 2);
    assert_eq!(taken[0].0, "foo-2.0-1.noarch");
    assert_eq!(taken[0].1, Nevra::from_str("foo-2.0-1.noarch").unwrap());
    assert_eq!(taken[1].0, "foo-1.0-1.noarch");
    assert_eq!(response.update_list.len(), 2);
    assert_eq!(response.update_list.get("foo-1.0-1.noarch").unwrap().available_updates.len(), 0);
}

#[test]
fn process_updates_fills_the_entries() {
    let cache = foo_cache();
    let mut response = Response::default();
    let req = request(&["foo-1.0-1.noarch"]);
    let available = Updates::process_repositories(&cache, &req, &mut response);
    let taken = Updates::process_input_packages(&cache, &req, &mut response);
    Updates::process_updates(&cache, &taken, &available, &mut response);
    assert_eq!(summary(&response, "foo-1.0-1.noarch"), Some(vec![adv1()]));
}

#[test]
fn errata_rows_are_loaded() {
    let mut s = foo_snapshot();
    s.errata = vec![(
        900,
        Errata {
            name: "ADV-1".to_string(),
            synopsis: "s".to_string(),
            summary: "m".to_string(),
            typ: "security".to_string(),
            severity: "low".to_string(),
            description: None,
            solution: "update".to_string(),
            issued: "2020".to_string(),
            updated: "2021".to_string(),
            url: "http://example.com".to_string(),
        },
    )];
    let cache = load(s);
    assert_eq!(cache.errata_detail.get(&900).unwrap().typ, "security");
}

fn outcome(cache: &Cache, text: &str) -> Outcome {
    let mut response = Response::default();
    let available = Updates::process_repositories(cache, &request(&[]), &mut response);
    Updates::outcome(cache, &available, text)
}

#[test]
fn rejected_packages_tell_why() {
    let mut s = bar_snapshot();
    s.name_ids.push(3);
    s.names.push("baz".to_string());
    let cache = load(s);
    assert_eq!(outcome(&cache, "not a package"), Outcome::Rejected(Rejection::NotAPackage));
    assert_eq!(outcome(&cache, "nope-1-1.noarch"), Outcome::Rejected(Rejection::UnknownName));
    assert_eq!(outcome(&cache, "baz-1-1.noarch"), Outcome::Rejected(Rejection::NoBuildIndex));
    assert_eq!(Updates::take_up(&cache, "baz-1-1.noarch"), Err(Rejection::NoBuildIndex));
    assert_eq!(Updates::take_up(&cache, "foo-9-9.noarch"), Ok(Nevra::from_str("foo-9-9.noarch").unwrap()));
}

#[test]
fn searched_packages_tell_how_many_updates() {
    let cache = load(bar_snapshot());
    assert_eq!(outcome(&cache, "foo-1.0-1.noarch"), Outcome::Searched(1));
    assert_eq!(outcome(&cache, "foo-2.0-1.noarch"), Outcome::Searched(0));
    assert_eq!(outcome(&cache, "bar-1.0-1.x86_64"), Outcome::Searched(3));
}

fn skip_reason(s: Snapshot, text: &str) -> Outcome {
    outcome(&load(s), text)
}

#[test]
fn skipped_packages_tell_why() {
    let mut s = foo_snapshot();
    s.updates = vec![];
    assert_eq!(skip_reason(s, "foo-1.0-1.noarch"), Outcome::Skipped(SkipReason::NoBuilds));

    assert_eq!(
        skip_reason(foo_snapshot(), "foo-99999999999999999999:1.0-1.noarch"),
        Outcome::Skipped(SkipReason::EpochNotANumber)
    );
    assert_eq!(skip_reason(foo_snapshot(), "foo-3.0-1.noarch"), Outcome::Skipped(SkipReason::UnknownEvr));
    assert_eq!(skip_reason(foo_snapshot(), "foo-1:1.0-1.noarch"), Outcome::Skipped(SkipReason::UnknownEvr));
    assert_eq!(skip_reason(foo_snapshot(), "foo-1.0-1.riscv"), Outcome::Skipped(SkipReason::UnknownArch));
    assert_eq!(skip_reason(foo_snapshot(), "foo-1.0-1.s390x"), Outcome::Skipped(SkipReason::NoCompatibility));

    let mut s = foo_snapshot();
    s.update_index = vec![(1, 11, 1)];
    assert_eq!(skip_reason(s, "foo-1.0-1.noarch"), Outcome::Skipped(SkipReason::BuildNotIndexed));

    let mut s = foo_snapshot();
    s.update_index = vec![(1, 10, 2), (1, 11, 1)];
    assert_eq!(skip_reason(s, "foo-1.0-1.noarch"), Outcome::Skipped(SkipReason::PositionOutside));

    let mut s = foo_snapshot();
    s.pkg_repo_pkg_ids.push(1000);
    s.pkg_repo_repo_ids.push(777);
    assert_eq!(skip_reason(s, "foo-1.0-1.noarch"), Outcome::Skipped(SkipReason::UnknownRepository));

    let mut s = foo_snapshot();
    s.packages = vec![(1000, package(1, 10, 100))];
    assert_eq!(skip_reason(s, "foo-1.0-1.noarch"), Outcome::Skipped(SkipReason::UnknownPackage));

    let mut s = foo_snapshot();
    s.packages = vec![(1000, package(1, 10, 100)), (1001, package(1, 55, 100))];
    assert_eq!(skip_reason(s, "foo-1.0-1.noarch"), Outcome::Skipped(SkipReason::UnnamedPackage));

    let mut s = foo_snapshot();
    s.errata_name_ids = vec![];
    s.errata_names = vec![];
    assert_eq!(skip_reason(s, "foo-1.0-1.noarch"), Outcome::Skipped(SkipReason::UnnamedErratum));
}

#[test]
fn package_updates_gives_the_records_or_the_reason() {
    let cache = foo_cache();
    let mut response = Response::default();
    let available = Updates::process_repositories(&cache, &request(&[]), &mut response);
    let older = Nevra::from_str("foo-1.0-1.noarch").unwrap();
    let found = Updates::package_updates(&cache, &older, &available).unwrap();
    assert_eq!(found.len(), 1);
    assert_eq!(found[0].package.to_string(), "foo-2.0-1.noarch");
    let mut s = foo_snapshot();
    s.update_index = vec![];
    let unindexed = load(s);
    assert_eq!(
        Updates::package_updates(&unindexed, &older, &available).err(),
        Some(SkipReason::NoBuildIndex)
    );
    let unknown = Nevra::from_str("zzz-1.0-1.noarch").unwrap();
    assert_eq!(Updates::package_updates(&cache, &unknown, &available).err(), Some(SkipReason::UnknownName));
}
