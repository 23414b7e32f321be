use upcache::cache::{load_repos, Cache, Repo};
use upcache::calc::repos::{get_repos, known_labels, repos_by_regex, select_labels, PatternError, Request, ResRepo, Response};

fn repo(label: &str) -> Repo {
    Repo {
        label: label.to_string(),
        name: "n".to_string(),
        url: "u".to_string(),
        basearch: None,
        releasever: None,
        product: None,
        product_id: None,
        revision: None,
    }
}

fn cache() -> Cache {
    let mut cache = Cache::default();
    load_repos(
        vec![(1, repo("rhel-8-base")), (2, repo("rhel-9-base")), (3, repo("rhel-9-updates")), (4, repo("rhel-9-base"))],
        &mut cache,
    );
    cache
}

fn sorted(mut v: Vec<String>) -> Vec<String> {
    v.sort();
    v
}

fn strings(v: &[&str]) -> Vec<String> {
    v.iter().map(|s| s.to_string()).collect()
}

#[test]
fn known_labels_names_each_label_once() {
    assert_eq!(sorted(known_labels(&cache())), strings(&["rhel-8-base", "rhel-9-base", "rhel-9-updates"]));
    assert_eq!(known_labels(&Cache::default()), Vec::<String>::new());
}

#[test]
fn expression_selects_labels() {
    let c = cache();
    assert_eq!(sorted(repos_by_regex(&c, "^rhel-9").unwrap()), strings(&["rhel-9-base", "rhel-9-updates"]));
    assert_eq!(sorted(repos_by_regex(&c, "base$").unwrap()), strings(&["rhel-8-base", "rhel-9-base"]));
    assert_eq!(repos_by_regex(&c, "[0-8]-up").unwrap(), Vec::<String>::new());
    assert_eq!(sorted(repos_by_regex(&c, "").unwrap()).len(), 3);
    // a match anywhere in the label counts
    assert_eq!(sorted(repos_by_regex(&c, "l-8").unwrap()), strings(&["rhel-8-base"]));
}

#[test]
fn expression_that_does_not_compile_is_refused() {
    let c = cache();
    assert_eq!(repos_by_regex(&c, "rhel-(9"), Err(PatternError));
    assert_eq!(repos_by_regex(&c, "*"), Err(PatternError));
}

#[test]
fn select_labels_keeps_the_flagged() {
    let labels = strings(&["a", "b", "c", "d"]);
    assert_eq!(select_labels(&labels, &vec![true, false, true, false]), strings(&["a", "c"]));
    assert_eq!(select_labels(&labels, &vec![false, true]), strings(&["b"]));
    assert_eq!(select_labels(&labels, &vec![true, true, true, true, true]), labels);
    assert_eq!(select_labels(&labels, &vec![]), Vec::<String>::new());
}

fn answer(list: &[&str]) -> Result<Response, PatternError> {
    get_repos(&cache(), Request { repository_list: strings(list), modified_since: None })
}

#[test]
fn get_repos_lists_nothing() {
    for list in [vec![], vec!["^rhel"], vec!["rhel-(9", "rhel-9-base"], vec!["a", "b", "c"]] {
        let r = answer(&list);
        assert!(r.is_ok());
        let response = r.ok().unwrap();
        for label in ["rhel-8-base", "rhel-9-base", "rhel-9-updates", "^rhel", "a"] {
            assert!(!response.repository_list.contains_key(label));
        }
    }
}

#[test]
fn get_repos_refuses_a_single_expression_that_does_not_compile() {
    assert_eq!(answer(&["rhel-(9"]).err(), Some(PatternError));
}

#[test]
fn default_repo_is_blank() {
    let r = ResRepo::default();
    assert_eq!(r.label, "");
    assert_eq!(r.name, "");
    assert_eq!(r.url, "");
    assert_eq!(r.basearch, "");
    assert_eq!(r.releasever, "");
    assert_eq!(r.product, None);
    assert_eq!(r.revision, None);
    assert!(!Response::default().repository_list.contains_key(""));
}
