use regex::Regex;
use vstd::prelude::*;
use crate::text_map::TextMap;
use crate::cache::util::keys_of;
use crate::cache::Cache;
use crate::calc::model::texts;

verus! {

/// A request for repositories: labels, or a single expression that selects labels.
#[derive(Debug)]
pub struct Request {
    pub repository_list: Vec<String>,
    pub modified_since: Option<String>,
}

/// What is reported of one repository.
#[derive(Debug)]
pub struct ResRepo {
    pub label: String,
    pub name: String,
    pub url: String,
    pub basearch: String,
    pub releasever: String,
    pub product: Option<i32>,
    pub revision: Option<String>,
}

impl Default for ResRepo {
    fn default() -> (r: ResRepo)
        ensures
            r.label@ == Seq::<char>::empty(),
            r.name@ == Seq::<char>::empty(),
            r.url@ == Seq::<char>::empty(),
            r.basearch@ == Seq::<char>::empty(),
            r.releasever@ == Seq::<char>::empty(),
            r.product is None,
            r.revision is None,
    {
        ResRepo {
            label: String::new(),
            name: String::new(),
            url: String::new(),
            basearch: String::new(),
            releasever: String::new(),
            product: None,
            revision: None,
        }
    }
}

/// The answer to a request for repositories.
pub struct Response {
    pub repository_list: TextMap<ResRepo>,
}

impl Default for Response {
    fn default() -> (r: Response)
        ensures
            r.repository_list@ == Map::<Seq<char>, ResRepo>::empty(),
    {
        Response { repository_list: TextMap::new() }
    }
}

/// The expression that selects labels cannot be used.
#[derive(Debug, Clone, Copy, PartialEq, Eq, Structural)]
pub struct PatternError;

/// A compiled regular expression of the `regex` crate.
#[verifier::external_type_specification]
#[verifier::external_body]
pub struct ExRegex(regex::Regex);

/// The error with which the `regex` crate refuses a pattern.
#[verifier::external_type_specification]
#[verifier::external_body]
pub struct ExRegexError(regex::Error);

/// What `Regex::new` makes of a pattern: the compiled expression, or nothing where the
/// pattern is refused.
pub uninterp spec fn regex_of(pattern: Seq<char>) -> Option<Regex>;

/// What `Regex::is_match` answers: whether the expression matches somewhere in the text.
pub uninterp spec fn regex_matches(re: Regex, text: Seq<char>) -> bool;

/// `Regex::new`: compiles a pattern. What comes back depends on the pattern alone; it
/// is held under the name `regex_of`, of which nothing more is claimed.
#[verifier::external_body]
fn compile(pattern: &str) -> (r: Result<Regex, regex::Error>)
    ensures
        match r {
            Ok(re) => regex_of(pattern@) == Some(re),
            Err(_) => regex_of(pattern@) is None,
        },
{
    Regex::new(pattern)
}

/// `Regex::is_match`: whether the expression matches somewhere in the text. The answer
/// depends on the expression and the text alone; it is held under the name
/// `regex_matches`, of which nothing more is claimed.
#[verifier::external_body]
fn is_match(re: &Regex, text: &str) -> (r: bool)
    ensures
        r == regex_matches(*re, text@),
{
    re.is_match(text)
}

/// Whether `l` is the label of a repository that the cache knows and lists by label.
pub open spec fn label_known(cache: &Cache, l: Seq<char>) -> bool {
    cache.repolabel_to_ids@.contains_key(l) && exists|id: i64|
        cache.repo_detail@.contains_key(id) && (#[trigger] cache.repo_detail@[id]).label@ == l
}

/// The first `n` labels for which the flag at their position is set, in order.
pub open spec fn kept(labels: Seq<Seq<char>>, keep: Seq<bool>, n: int) -> Seq<Seq<char>>
    decreases n,
{
    if n <= 0 {
        Seq::empty()
    } else if keep[n - 1] {
        kept(labels, keep, n - 1).push(labels[n - 1])
    } else {
        kept(labels, keep, n - 1)
    }
}

/// A label is among those kept exactly when it stands at some position whose flag is
/// set.
pub proof fn lemma_kept(labels: Seq<Seq<char>>, keep: Seq<bool>, n: int, l: Seq<char>)
    requires
        0 <= n <= labels.len(),
        n <= keep.len(),
    ensures
        kept(labels, keep, n).contains(l) <==> exists|i: int|
            0 <= i < n && keep[i] && #[trigger] labels[i] == l,
    decreases n,
{
    if n > 0 {
        lemma_kept(labels, keep, n - 1, l);
        let before = kept(labels, keep, n - 1);
        let all = kept(labels, keep, n);
        if all.contains(l) {
            let j = choose|j: int| 0 <= j < all.len() && all[j] == l;
            if j < before.len() {
                assert(before[j] == l);
                let i = choose|i: int| 0 <= i < n - 1 && keep[i] && #[trigger] labels[i] == l;
                assert(0 <= i < n && keep[i] && labels[i] == l);
            } else {
                assert(keep[n - 1] && labels[n - 1] == l);
            }
        }
        if exists|i: int| 0 <= i < n && keep[i] && #[trigger] labels[i] == l {
            let i = choose|i: int| 0 <= i < n && keep[i] && #[trigger] labels[i] == l;
            if i < n - 1 {
                assert(before.contains(l));
                let j = choose|j: int| 0 <= j < before.len() && before[j] == l;
                assert(all[j] == l);
            } else {
                assert(all[all.len() - 1] == l);
            }
        }
    }
}

/// The labels whose flag is set, in order; a label without a flag is dropped.
pub fn select_labels(labels: &Vec<String>, keep: &Vec<bool>) -> (r: Vec<String>)
    ensures
        texts(r@) == kept(
            texts(labels@),
            keep@,
            if labels@.len() <= keep@.len() {
                labels@.len() as int
            } else {
                keep@.len() as int
            },
        ),
{
    let mut out: Vec<String> = Vec::new();
    let mut i: usize = 0;
    assert(texts(out@) =~= Seq::<Seq<char>>::empty());
    while i < labels.len() && i < keep.len()
        invariant
            i <= labels.len(),
            i <= keep.len(),
            texts(out@) == kept(texts(labels@), keep@, i as int),
        decreases labels.len() - i,
    {
        if keep[i] {
            let ghost before = texts(out@);
            out.push(labels[i].clone());
            assert(texts(out@) =~= before.push(labels@[i as int]@));
        }
        i += 1;
    }
    out
}

fn has_label(labels: &Vec<String>, l: &String) -> (r: bool)
    ensures
        r == texts(labels@).contains(l@),
{
    let mut i: usize = 0;
    while i < labels.len()
        invariant
            i <= labels.len(),
            forall|j: int| 0 <= j < i ==> texts(labels@)[j] != l@,
        decreases labels.len() - i,
    {
        if labels[i] == *l {
            assert(texts(labels@)[i as int] == l@);
            return true;
        }
        i += 1;
    }
    false
}

/// The labels of the repositories that the cache knows and lists by label, each once,
/// in no stated order.
pub fn known_labels(cache: &Cache) -> (r: Vec<String>)
    ensures
        forall|l: Seq<char>| texts(r@).contains(l) <==> label_known(cache, l),
        texts(r@).no_duplicates(),
{
    let ids = keys_of(&cache.repo_detail);
    let mut out: Vec<String> = Vec::new();
    let mut i: usize = 0;
    while i < ids.len()
        invariant
            i <= ids.len(),
            forall|j: int| 0 <= j < ids@.len() ==> cache.repo_detail@.contains_key(#[trigger] ids@[j]),
            forall|l: Seq<char>|
                texts(out@).contains(l) <==> cache.repolabel_to_ids@.contains_key(l) && exists|
                    j: int,
                | 0 <= j < i && cache.repo_detail@[#[trigger] ids@[j]].label@ == l,
            texts(out@).no_duplicates(),
        decreases ids.len() - i,
    {
        let id = ids[i];
        match cache.repo_detail.get(&id) {
            Some(repo) => {
                let ghost before = texts(out@);
                let ghost label = repo.label@;
                let fresh = cache.repolabel_to_ids.contains_key(repo.label.as_str()) && !has_label(
                    &out,
                    &repo.label,
                );
                if fresh {
                    out.push(repo.label.clone());
                    proof {
                        assert(texts(out@) =~= before.push(label));
                    }
                }
                proof {
                    let after = texts(out@);
                    assert forall|l: Seq<char>|
                        after.contains(l) <==> cache.repolabel_to_ids@.contains_key(l) && exists|
                            j: int,
                        | 0 <= j < i + 1 && cache.repo_detail@[#[trigger] ids@[j]].label@ == l by {
                        if after.contains(l) {
                            let k = choose|k: int| 0 <= k < after.len() && after[k] == l;
                            if k < before.len() {
                                assert(before[k] == l);
                                assert(before.contains(l));
                                let j = choose|j: int|
                                    0 <= j < i && cache.repo_detail@[#[trigger] ids@[j]].label@ == l;
                                assert(0 <= j < i + 1 && cache.repo_detail@[ids@[j]].label@ == l);
                            } else {
                                assert(cache.repo_detail@[ids@[i as int]].label@ == l);
                            }
                        }
                        if cache.repolabel_to_ids@.contains_key(l) && exists|j: int|
                            0 <= j < i + 1 && cache.repo_detail@[#[trigger] ids@[j]].label@ == l {
                            let j = choose|j: int|
                                0 <= j < i + 1 && cache.repo_detail@[#[trigger] ids@[j]].label@ == l;
                            if j < i {
                                assert(before.contains(l));
                                let k = choose|k: int| 0 <= k < before.len() && before[k] == l;
                                assert(after[k] == l);
                            } else if fresh {
                                assert(after[after.len() - 1] == l);
                            } else {
                                assert(before.contains(l));
                            }
                        }
                    }
                }
            },
            None => {
                assert(false);
            },
        }
        i += 1;
    }
    proof {
        assert forall|l: Seq<char>| texts(out@).contains(l) <==> label_known(cache, l) by {
            if texts(out@).contains(l) {
                let j = choose|j: int|
                    0 <= j < ids@.len() && cache.repo_detail@[#[trigger] ids@[j]].label@ == l;
                assert(cache.repo_detail@.contains_key(ids@[j]));
            }
            if label_known(cache, l) {
                let id = choose|id: i64|
                    cache.repo_detail@.contains_key(id) && (#[trigger] cache.repo_detail@[id]).label@
                        == l;
                assert(ids@.to_set().contains(id));
                let j = choose|j: int| 0 <= j < ids@.len() && ids@[j] == id;
                assert(cache.repo_detail@[ids@[j]].label@ == l);
            }
        }
    }
    out
}

/// The labels that the expression `repo_regex` matches, among the labels of the
/// repositories that the cache knows and lists by label. Refused where the expression
/// does not compile.
pub fn repos_by_regex(cache: &Cache, repo_regex: &str) -> (r: Result<Vec<String>, PatternError>)
    ensures
        match r {
            Ok(v) => regex_of(repo_regex@) matches Some(re) && texts(v@).no_duplicates() && forall|
                l: Seq<char>,
            | texts(v@).contains(l) <==> label_known(cache, l) && regex_matches(re, l),
            Err(_) => regex_of(repo_regex@) is None,
        },
{
    let re = match compile(repo_regex) {
        Ok(re) => re,
        Err(_) => {
            return Err(PatternError);
        },
    };
    let labels = known_labels(cache);
    let mut keep: Vec<bool> = Vec::new();
    let mut i: usize = 0;
    while i < labels.len()
        invariant
            i <= labels.len(),
            keep@.len() == i,
            forall|j: int| 0 <= j < i ==> keep@[j] == regex_matches(re, texts(labels@)[j]),
        decreases labels.len() - i,
    {
        keep.push(is_match(&re, labels[i].as_str()));
        i += 1;
    }
    let out = select_labels(&labels, &keep);
    proof {
        let all = texts(labels@);
        let n = all.len() as int;
        assert forall|l: Seq<char>| texts(out@).contains(l) <==> label_known(cache, l)
            && regex_matches(re, l) by {
            lemma_kept(all, keep@, n, l);
            if texts(out@).contains(l) {
                let j = choose|j: int| 0 <= j < n && keep@[j] && #[trigger] all[j] == l;
                assert(all.contains(l));
            }
            if label_known(cache, l) && regex_matches(re, l) {
                assert(all.contains(l));
                let j = choose|j: int| 0 <= j < all.len() && all[j] == l;
                assert(keep@[j] && all[j] == l);
            }
        }
        lemma_kept_distinct(all, keep@, n);
    }
    Ok(out)
}

/// Of labels that are all different, those kept are all different.
pub proof fn lemma_kept_distinct(labels: Seq<Seq<char>>, keep: Seq<bool>, n: int)
    requires
        0 <= n <= labels.len(),
        n <= keep.len(),
        labels.no_duplicates(),
    ensures
        kept(labels, keep, n).no_duplicates(),
    decreases n,
{
    if n > 0 {
        lemma_kept_distinct(labels, keep, n - 1);
        let before = kept(labels, keep, n - 1);
        if keep[n - 1] {
            lemma_kept(labels, keep, n - 1, labels[n - 1]);
            assert(!before.contains(labels[n - 1]));
        }
    }
}

/// Answers a request for repositories. A request with exactly one entry takes that
/// entry as an expression that selects labels, and is refused where the expression does
/// not compile. The answer lists no repository.
pub fn get_repos(cache: &Cache, req: Request) -> (r: Result<Response, PatternError>)
    ensures
        match r {
            Ok(response) => response.repository_list@ == Map::<Seq<char>, ResRepo>::empty() && !(
            req.repository_list@.len() == 1 && regex_of(req.repository_list@[0]@) is None),
            Err(_) => req.repository_list@.len() == 1 && regex_of(req.repository_list@[0]@) is None,
        },
{
    let response = Response::default();
    if req.repository_list.len() == 1 {
        match repos_by_regex(cache, req.repository_list[0].as_str()) {
            Ok(_) => {},
            Err(why) => {
                return Err(why);
            },
        }
    }
    Ok(response)
}

} // verus!
