use std::collections::HashSet;
use vstd::prelude::*;
use crate::cache::util::keys_of;
use crate::cache::Cache;
use crate::calc::update_list::distinct;
use crate::calc::update_list::lemma_with_keys_contains;
use crate::calc::update_list::lemma_with_keys_known;
use crate::calc::update_list::with_keys;
use crate::calc::update_list::UpdateList;
use crate::calc::model::admitted;
use crate::calc::model::admitted_texts;
use crate::calc::model::answered;
use crate::calc::model::registered;
use crate::calc::model::detail_for;
use crate::calc::model::emitted_for_candidate;
use crate::calc::model::emitted_for_candidates;
use crate::calc::model::emitted_for_errata;
use crate::calc::model::emitted_for_erratum;
use crate::calc::model::emitted_for_package;
use crate::calc::model::empty_detail;
use crate::calc::model::is_infix;
use crate::calc::model::labelled;
use crate::calc::model::lemma_candidates_failure_stays;
use crate::calc::model::lemma_errata_failure_stays;
use crate::calc::model::lemma_offering_repos;
use crate::calc::model::locate;
use crate::calc::model::offering_repos;
use crate::calc::model::opt_texts;
use crate::calc::model::package_named;
use crate::calc::model::package_nevra;
use crate::calc::model::products_of;
use crate::calc::model::record;
use crate::calc::model::records;
use crate::calc::model::releasevers_of;
use crate::calc::model::repo_available;
use crate::calc::model::repo_offers;
use crate::calc::model::repos_known;
use crate::calc::model::repos_of_erratum;
use crate::calc::model::repos_of_package;
use crate::calc::model::scope_of;
use crate::calc::model::tag_matches;
use crate::calc::model::texts;
use crate::calc::model::triples;
use crate::calc::model::Emitted;
use crate::calc::model::Installed;
use crate::calc::model::Outcome;
use crate::calc::model::Rejection;
use crate::calc::model::SkipReason;
use crate::calc::model::outcome_of;
use crate::calc::model::rejection;
use crate::calc::model::RequestView;
use crate::calc::model::ResponseView;
use crate::calc::model::resolution;
use crate::calc::model::PkgUpdateView;
use crate::calc::model::Scope;
use crate::calc::model::UpdatesPkgDetailView;
use crate::prelude::opt_view;
use crate::prelude::parse_nevra;
use crate::prelude::Nevra;

verus! {

/// The resolution of updates; its functions take the cache they work on.
pub struct Updates;

/// A module stream named in a request.
#[derive(Debug)]
pub struct ModuleSpec {
    pub module_name: String,
    pub module_stream: String,
}

/// A request for updates: the installed packages, and what narrows the repositories.
#[derive(Debug)]
pub struct Request {
    pub package_list: Vec<String>,
    pub repository_list: Option<Vec<String>>,
    pub modules_list: Option<Vec<ModuleSpec>>,
    pub releasever: Option<String>,
    pub basearch: Option<String>,
}

/// One reported update.
#[derive(Debug)]
pub struct PkgUpdate {
    pub package: Nevra,
    pub erratum: String,
    pub repository: Option<String>,
    pub basearch: Option<String>,
    pub releasever: String,
}

impl View for PkgUpdate {
    type V = PkgUpdateView;

    open spec fn view(&self) -> PkgUpdateView {
        PkgUpdateView {
            package: self.package@,
            erratum: self.erratum@,
            repository: opt_view(self.repository),
            basearch: opt_view(self.basearch),
            releasever: self.releasever@,
        }
    }
}

/// The texts of a list of packages with their identities.
pub open spec fn package_texts(list: Seq<(String, Nevra)>) -> Seq<Seq<char>> {
    Seq::new(list.len(), |i: int| list[i].0@)
}

/// The views of a list of update records.
pub open spec fn update_views(list: Seq<PkgUpdate>) -> Seq<PkgUpdateView> {
    Seq::new(list.len(), |i: int| list[i]@)
}

/// The answer for one requested package.
#[derive(Debug)]
pub struct UpdatesPkgDetail {
    pub summary: Option<String>,
    pub description: Option<String>,
    pub available_updates: Vec<PkgUpdate>,
}

impl View for UpdatesPkgDetail {
    type V = UpdatesPkgDetailView;

    open spec fn view(&self) -> UpdatesPkgDetailView {
        UpdatesPkgDetailView {
            summary: opt_view(self.summary),
            description: opt_view(self.description),
            available_updates: update_views(self.available_updates@),
        }
    }
}

impl Default for UpdatesPkgDetail {
    fn default() -> (r: UpdatesPkgDetail)
        ensures
            r@ == empty_detail(),
    {
        let r = UpdatesPkgDetail { summary: None, description: None, available_updates: Vec::new() };
        assert(r@.available_updates =~= Seq::empty());
        r
    }
}

/// The answer to a request: one entry for each package that was taken up, and the
/// request's own narrowing, handed back.
pub struct Response {
    pub update_list: UpdateList,
    pub repository_list: Option<Vec<String>>,
    pub releasever: Option<String>,
    pub basearch: Option<String>,
}

impl Default for Response {
    fn default() -> (r: Response)
        ensures
            r.update_list@ == Map::<Seq<char>, UpdatesPkgDetailView>::empty(),
            r.update_list.keys() == Seq::<Seq<char>>::empty(),
            r.repository_list is None,
            r.releasever is None,
            r.basearch is None,
    {
        Response {
            update_list: UpdateList::new(),
            repository_list: None,
            releasever: None,
            basearch: None,
        }
    }
}

impl View for Request {
    type V = RequestView;

    open spec fn view(&self) -> RequestView {
        RequestView {
            package_list: texts(self.package_list@),
            repository_list: opt_texts(self.repository_list),
            releasever: opt_view(self.releasever),
            basearch: opt_view(self.basearch),
        }
    }
}

impl View for Response {
    type V = ResponseView;

    open spec fn view(&self) -> ResponseView {
        ResponseView {
            update_list: self.update_list@,
            repository_list: opt_texts(self.repository_list),
            releasever: opt_view(self.releasever),
            basearch: opt_view(self.basearch),
        }
    }
}

/// The texts that a list of optional strings holds.
pub open spec fn text_set(list: Seq<Option<String>>) -> Set<Option<Seq<char>>> {
    Set::new(
        |t: Option<Seq<char>>| exists|i: int| 0 <= i < list.len() && opt_view(#[trigger] list[i]) == t,
    )
}

/// `str::contains` with a string slice as the pattern: whether `needle` stands in `hay`
/// as a run of consecutive characters.
#[verifier::external_body]
fn str_contains(hay: &str, needle: &str) -> (r: bool)
    ensures
        r == is_infix(needle@, hay@),
{
    hay.contains(needle)
}

fn vec_contains(v: &Vec<i64>, x: i64) -> (r: bool)
    ensures
        r == v@.contains(x),
{
    let mut i: usize = 0;
    while i < v.len()
        invariant
            i <= v.len(),
            forall|j: int| 0 <= j < i ==> v@[j] != x,
        decreases v.len() - i,
    {
        if v[i] == x {
            return true;
        }
        i += 1;
    }
    false
}

fn has_product(v: &Vec<Option<i64>>, p: Option<i64>) -> (r: bool)
    ensures
        r == v@.contains(p),
{
    let mut i: usize = 0;
    while i < v.len()
        invariant
            i <= v.len(),
            forall|j: int| 0 <= j < i ==> v@[j] != p,
        decreases v.len() - i,
    {
        let same = match (v[i], p) {
            (Some(a), Some(b)) => a == b,
            (None, None) => true,
            _ => false,
        };
        if same {
            return true;
        }
        i += 1;
    }
    false
}

fn opt_same(a: &Option<String>, b: &Option<String>) -> (r: bool)
    ensures
        r == (opt_view(*a) == opt_view(*b)),
{
    match (a, b) {
        (Some(x), Some(y)) => *x == *y,
        (None, None) => true,
        _ => false,
    }
}

fn has_text(v: &Vec<Option<String>>, t: &Option<String>) -> (r: bool)
    ensures
        r == text_set(v@).contains(opt_view(*t)),
{
    let mut i: usize = 0;
    while i < v.len()
        invariant
            i <= v.len(),
            forall|j: int| 0 <= j < i ==> opt_view(#[trigger] v@[j]) != opt_view(*t),
        decreases v.len() - i,
    {
        if opt_same(&v[i], t) {
            return true;
        }
        i += 1;
    }
    false
}

fn clone_opt(o: &Option<String>) -> (r: Option<String>)
    ensures
        r == *o,
{
    match o {
        Some(s) => Some(s.clone()),
        None => None,
    }
}

fn clone_strings(v: &Vec<String>) -> (r: Vec<String>)
    ensures
        r@ == v@,
{
    let mut out: Vec<String> = Vec::new();
    let mut i: usize = 0;
    while i < v.len()
        invariant
            i <= v.len(),
            out@ == v@.take(i as int),
        decreases v.len() - i,
    {
        out.push(v[i].clone());
        proof {
            assert(v@.take(i + 1) =~= v@.take(i as int).push(v@[i as int]));
        }
        i += 1;
    }
    proof {
        assert(v@.take(v.len() as int) == v@);
    }
    out
}

fn tag_fits(tag: &Option<String>, url: &String, wanted: &Option<String>) -> (r: bool)
    ensures
        r == tag_matches(opt_view(*tag), url@, opt_view(*wanted)),
{
    match wanted {
        None => true,
        Some(w) => match tag {
            Some(t) => *t == *w,
            None => str_contains(url.as_str(), w.as_str()),
        },
    }
}

fn append_ids(out: &mut Vec<i64>, ids: &Vec<i64>)
    ensures
        final(out)@ == old(out)@ + ids@,
{
    let mut i: usize = 0;
    while i < ids.len()
        invariant
            i <= ids.len(),
            out@ == old(out)@ + ids@.take(i as int),
        decreases ids.len() - i,
    {
        out.push(ids[i]);
        proof {
            assert(out@ =~= old(out)@ + ids@.take(i + 1));
        }
        i += 1;
    }
    proof {
        assert(ids@.take(ids.len() as int) == ids@);
    }
}

/// The ids that the labels name, label by label.
fn labelled_repos(cache: &Cache, labels: &Vec<String>) -> (r: Vec<i64>)
    ensures
        forall|id: i64| r@.contains(id) == labelled(cache, texts(labels@), id),
{
    let mut out: Vec<i64> = Vec::new();
    let ghost all = texts(labels@);
    let mut i: usize = 0;
    while i < labels.len()
        invariant
            i <= labels.len(),
            all == texts(labels@),
            forall|id: i64| out@.contains(id) == labelled(cache, all.take(i as int), id),
        decreases labels.len() - i,
    {
        let ghost before = out@;
        let ghost label = labels@[i as int]@;
        proof {
            assert(all[i as int] == label);
        }
        match cache.repolabel_to_ids.get(labels[i].as_str()) {
            Some(ids) => {
                append_ids(&mut out, ids);
                proof {
                    assert forall|id: i64| out@.contains(id) == labelled(
                        cache,
                        all.take(i + 1),
                        id,
                    ) by {
                        lemma_labelled_step(cache, all, i as int, id);
                        if out@.contains(id) {
                            let j = choose|j: int| 0 <= j < out@.len() && out@[j] == id;
                            if j < before.len() {
                                assert(before[j] == id);
                                assert(before.contains(id));
                            } else {
                                assert(ids@[j - before.len()] == id);
                                assert(ids@.contains(id));
                            }
                        }
                        if before.contains(id) {
                            let j = choose|j: int| 0 <= j < before.len() && before[j] == id;
                            assert(out@[j] == id);
                        }
                        if ids@.contains(id) {
                            let j = choose|j: int| 0 <= j < ids@.len() && ids@[j] == id;
                            assert(out@[before.len() + j] == id);
                        }
                    }
                }
            },
            None => {
                proof {
                    assert forall|id: i64| out@.contains(id) == labelled(
                        cache,
                        all.take(i + 1),
                        id,
                    ) by {
                        lemma_labelled_step(cache, all, i as int, id);
                    }
                }
            },
        }
        i += 1;
    }
    proof {
        assert(all.take(labels.len() as int) == all);
    }
    out
}

/// One more label names the repositories named before, and those of its own entry.
proof fn lemma_labelled_step(cache: &Cache, labels: Seq<Seq<char>>, i: int, id: i64)
    requires
        0 <= i < labels.len(),
    ensures
        labelled(cache, labels.take(i + 1), id) == (labelled(cache, labels.take(i), id) || (
        cache.repolabel_to_ids@.contains_key(labels[i]) && cache.repolabel_to_ids@[labels[i]]@.contains(
            id,
        ))),
{
    let short = labels.take(i);
    let long = labels.take(i + 1);
    if labelled(cache, long, id) {
        let j = choose|j: int|
            0 <= j < long.len() && cache.repolabel_to_ids@.contains_key(#[trigger] long[j])
                && cache.repolabel_to_ids@[long[j]]@.contains(id);
        if j < i {
            assert(short[j] == long[j]);
        }
    }
    if labelled(cache, short, id) {
        let j = choose|j: int|
            0 <= j < short.len() && cache.repolabel_to_ids@.contains_key(#[trigger] short[j])
                && cache.repolabel_to_ids@[short[j]]@.contains(id);
        assert(long[j] == short[j]);
    }
    if cache.repolabel_to_ids@.contains_key(labels[i]) && cache.repolabel_to_ids@[labels[i]]@.contains(
        id,
    ) {
        assert(long[i] == labels[i]);
    }
}

/// A requested package is among those taken up exactly when it is requested and
/// admitted.
pub proof fn lemma_admitted_texts(cache: &Cache, list: Seq<Seq<char>>, k: Seq<char>)
    ensures
        admitted_texts(cache, list).contains(k) == (list.contains(k) && admitted(cache, k)),
    decreases list.len(),
{
    if list.len() > 0 {
        let head = list.drop_last();
        lemma_admitted_texts(cache, head, k);
        let before = admitted_texts(cache, head);
        let all = admitted_texts(cache, list);
        if all.contains(k) {
            let j = choose|j: int| 0 <= j < all.len() && all[j] == k;
            if j < before.len() {
                assert(before[j] == k);
                let m = choose|m: int| 0 <= m < head.len() && head[m] == k;
                assert(list[m] == k);
            } else {
                assert(list[list.len() - 1] == k);
            }
        }
        if list.contains(k) && admitted(cache, k) {
            let m = choose|m: int| 0 <= m < list.len() && list[m] == k;
            if m < head.len() {
                assert(head[m] == k);
                let j = choose|j: int| 0 <= j < before.len() && before[j] == k;
                assert(all[j] == k);
            } else {
                assert(all[all.len() - 1] == k);
            }
        }
    }
}

/// What the search for one installed package is held to, as the values at hand.
struct Context<'a> {
    available: &'a HashSet<i64>,
    products: &'a Vec<Option<i64>>,
    releasevers: &'a Vec<Option<String>>,
    arch_id: i64,
    compatible: &'a Vec<i64>,
}

impl<'a> View for Context<'a> {
    type V = Scope;

    closed spec fn view(&self) -> Scope {
        Scope {
            available: self.available@,
            products: self.products@.to_set(),
            releasevers: text_set(self.releasevers@),
            arch_id: self.arch_id,
            compatible: self.compatible@,
        }
    }
}

impl Updates {
    /// The identity of package `id`, written from the names of its parts; nothing where
    /// the package or one of the names is unknown.
    fn build_nevra(cache: &Cache, id: i64) -> (r: Option<Nevra>)
        ensures
            match r {
                Some(n) => package_named(cache, id) && n@ == package_nevra(cache, id),
                None => !package_named(cache, id),
            },
    {
        let det = match cache.pkg_details.get(&id) {
            Some(d) => d,
            None => {
                return None;
            },
        };
        let name = match cache.id_to_name.get(&det.name_id) {
            Some(n) => n,
            None => {
                return None;
            },
        };
        let evr = match cache.id_to_evr.get(&det.evr_id) {
            Some(e) => e,
            None => {
                return None;
            },
        };
        let arch = match cache.id_to_arch.get(&det.arch_id) {
            Some(a) => a,
            None => {
                return None;
            },
        };
        Some(Nevra::from_name_evr_arch(name.clone(), evr.clone(), arch.clone()))
    }

    /// The products of the given repositories; nothing where one of them is unknown.
    fn related_products(cache: &Cache, repos: &Vec<i64>) -> (r: Option<Vec<Option<i64>>>)
        ensures
            match r {
                Some(v) => repos_known(cache, repos@) && v@.to_set() == products_of(cache, repos@),
                None => !repos_known(cache, repos@),
            },
    {
        let mut out: Vec<Option<i64>> = Vec::new();
        let mut i: usize = 0;
        while i < repos.len()
            invariant
                i <= repos.len(),
                out@.len() == i,
                forall|j: int|
                    0 <= j < i ==> cache.repo_detail@.contains_key(#[trigger] repos@[j]) && out@[j]
                        == cache.repo_detail@[repos@[j]].product_id,
            decreases repos.len() - i,
        {
            match cache.repo_detail.get(&repos[i]) {
                Some(d) => {
                    out.push(d.product_id);
                },
                None => {
                    return None;
                },
            }
            i += 1;
        }
        proof {
            let want = products_of(cache, repos@);
            assert forall|p: Option<i64>| out@.to_set().contains(p) == want.contains(p) by {
                if out@.to_set().contains(p) {
                    let j = choose|j: int| 0 <= j < out@.len() && out@[j] == p;
                    assert(cache.repo_detail@[repos@[j]].product_id == p);
                }
                if want.contains(p) {
                    let j = choose|j: int|
                        0 <= j < repos@.len() && cache.repo_detail@[#[trigger] repos@[j]].product_id
                            == p;
                    assert(out@[j] == p);
                }
            }
            assert(out@.to_set() =~= want);
        }
        Some(out)
    }

    /// The release versions of the given repositories; nothing where one of them is
    /// unknown.
    fn valid_releasevers(cache: &Cache, repos: &Vec<i64>) -> (r: Option<Vec<Option<String>>>)
        ensures
            match r {
                Some(v) => repos_known(cache, repos@) && text_set(v@) == releasevers_of(
                    cache,
                    repos@,
                ),
                None => !repos_known(cache, repos@),
            },
    {
        let mut out: Vec<Option<String>> = Vec::new();
        let mut i: usize = 0;
        while i < repos.len()
            invariant
                i <= repos.len(),
                out@.len() == i,
                forall|j: int|
                    0 <= j < i ==> cache.repo_detail@.contains_key(#[trigger] repos@[j]) && opt_view(
                        out@[j],
                    ) == cache.repo_detail@[repos@[j]].releasever_view(),
            decreases repos.len() - i,
        {
            match cache.repo_detail.get(&repos[i]) {
                Some(d) => {
                    out.push(clone_opt(&d.releasever));
                },
                None => {
                    return None;
                },
            }
            i += 1;
        }
        proof {
            let want = releasevers_of(cache, repos@);
            assert forall|t: Option<Seq<char>>| text_set(out@).contains(t) == want.contains(t) by {
                if text_set(out@).contains(t) {
                    let j = choose|j: int| 0 <= j < out@.len() && opt_view(#[trigger] out@[j]) == t;
                    assert(cache.repo_detail@[repos@[j]].releasever_view() == t);
                }
                if want.contains(t) {
                    let j = choose|j: int|
                        0 <= j < repos@.len() && cache.repo_detail@[#[trigger] repos@[j]].releasever_view()
                            == t;
                    assert(opt_view(out@[j]) == t);
                }
            }
            assert(text_set(out@) =~= want);
        }
        Some(out)
    }

    /// The repositories that may carry an update to package `update_pkg_id` for the
    /// advisory `errata_id`: those that offer both, are in scope, and share release
    /// version and product with a repository of the installed build.
    fn get_repositories(cache: &Cache, ctx: &Context, update_pkg_id: i64, errata_id: i64) -> (r:
        Vec<i64>)
        ensures
            r@ == offering_repos(cache, ctx@, errata_id, repos_of_package(cache, update_pkg_id)),
    {
        let mut out: Vec<i64> = Vec::new();
        let repos = match cache.pkgid_to_repoids.get(&update_pkg_id) {
            Some(v) => v,
            None => {
                return out;
            },
        };
        let errata_repos = cache.errataid_to_repoids.get(&errata_id);
        let mut i: usize = 0;
        while i < repos.len()
            invariant
                i <= repos.len(),
                repos@ == repos_of_package(cache, update_pkg_id),
                match errata_repos {
                    Some(v) => v@ == repos_of_erratum(cache, errata_id),
                    None => repos_of_erratum(cache, errata_id) == Seq::<i64>::empty(),
                },
                out@ == offering_repos(cache, ctx@, errata_id, repos@.take(i as int)),
            decreases repos.len() - i,
        {
            let r = repos[i];
            let offered = match errata_repos {
                Some(v) => vec_contains(v, r),
                None => false,
            };
            let fits = offered && ctx.available.contains(&r) && match cache.repo_detail.get(&r) {
                Some(d) => has_text(ctx.releasevers, &d.releasever) && has_product(
                    ctx.products,
                    d.product_id,
                ),
                None => false,
            };
            proof {
                assert(repos@.take(i + 1).drop_last() == repos@.take(i as int));
                assert(fits == repo_offers(cache, ctx@, errata_id, r));
            }
            if fits && !vec_contains(&out, r) {
                out.push(r);
            }
            i += 1;
        }
        proof {
            assert(repos@.take(repos.len() as int) == repos@);
        }
        out
    }

    /// Appends to `out` the records for one advisory of a newer build. Gives up, with
    /// nothing to be read from `out`, where there are records to write and the advisory
    /// has no name.
    fn erratum_updates(
        cache: &Cache,
        ctx: &Context,
        candidate: i64,
        nevra: &Nevra,
        erratum: i64,
        out: &mut Vec<PkgUpdate>,
    ) -> (r: Result<(), SkipReason>)
        requires
            nevra@ == package_nevra(cache, candidate),
        ensures
            match emitted_for_erratum(cache, ctx@, candidate, erratum) {
                Ok(s) => r is Ok && update_views(final(out)@) == update_views(old(out)@)
                    + records(cache, s),
                Err(why) => r == Err::<(), SkipReason>(why),
            },
    {
        let repos = Self::get_repositories(cache, ctx, candidate, erratum);
        let ghost start = update_views(out@);
        if repos.len() == 0 {
            assert(start =~= start + records(cache, Seq::<Emitted>::empty()));
            return Ok(());
        }
        let name = match cache.errataid_to_name.get(&erratum) {
            Some(n) => n,
            None => {
                return Err(SkipReason::UnnamedErratum);
            },
        };
        proof {
            lemma_offering_repos(cache, ctx@, erratum, repos_of_package(cache, candidate));
            assert(start =~= start + records(cache, triples(candidate, erratum, repos@.take(0))));
        }
        let mut i: usize = 0;
        while i < repos.len()
            invariant
                i <= repos.len(),
                nevra@ == package_nevra(cache, candidate),
                name@ == cache.errataid_to_name@[erratum]@,
                forall|j: int|
                    0 <= j < repos@.len() ==> cache.repo_detail@.contains_key(#[trigger] repos@[j]),
                update_views(out@) == start + records(
                    cache,
                    triples(candidate, erratum, repos@.take(i as int)),
                ),
            decreases repos.len() - i,
        {
            let r = repos[i];
            let ghost before = update_views(out@);
            match cache.repo_detail.get(&r) {
                Some(d) => {
                    let update = PkgUpdate {
                        package: nevra.clone(),
                        erratum: name.clone(),
                        repository: Some(d.label.clone()),
                        basearch: clone_opt(&d.basearch),
                        releasever: match &d.releasever {
                            Some(v) => v.clone(),
                            None => String::new(),
                        },
                    };
                    proof {
                        assert(update@ == record(cache, Emitted { candidate, erratum, repo: r }));
                    }
                    out.push(update);
                    proof {
                        assert(update_views(out@) =~= before.push(
                            record(cache, Emitted { candidate, erratum, repo: r }),
                        ));
                        assert(records(
                            cache,
                            triples(candidate, erratum, repos@.take(i + 1)),
                        ) =~= records(
                            cache,
                            triples(candidate, erratum, repos@.take(i as int)),
                        ).push(record(cache, Emitted { candidate, erratum, repo: r })));
                    }
                },
                None => {
                    assert(false);
                },
            }
            i += 1;
        }
        proof {
            assert(repos@.take(repos.len() as int) == repos@);
        }
        Ok(())
    }

    /// Appends to `out` the records for one newer build. Gives up, with nothing to be
    /// read from `out`, where a lookup that the build needs finds nothing.
    fn candidate_updates(cache: &Cache, ctx: &Context, candidate: i64, out: &mut Vec<PkgUpdate>) -> (r:
        Result<(), SkipReason>)
        ensures
            match emitted_for_candidate(cache, ctx@, candidate) {
                Ok(s) => r is Ok && update_views(final(out)@) == update_views(old(out)@)
                    + records(cache, s),
                Err(why) => r == Err::<(), SkipReason>(why),
            },
    {
        let ghost start = update_views(out@);
        proof {
            assert(start =~= start + records(cache, Seq::<Emitted>::empty()));
        }
        let errata = match cache.pkgid_to_errataids.get(&candidate) {
            Some(e) => e,
            None => {
                return Ok(());
            },
        };
        let det = match cache.pkg_details.get(&candidate) {
            Some(d) => d,
            None => {
                return Err(SkipReason::UnknownPackage);
            },
        };
        if det.arch_id != ctx.arch_id && !vec_contains(ctx.compatible, det.arch_id) {
            return Ok(());
        }
        let nevra = match Self::build_nevra(cache, candidate) {
            Some(n) => n,
            None => {
                return Err(SkipReason::UnnamedPackage);
            },
        };
        proof {
            assert(errata@.take(0) =~= Seq::<i64>::empty());
        }
        let mut i: usize = 0;
        while i < errata.len()
            invariant
                i <= errata.len(),
                nevra@ == package_nevra(cache, candidate),
                start == update_views(old(out)@),
                emitted_for_candidate(cache, ctx@, candidate) == emitted_for_errata(
                    cache,
                    ctx@,
                    candidate,
                    errata@,
                ),
                emitted_for_errata(cache, ctx@, candidate, errata@.take(i as int)) matches Ok(s)
                    && update_views(out@) == start + records(cache, s),
            decreases errata.len() - i,
        {
            let ghost done = emitted_for_errata(cache, ctx@, candidate, errata@.take(i as int))->Ok_0;
            proof {
                assert(errata@.take(i + 1).drop_last() == errata@.take(i as int));
            }
            match Self::erratum_updates(cache, ctx, candidate, &nevra, errata[i], out) {
                Ok(_) => {},
                Err(why) => {
                    proof {
                        lemma_errata_failure_stays(cache, ctx@, candidate, errata@, i + 1);
                    }
                    return Err(why);
                },
            }
            proof {
                let here = emitted_for_erratum(cache, ctx@, candidate, errata@[i as int])->Ok_0;
                assert(records(cache, done + here) =~= records(cache, done) + records(cache, here));
                assert(update_views(out@) =~= start + records(cache, done + here));
            }
            i += 1;
        }
        proof {
            assert(errata@.take(errata.len() as int) == errata@);
        }
        Ok(())
    }

    /// The update records for one installed package: those of every build that comes
    /// after it among the builds of its name. Gives up, with the reason, where a lookup
    /// that the search needs finds nothing.
    pub fn package_updates(cache: &Cache, nevra: &Nevra, available: &HashSet<i64>) -> (r: Result<
        Vec<PkgUpdate>,
        SkipReason,
    >)
        ensures
            match r {
                Ok(v) => emitted_for_package(cache, available@, nevra@) matches Ok(s)
                    && update_views(v@) == records(cache, s),
                Err(why) => emitted_for_package(cache, available@, nevra@) == Err::<
                    Seq<Emitted>,
                    SkipReason,
                >(why),
            },
    {
        let name_id = match cache.name_to_id.get(nevra.name.as_str()) {
            Some(id) => *id,
            None => {
                return Err(SkipReason::UnknownName);
            },
        };
        let chain = match cache.updates.get(&name_id) {
            Some(c) => c,
            None => {
                return Err(SkipReason::NoBuilds);
            },
        };
        let index = match cache.updates_index.get(&name_id) {
            Some(i) => i,
            None => {
                return Err(SkipReason::NoBuildIndex);
            },
        };
        let evr = match nevra.checked_evr() {
            Some(e) => e,
            None => {
                return Err(SkipReason::EpochNotANumber);
            },
        };
        let evr_id = match cache.evr_to_id.get(&evr) {
            Some(id) => id,
            None => {
                return Err(SkipReason::UnknownEvr);
            },
        };
        let arch_id = match cache.arch_to_id.get(nevra.arch.as_str()) {
            Some(id) => *id,
            None => {
                return Err(SkipReason::UnknownArch);
            },
        };
        let compatible = match cache.arch_compat.get(&arch_id) {
            Some(c) => c,
            None => {
                return Err(SkipReason::NoCompatibility);
            },
        };
        let position = match index.get(&evr_id) {
            Some(p) => *p,
            None => {
                return Err(SkipReason::BuildNotIndexed);
            },
        };
        if position >= chain.len() {
            return Err(SkipReason::PositionOutside);
        }
        let ghost at = Installed { name_id, arch_id, position: position as int };
        assert(locate(cache, nevra@) == Ok::<Installed, SkipReason>(at));
        let mut out: Vec<PkgUpdate> = Vec::new();
        if position + 1 == chain.len() {
            assert(update_views(out@) =~= records(cache, Seq::<Emitted>::empty()));
            return Ok(out);
        }
        let installed = chain[position];
        let none: Vec<i64> = Vec::new();
        let installed_repos = match cache.pkgid_to_repoids.get(&installed) {
            Some(v) => v,
            None => &none,
        };
        assert(installed_repos@ == repos_of_package(cache, installed));
        let products = match Self::related_products(cache, installed_repos) {
            Some(p) => p,
            None => {
                return Err(SkipReason::UnknownRepository);
            },
        };
        let releasevers = match Self::valid_releasevers(cache, installed_repos) {
            Some(v) => v,
            None => {
                return Err(SkipReason::UnknownRepository);
            },
        };
        let ctx = Context {
            available,
            products: &products,
            releasevers: &releasevers,
            arch_id,
            compatible,
        };
        let ghost newer = chain@.skip(position + 1);
        proof {
            assert(ctx@ == scope_of(cache, available@, at));
            assert(newer.take(0) =~= Seq::<i64>::empty());
            assert(update_views(out@) =~= records(cache, Seq::<Emitted>::empty()));
        }
        let mut i: usize = position + 1;
        while i < chain.len()
            invariant
                position + 1 <= i <= chain.len(),
                newer == chain@.skip(position + 1),
                emitted_for_package(cache, available@, nevra@) == emitted_for_candidates(
                    cache,
                    ctx@,
                    newer,
                ),
                emitted_for_candidates(cache, ctx@, newer.take(i - position - 1)) matches Ok(s)
                    && update_views(out@) == records(cache, s),
            decreases chain.len() - i,
        {
            let ghost k = i - position - 1;
            let ghost done = emitted_for_candidates(cache, ctx@, newer.take(k))->Ok_0;
            proof {
                assert(newer.take(k + 1).drop_last() == newer.take(k));
                assert(newer.take(k + 1).last() == chain@[i as int]);
            }
            match Self::candidate_updates(cache, &ctx, chain[i], &mut out) {
                Ok(_) => {},
                Err(why) => {
                    proof {
                        lemma_candidates_failure_stays(cache, ctx@, newer, k + 1);
                    }
                    return Err(why);
                },
            }
            proof {
                let here = emitted_for_candidate(cache, ctx@, chain@[i as int])->Ok_0;
                assert(records(cache, done + here) =~= records(cache, done) + records(cache, here));
            }
            i += 1;
        }
        proof {
            assert(newer.take(chain.len() - position - 1) == newer);
        }
        Ok(out)
    }

    /// Decides whether the requested package `text` is taken up: hands back its
    /// identity, or the reason for which it is not.
    pub fn take_up(cache: &Cache, text: &str) -> (r: Result<Nevra, Rejection>)
        ensures
            match r {
                Ok(n) => admitted(cache, text@) && parse_nevra(text@) == Some(n@),
                Err(why) => rejection(cache, text@) == Some(why),
            },
    {
        let nevra = match Nevra::from_str(text) {
            Ok(n) => n,
            Err(_) => {
                return Err(Rejection::NotAPackage);
            },
        };
        let known = match cache.name_to_id.get(nevra.name.as_str()) {
            Some(id) => Some(cache.updates_index.contains_key(id)),
            None => None,
        };
        match known {
            None => Err(Rejection::UnknownName),
            Some(false) => Err(Rejection::NoBuildIndex),
            Some(true) => Ok(nevra),
        }
    }

    /// Tells what becomes of the requested package `text` when the repositories
    /// `available` are in scope: whether it is taken up, whether the search for its
    /// updates is carried through, and how many updates it finds.
    pub fn outcome(cache: &Cache, available: &HashSet<i64>, text: &str) -> (r: Outcome)
        ensures
            r == outcome_of(cache, available@, text@),
    {
        match Self::take_up(cache, text) {
            Err(why) => Outcome::Rejected(why),
            Ok(nevra) => match Self::package_updates(cache, &nevra, available) {
                Err(why) => Outcome::Skipped(why),
                Ok(found) => {
                    proof {
                        let s = emitted_for_package(cache, available@, nevra@)->Ok_0;
                        assert(update_views(found@).len() == records(cache, s).len());
                    }
                    Outcome::Searched(found.len())
                },
            },
        }
    }

    /// Settles which repositories are in scope: those that the request's labels name, or
    /// all known ones where it gives no labels, held to the wanted release version and
    /// base architecture. What the request gave is handed back in `response`.
    pub fn process_repositories(cache: &Cache, data: &Request, response: &mut Response) -> (r:
        HashSet<i64>)
        ensures
            r@ == data@.available(cache),
            final(response).update_list == old(response).update_list,
            opt_texts(final(response).repository_list) == opt_texts(
                if data.repository_list is Some {
                    data.repository_list
                } else {
                    old(response).repository_list
                },
            ),
            final(response).releasever == (if data.releasever is Some {
                data.releasever
            } else {
                old(response).releasever
            }),
            final(response).basearch == (if data.basearch is Some {
                data.basearch
            } else {
                old(response).basearch
            }),
    {
        let candidates = match &data.repository_list {
            Some(labels) => {
                response.repository_list = Some(clone_strings(labels));
                labelled_repos(cache, labels)
            },
            None => keys_of(&cache.repo_detail),
        };
        if data.releasever.is_some() {
            response.releasever = clone_opt(&data.releasever);
        }
        if data.basearch.is_some() {
            response.basearch = clone_opt(&data.basearch);
        }
        let ghost labels = opt_texts(data.repository_list);
        let ghost releasever = opt_view(data.releasever);
        let ghost basearch = opt_view(data.basearch);
        let mut out: HashSet<i64> = HashSet::new();
        let mut i: usize = 0;
        while i < candidates.len()
            invariant
                i <= candidates.len(),
                labels == opt_texts(data.repository_list),
                releasever == opt_view(data.releasever),
                basearch == opt_view(data.basearch),
                forall|id: i64|
                    out@.contains(id) == (candidates@.take(i as int).contains(id) && repo_available(
                        cache,
                        None,
                        releasever,
                        basearch,
                        id,
                    )),
            decreases candidates.len() - i,
        {
            let id = candidates[i];
            let ghost before = out@;
            let fits = match cache.repo_detail.get(&id) {
                Some(d) => tag_fits(&d.releasever, &d.url, &data.releasever) && tag_fits(
                    &d.basearch,
                    &d.url,
                    &data.basearch,
                ),
                None => false,
            };
            if fits {
                out.insert(id);
            }
            proof {
                assert(fits == repo_available(cache, None, releasever, basearch, id));
                let short = candidates@.take(i as int);
                let long = candidates@.take(i + 1);
                assert(long =~= short.push(id));
                assert forall|x: i64| long.contains(x) == (short.contains(x) || x == id) by {
                    if long.contains(x) {
                        let j = choose|j: int| 0 <= j < long.len() && long[j] == x;
                        if j < short.len() {
                            assert(short[j] == x);
                        }
                    }
                    if short.contains(x) {
                        let j = choose|j: int| 0 <= j < short.len() && short[j] == x;
                        assert(long[j] == x);
                    }
                    if x == id {
                        assert(long[i as int] == x);
                    }
                }
            }
            i += 1;
        }
        proof {
            assert(candidates@.take(candidates.len() as int) == candidates@);
            assert forall|id: i64| out@.contains(id) == data@.available(cache).contains(id) by {
                if data.repository_list is None {
                    assert(candidates@.to_set().contains(id) == candidates@.contains(id));
                }
            }
            assert(out@ =~= data@.available(cache));
        }
        out
    }

    /// Takes up the requested packages: each whose text is a package identity with a
    /// known name that has an index of its builds. Each is entered in `response` with an
    /// answer that holds no update, and handed back with its identity, in the order of
    /// the request.
    pub fn process_input_packages(cache: &Cache, data: &Request, response: &mut Response) -> (r: Vec<
        (String, Nevra),
    >)
        ensures
            package_texts(r@) == admitted_texts(cache, texts(data.package_list@)),
            forall|i: int|
                0 <= i < r@.len() ==> parse_nevra((#[trigger] r@[i]).0@) == Some(r@[i].1@),
            final(response).update_list.keys() == with_keys(
                old(response).update_list.keys(),
                admitted_texts(cache, texts(data.package_list@)),
            ),
            final(response).update_list@ == registered(
                old(response).update_list@,
                admitted_texts(cache, texts(data.package_list@)),
            ),
            final(response).repository_list == old(response).repository_list,
            final(response).releasever == old(response).releasever,
            final(response).basearch == old(response).basearch,
    {
        let mut out: Vec<(String, Nevra)> = Vec::new();
        let ghost list = texts(data.package_list@);
        let mut i: usize = 0;
        proof {
            assert(package_texts(out@) =~= admitted_texts(cache, list.take(0)));
            assert(response.update_list@ =~= registered(
                old(response).update_list@,
                admitted_texts(cache, list.take(0)),
            ));
        }
        while i < data.package_list.len()
            invariant
                i <= data.package_list.len(),
                list == texts(data.package_list@),
                package_texts(out@) == admitted_texts(cache, list.take(i as int)),
                forall|j: int|
                    0 <= j < out@.len() ==> parse_nevra((#[trigger] out@[j]).0@) == Some(
                        out@[j].1@,
                    ),
                response.update_list.keys() == with_keys(
                    old(response).update_list.keys(),
                    admitted_texts(cache, list.take(i as int)),
                ),
                response.update_list@ == registered(
                    old(response).update_list@,
                    admitted_texts(cache, list.take(i as int)),
                ),
                response.repository_list == old(response).repository_list,
                response.releasever == old(response).releasever,
                response.basearch == old(response).basearch,
            decreases data.package_list.len() - i,
        {
            let pkg = &data.package_list[i];
            let ghost text = pkg@;
            let ghost before = admitted_texts(cache, list.take(i as int));
            proof {
                assert(list.take(i + 1).drop_last() == list.take(i as int));
                assert(list.take(i + 1).last() == text);
            }
            match Self::take_up(cache, pkg.as_str()) {
                Ok(nevra) => {
                    let ghost texts_before = package_texts(out@);
                    response.update_list.insert(pkg.clone(), UpdatesPkgDetail::default());
                    out.push((pkg.clone(), nevra));
                    proof {
                        let after = admitted_texts(cache, list.take(i + 1));
                        assert(after == before.push(text));
                        assert(package_texts(out@) =~= texts_before.push(text));
                        assert(after.drop_last() =~= before);
                        assert forall|k: Seq<char>| after.contains(k) == (before.contains(k) || k
                            == text) by {
                            if after.contains(k) {
                                let j = choose|j: int| 0 <= j < after.len() && after[j] == k;
                                if j < before.len() {
                                    assert(before[j] == k);
                                }
                            }
                            if before.contains(k) {
                                let j = choose|j: int| 0 <= j < before.len() && before[j] == k;
                                assert(after[j] == k);
                            }
                            if k == text {
                                assert(after[before.len() as int] == k);
                            }
                        }
                        assert(response.update_list@ =~= registered(
                            old(response).update_list@,
                            after,
                        ));
                    }
                },
                Err(_) => {},
            }
            i += 1;
        }
        proof {
            assert(list.take(data.package_list.len() as int) == list);
        }
        out
    }

    /// Searches the updates for each of the given packages and enters its answer in
    /// `response`, under the package's text. A package for which a lookup finds nothing
    /// gets an answer that holds no update; the others are not touched by it.
    pub fn process_updates(
        cache: &Cache,
        packages: &Vec<(String, Nevra)>,
        available: &HashSet<i64>,
        response: &mut Response,
    )
        requires
            forall|i: int|
                0 <= i < packages@.len() ==> parse_nevra((#[trigger] packages@[i]).0@) == Some(
                    packages@[i].1@,
                ),
        ensures
            final(response).update_list.keys() == with_keys(
                old(response).update_list.keys(),
                package_texts(packages@),
            ),
            final(response).update_list@ == answered(
                cache,
                available@,
                old(response).update_list@,
                package_texts(packages@),
            ),
            final(response).repository_list == old(response).repository_list,
            final(response).releasever == old(response).releasever,
            final(response).basearch == old(response).basearch,
    {
        let ghost all = package_texts(packages@);
        let mut n: usize = 0;
        proof {
            assert(response.update_list@ =~= answered(
                cache,
                available@,
                old(response).update_list@,
                all.take(0),
            ));
        }
        while n < packages.len()
            invariant
                n <= packages.len(),
                all == package_texts(packages@),
                forall|i: int|
                    0 <= i < packages@.len() ==> parse_nevra((#[trigger] packages@[i]).0@) == Some(
                        packages@[i].1@,
                    ),
                response.update_list.keys() == with_keys(
                    old(response).update_list.keys(),
                    all.take(n as int),
                ),
                response.update_list@ == answered(
                    cache,
                    available@,
                    old(response).update_list@,
                    all.take(n as int),
                ),
                response.repository_list == old(response).repository_list,
                response.releasever == old(response).releasever,
                response.basearch == old(response).basearch,
            decreases packages.len() - n,
        {
            let entry = &packages[n];
            let ghost text = entry.0@;
            let found = match Self::package_updates(cache, &entry.1, available) {
                Ok(v) => v,
                Err(_) => Vec::new(),
            };
            let detail = UpdatesPkgDetail { summary: None, description: None, available_updates: found };
            proof {
                assert(all[n as int] == text);
                assert(detail@.available_updates =~= detail_for(
                    cache,
                    available@,
                    text,
                ).available_updates);
                assert(detail@ == detail_for(cache, available@, text));
            }
            response.update_list.insert(entry.0.clone(), detail);
            proof {
                let short = all.take(n as int);
                let long = all.take(n + 1);
                assert(long.drop_last() =~= short);
                assert(long.last() == text);
                assert forall|k: Seq<char>| long.contains(k) == (short.contains(k) || k == text) by {
                    if long.contains(k) {
                        let j = choose|j: int| 0 <= j < long.len() && long[j] == k;
                        if j < short.len() {
                            assert(short[j] == k);
                        }
                    }
                    if short.contains(k) {
                        let j = choose|j: int| 0 <= j < short.len() && short[j] == k;
                        assert(long[j] == k);
                    }
                    if k == text {
                        assert(long[n as int] == k);
                    }
                }
                assert(response.update_list@ =~= answered(
                    cache,
                    available@,
                    old(response).update_list@,
                    long,
                ));
            }
            n += 1;
        }
        proof {
            assert(all.take(packages.len() as int) == all);
        }
    }

    /// Answers a request: settles the repositories in scope, takes up the packages that
    /// can be searched for, and searches the updates for each. No package makes the
    /// request fail: one that is not taken up has no entry, one whose search cannot be
    /// carried through has an entry without updates. The entries stand in the order in
    /// which their packages first come in the request.
    pub fn calc_updates(cache: &Cache, data: Request) -> (r: Response)
        ensures
            r@ == resolution(cache, data@),
            r.update_list.keys() == distinct(admitted_texts(cache, data@.package_list)),
    {
        let mut response = Response::default();
        let available = Self::process_repositories(cache, &data, &mut response);
        let packages = Self::process_input_packages(cache, &data, &mut response);
        let ghost taken = admitted_texts(cache, texts(data.package_list@));
        let ghost keys = response.update_list.keys();
        proof {
            assert(keys == distinct(taken));
            assert forall|j: int| 0 <= j < taken.len() implies keys.contains(#[trigger] taken[j]) by {
                lemma_with_keys_contains(Seq::empty(), taken, taken[j]);
            }
            lemma_with_keys_known(keys, taken);
        }
        Self::process_updates(cache, &packages, &available, &mut response);
        proof {
            assert forall|k: Seq<char>| #[trigger] response.update_list@.contains_key(k) == (texts(
                data.package_list@,
            ).contains(k) && admitted(cache, k)) by {
                lemma_admitted_texts(cache, texts(data.package_list@), k);
            }
            assert forall|k: Seq<char>| response.update_list@.contains_key(k) implies (
            #[trigger] response.update_list@[k]) == detail_for(cache, data@.available(cache), k) by {
                lemma_admitted_texts(cache, texts(data.package_list@), k);
            }
            assert(response@.update_list =~= resolution(cache, data@).update_list);
        }
        response
    }
}

} // verus!
