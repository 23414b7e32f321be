use vstd::prelude::*;
use crate::cache::Cache;
use crate::prelude::nevra_of_parts;
use crate::prelude::parse_nevra;
use crate::prelude::NevraView;

verus! {

/// What an update record holds, as plain values.
pub struct PkgUpdateView {
    pub package: NevraView,
    pub erratum: Seq<char>,
    pub repository: Option<Seq<char>>,
    pub basearch: Option<Seq<char>>,
    pub releasever: Seq<char>,
}

/// What the answer for one package holds, as plain values.
pub struct UpdatesPkgDetailView {
    pub summary: Option<Seq<char>>,
    pub description: Option<Seq<char>>,
    pub available_updates: Seq<PkgUpdateView>,
}

/// The characters of each string of a list.
pub open spec fn texts(list: Seq<String>) -> Seq<Seq<char>> {
    Seq::new(list.len(), |i: int| list[i]@)
}

/// The characters of each string of an optional list.
pub open spec fn opt_texts(list: Option<Vec<String>>) -> Option<Seq<Seq<char>>> {
    match list {
        Some(l) => Some(texts(l@)),
        None => None,
    }
}

/// Whether `needle` stands somewhere in `hay`, character for character.
pub open spec fn is_infix(needle: Seq<char>, hay: Seq<char>) -> bool {
    exists|i: int|
        0 <= i && i + needle.len() <= hay.len() && #[trigger] hay.subrange(i, i + needle.len())
            == needle
}

/// Whether a repository with the given tag and url is in scope for a wanted tag: any
/// repository where nothing is wanted, else one whose tag is the wanted one, or one
/// without a tag whose url holds the wanted text.
pub open spec fn tag_matches(tag: Option<Seq<char>>, url: Seq<char>, wanted: Option<Seq<char>>) -> bool {
    match wanted {
        None => true,
        Some(w) => tag == Some(w) || (tag is None && is_infix(w, url)),
    }
}

/// Whether one of the labels names the repository `id`.
pub open spec fn labelled(cache: &Cache, labels: Seq<Seq<char>>, id: i64) -> bool {
    exists|i: int|
        0 <= i < labels.len() && cache.repolabel_to_ids@.contains_key(#[trigger] labels[i])
            && cache.repolabel_to_ids@[labels[i]]@.contains(id)
}

/// Whether the repository `id` is in scope: it is known, one of the wanted labels names
/// it where labels are given, and it matches the wanted release version and base
/// architecture.
pub open spec fn repo_available(
    cache: &Cache,
    labels: Option<Seq<Seq<char>>>,
    releasever: Option<Seq<char>>,
    basearch: Option<Seq<char>>,
    id: i64,
) -> bool {
    &&& cache.repo_detail@.contains_key(id)
    &&& labels matches Some(l) ==> labelled(cache, l, id)
    &&& tag_matches(
        cache.repo_detail@[id].releasever_view(),
        cache.repo_detail@[id].url@,
        releasever,
    )
    &&& tag_matches(cache.repo_detail@[id].basearch_view(), cache.repo_detail@[id].url@, basearch)
}

/// The repositories in scope.
pub open spec fn available_repos(
    cache: &Cache,
    labels: Option<Seq<Seq<char>>>,
    releasever: Option<Seq<char>>,
    basearch: Option<Seq<char>>,
) -> Set<i64> {
    Set::new(|id: i64| repo_available(cache, labels, releasever, basearch, id))
}

/// Why a requested package is not taken up.
#[derive(Debug, Clone, Copy, PartialEq, Eq, Structural)]
pub enum Rejection {
    /// The text is no package identity.
    NotAPackage,
    /// The cache does not know the package's name.
    UnknownName,
    /// The name has no index of its builds.
    NoBuildIndex,
}

/// Why a requested package is not taken up; `None` for one that is.
pub open spec fn rejection(cache: &Cache, text: Seq<char>) -> Option<Rejection> {
    match parse_nevra(text) {
        None => Some(Rejection::NotAPackage),
        Some(n) => if !cache.name_to_id@.contains_key(n.name) {
            Some(Rejection::UnknownName)
        } else if !cache.updates_index@.contains_key(cache.name_to_id@[n.name]) {
            Some(Rejection::NoBuildIndex)
        } else {
            None
        },
    }
}

/// Whether a requested package is taken up: its text is a package identity, its name is
/// known, and the name has an index of its builds.
pub open spec fn admitted(cache: &Cache, text: Seq<char>) -> bool {
    rejection(cache, text) is None
}

/// The requested packages that are taken up, in the order of the request.
pub open spec fn admitted_texts(cache: &Cache, list: Seq<Seq<char>>) -> Seq<Seq<char>>
    decreases list.len(),
{
    if list.len() == 0 {
        Seq::empty()
    } else {
        let before = admitted_texts(cache, list.drop_last());
        if admitted(cache, list.last()) {
            before.push(list.last())
        } else {
            before
        }
    }
}

/// Why the search for the updates of a package that was taken up is given up.
#[derive(Debug, Clone, Copy, PartialEq, Eq, Structural)]
pub enum SkipReason {
    /// The cache does not know the package's name.
    UnknownName,
    /// The name has no list of builds.
    NoBuilds,
    /// The name has no index of its builds.
    NoBuildIndex,
    /// The epoch is not the decimal text of an `i64`.
    EpochNotANumber,
    /// The cache does not know the epoch, version and release.
    UnknownEvr,
    /// The cache does not know the architecture.
    UnknownArch,
    /// The architecture has no list of compatible architectures.
    NoCompatibility,
    /// The index of the name's builds does not hold the epoch, version and release.
    BuildNotIndexed,
    /// The position that the index gives lies outside the builds of the name.
    PositionOutside,
    /// A repository that offers the installed build is unknown.
    UnknownRepository,
    /// A newer build that has an advisory has no details.
    UnknownPackage,
    /// The name, the version data or the architecture of a newer build cannot be
    /// written out.
    UnnamedPackage,
    /// An advisory for which there is an update to report has no name.
    UnnamedErratum,
}

/// One update that is reported: a newer build, an advisory for it, and a repository
/// that offers both.
pub struct Emitted {
    pub candidate: i64,
    pub erratum: i64,
    pub repo: i64,
}

/// What the search for one installed package is held to: the repositories in scope, the
/// products and release versions of the repositories that offer the installed build, the
/// installed architecture and the architectures that may stand in for it.
pub struct Scope {
    pub available: Set<i64>,
    pub products: Set<Option<i64>>,
    pub releasevers: Set<Option<Seq<char>>>,
    pub arch_id: i64,
    pub compatible: Seq<i64>,
}

/// The repositories that offer a package; none where the package has no entry.
pub open spec fn repos_of_package(cache: &Cache, pkg: i64) -> Seq<i64> {
    if cache.pkgid_to_repoids@.contains_key(pkg) {
        cache.pkgid_to_repoids@[pkg]@
    } else {
        Seq::empty()
    }
}

/// The repositories that offer an advisory; none where the advisory has no entry.
pub open spec fn repos_of_erratum(cache: &Cache, erratum: i64) -> Seq<i64> {
    if cache.errataid_to_repoids@.contains_key(erratum) {
        cache.errataid_to_repoids@[erratum]@
    } else {
        Seq::empty()
    }
}

/// Whether repository `r` may carry an update for the advisory: it offers the advisory,
/// is in scope and known, and shares release version and product with a repository of
/// the installed build.
pub open spec fn repo_offers(cache: &Cache, scope: Scope, erratum: i64, r: i64) -> bool {
    &&& repos_of_erratum(cache, erratum).contains(r)
    &&& scope.available.contains(r)
    &&& cache.repo_detail@.contains_key(r)
    &&& scope.releasevers.contains(cache.repo_detail@[r].releasever_view())
    &&& scope.products.contains(cache.repo_detail@[r].product_id)
}

/// Those of `repos` that may carry an update for the advisory, each once, in the order
/// of `repos`.
pub open spec fn offering_repos(cache: &Cache, scope: Scope, erratum: i64, repos: Seq<i64>) -> Seq<
    i64,
>
    decreases repos.len(),
{
    if repos.len() == 0 {
        Seq::empty()
    } else {
        let before = offering_repos(cache, scope, erratum, repos.drop_last());
        let r = repos.last();
        if repo_offers(cache, scope, erratum, r) && !before.contains(r) {
            before.push(r)
        } else {
            before
        }
    }
}

/// One update per repository of `repos`, for the given build and advisory.
pub open spec fn triples(candidate: i64, erratum: i64, repos: Seq<i64>) -> Seq<Emitted> {
    Seq::new(repos.len(), |i: int| Emitted { candidate, erratum, repo: repos[i] })
}

/// The updates for one advisory of a newer build; the search is given up where there
/// are some and the advisory has no name.
pub open spec fn emitted_for_erratum(cache: &Cache, scope: Scope, candidate: i64, erratum: i64) -> Result<
    Seq<Emitted>,
    SkipReason,
> {
    let repos = offering_repos(cache, scope, erratum, repos_of_package(cache, candidate));
    if repos.len() == 0 {
        Ok(Seq::empty())
    } else if !cache.errataid_to_name@.contains_key(erratum) {
        Err(SkipReason::UnnamedErratum)
    } else {
        Ok(triples(candidate, erratum, repos))
    }
}

/// The updates for the given advisories of a newer build, advisory by advisory; where
/// the search is given up for one of them, it is given up for the first such.
pub open spec fn emitted_for_errata(cache: &Cache, scope: Scope, candidate: i64, errata: Seq<i64>) -> Result<
    Seq<Emitted>,
    SkipReason,
>
    decreases errata.len(),
{
    if errata.len() == 0 {
        Ok(Seq::empty())
    } else {
        match emitted_for_errata(cache, scope, candidate, errata.drop_last()) {
            Err(why) => Err(why),
            Ok(before) => match emitted_for_erratum(cache, scope, candidate, errata.last()) {
                Err(why) => Err(why),
                Ok(here) => Ok(before + here),
            },
        }
    }
}

/// Whether a build of architecture `arch` may replace the installed one.
pub open spec fn architecture_fits(scope: Scope, arch: i64) -> bool {
    arch == scope.arch_id || scope.compatible.contains(arch)
}

/// Whether the name, version data and architecture of package `c` can be written out.
pub open spec fn package_named(cache: &Cache, c: i64) -> bool {
    &&& cache.pkg_details@.contains_key(c)
    &&& cache.id_to_name@.contains_key(cache.pkg_details@[c].name_id)
    &&& cache.id_to_evr@.contains_key(cache.pkg_details@[c].evr_id)
    &&& cache.id_to_arch@.contains_key(cache.pkg_details@[c].arch_id)
}

/// The updates for one newer build: none where it has no advisory or its architecture
/// does not fit; the search is given up where its details or names are missing.
pub open spec fn emitted_for_candidate(cache: &Cache, scope: Scope, c: i64) -> Result<
    Seq<Emitted>,
    SkipReason,
> {
    if !cache.pkgid_to_errataids@.contains_key(c) {
        Ok(Seq::empty())
    } else if !cache.pkg_details@.contains_key(c) {
        Err(SkipReason::UnknownPackage)
    } else if !architecture_fits(scope, cache.pkg_details@[c].arch_id) {
        Ok(Seq::empty())
    } else if !package_named(cache, c) {
        Err(SkipReason::UnnamedPackage)
    } else {
        emitted_for_errata(cache, scope, c, cache.pkgid_to_errataids@[c]@)
    }
}

/// The updates for the given newer builds, build by build; where the search is given
/// up for one of them, it is given up for the first such.
pub open spec fn emitted_for_candidates(cache: &Cache, scope: Scope, candidates: Seq<i64>) -> Result<
    Seq<Emitted>,
    SkipReason,
>
    decreases candidates.len(),
{
    if candidates.len() == 0 {
        Ok(Seq::empty())
    } else {
        match emitted_for_candidates(cache, scope, candidates.drop_last()) {
            Err(why) => Err(why),
            Ok(before) => match emitted_for_candidate(cache, scope, candidates.last()) {
                Err(why) => Err(why),
                Ok(here) => Ok(before + here),
            },
        }
    }
}

/// Whether each of the repositories is known.
pub open spec fn repos_known(cache: &Cache, repos: Seq<i64>) -> bool {
    forall|i: int| 0 <= i < repos.len() ==> cache.repo_detail@.contains_key(#[trigger] repos[i])
}

/// The products of the given repositories; a repository without a product counts as
/// `None`.
pub open spec fn products_of(cache: &Cache, repos: Seq<i64>) -> Set<Option<i64>> {
    Set::new(
        |p: Option<i64>|
            exists|i: int|
                0 <= i < repos.len() && cache.repo_detail@[#[trigger] repos[i]].product_id == p,
    )
}

/// The release versions of the given repositories; a repository without one counts as
/// `None`.
pub open spec fn releasevers_of(cache: &Cache, repos: Seq<i64>) -> Set<Option<Seq<char>>> {
    Set::new(
        |v: Option<Seq<char>>|
            exists|i: int|
                0 <= i < repos.len() && cache.repo_detail@[#[trigger] repos[i]].releasever_view()
                    == v,
    )
}

/// Where an installed package stands: the id of its name, the id of its architecture,
/// and its position among the builds of its name.
pub struct Installed {
    pub name_id: i64,
    pub arch_id: i64,
    pub position: int,
}

/// Finds the installed package among the builds of its name. The search is given up at
/// the first of these that is missing: the name, the builds of the name, the index of
/// the builds, the epoch as a number, the epoch, version and release, the architecture,
/// the architectures compatible with it, the position of the build; or where the
/// position lies outside the builds.
pub open spec fn locate(cache: &Cache, n: NevraView) -> Result<Installed, SkipReason> {
    if !cache.name_to_id@.contains_key(n.name) {
        Err(SkipReason::UnknownName)
    } else if !cache.updates@.contains_key(cache.name_to_id@[n.name]) {
        Err(SkipReason::NoBuilds)
    } else if !cache.updates_index@.contains_key(cache.name_to_id@[n.name]) {
        Err(SkipReason::NoBuildIndex)
    } else if n.evr() is None {
        Err(SkipReason::EpochNotANumber)
    } else if !cache.evr_to_id@.contains_key(n.evr()->0) {
        Err(SkipReason::UnknownEvr)
    } else if !cache.arch_to_id@.contains_key(n.arch) {
        Err(SkipReason::UnknownArch)
    } else if !cache.arch_compat@.contains_key(cache.arch_to_id@[n.arch]) {
        Err(SkipReason::NoCompatibility)
    } else {
        let name_id = cache.name_to_id@[n.name];
        let index = cache.updates_index@[name_id]@;
        let evr_id = cache.evr_to_id@[n.evr()->0];
        if !index.contains_key(evr_id) {
            Err(SkipReason::BuildNotIndexed)
        } else if index[evr_id] >= cache.updates@[name_id]@.len() {
            Err(SkipReason::PositionOutside)
        } else {
            Ok(
                Installed {
                    name_id,
                    arch_id: cache.arch_to_id@[n.arch],
                    position: index[evr_id] as int,
                },
            )
        }
    }
}

/// What the search for the package at `at` is held to.
pub open spec fn scope_of(cache: &Cache, available: Set<i64>, at: Installed) -> Scope {
    let installed = cache.updates@[at.name_id]@[at.position];
    Scope {
        available,
        products: products_of(cache, repos_of_package(cache, installed)),
        releasevers: releasevers_of(cache, repos_of_package(cache, installed)),
        arch_id: at.arch_id,
        compatible: cache.arch_compat@[at.arch_id]@,
    }
}

/// The updates for an installed package: none where it is the newest build of its name,
/// else those of every later build, in the order of the builds. The search is given up,
/// with the reason, where a lookup that it needs finds nothing.
pub open spec fn emitted_for_package(cache: &Cache, available: Set<i64>, n: NevraView) -> Result<
    Seq<Emitted>,
    SkipReason,
> {
    match locate(cache, n) {
        Err(why) => Err(why),
        Ok(at) => {
            let chain = cache.updates@[at.name_id]@;
            if at.position + 1 == chain.len() {
                Ok(Seq::empty())
            } else if !repos_known(cache, repos_of_package(cache, chain[at.position])) {
                Err(SkipReason::UnknownRepository)
            } else {
                emitted_for_candidates(
                    cache,
                    scope_of(cache, available, at),
                    chain.skip(at.position + 1),
                )
            }
        },
    }
}

/// The identity of package `c`, written from the names of its parts.
pub open spec fn package_nevra(cache: &Cache, c: i64) -> NevraView {
    nevra_of_parts(
        cache.id_to_name@[cache.pkg_details@[c].name_id]@,
        cache.id_to_evr@[cache.pkg_details@[c].evr_id]@,
        cache.id_to_arch@[cache.pkg_details@[c].arch_id]@,
    )
}

/// The record that reports one update.
pub open spec fn record(cache: &Cache, e: Emitted) -> PkgUpdateView {
    PkgUpdateView {
        package: package_nevra(cache, e.candidate),
        erratum: cache.errataid_to_name@[e.erratum]@,
        repository: Some(cache.repo_detail@[e.repo].label@),
        basearch: cache.repo_detail@[e.repo].basearch_view(),
        releasever: match cache.repo_detail@[e.repo].releasever {
            Some(s) => s@,
            None => Seq::empty(),
        },
    }
}

/// The records that report the given updates.
pub open spec fn records(cache: &Cache, emitted: Seq<Emitted>) -> Seq<PkgUpdateView> {
    Seq::new(emitted.len(), |i: int| record(cache, emitted[i]))
}

/// What became of a requested package.
#[derive(Debug, Clone, Copy, PartialEq, Eq, Structural)]
pub enum Outcome {
    /// It was not taken up and has no entry in the answer.
    Rejected(Rejection),
    /// It was taken up; the search for its updates was given up, and its entry holds
    /// no update.
    Skipped(SkipReason),
    /// It was taken up and searched; its entry holds this many updates.
    Searched(usize),
}

/// What becomes of the requested package `text`.
pub open spec fn outcome_of(cache: &Cache, available: Set<i64>, text: Seq<char>) -> Outcome {
    match rejection(cache, text) {
        Some(why) => Outcome::Rejected(why),
        None => match emitted_for_package(cache, available, parse_nevra(text)->0) {
            Err(why) => Outcome::Skipped(why),
            Ok(emitted) => Outcome::Searched(emitted.len() as usize),
        },
    }
}

/// The update records for an installed package; none where the search found nothing or
/// was given up.
pub open spec fn available_updates(cache: &Cache, available: Set<i64>, n: NevraView) -> Seq<
    PkgUpdateView,
> {
    match emitted_for_package(cache, available, n) {
        Ok(emitted) => records(cache, emitted),
        Err(_) => Seq::empty(),
    }
}

/// The answer for the requested package `text`.
pub open spec fn detail_for(cache: &Cache, available: Set<i64>, text: Seq<char>) -> UpdatesPkgDetailView {
    UpdatesPkgDetailView {
        summary: None,
        description: None,
        available_updates: available_updates(cache, available, parse_nevra(text)->0),
    }
}

/// The answers `before`, with an answer that holds no update entered for each of
/// `keys`.
pub open spec fn registered(before: Map<Seq<char>, UpdatesPkgDetailView>, keys: Seq<Seq<char>>) -> Map<
    Seq<char>,
    UpdatesPkgDetailView,
> {
    Map::new(
        |k: Seq<char>| before.contains_key(k) || keys.contains(k),
        |k: Seq<char>|
            if keys.contains(k) {
                empty_detail()
            } else {
                before[k]
            },
    )
}

/// The answers `before`, with the answer of the search entered for each of `keys`.
pub open spec fn answered(
    cache: &Cache,
    available: Set<i64>,
    before: Map<Seq<char>, UpdatesPkgDetailView>,
    keys: Seq<Seq<char>>,
) -> Map<Seq<char>, UpdatesPkgDetailView> {
    Map::new(
        |k: Seq<char>| before.contains_key(k) || keys.contains(k),
        |k: Seq<char>|
            if keys.contains(k) {
                detail_for(cache, available, k)
            } else {
                before[k]
            },
    )
}

/// What a request holds, as plain values. The module streams of a request are not part
/// of it: they are accepted and not consulted.
pub struct RequestView {
    pub package_list: Seq<Seq<char>>,
    pub repository_list: Option<Seq<Seq<char>>>,
    pub releasever: Option<Seq<char>>,
    pub basearch: Option<Seq<char>>,
}

/// What a response holds, as plain values.
pub struct ResponseView {
    pub update_list: Map<Seq<char>, UpdatesPkgDetailView>,
    pub repository_list: Option<Seq<Seq<char>>>,
    pub releasever: Option<Seq<char>>,
    pub basearch: Option<Seq<char>>,
}

impl RequestView {
    /// The repositories that the request leaves in scope.
    pub open spec fn available(self, cache: &Cache) -> Set<i64> {
        available_repos(cache, self.repository_list, self.releasever, self.basearch)
    }
}

/// The answer to a request: an entry for each requested package that is taken up, with
/// the updates found for it among the repositories in scope, and the request's own
/// narrowing.
pub open spec fn resolution(cache: &Cache, req: RequestView) -> ResponseView {
    ResponseView {
        update_list: Map::new(
            |k: Seq<char>| req.package_list.contains(k) && admitted(cache, k),
            |k: Seq<char>| detail_for(cache, req.available(cache), k),
        ),
        repository_list: req.repository_list,
        releasever: req.releasever,
        basearch: req.basearch,
    }
}

/// The answer that holds no update.
pub open spec fn empty_detail() -> UpdatesPkgDetailView {
    UpdatesPkgDetailView { summary: None, description: None, available_updates: Seq::empty() }
}

/// Once the search over some advisories is given up, it is given up over any longer
/// list, for the same reason.
pub proof fn lemma_errata_failure_stays(
    cache: &Cache,
    scope: Scope,
    candidate: i64,
    errata: Seq<i64>,
    k: int,
)
    requires
        0 <= k <= errata.len(),
        emitted_for_errata(cache, scope, candidate, errata.take(k)) is Err,
    ensures
        emitted_for_errata(cache, scope, candidate, errata) == emitted_for_errata(
            cache,
            scope,
            candidate,
            errata.take(k),
        ),
    decreases errata.len() - k,
{
    if k < errata.len() {
        assert(errata.take(k + 1).drop_last() == errata.take(k));
        lemma_errata_failure_stays(cache, scope, candidate, errata, k + 1);
    } else {
        assert(errata.take(k) == errata);
    }
}

/// Once the search over some builds is given up, it is given up over any longer list,
/// for the same reason.
pub proof fn lemma_candidates_failure_stays(
    cache: &Cache,
    scope: Scope,
    candidates: Seq<i64>,
    k: int,
)
    requires
        0 <= k <= candidates.len(),
        emitted_for_candidates(cache, scope, candidates.take(k)) is Err,
    ensures
        emitted_for_candidates(cache, scope, candidates) == emitted_for_candidates(
            cache,
            scope,
            candidates.take(k),
        ),
    decreases candidates.len() - k,
{
    if k < candidates.len() {
        assert(candidates.take(k + 1).drop_last() == candidates.take(k));
        lemma_candidates_failure_stays(cache, scope, candidates, k + 1);
    } else {
        assert(candidates.take(k) == candidates);
    }
}

/// Every repository that `offering_repos` keeps is one of `repos` and may carry the
/// update.
pub proof fn lemma_offering_repos(cache: &Cache, scope: Scope, erratum: i64, repos: Seq<i64>)
    ensures
        forall|i: int|
            0 <= i < offering_repos(cache, scope, erratum, repos).len() ==> repo_offers(
                cache,
                scope,
                erratum,
                #[trigger] offering_repos(cache, scope, erratum, repos)[i],
            ) && repos.contains(offering_repos(cache, scope, erratum, repos)[i]),
        offering_repos(cache, scope, erratum, repos).no_duplicates(),
    decreases repos.len(),
{
    if repos.len() > 0 {
        let head = repos.drop_last();
        lemma_offering_repos(cache, scope, erratum, head);
        let before = offering_repos(cache, scope, erratum, head);
        let all = offering_repos(cache, scope, erratum, repos);
        assert forall|i: int| 0 <= i < all.len() implies repo_offers(
            cache,
            scope,
            erratum,
            #[trigger] all[i],
        ) && repos.contains(all[i]) by {
            if i < before.len() {
                assert(all[i] == before[i]);
                let j = choose|j: int| 0 <= j < head.len() && head[j] == before[i];
                assert(repos[j] == all[i]);
            } else {
                assert(all[i] == repos.last());
                assert(repos[repos.len() - 1] == all[i]);
            }
        }
    }
}

} // verus!
