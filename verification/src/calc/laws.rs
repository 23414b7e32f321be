use vstd::prelude::*;
use crate::cache::Cache;
use crate::cache::EvrView;
use crate::calc::model::admitted;
use crate::calc::model::architecture_fits;
use crate::calc::model::available_updates;
use crate::calc::model::emitted_for_candidate;
use crate::calc::model::emitted_for_candidates;
use crate::calc::model::emitted_for_errata;
use crate::calc::model::emitted_for_erratum;
use crate::calc::model::emitted_for_package;
use crate::calc::model::lemma_offering_repos;
use crate::calc::model::locate;
use crate::calc::model::offering_repos;
use crate::calc::model::outcome_of;
use crate::calc::model::Outcome;
use crate::calc::model::package_named;
use crate::calc::model::record;
use crate::calc::model::repo_available;
use crate::calc::model::repo_offers;
use crate::calc::model::repos_of_package;
use crate::calc::model::resolution;
use crate::calc::model::scope_of;
use crate::calc::model::Emitted;
use crate::calc::model::RequestView;
use crate::calc::model::Scope;
use crate::calc::updates::Request;
use crate::calc::updates::Response;
use crate::prelude::NevraView;

verus! {

/// Whether an update is one that the search may report: its build has the advisory, can
/// be written out and fits the installed architecture, the advisory has a name, and the
/// repository offers the build and may carry the update.
pub open spec fn warranted(cache: &Cache, scope: Scope, e: Emitted) -> bool {
    &&& cache.pkgid_to_errataids@.contains_key(e.candidate)
    &&& cache.pkgid_to_errataids@[e.candidate]@.contains(e.erratum)
    &&& package_named(cache, e.candidate)
    &&& architecture_fits(scope, cache.pkg_details@[e.candidate].arch_id)
    &&& cache.errataid_to_name@.contains_key(e.erratum)
    &&& repos_of_package(cache, e.candidate).contains(e.repo)
    &&& repo_offers(cache, scope, e.erratum, e.repo)
}

proof fn lemma_erratum_warranted(cache: &Cache, scope: Scope, candidate: i64, erratum: i64)
    ensures
        emitted_for_erratum(cache, scope, candidate, erratum) matches Ok(s) ==> forall|i: int|
            0 <= i < s.len() ==> {
                &&& (#[trigger] s[i]).candidate == candidate
                &&& s[i].erratum == erratum
                &&& cache.errataid_to_name@.contains_key(erratum)
                &&& repos_of_package(cache, candidate).contains(s[i].repo)
                &&& repo_offers(cache, scope, erratum, s[i].repo)
            },
{
    lemma_offering_repos(cache, scope, erratum, repos_of_package(cache, candidate));
    if let Ok(s) = emitted_for_erratum(cache, scope, candidate, erratum) {
        let repos = offering_repos(cache, scope, erratum, repos_of_package(cache, candidate));
        assert forall|i: int| 0 <= i < s.len() implies {
            &&& (#[trigger] s[i]).candidate == candidate
            &&& s[i].erratum == erratum
            &&& cache.errataid_to_name@.contains_key(erratum)
            &&& repos_of_package(cache, candidate).contains(s[i].repo)
            &&& repo_offers(cache, scope, erratum, s[i].repo)
        } by {
            assert(s[i].repo == repos[i]);
        }
    }
}

proof fn lemma_errata_warranted(cache: &Cache, scope: Scope, candidate: i64, errata: Seq<i64>)
    ensures
        emitted_for_errata(cache, scope, candidate, errata) matches Ok(s) ==> forall|i: int|
            0 <= i < s.len() ==> {
                &&& (#[trigger] s[i]).candidate == candidate
                &&& errata.contains(s[i].erratum)
                &&& cache.errataid_to_name@.contains_key(s[i].erratum)
                &&& repos_of_package(cache, candidate).contains(s[i].repo)
                &&& repo_offers(cache, scope, s[i].erratum, s[i].repo)
            },
    decreases errata.len(),
{
    if errata.len() > 0 {
        let head = errata.drop_last();
        lemma_errata_warranted(cache, scope, candidate, head);
        lemma_erratum_warranted(cache, scope, candidate, errata.last());
        if let Ok(s) = emitted_for_errata(cache, scope, candidate, errata) {
            let before = emitted_for_errata(cache, scope, candidate, head)->Ok_0;
            let here = emitted_for_erratum(cache, scope, candidate, errata.last())->Ok_0;
            assert forall|i: int| 0 <= i < s.len() implies {
                &&& (#[trigger] s[i]).candidate == candidate
                &&& errata.contains(s[i].erratum)
                &&& cache.errataid_to_name@.contains_key(s[i].erratum)
                &&& repos_of_package(cache, candidate).contains(s[i].repo)
                &&& repo_offers(cache, scope, s[i].erratum, s[i].repo)
            } by {
                if i < before.len() {
                    assert(s[i] == before[i]);
                    let j = choose|j: int| 0 <= j < head.len() && head[j] == before[i].erratum;
                    assert(errata[j] == s[i].erratum);
                } else {
                    assert(s[i] == here[i - before.len()]);
                    assert(errata[errata.len() - 1] == s[i].erratum);
                }
            }
        }
    }
}

proof fn lemma_candidate_warranted(cache: &Cache, scope: Scope, candidate: i64)
    ensures
        emitted_for_candidate(cache, scope, candidate) matches Ok(s) ==> forall|i: int|
            0 <= i < s.len() ==> (#[trigger] s[i]).candidate == candidate && warranted(
                cache,
                scope,
                s[i],
            ),
{
    if cache.pkgid_to_errataids@.contains_key(candidate) {
        lemma_errata_warranted(cache, scope, candidate, cache.pkgid_to_errataids@[candidate]@);
    }
}

proof fn lemma_candidates_warranted(cache: &Cache, scope: Scope, candidates: Seq<i64>)
    ensures
        emitted_for_candidates(cache, scope, candidates) matches Ok(s) ==> forall|i: int|
            0 <= i < s.len() ==> candidates.contains((#[trigger] s[i]).candidate) && warranted(
                cache,
                scope,
                s[i],
            ),
    decreases candidates.len(),
{
    if candidates.len() > 0 {
        let head = candidates.drop_last();
        lemma_candidates_warranted(cache, scope, head);
        lemma_candidate_warranted(cache, scope, candidates.last());
        if let Ok(s) = emitted_for_candidates(cache, scope, candidates) {
            let before = emitted_for_candidates(cache, scope, head)->Ok_0;
            let here = emitted_for_candidate(cache, scope, candidates.last())->Ok_0;
            assert forall|i: int| 0 <= i < s.len() implies candidates.contains(
                (#[trigger] s[i]).candidate,
            ) && warranted(cache, scope, s[i]) by {
                if i < before.len() {
                    assert(s[i] == before[i]);
                    let j = choose|j: int| 0 <= j < head.len() && head[j] == before[i].candidate;
                    assert(candidates[j] == s[i].candidate);
                } else {
                    assert(s[i] == here[i - before.len()]);
                    assert(candidates[candidates.len() - 1] == s[i].candidate);
                }
            }
        }
    }
}

/// Every update that is found for an installed package is warranted, and its build
/// stands after the installed one among the builds of the name.
pub proof fn lemma_updates_warranted(cache: &Cache, available: Set<i64>, n: NevraView, i: int)
    requires
        emitted_for_package(cache, available, n) matches Ok(s) && 0 <= i < s.len(),
    ensures
        ({
            let e = emitted_for_package(cache, available, n)->Ok_0[i];
            let at = locate(cache, n)->Ok_0;
            let chain = cache.updates@[at.name_id]@;
            &&& locate(cache, n) is Ok
            &&& warranted(cache, scope_of(cache, available, at), e)
            &&& exists|p: int| at.position < p < chain.len() && #[trigger] chain[p] == e.candidate
        }),
{
    let at = locate(cache, n)->Ok_0;
    let chain = cache.updates@[at.name_id]@;
    let scope = scope_of(cache, available, at);
    let newer = chain.skip(at.position + 1);
    lemma_candidates_warranted(cache, scope, newer);
    let e = emitted_for_package(cache, available, n)->Ok_0[i];
    let j = choose|j: int| 0 <= j < newer.len() && newer[j] == e.candidate;
    assert(chain[at.position + 1 + j] == e.candidate);
}

/// The i-th record of the answer reports the i-th update that was found.
pub proof fn lemma_record_reports_update(cache: &Cache, available: Set<i64>, n: NevraView, i: int)
    requires
        emitted_for_package(cache, available, n) matches Ok(s) && 0 <= i < s.len(),
    ensures
        available_updates(cache, available, n).len() == emitted_for_package(
            cache,
            available,
            n,
        )->Ok_0.len(),
        available_updates(cache, available, n)[i] == record(
            cache,
            emitted_for_package(cache, available, n)->Ok_0[i],
        ),
{
}

/// The architecture of every reported build is the installed one, or one of those that
/// the cache lists as compatible with the installed one.
pub proof fn lemma_updates_fit_architecture(
    cache: &Cache,
    available: Set<i64>,
    n: NevraView,
    i: int,
)
    requires
        emitted_for_package(cache, available, n) matches Ok(s) && 0 <= i < s.len(),
    ensures
        ({
            let e = emitted_for_package(cache, available, n)->Ok_0[i];
            let installed = cache.arch_to_id@[n.arch];
            let arch = cache.pkg_details@[e.candidate].arch_id;
            &&& cache.arch_to_id@.contains_key(n.arch)
            &&& cache.arch_compat@.contains_key(installed)
            &&& cache.pkg_details@.contains_key(e.candidate)
            &&& arch == installed || cache.arch_compat@[installed]@.contains(arch)
        }),
{
    lemma_updates_warranted(cache, available, n, i);
}

/// Every reported update comes from a repository in scope, which the cache knows, and
/// which offers both the build and the advisory.
pub proof fn lemma_updates_from_available_repos(
    cache: &Cache,
    available: Set<i64>,
    n: NevraView,
    i: int,
)
    requires
        emitted_for_package(cache, available, n) matches Ok(s) && 0 <= i < s.len(),
    ensures
        ({
            let e = emitted_for_package(cache, available, n)->Ok_0[i];
            &&& available.contains(e.repo)
            &&& cache.repo_detail@.contains_key(e.repo)
            &&& available_updates(cache, available, n)[i].repository == Some(
                cache.repo_detail@[e.repo].label@,
            )
        }),
{
    lemma_updates_warranted(cache, available, n, i);
}

/// A repository in the scope of a request is known and passes what the request asks of
/// labels, release version and base architecture.
pub proof fn lemma_scope_of_request(cache: &Cache, req: RequestView, id: i64)
    requires
        req.available(cache).contains(id),
    ensures
        repo_available(cache, req.repository_list, req.releasever, req.basearch, id),
{
}

/// An installed package that is the newest build of its name has no updates.
pub proof fn lemma_newest_has_no_updates(cache: &Cache, available: Set<i64>, n: NevraView)
    requires
        locate(cache, n) matches Ok(at) && at.position + 1 == cache.updates@[at.name_id]@.len(),
    ensures
        available_updates(cache, available, n) == Seq::<crate::calc::model::PkgUpdateView>::empty(),
{
    assert(available_updates(cache, available, n) =~= Seq::empty());
}

/// A requested package has an entry in the answer exactly when it is taken up: its
/// text is a package identity, its name is known and has an index of its builds.
pub proof fn lemma_admitted_are_answered(cache: &Cache, req: RequestView, k: Seq<char>)
    ensures
        resolution(cache, req).update_list.contains_key(k) <==> req.package_list.contains(k)
            && admitted(cache, k),
{
}

/// What becomes of a requested package tells what the answer holds for it: no entry
/// where it is rejected, an entry without updates where its search is given up, and an
/// entry with as many updates as were found where it is searched.
pub proof fn lemma_outcome_tells_entry(cache: &Cache, req: RequestView, k: Seq<char>)
    requires
        req.package_list.contains(k),
    ensures
        match outcome_of(cache, req.available(cache), k) {
            Outcome::Rejected(_) => !resolution(cache, req).update_list.contains_key(k),
            Outcome::Skipped(_) => resolution(cache, req).update_list.contains_key(k)
                && resolution(cache, req).update_list[k].available_updates.len() == 0,
            Outcome::Searched(n) => resolution(cache, req).update_list.contains_key(k) && (
            resolution(cache, req).update_list[k].available_updates.len() <= usize::MAX
                ==> resolution(cache, req).update_list[k].available_updates.len() == n),
        },
{
}

/// Two answers to requests that hold the same, against one cache, hold the same.
pub proof fn lemma_resolution_determined(
    cache: &Cache,
    a: Request,
    b: Request,
    ra: Response,
    rb: Response,
)
    requires
        a@ == b@,
        ra@ == resolution(cache, a@),
        rb@ == resolution(cache, b@),
    ensures
        ra@ == rb@,
{
}

/// What a catalog's inverse finds leads back: the id found for a name holds that name,
/// the id found for an epoch, version and release holds them, and the id found for an
/// architecture holds that architecture.
pub proof fn lemma_catalogs_round_trip(cache: &Cache, name: Seq<char>, evr: EvrView, arch: Seq<char>)
    requires
        cache.catalogs_inverted(),
    ensures
        cache.name_to_id@.contains_key(name) ==> cache.id_to_name@.contains_key(
            cache.name_to_id@[name],
        ) && cache.id_to_name@[cache.name_to_id@[name]]@ == name,
        cache.evr_to_id@.contains_key(evr) ==> cache.id_to_evr@.contains_key(cache.evr_to_id@[evr])
            && cache.id_to_evr@[cache.evr_to_id@[evr]]@ == evr,
        cache.arch_to_id@.contains_key(arch) ==> cache.id_to_arch@.contains_key(
            cache.arch_to_id@[arch],
        ) && cache.id_to_arch@[cache.arch_to_id@[arch]]@ == arch,
{
}

} // verus!
