//! The aggregation pipeline, as a state machine whose suspension points are
//! exactly the HTTP requests.
//!
//! A driver repeatedly asks `pending_request` which URL to fetch, performs
//! the fetch, and hands the outcome to `step`.  The machine pages through
//! the repository list, each repository's open pull requests, and each pull
//! request's review events (a page is last when it comes back empty),
//! reduces and merges as it goes, and terminates in `Done` with the
//! aggregate or in `Failed` with the first error.  The first failure at any
//! level aborts the whole run: no partial aggregate is ever handed out.

use crate::aggregate::lemma_merge_pull_wf;
use crate::aggregate::lemma_repositories_exactly_referenced;
use crate::aggregate::merge_pull_request;
use crate::aggregate::spec_merge_all;
use crate::aggregate::spec_referenced_repos;
use crate::aggregate::ProcessedPullV;
use crate::aggregate::org_wf;
use crate::aggregate::spec_empty_org;
use crate::aggregate::spec_merge_pull;
use crate::aggregate::empty_organization;
use crate::aggregate::Organization;
use crate::aggregate::OrganizationV;
use crate::error::FetchError;
use crate::error::FetchErrorV;
use crate::payload::parse_pulls;
use crate::payload::parse_repositories;
use crate::payload::parse_reviews;
use crate::payload::spec_parse_pulls;
use crate::payload::spec_parse_repositories;
use crate::payload::spec_parse_reviews;
use crate::payload::PullData;
use crate::payload::PullDataV;
use crate::payload::ReviewEvent;
use crate::payload::ReviewEventV;
use crate::reducer::latest_states;
use crate::reducer::spec_reduce;
use crate::urls::pulls_url;
use crate::urls::repositories_url;
use crate::urls::reviews_url;
use crate::urls::spec_pulls_url;
use crate::urls::spec_repositories_url;
use crate::urls::spec_reviews_url;
use vstd::prelude::*;
use vstd::string::StringExecFns;

verus! {

/// What the driver hands back for the URL it was asked to fetch.
pub enum FetchEvent {
    /// The body of a successful (2xx) response.
    Response(String),
    /// The transport failed: connection failure, timeout, or a non-2xx
    /// status.
    TransportFailure,
}

/// Ghost mirror of `FetchEvent`.
pub enum FetchEventV {
    Response(Seq<char>),
    TransportFailure,
}

impl View for FetchEvent {
    type V = FetchEventV;

    open spec fn view(&self) -> FetchEventV {
        match self {
            FetchEvent::Response(body) => FetchEventV::Response(body@),
            FetchEvent::TransportFailure => FetchEventV::TransportFailure,
        }
    }
}

/// The pipeline's state between suspension points.  Each fetching state
/// remembers what has been accumulated so far; `page` is the page whose
/// response the machine is waiting for.
enum PipelineState {
    FetchingRepositories { organization: String, page: u64, repos: Vec<String> },
    FetchingPullRequests {
        organization: String,
        org: Organization,
        repos: Vec<String>,
        repo_idx: usize,
        page: u64,
        pulls: Vec<PullData>,
    },
    FetchingReviews {
        organization: String,
        org: Organization,
        repos: Vec<String>,
        repo_idx: usize,
        pulls: Vec<PullData>,
        pull_idx: usize,
        page: u64,
        events: Vec<ReviewEvent>,
    },
    Done { org: Organization },
    Failed { error: FetchError },
}

/// Ghost mirror of the pipeline state.
#[verifier::ext_equal]
pub enum PipelineStateV {
    FetchingRepositories { organization: Seq<char>, page: u64, repos: Seq<Seq<char>> },
    FetchingPullRequests {
        organization: Seq<char>,
        org: OrganizationV,
        repos: Seq<Seq<char>>,
        repo_idx: int,
        page: u64,
        pulls: Seq<PullDataV>,
    },
    FetchingReviews {
        organization: Seq<char>,
        org: OrganizationV,
        repos: Seq<Seq<char>>,
        repo_idx: int,
        pulls: Seq<PullDataV>,
        pull_idx: int,
        page: u64,
        events: Seq<ReviewEventV>,
    },
    Done { org: OrganizationV },
    Failed { error: FetchErrorV },
}

impl View for PipelineState {
    type V = PipelineStateV;

    closed spec fn view(&self) -> PipelineStateV {
        match self {
            PipelineState::FetchingRepositories { organization, page, repos } => {
                PipelineStateV::FetchingRepositories {
                    organization: organization@,
                    page: *page,
                    repos: repos.deep_view(),
                }
            },
            PipelineState::FetchingPullRequests {
                organization,
                org,
                repos,
                repo_idx,
                page,
                pulls,
            } => {
                PipelineStateV::FetchingPullRequests {
                    organization: organization@,
                    org: org@,
                    repos: repos.deep_view(),
                    repo_idx: *repo_idx as int,
                    page: *page,
                    pulls: pulls.deep_view(),
                }
            },
            PipelineState::FetchingReviews {
                organization,
                org,
                repos,
                repo_idx,
                pulls,
                pull_idx,
                page,
                events,
            } => {
                PipelineStateV::FetchingReviews {
                    organization: organization@,
                    org: org@,
                    repos: repos.deep_view(),
                    repo_idx: *repo_idx as int,
                    pulls: pulls.deep_view(),
                    pull_idx: *pull_idx as int,
                    page: *page,
                    events: events.deep_view(),
                }
            },
            PipelineState::Done { org } => PipelineStateV::Done { org: org@ },
            PipelineState::Failed { error } => PipelineStateV::Failed { error: error@ },
        }
    }
}

/// What every reachable state satisfies: indices in range, pages counted
/// from one, and a well-formed aggregate.
pub open spec fn state_wf(s: PipelineStateV) -> bool {
    match s {
        PipelineStateV::FetchingRepositories { page, .. } => page >= 1,
        PipelineStateV::FetchingPullRequests { org, repos, repo_idx, page, .. } => {
            &&& org_wf(org)
            &&& 0 <= repo_idx < repos.len()
            &&& page >= 1
        },
        PipelineStateV::FetchingReviews { org, repos, repo_idx, pulls, pull_idx, page, .. } => {
            &&& org_wf(org)
            &&& 0 <= repo_idx < repos.len()
            &&& 0 <= pull_idx < pulls.len()
            &&& page >= 1
        },
        PipelineStateV::Done { org } => org_wf(org),
        PipelineStateV::Failed { .. } => true,
    }
}

/// The state a run for `organization` starts in.
pub open spec fn spec_start(organization: Seq<char>) -> PipelineStateV {
    PipelineStateV::FetchingRepositories {
        organization,
        page: 1,
        repos: Seq::empty(),
    }
}

/// The URL the machine is waiting on, or `None` in a terminal state.
pub open spec fn spec_pending_url(s: PipelineStateV) -> Option<Seq<char>> {
    match s {
        PipelineStateV::FetchingRepositories { organization, page, .. } => Some(
            spec_repositories_url(organization, page),
        ),
        PipelineStateV::FetchingPullRequests { organization, repos, repo_idx, page, .. } => Some(
            spec_pulls_url(organization, repos[repo_idx], page),
        ),
        PipelineStateV::FetchingReviews {
            organization,
            repos,
            repo_idx,
            pulls,
            pull_idx,
            page,
            ..
        } => Some(spec_reviews_url(organization, repos[repo_idx], pulls[pull_idx].number, page)),
        PipelineStateV::Done { .. } => None,
        PipelineStateV::Failed { .. } => None,
    }
}

/// After the last repository (or when there is none left), the run is
/// done; otherwise the machine turns to the next repository's first page
/// of open pull requests.
pub open spec fn spec_next_repo(
    organization: Seq<char>,
    org: OrganizationV,
    repos: Seq<Seq<char>>,
    repo_idx: int,
) -> PipelineStateV {
    if repo_idx + 1 < repos.len() {
        PipelineStateV::FetchingPullRequests {
            organization,
            org,
            repos,
            repo_idx: repo_idx + 1,
            page: 1,
            pulls: Seq::empty(),
        }
    } else {
        PipelineStateV::Done { org }
    }
}

/// After the last pull request of a repository, the machine advances to
/// the next repository; otherwise to the next pull request's first page of
/// review events.
pub open spec fn spec_next_pull(
    organization: Seq<char>,
    org: OrganizationV,
    repos: Seq<Seq<char>>,
    repo_idx: int,
    pulls: Seq<PullDataV>,
    pull_idx: int,
) -> PipelineStateV {
    if pull_idx + 1 < pulls.len() {
        PipelineStateV::FetchingReviews {
            organization,
            org,
            repos,
            repo_idx,
            pulls,
            pull_idx: pull_idx + 1,
            page: 1,
            events: Seq::empty(),
        }
    } else {
        spec_next_repo(organization, org, repos, repo_idx)
    }
}

/// One repository-list page arrived.  A page that fails to parse aborts
/// the run; a non-empty page is accumulated and the next one requested; an
/// empty page (or the unreachable last representable page number) closes
/// the listing, after which an organization without repositories is done
/// at once and anything else turns to the first repository.
pub open spec fn spec_step_repositories(
    organization: Seq<char>,
    page: u64,
    repos: Seq<Seq<char>>,
    body: Seq<char>,
) -> PipelineStateV {
    match spec_parse_repositories(body) {
        None => PipelineStateV::Failed {
            error: FetchErrorV::Parse { url: spec_repositories_url(organization, page) },
        },
        Some(names) => {
            if names.len() > 0 && page < u64::MAX {
                PipelineStateV::FetchingRepositories {
                    organization,
                    page: (page + 1) as u64,
                    repos: repos + names,
                }
            } else {
                let all = repos + names;
                if all.len() == 0 {
                    PipelineStateV::Done { org: spec_empty_org() }
                } else {
                    PipelineStateV::FetchingPullRequests {
                        organization,
                        org: spec_empty_org(),
                        repos: all,
                        repo_idx: 0,
                        page: 1,
                        pulls: Seq::empty(),
                    }
                }
            }
        },
    }
}

/// One pull-request-list page arrived for the current repository.  A
/// repository whose listing closes with no open pull requests contributes
/// nothing; otherwise the machine turns to the first pull request's
/// reviews.
pub open spec fn spec_step_pulls(
    organization: Seq<char>,
    org: OrganizationV,
    repos: Seq<Seq<char>>,
    repo_idx: int,
    page: u64,
    pulls: Seq<PullDataV>,
    body: Seq<char>,
) -> PipelineStateV {
    match spec_parse_pulls(body) {
        None => PipelineStateV::Failed {
            error: FetchErrorV::Parse { url: spec_pulls_url(organization, repos[repo_idx], page) },
        },
        Some(new_pulls) => {
            if new_pulls.len() > 0 && page < u64::MAX {
                PipelineStateV::FetchingPullRequests {
                    organization,
                    org,
                    repos,
                    repo_idx,
                    page: (page + 1) as u64,
                    pulls: pulls + new_pulls,
                }
            } else {
                let all = pulls + new_pulls;
                if all.len() == 0 {
                    spec_next_repo(organization, org, repos, repo_idx)
                } else {
                    PipelineStateV::FetchingReviews {
                        organization,
                        org,
                        repos,
                        repo_idx,
                        pulls: all,
                        pull_idx: 0,
                        page: 1,
                        events: Seq::empty(),
                    }
                }
            }
        },
    }
}

/// One review-list page arrived for the current pull request.  When the
/// listing closes, the events are reduced to current states per person
/// and the pull request is merged into the aggregate.
pub open spec fn spec_step_reviews(
    organization: Seq<char>,
    org: OrganizationV,
    repos: Seq<Seq<char>>,
    repo_idx: int,
    pulls: Seq<PullDataV>,
    pull_idx: int,
    page: u64,
    events: Seq<ReviewEventV>,
    body: Seq<char>,
) -> PipelineStateV {
    match spec_parse_reviews(body) {
        None => PipelineStateV::Failed {
            error: FetchErrorV::Parse {
                url: spec_reviews_url(organization, repos[repo_idx], pulls[pull_idx].number, page),
            },
        },
        Some(new_events) => {
            if new_events.len() > 0 && page < u64::MAX {
                PipelineStateV::FetchingReviews {
                    organization,
                    org,
                    repos,
                    repo_idx,
                    pulls,
                    pull_idx,
                    page: (page + 1) as u64,
                    events: events + new_events,
                }
            } else {
                let all = events + new_events;
                let pull = pulls[pull_idx];
                let states = spec_reduce(pull.author, all);
                let merged = spec_merge_pull(org, repos[repo_idx], pull, states);
                spec_next_pull(organization, merged, repos, repo_idx, pulls, pull_idx)
            }
        },
    }
}

/// The machine's whole transition relation.  A transport failure in any
/// fetching state aborts the run with a transport error naming the URL
/// that was being fetched; terminal states stay put.
pub open spec fn spec_step(s: PipelineStateV, ev: FetchEventV) -> PipelineStateV {
    if s is Done || s is Failed {
        s
    } else {
        match ev {
            FetchEventV::TransportFailure => PipelineStateV::Failed {
                error: FetchErrorV::Transport { url: spec_pending_url(s).unwrap() },
            },
            FetchEventV::Response(body) => match s {
                PipelineStateV::FetchingRepositories { organization, page, repos } => {
                    spec_step_repositories(organization, page, repos, body)
                },
                PipelineStateV::FetchingPullRequests {
                    organization,
                    org,
                    repos,
                    repo_idx,
                    page,
                    pulls,
                } => spec_step_pulls(organization, org, repos, repo_idx, page, pulls, body),
                PipelineStateV::FetchingReviews {
                    organization,
                    org,
                    repos,
                    repo_idx,
                    pulls,
                    pull_idx,
                    page,
                    events,
                } => spec_step_reviews(
                    organization,
                    org,
                    repos,
                    repo_idx,
                    pulls,
                    pull_idx,
                    page,
                    events,
                    body,
                ),
                _ => s,
            },
        }
    }
}

/// Every step from a well-formed state lands in a well-formed state.
pub proof fn lemma_step_wf(s: PipelineStateV, ev: FetchEventV)
    requires
        state_wf(s),
    ensures
        state_wf(spec_step(s, ev)),
{
    if !(s is Done || s is Failed) {
        match ev {
            FetchEventV::TransportFailure => {},
            FetchEventV::Response(body) => match s {
                PipelineStateV::FetchingRepositories { organization, page, repos } => {},
                PipelineStateV::FetchingPullRequests { .. } => {},
                PipelineStateV::FetchingReviews {
                    organization,
                    org,
                    repos,
                    repo_idx,
                    pulls,
                    pull_idx,
                    page,
                    events,
                } => {
                    match spec_parse_reviews(body) {
                        None => {},
                        Some(new_events) => {
                            if !(new_events.len() > 0 && page < u64::MAX) {
                                let all = events + new_events;
                                let pull = pulls[pull_idx];
                                let states = spec_reduce(pull.author, all);
                                lemma_merge_pull_wf(org, repos[repo_idx], pull, states);
                            }
                        },
                    }
                },
                _ => {},
            },
        }
    }
}

/// The whole machine run on a sequence of fetch outcomes, from the start
/// state.
pub open spec fn spec_run(organization: Seq<char>, events: Seq<FetchEventV>) -> PipelineStateV
    decreases events.len(),
{
    if events.len() == 0 {
        spec_start(organization)
    } else {
        spec_step(spec_run(organization, events.drop_last()), events.last())
    }
}

/// The aggregate a state carries, where it carries one, is a fold of
/// pull-request merges over the empty aggregate.
pub open spec fn spec_org_is_fold(s: PipelineStateV) -> bool {
    match s {
        PipelineStateV::FetchingPullRequests { org, .. } => exists|ps: Seq<ProcessedPullV>|
            org == #[trigger] spec_merge_all(spec_empty_org(), ps),
        PipelineStateV::FetchingReviews { org, .. } => exists|ps: Seq<ProcessedPullV>|
            org == #[trigger] spec_merge_all(spec_empty_org(), ps),
        PipelineStateV::Done { org } => exists|ps: Seq<ProcessedPullV>|
            org == #[trigger] spec_merge_all(spec_empty_org(), ps),
        _ => true,
    }
}

/// One step keeps the aggregate a fold of pull-request merges: the only
/// transition that touches it merges exactly one more processed pull
/// request.
pub proof fn lemma_step_org_is_fold(s: PipelineStateV, ev: FetchEventV)
    requires
        spec_org_is_fold(s),
    ensures
        spec_org_is_fold(spec_step(s, ev)),
{
    if !(s is Done || s is Failed) {
        match ev {
            FetchEventV::TransportFailure => {},
            FetchEventV::Response(body) => match s {
                PipelineStateV::FetchingRepositories { .. } => {
                    let empty_trace = Seq::<ProcessedPullV>::empty();
                    assert(spec_merge_all(spec_empty_org(), empty_trace) == spec_empty_org());
                },
                PipelineStateV::FetchingPullRequests { org, .. } => {},
                PipelineStateV::FetchingReviews {
                    organization,
                    org,
                    repos,
                    repo_idx,
                    pulls,
                    pull_idx,
                    page,
                    events,
                } => {
                    match spec_parse_reviews(body) {
                        None => {},
                        Some(new_events) => {
                            if !(new_events.len() > 0 && page < u64::MAX) {
                                let all = events + new_events;
                                let pull = pulls[pull_idx];
                                let states = spec_reduce(pull.author, all);
                                let ps = choose|ps: Seq<ProcessedPullV>|
                                    org == #[trigger] spec_merge_all(spec_empty_org(), ps);
                                let p = ProcessedPullV {
                                    repo_name: repos[repo_idx],
                                    pull,
                                    states,
                                };
                                assert(ps.push(p).drop_last() =~= ps);
                                assert(ps.push(p).last() == p);
                                assert(spec_merge_pull(org, repos[repo_idx], pull, states)
                                    == spec_merge_all(spec_empty_org(), ps.push(p)));
                            }
                        },
                    }
                },
                _ => {},
            },
        }
    }
}

/// Every state a run can reach carries a fold of pull-request merges.
pub proof fn lemma_run_org_is_fold(organization: Seq<char>, events: Seq<FetchEventV>)
    ensures
        spec_org_is_fold(spec_run(organization, events)),
    decreases events.len(),
{
    if events.len() > 0 {
        lemma_run_org_is_fold(organization, events.drop_last());
        lemma_step_org_is_fold(spec_run(organization, events.drop_last()), events.last());
    }
}

/// The repository set of any aggregate a run finishes with is exactly the
/// set of repository names referenced by the pull requests the run
/// processed: a repository with no open pull requests never appears.
pub proof fn lemma_run_repositories_exactly_referenced(
    organization: Seq<char>,
    events: Seq<FetchEventV>,
)
    requires
        spec_run(organization, events) is Done,
    ensures
        exists|ps: Seq<ProcessedPullV>|
            {
                let org = spec_run(organization, events)->Done_org;
                &&& org == #[trigger] spec_merge_all(spec_empty_org(), ps)
                &&& org.repositories.to_set() =~= spec_referenced_repos(ps)
            },
{
    lemma_run_org_is_fold(organization, events);
    let org = spec_run(organization, events)->Done_org;
    let ps = choose|ps: Seq<ProcessedPullV>|
        org == #[trigger] spec_merge_all(spec_empty_org(), ps);
    lemma_repositories_exactly_referenced(ps);
}

/// Concatenates two vectors.
fn vec_append<T: DeepView>(a: Vec<T>, b: Vec<T>) -> (r: Vec<T>)
    ensures
        r@ == a@ + b@,
        r.deep_view() == a.deep_view() + b.deep_view(),
{
    let ghost av = a@;
    let ghost adv = a.deep_view();
    let ghost bdv = b.deep_view();
    let mut a2 = a;
    let mut b2 = b;
    a2.append(&mut b2);
    proof {
        assert(a2.deep_view() =~= adv + bdv);
    }
    a2
}

/// The URL a non-terminal state is waiting on.
fn pending_of_state(s: &PipelineState) -> (r: Option<String>)
    requires
        state_wf(s@),
    ensures
        r.deep_view() == spec_pending_url(s@),
{
    match s {
        PipelineState::FetchingRepositories { organization, page, .. } => Some(
            repositories_url(organization.as_str(), *page),
        ),
        PipelineState::FetchingPullRequests { organization, repos, repo_idx, page, .. } => {
            proof {
                assert(repos.deep_view()[*repo_idx as int] == repos@[*repo_idx as int]@);
            }
            Some(pulls_url(organization.as_str(), repos[*repo_idx].as_str(), *page))
        },
        PipelineState::FetchingReviews {
            organization,
            repos,
            repo_idx,
            pulls,
            pull_idx,
            page,
            ..
        } => {
            proof {
                assert(repos.deep_view()[*repo_idx as int] == repos@[*repo_idx as int]@);
                assert(pulls.deep_view()[*pull_idx as int] == pulls@[*pull_idx as int].deep_view());
            }
            Some(
                reviews_url(
                    organization.as_str(),
                    repos[*repo_idx].as_str(),
                    pulls[*pull_idx].number.as_str(),
                    *page,
                ),
            )
        },
        PipelineState::Done { .. } => None,
        PipelineState::Failed { .. } => None,
    }
}

/// Advances past the last pull request of the current repository.
fn next_repo(
    organization: String,
    org: Organization,
    repos: Vec<String>,
    repo_idx: usize,
) -> (r: PipelineState)
    requires
        repo_idx < repos@.len(),
    ensures
        r@ == spec_next_repo(organization@, org@, repos.deep_view(), repo_idx as int),
{
    let n = repos.len();
    if repo_idx + 1 < n {
        PipelineState::FetchingPullRequests {
            organization,
            org,
            repos,
            repo_idx: repo_idx + 1,
            page: 1,
            pulls: Vec::new(),
        }
    } else {
        PipelineState::Done { org }
    }
}

/// Advances past the current pull request once its reviews are merged.
fn next_pull(
    organization: String,
    org: Organization,
    repos: Vec<String>,
    repo_idx: usize,
    pulls: Vec<PullData>,
    pull_idx: usize,
) -> (r: PipelineState)
    requires
        repo_idx < repos@.len(),
        pull_idx < pulls@.len(),
    ensures
        r@ == spec_next_pull(
            organization@,
            org@,
            repos.deep_view(),
            repo_idx as int,
            pulls.deep_view(),
            pull_idx as int,
        ),
{
    let n = pulls.len();
    if pull_idx + 1 < n {
        PipelineState::FetchingReviews {
            organization,
            org,
            repos,
            repo_idx,
            pulls,
            pull_idx: pull_idx + 1,
            page: 1,
            events: Vec::new(),
        }
    } else {
        next_repo(organization, org, repos, repo_idx)
    }
}

/// Handles one repository-list page.
fn step_repositories(
    organization: String,
    page: u64,
    repos: Vec<String>,
    body: String,
) -> (r: PipelineState)
    ensures
        r@ == spec_step_repositories(organization@, page, repos.deep_view(), body@),
{
    let ghost ov = organization@;
    let ghost rdv = repos.deep_view();
    match parse_repositories(body.as_str()) {
        None => {
            let url = repositories_url(organization.as_str(), page);
            PipelineState::Failed { error: FetchError::Parse { url } }
        },
        Some(names) => {
            let ghost ndv = names.deep_view();
            if names.len() > 0 && page < u64::MAX {
                let all = vec_append(repos, names);
                PipelineState::FetchingRepositories {
                    organization,
                    page: page + 1,
                    repos: all,
                }
            } else {
                let all = vec_append(repos, names);
                if all.len() == 0 {
                    proof {
                        assert((rdv + ndv).len() == 0);
                    }
                    PipelineState::Done { org: empty_organization() }
                } else {
                    PipelineState::FetchingPullRequests {
                        organization,
                        org: empty_organization(),
                        repos: all,
                        repo_idx: 0,
                        page: 1,
                        pulls: Vec::new(),
                    }
                }
            }
        },
    }
}

/// Handles one pull-request-list page for the current repository.
fn step_pulls(
    organization: String,
    org: Organization,
    repos: Vec<String>,
    repo_idx: usize,
    page: u64,
    pulls: Vec<PullData>,
    body: String,
) -> (r: PipelineState)
    requires
        repo_idx < repos@.len(),
    ensures
        r@ == spec_step_pulls(
            organization@,
            org@,
            repos.deep_view(),
            repo_idx as int,
            page,
            pulls.deep_view(),
            body@,
        ),
{
    let ghost pdv = pulls.deep_view();
    proof {
        assert(repos.deep_view()[repo_idx as int] == repos@[repo_idx as int]@);
    }
    match parse_pulls(body.as_str()) {
        None => {
            let url = pulls_url(organization.as_str(), repos[repo_idx].as_str(), page);
            PipelineState::Failed { error: FetchError::Parse { url } }
        },
        Some(new_pulls) => {
            let ghost ndv = new_pulls.deep_view();
            if new_pulls.len() > 0 && page < u64::MAX {
                let all = vec_append(pulls, new_pulls);
                PipelineState::FetchingPullRequests {
                    organization,
                    org,
                    repos,
                    repo_idx,
                    page: page + 1,
                    pulls: all,
                }
            } else {
                let all = vec_append(pulls, new_pulls);
                if all.len() == 0 {
                    proof {
                        assert((pdv + ndv).len() == 0);
                    }
                    next_repo(organization, org, repos, repo_idx)
                } else {
                    PipelineState::FetchingReviews {
                        organization,
                        org,
                        repos,
                        repo_idx,
                        pulls: all,
                        pull_idx: 0,
                        page: 1,
                        events: Vec::new(),
                    }
                }
            }
        },
    }
}

/// Handles one review-list page for the current pull request; when the
/// listing closes, reduces the events and merges the pull request into the
/// aggregate.
fn step_reviews(
    organization: String,
    org: Organization,
    repos: Vec<String>,
    repo_idx: usize,
    pulls: Vec<PullData>,
    pull_idx: usize,
    page: u64,
    events: Vec<ReviewEvent>,
    body: String,
) -> (r: PipelineState)
    requires
        repo_idx < repos@.len(),
        pull_idx < pulls@.len(),
    ensures
        r@ == spec_step_reviews(
            organization@,
            org@,
            repos.deep_view(),
            repo_idx as int,
            pulls.deep_view(),
            pull_idx as int,
            page,
            events.deep_view(),
            body@,
        ),
{
    let ghost edv = events.deep_view();
    proof {
        assert(repos.deep_view()[repo_idx as int] == repos@[repo_idx as int]@);
        assert(pulls.deep_view()[pull_idx as int] == pulls@[pull_idx as int].deep_view());
    }
    match parse_reviews(body.as_str()) {
        None => {
            let url = reviews_url(
                organization.as_str(),
                repos[repo_idx].as_str(),
                pulls[pull_idx].number.as_str(),
                page,
            );
            PipelineState::Failed { error: FetchError::Parse { url } }
        },
        Some(new_events) => {
            if new_events.len() > 0 && page < u64::MAX {
                let all = vec_append(events, new_events);
                PipelineState::FetchingReviews {
                    organization,
                    org,
                    repos,
                    repo_idx,
                    pulls,
                    pull_idx,
                    page: page + 1,
                    events: all,
                }
            } else {
                let all = vec_append(events, new_events);
                let states = latest_states(&pulls[pull_idx].author, &all);
                let mut merged = org;
                merge_pull_request(&mut merged, &repos[repo_idx], &pulls[pull_idx], &states);
                next_pull(organization, merged, repos, repo_idx, pulls, pull_idx)
            }
        },
    }
}

/// One transition of the machine.
fn step_state(s: PipelineState, ev: FetchEvent) -> (r: PipelineState)
    requires
        state_wf(s@),
    ensures
        r@ == spec_step(s@, ev@),
{
    match ev {
        FetchEvent::TransportFailure => match pending_of_state(&s) {
            Some(url) => PipelineState::Failed { error: FetchError::Transport { url } },
            None => s,
        },
        FetchEvent::Response(body) => match s {
            PipelineState::FetchingRepositories { organization, page, repos } => {
                step_repositories(organization, page, repos, body)
            },
            PipelineState::FetchingPullRequests {
                organization,
                org,
                repos,
                repo_idx,
                page,
                pulls,
            } => step_pulls(organization, org, repos, repo_idx, page, pulls, body),
            PipelineState::FetchingReviews {
                organization,
                org,
                repos,
                repo_idx,
                pulls,
                pull_idx,
                page,
                events,
            } => step_reviews(
                organization,
                org,
                repos,
                repo_idx,
                pulls,
                pull_idx,
                page,
                events,
                body,
            ),
            other => other,
        },
    }
}

/// One aggregation run, from the first repository-list request to the
/// complete aggregate or the first error.  The driver owns the transport:
/// it fetches the URL `pending_request` names, with the headers the
/// `client` module builds, and hands the outcome to `step`.
pub struct Pipeline {
    state: PipelineState,
}

impl View for Pipeline {
    type V = PipelineStateV;

    closed spec fn view(&self) -> PipelineStateV {
        self.state@
    }
}

impl Pipeline {
    /// Every pipeline value any caller can hold is in a well-formed state.
    #[verifier::type_invariant]
    spec fn inv(self) -> bool {
        state_wf(self.state@)
    }

    /// Starts one aggregation run for `organization`.
    pub fn new(organization: &str) -> (p: Pipeline)
        ensures
            p@ == spec_start(organization@),
    {
        let p = Pipeline {
            state: PipelineState::FetchingRepositories {
                organization: String::from_str(organization),
                page: 1,
                repos: Vec::new(),
            },
        };
        proof {
            assert(p@ =~= spec_start(organization@));
        }
        p
    }

    /// The URL the driver must fetch next, or `None` once the run is over.
    pub fn pending_request(&self) -> (r: Option<String>)
        ensures
            r.deep_view() == spec_pending_url(self@),
    {
        proof {
            use_type_invariant(&*self);
        }
        pending_of_state(&self.state)
    }

    /// Advances the run with the outcome of the fetch it last asked for.
    /// In a terminal state the machine stays put.
    pub fn step(self, ev: FetchEvent) -> (p: Pipeline)
        ensures
            p@ == spec_step(self@, ev@),
    {
        proof {
            use_type_invariant(&self);
        }
        let Pipeline { state } = self;
        let next = step_state(state, ev);
        proof {
            lemma_step_wf(state@, ev@);
        }
        Pipeline { state: next }
    }

    /// The run's result: the complete aggregate, the error that aborted
    /// it, or `None` while requests are still pending.
    pub fn outcome(self) -> (r: Option<Result<Organization, FetchError>>)
        ensures
            match self@ {
                PipelineStateV::Done { org } => r matches Some(Ok(o)) && o@ == org,
                PipelineStateV::Failed { error } => r matches Some(Err(e)) && e@ == error,
                _ => r is None,
            },
    {
        match self.state {
            PipelineState::Done { org } => Some(Ok(org)),
            PipelineState::Failed { error } => Some(Err(error)),
            _ => None,
        }
    }
}

} // verus!
