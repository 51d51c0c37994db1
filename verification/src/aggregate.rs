//! The organization aggregate and the assignment builder: repositories and
//! people are deduplicated by name, and each person carries the ordered
//! sequence of assignments folded in so far.

use crate::payload::PullData;
use crate::payload::PullDataV;
use crate::strutil::str_eq;
use crate::urls::browser_url;
use crate::urls::spec_browser_url;
use vstd::prelude::*;

verus! {

/// A repository, identified by its name.
pub struct Repository {
    pub name: String,
}

impl View for Repository {
    type V = Seq<char>;

    open spec fn view(&self) -> Seq<char> {
        self.name@
    }
}

impl DeepView for Repository {
    type V = Seq<char>;

    open spec fn deep_view(&self) -> Seq<char> {
        self.view()
    }
}

/// One review assignment: a pull request a person is responsible for,
/// with the person's current state on it.  The same pull request appears
/// once per person who touched it or is requested on it.
pub struct PullRequest {
    pub id: String,
    pub url: String,
    pub repo_name: String,
    pub state: String,
}

/// Ghost mirror of `PullRequest`.
#[verifier::ext_equal]
pub struct PullRequestV {
    pub id: Seq<char>,
    pub url: Seq<char>,
    pub repo_name: Seq<char>,
    pub state: Seq<char>,
}

impl View for PullRequest {
    type V = PullRequestV;

    open spec fn view(&self) -> PullRequestV {
        PullRequestV {
            id: self.id@,
            url: self.url@,
            repo_name: self.repo_name@,
            state: self.state@,
        }
    }
}

impl DeepView for PullRequest {
    type V = PullRequestV;

    open spec fn deep_view(&self) -> PullRequestV {
        self.view()
    }
}

/// A person, identified by the platform account name, with the
/// assignments recorded for them so far, in insertion order.
pub struct Reviewer {
    pub name: String,
    pub assigned_pull_requests: Vec<PullRequest>,
}

/// Ghost mirror of the per-person record.
#[verifier::ext_equal]
pub struct ReviewerV {
    pub name: Seq<char>,
    pub assigned_pull_requests: Seq<PullRequestV>,
}

impl View for Reviewer {
    type V = ReviewerV;

    open spec fn view(&self) -> ReviewerV {
        ReviewerV {
            name: self.name@,
            assigned_pull_requests: self.assigned_pull_requests.deep_view(),
        }
    }
}

impl DeepView for Reviewer {
    type V = ReviewerV;

    open spec fn deep_view(&self) -> ReviewerV {
        self.view()
    }
}

/// The final output of one aggregation run: every person with at least
/// one assignment, and every repository referenced by at least one
/// processed pull request, each set in insertion order.
pub struct Organization {
    pub reviewers: Vec<Reviewer>,
    pub repositories: Vec<Repository>,
}

/// Ghost mirror of `Organization`.
#[verifier::ext_equal]
pub struct OrganizationV {
    pub reviewers: Seq<ReviewerV>,
    pub repositories: Seq<Seq<char>>,
}

impl View for Organization {
    type V = OrganizationV;

    open spec fn view(&self) -> OrganizationV {
        OrganizationV {
            reviewers: self.reviewers.deep_view(),
            repositories: self.repositories.deep_view(),
        }
    }
}

/// The empty aggregate every run starts from.
pub open spec fn spec_empty_org() -> OrganizationV {
    OrganizationV { reviewers: Seq::empty(), repositories: Seq::empty() }
}

/// Creates the empty aggregate.
pub fn empty_organization() -> (r: Organization)
    ensures
        r@ == spec_empty_org(),
{
    let r = Organization { reviewers: Vec::new(), repositories: Vec::new() };
    proof {
        assert(r@.reviewers =~= Seq::<ReviewerV>::empty());
        assert(r@.repositories =~= Seq::<Seq<char>>::empty());
        assert(r@ =~= spec_empty_org());
    }
    r
}

/// Well-formedness of the aggregate: repository names unique, person
/// names unique, and every assignment's repository recorded.
pub open spec fn org_wf(org: OrganizationV) -> bool {
    &&& forall|i: int, j: int|
        0 <= i < j < org.repositories.len() ==> org.repositories[i] != org.repositories[j]
    &&& forall|i: int, j: int|
        0 <= i < j < org.reviewers.len() ==> org.reviewers[i].name != org.reviewers[j].name
    &&& forall|i: int, k: int|
        0 <= i < org.reviewers.len() && 0 <= k < org.reviewers[i].assigned_pull_requests.len()
            ==> org.repositories.contains(
            #[trigger] org.reviewers[i].assigned_pull_requests[k].repo_name,
        )
}

/// The position of the person named `name`, or `-1` when there is none.
pub open spec fn spec_reviewer_index(rs: Seq<ReviewerV>, name: Seq<char>) -> int
    decreases rs.len(),
{
    if rs.len() == 0 {
        -1
    } else if rs[0].name == name {
        0
    } else {
        let k = spec_reviewer_index(rs.drop_first(), name);
        if k < 0 {
            -1
        } else {
            k + 1
        }
    }
}

/// What `spec_reviewer_index` finds: a position in range holding `name`,
/// with no earlier occurrence, or `-1` when `name` occurs nowhere.
pub proof fn lemma_reviewer_index_props(rs: Seq<ReviewerV>, name: Seq<char>)
    ensures
        -1 <= spec_reviewer_index(rs, name) < rs.len(),
        spec_reviewer_index(rs, name) >= 0 ==> rs[spec_reviewer_index(rs, name)].name == name,
        spec_reviewer_index(rs, name) >= 0 ==> forall|j: int|
            0 <= j < spec_reviewer_index(rs, name) ==> rs[j].name != name,
        spec_reviewer_index(rs, name) == -1 ==> forall|j: int|
            0 <= j < rs.len() ==> rs[j].name != name,
    decreases rs.len(),
{
    if rs.len() > 0 && rs[0].name != name {
        lemma_reviewer_index_props(rs.drop_first(), name);
        assert(forall|j: int|
            0 <= j < rs.drop_first().len() ==> (#[trigger] rs.drop_first()[j]) == rs[j + 1]);
        let k = spec_reviewer_index(rs, name);
        if k >= 0 {
            assert(rs[k].name == rs.drop_first()[k - 1].name);
            assert forall|j: int| 0 <= j < k implies rs[j].name != name by {
                if j > 0 {
                    assert(rs[j] == rs.drop_first()[j - 1]);
                }
            }
        } else {
            assert forall|j: int| 0 <= j < rs.len() implies rs[j].name != name by {
                if j > 0 {
                    assert(rs[j] == rs.drop_first()[j - 1]);
                }
            }
        }
    }
}

/// Appending a person leaves earlier names where they were; a fresh name
/// lands at the end.
pub proof fn lemma_reviewer_index_push(rs: Seq<ReviewerV>, x: ReviewerV, name: Seq<char>)
    ensures
        spec_reviewer_index(rs.push(x), name) == (if spec_reviewer_index(rs, name) >= 0 {
            spec_reviewer_index(rs, name)
        } else if x.name == name {
            rs.len() as int
        } else {
            -1
        }),
    decreases rs.len(),
{
    if rs.len() == 0 {
        assert(rs.push(x)[0] == x);
        assert(rs.push(x).drop_first() =~= Seq::<ReviewerV>::empty());
        if x.name == name {
            assert(spec_reviewer_index(rs.push(x), name) == 0);
        } else {
            assert(spec_reviewer_index(Seq::<ReviewerV>::empty(), name) == -1);
            assert(spec_reviewer_index(rs.push(x), name) == -1);
        }
    } else {
        assert(rs.push(x)[0] == rs[0]);
        assert(rs.push(x).drop_first() =~= rs.drop_first().push(x));
        lemma_reviewer_index_push(rs.drop_first(), x, name);
        if rs[0].name == name {
            assert(spec_reviewer_index(rs.push(x), name) == 0);
            assert(spec_reviewer_index(rs, name) == 0);
        } else {
            let kp = spec_reviewer_index(rs.drop_first().push(x), name);
            assert(spec_reviewer_index(rs.push(x), name) == (if kp < 0 {
                -1
            } else {
                kp + 1
            }));
            let k = spec_reviewer_index(rs.drop_first(), name);
            assert(spec_reviewer_index(rs, name) == (if k < 0 {
                -1
            } else {
                k + 1
            }));
        }
    }
}

/// Updating a position without renaming it leaves every lookup where it
/// was.
pub proof fn lemma_reviewer_index_update(rs: Seq<ReviewerV>, k: int, y: ReviewerV, name: Seq<char>)
    requires
        0 <= k < rs.len(),
        y.name == rs[k].name,
    ensures
        spec_reviewer_index(rs.update(k, y), name) == spec_reviewer_index(rs, name),
    decreases rs.len(),
{
    if k == 0 {
        assert(rs.update(0, y)[0] == y);
        assert(rs.update(0, y).drop_first() =~= rs.drop_first());
    } else {
        assert(rs.update(k, y)[0] == rs[0]);
        assert(rs.update(k, y).drop_first() =~= rs.drop_first().update(k - 1, y));
        lemma_reviewer_index_update(rs.drop_first(), k - 1, y, name);
    }
}

/// The assignments recorded for `name`, or the empty sequence when the
/// person does not exist yet.
pub open spec fn spec_assignments_of(org: OrganizationV, name: Seq<char>) -> Seq<PullRequestV> {
    let k = spec_reviewer_index(org.reviewers, name);
    if k < 0 {
        Seq::empty()
    } else {
        org.reviewers[k].assigned_pull_requests
    }
}

/// Records `name` as a repository, once: an already-recorded name leaves
/// the aggregate unchanged.
pub open spec fn spec_add_repo(org: OrganizationV, name: Seq<char>) -> OrganizationV {
    if org.repositories.contains(name) {
        org
    } else {
        OrganizationV { repositories: org.repositories.push(name), ..org }
    }
}

/// Appends one assignment under `name`, creating the person first when
/// this is their first assignment.
pub open spec fn spec_add_assignment(
    org: OrganizationV,
    name: Seq<char>,
    pr: PullRequestV,
) -> OrganizationV {
    let k = spec_reviewer_index(org.reviewers, name);
    if k < 0 {
        OrganizationV {
            reviewers: org.reviewers.push(
                ReviewerV { name: name, assigned_pull_requests: seq![pr] },
            ),
            ..org
        }
    } else {
        OrganizationV {
            reviewers: org.reviewers.update(
                k,
                ReviewerV {
                    name: org.reviewers[k].name,
                    assigned_pull_requests: org.reviewers[k].assigned_pull_requests.push(pr),
                },
            ),
            ..org
        }
    }
}

/// What one `spec_add_assignment` does to each person's assignments:
/// the named person gains exactly the one entry, every other person
/// keeps theirs; repositories are untouched.
pub proof fn lemma_add_assignment_effect(
    org: OrganizationV,
    name: Seq<char>,
    pr: PullRequestV,
    r: Seq<char>,
)
    ensures
        spec_add_assignment(org, name, pr).repositories == org.repositories,
        r == name ==> spec_assignments_of(spec_add_assignment(org, name, pr), r)
            == spec_assignments_of(org, r).push(pr),
        r != name ==> spec_assignments_of(spec_add_assignment(org, name, pr), r)
            == spec_assignments_of(org, r),
{
    let k = spec_reviewer_index(org.reviewers, name);
    lemma_reviewer_index_props(org.reviewers, name);
    lemma_reviewer_index_props(org.reviewers, r);
    if k < 0 {
        let x = ReviewerV { name: name, assigned_pull_requests: seq![pr] };
        lemma_reviewer_index_push(org.reviewers, x, r);
        if r == name {
            assert(org.reviewers.push(x)[org.reviewers.len() as int] == x);
            assert(Seq::<PullRequestV>::empty().push(pr) =~= seq![pr]);
        } else {
            let j = spec_reviewer_index(org.reviewers, r);
            if j >= 0 {
                assert(org.reviewers.push(x)[j] == org.reviewers[j]);
            }
        }
    } else {
        let y = ReviewerV {
            name: org.reviewers[k].name,
            assigned_pull_requests: org.reviewers[k].assigned_pull_requests.push(pr),
        };
        lemma_reviewer_index_update(org.reviewers, k, y, r);
        if r == name {
            assert(org.reviewers.update(k, y)[k] == y);
        } else {
            let j = spec_reviewer_index(org.reviewers, r);
            if j >= 0 {
                assert(org.reviewers[j].name == r);
                assert(j != k);
                assert(org.reviewers.update(k, y)[j] == org.reviewers[j]);
            }
        }
    }
}

/// Recording a repository preserves well-formedness.
pub proof fn lemma_add_repo_wf(org: OrganizationV, name: Seq<char>)
    requires
        org_wf(org),
    ensures
        org_wf(spec_add_repo(org, name)),
        spec_add_repo(org, name).repositories.contains(name),
        forall|x: Seq<char>|
            org.repositories.contains(x) ==> spec_add_repo(org, name).repositories.contains(x),
{
    if !org.repositories.contains(name) {
        let rep = org.repositories.push(name);
        assert(rep[org.repositories.len() as int] == name);
        assert(forall|i: int| 0 <= i < org.repositories.len() ==> rep[i] == org.repositories[i]);
        assert forall|x: Seq<char>| org.repositories.contains(x) implies rep.contains(x) by {
            let i = choose|i: int| 0 <= i < org.repositories.len() && org.repositories[i] == x;
            assert(rep[i] == x);
        }
    }
}

/// Appending an assignment whose repository is recorded preserves
/// well-formedness.
pub proof fn lemma_add_assignment_wf(org: OrganizationV, name: Seq<char>, pr: PullRequestV)
    requires
        org_wf(org),
        org.repositories.contains(pr.repo_name),
    ensures
        org_wf(spec_add_assignment(org, name, pr)),
{
    let k = spec_reviewer_index(org.reviewers, name);
    lemma_reviewer_index_props(org.reviewers, name);
    let res = spec_add_assignment(org, name, pr);
    if k < 0 {
        let x = ReviewerV { name: name, assigned_pull_requests: seq![pr] };
        let rs = org.reviewers.push(x);
        assert(rs[org.reviewers.len() as int] == x);
        assert(forall|i: int| 0 <= i < org.reviewers.len() ==> rs[i] == org.reviewers[i]);
        assert(seq![pr][0] == pr);
    } else {
        let y = ReviewerV {
            name: org.reviewers[k].name,
            assigned_pull_requests: org.reviewers[k].assigned_pull_requests.push(pr),
        };
        let rs = org.reviewers.update(k, y);
        assert(forall|i: int| 0 <= i < rs.len() && i != k ==> rs[i] == org.reviewers[i]);
        assert(rs[k] == y);
        assert forall|i: int, kk: int|
            0 <= i < res.reviewers.len() && 0 <= kk < res.reviewers[i].assigned_pull_requests.len()
            implies res.repositories.contains(
            #[trigger] res.reviewers[i].assigned_pull_requests[kk].repo_name,
        ) by {
            if i == k {
                if kk < org.reviewers[k].assigned_pull_requests.len() {
                    assert(y.assigned_pull_requests[kk]
                        == org.reviewers[k].assigned_pull_requests[kk]);
                } else {
                    assert(y.assigned_pull_requests[kk] == pr);
                }
            }
        }
    }
}

/// Finds a person by name.
fn find_reviewer(reviewers: &Vec<Reviewer>, name: &String) -> (r: Option<usize>)
    ensures
        match r {
            Some(k) => spec_reviewer_index(reviewers.deep_view(), name@) == k as int,
            None => spec_reviewer_index(reviewers.deep_view(), name@) == -1,
        },
{
    let ghost dv = reviewers.deep_view();
    let mut i: usize = 0;
    while i < reviewers.len()
        invariant
            dv == reviewers.deep_view(),
            dv.len() == reviewers@.len(),
            i <= reviewers@.len(),
            forall|j: int| 0 <= j < i ==> dv[j].name != name@,
        decreases reviewers@.len() - i,
    {
        if str_eq(reviewers[i].name.as_str(), name.as_str()) {
            proof {
                assert(dv[i as int].name == name@);
                lemma_reviewer_index_first(dv, name@, i as int);
            }
            return Some(i);
        }
        i = i + 1;
    }
    proof {
        lemma_reviewer_index_absent(dv, name@);
    }
    None
}

/// The first occurrence of `name` is what the index finds.
proof fn lemma_reviewer_index_first(rs: Seq<ReviewerV>, name: Seq<char>, i: int)
    requires
        0 <= i < rs.len(),
        rs[i].name == name,
        forall|j: int| 0 <= j < i ==> rs[j].name != name,
    ensures
        spec_reviewer_index(rs, name) == i,
    decreases i,
{
    if i > 0 {
        assert(forall|j: int|
            0 <= j < rs.drop_first().len() ==> (#[trigger] rs.drop_first()[j]) == rs[j + 1]);
        lemma_reviewer_index_first(rs.drop_first(), name, i - 1);
    }
}

/// A name that occurs nowhere has index `-1`.
proof fn lemma_reviewer_index_absent(rs: Seq<ReviewerV>, name: Seq<char>)
    requires
        forall|j: int| 0 <= j < rs.len() ==> rs[j].name != name,
    ensures
        spec_reviewer_index(rs, name) == -1,
    decreases rs.len(),
{
    if rs.len() > 0 {
        assert(forall|j: int|
            0 <= j < rs.drop_first().len() ==> (#[trigger] rs.drop_first()[j]) == rs[j + 1]);
        lemma_reviewer_index_absent(rs.drop_first(), name);
    }
}

/// Records the repository named `name` in the aggregate, once.
pub fn ensure_repository(org: &mut Organization, name: &String)
    ensures
        final(org)@ == spec_add_repo(old(org)@, name@),
{
    let ghost dv = old(org)@.repositories;
    let mut i: usize = 0;
    while i < org.repositories.len()
        invariant
            org@ == old(org)@,
            dv == old(org)@.repositories,
            dv.len() == org.repositories@.len(),
            i <= org.repositories@.len(),
            forall|j: int| 0 <= j < i ==> dv[j] != name@,
        decreases org.repositories@.len() - i,
    {
        if str_eq(org.repositories[i].name.as_str(), name.as_str()) {
            proof {
                assert(dv[i as int] == name@);
                assert(dv.contains(name@));
            }
            return;
        }
        i = i + 1;
    }
    proof {
        assert(!dv.contains(name@));
    }
    let ghost prev = org@;
    org.repositories.push(Repository { name: name.clone() });
    proof {
        assert(org@.repositories =~= prev.repositories.push(name@));
        assert(org@ =~= spec_add_repo(prev, name@));
    }
}

/// Appends one assignment under `reviewer_name`, creating the person
/// first when this is their first assignment.
pub fn add_assignment(org: &mut Organization, reviewer_name: &String, pr: PullRequest)
    ensures
        final(org)@ == spec_add_assignment(old(org)@, reviewer_name@, pr@),
{
    let ghost prev = org@;
    let ghost prv = pr@;
    match find_reviewer(&org.reviewers, reviewer_name) {
        Some(k) => {
            proof {
                lemma_reviewer_index_props(prev.reviewers, reviewer_name@);
            }
            org.reviewers[k].assigned_pull_requests.push(pr);
            proof {
                let y = ReviewerV {
                    name: prev.reviewers[k as int].name,
                    assigned_pull_requests: prev.reviewers[
                        k as int
                    ].assigned_pull_requests.push(prv),
                };
                assert(org@.reviewers[k as int] =~= y);
                assert(org@.reviewers =~= prev.reviewers.update(k as int, y));
                assert(org@ =~= spec_add_assignment(prev, reviewer_name@, prv));
            }
        },
        None => {
            let mut assigned: Vec<PullRequest> = Vec::new();
            assigned.push(pr);
            org.reviewers.push(
                Reviewer { name: reviewer_name.clone(), assigned_pull_requests: assigned },
            );
            proof {
                let x = ReviewerV { name: reviewer_name@, assigned_pull_requests: seq![prv] };
                assert(org@.reviewers.last() =~= x);
                assert(org@.reviewers =~= prev.reviewers.push(x));
                assert(org@ =~= spec_add_assignment(prev, reviewer_name@, prv));
            }
        },
    }
}

/// Folds one pull request's reduced review states into the aggregate: one
/// assignment per (person, current state) pair, in order.
pub open spec fn spec_merge_states(
    org: OrganizationV,
    id: Seq<char>,
    url: Seq<char>,
    repo: Seq<char>,
    states: Seq<(Seq<char>, Seq<char>)>,
) -> OrganizationV
    decreases states.len(),
{
    if states.len() == 0 {
        org
    } else {
        let prev = spec_merge_states(org, id, url, repo, states.drop_last());
        let s = states.last();
        spec_add_assignment(prev, s.0, PullRequestV { id, url, repo_name: repo, state: s.1 })
    }
}

/// Folds one pull request's still-requested people into the aggregate:
/// one requested-review assignment per name, in order, regardless of any
/// historical state the same person already has.
pub open spec fn spec_merge_requested(
    org: OrganizationV,
    id: Seq<char>,
    url: Seq<char>,
    repo: Seq<char>,
    names: Seq<Seq<char>>,
) -> OrganizationV
    decreases names.len(),
{
    if names.len() == 0 {
        org
    } else {
        spec_add_assignment(
            spec_merge_requested(org, id, url, repo, names.drop_last()),
            names.last(),
            PullRequestV { id, url, repo_name: repo, state: "REQUESTED_REVIEW"@ },
        )
    }
}

/// Everything one processed pull request contributes to the aggregate:
/// its repository is recorded, then one assignment per reduced review
/// state, then one requested-review assignment per still-requested
/// person, each under the browser form of the pull request's URL.
pub open spec fn spec_merge_pull(
    org: OrganizationV,
    repo: Seq<char>,
    pull: PullDataV,
    states: Seq<(Seq<char>, Seq<char>)>,
) -> OrganizationV {
    let url = spec_browser_url(pull.url);
    let with_repo = spec_add_repo(org, repo);
    let with_states = spec_merge_states(with_repo, pull.number, url, repo, states);
    spec_merge_requested(with_states, pull.number, url, repo, pull.requested_reviewers)
}

/// Folding review states never touches the repository list.
pub proof fn lemma_merge_states_repos(
    org: OrganizationV,
    id: Seq<char>,
    url: Seq<char>,
    repo: Seq<char>,
    states: Seq<(Seq<char>, Seq<char>)>,
)
    ensures
        spec_merge_states(org, id, url, repo, states).repositories == org.repositories,
    decreases states.len(),
{
    if states.len() > 0 {
        lemma_merge_states_repos(org, id, url, repo, states.drop_last());
        let prev = spec_merge_states(org, id, url, repo, states.drop_last());
        let s = states.last();
        lemma_add_assignment_effect(
            prev,
            s.0,
            PullRequestV { id, url, repo_name: repo, state: s.1 },
            s.0,
        );
    }
}

/// Folding requested people never touches the repository list.
pub proof fn lemma_merge_requested_repos(
    org: OrganizationV,
    id: Seq<char>,
    url: Seq<char>,
    repo: Seq<char>,
    names: Seq<Seq<char>>,
)
    ensures
        spec_merge_requested(org, id, url, repo, names).repositories == org.repositories,
    decreases names.len(),
{
    if names.len() > 0 {
        lemma_merge_requested_repos(org, id, url, repo, names.drop_last());
        let prev = spec_merge_requested(org, id, url, repo, names.drop_last());
        lemma_add_assignment_effect(
            prev,
            names.last(),
            PullRequestV { id, url, repo_name: repo, state: "REQUESTED_REVIEW"@ },
            names.last(),
        );
    }
}

/// Folding review states preserves well-formedness when the pull request's
/// repository is already recorded.
pub proof fn lemma_merge_states_wf(
    org: OrganizationV,
    id: Seq<char>,
    url: Seq<char>,
    repo: Seq<char>,
    states: Seq<(Seq<char>, Seq<char>)>,
)
    requires
        org_wf(org),
        org.repositories.contains(repo),
    ensures
        org_wf(spec_merge_states(org, id, url, repo, states)),
    decreases states.len(),
{
    if states.len() > 0 {
        lemma_merge_states_wf(org, id, url, repo, states.drop_last());
        lemma_merge_states_repos(org, id, url, repo, states.drop_last());
        let prev = spec_merge_states(org, id, url, repo, states.drop_last());
        let s = states.last();
        lemma_add_assignment_wf(prev, s.0, PullRequestV { id, url, repo_name: repo, state: s.1 });
    }
}

/// Folding requested people preserves well-formedness when the pull
/// request's repository is already recorded.
pub proof fn lemma_merge_requested_wf(
    org: OrganizationV,
    id: Seq<char>,
    url: Seq<char>,
    repo: Seq<char>,
    names: Seq<Seq<char>>,
)
    requires
        org_wf(org),
        org.repositories.contains(repo),
    ensures
        org_wf(spec_merge_requested(org, id, url, repo, names)),
    decreases names.len(),
{
    if names.len() > 0 {
        lemma_merge_requested_wf(org, id, url, repo, names.drop_last());
        lemma_merge_requested_repos(org, id, url, repo, names.drop_last());
        let prev = spec_merge_requested(org, id, url, repo, names.drop_last());
        lemma_add_assignment_wf(
            prev,
            names.last(),
            PullRequestV { id, url, repo_name: repo, state: "REQUESTED_REVIEW"@ },
        );
    }
}

/// Merging one pull request preserves well-formedness, and changes the
/// repository list exactly as recording its repository does.
pub proof fn lemma_merge_pull_wf(
    org: OrganizationV,
    repo: Seq<char>,
    pull: PullDataV,
    states: Seq<(Seq<char>, Seq<char>)>,
)
    requires
        org_wf(org),
    ensures
        org_wf(spec_merge_pull(org, repo, pull, states)),
        spec_merge_pull(org, repo, pull, states).repositories == spec_add_repo(
            org,
            repo,
        ).repositories,
{
    let url = spec_browser_url(pull.url);
    let with_repo = spec_add_repo(org, repo);
    lemma_add_repo_wf(org, repo);
    lemma_merge_states_wf(with_repo, pull.number, url, repo, states);
    lemma_merge_states_repos(with_repo, pull.number, url, repo, states);
    let with_states = spec_merge_states(with_repo, pull.number, url, repo, states);
    lemma_merge_requested_wf(with_states, pull.number, url, repo, pull.requested_reviewers);
    lemma_merge_requested_repos(with_states, pull.number, url, repo, pull.requested_reviewers);
}

/// An assignment already recorded survives the review-state fold.
pub proof fn lemma_merge_states_preserves(
    org: OrganizationV,
    id: Seq<char>,
    url: Seq<char>,
    repo: Seq<char>,
    states: Seq<(Seq<char>, Seq<char>)>,
    r: Seq<char>,
    pr: PullRequestV,
)
    requires
        spec_assignments_of(org, r).contains(pr),
    ensures
        spec_assignments_of(spec_merge_states(org, id, url, repo, states), r).contains(pr),
    decreases states.len(),
{
    if states.len() > 0 {
        lemma_merge_states_preserves(org, id, url, repo, states.drop_last(), r, pr);
        let prev = spec_merge_states(org, id, url, repo, states.drop_last());
        let s = states.last();
        lemma_add_assignment_effect(
            prev,
            s.0,
            PullRequestV { id, url, repo_name: repo, state: s.1 },
            r,
        );
        if s.0 == r {
            let a = spec_assignments_of(prev, r);
            let i = choose|i: int| 0 <= i < a.len() && a[i] == pr;
            assert(a.push(PullRequestV { id, url, repo_name: repo, state: s.1 })[i] == pr);
        }
    }
}

/// An assignment already recorded survives the requested-person fold.
pub proof fn lemma_merge_requested_preserves(
    org: OrganizationV,
    id: Seq<char>,
    url: Seq<char>,
    repo: Seq<char>,
    names: Seq<Seq<char>>,
    r: Seq<char>,
    pr: PullRequestV,
)
    requires
        spec_assignments_of(org, r).contains(pr),
    ensures
        spec_assignments_of(spec_merge_requested(org, id, url, repo, names), r).contains(pr),
    decreases names.len(),
{
    if names.len() > 0 {
        lemma_merge_requested_preserves(org, id, url, repo, names.drop_last(), r, pr);
        let prev = spec_merge_requested(org, id, url, repo, names.drop_last());
        lemma_add_assignment_effect(
            prev,
            names.last(),
            PullRequestV { id, url, repo_name: repo, state: "REQUESTED_REVIEW"@ },
            r,
        );
        if names.last() == r {
            let a = spec_assignments_of(prev, r);
            let i = choose|i: int| 0 <= i < a.len() && a[i] == pr;
            assert(a.push(
                PullRequestV { id, url, repo_name: repo, state: "REQUESTED_REVIEW"@ },
            )[i] == pr);
        }
    }
}

/// A fold of states none of which belong to `r` leaves `r`'s assignments
/// untouched.
pub proof fn lemma_merge_states_other(
    org: OrganizationV,
    id: Seq<char>,
    url: Seq<char>,
    repo: Seq<char>,
    states: Seq<(Seq<char>, Seq<char>)>,
    r: Seq<char>,
)
    requires
        forall|i: int| 0 <= i < states.len() ==> (#[trigger] states[i].0) != r,
    ensures
        spec_assignments_of(spec_merge_states(org, id, url, repo, states), r)
            == spec_assignments_of(org, r),
    decreases states.len(),
{
    if states.len() > 0 {
        lemma_merge_states_other(org, id, url, repo, states.drop_last(), r);
        let prev = spec_merge_states(org, id, url, repo, states.drop_last());
        let s = states.last();
        lemma_add_assignment_effect(
            prev,
            s.0,
            PullRequestV { id, url, repo_name: repo, state: s.1 },
            r,
        );
    }
}

/// Self-reviews are excluded from the output: folding the reduced review
/// states of a pull request never touches its own author's assignments.
/// Only a fresh request on the author could add one, and then with the
/// requested-review state, not with a review verdict.
pub proof fn lemma_author_gains_no_review_state(
    org: OrganizationV,
    repo: Seq<char>,
    pull: PullDataV,
    events: Seq<crate::payload::ReviewEventV>,
)
    ensures
        spec_assignments_of(
            spec_merge_states(
                spec_add_repo(org, repo),
                pull.number,
                spec_browser_url(pull.url),
                repo,
                crate::reducer::spec_reduce(pull.author, events),
            ),
            pull.author,
        ) == spec_assignments_of(spec_add_repo(org, repo), pull.author),
{
    let states = crate::reducer::spec_reduce(pull.author, events);
    crate::reducer::lemma_reduce_excludes_author(pull.author, events);
    lemma_merge_states_other(
        spec_add_repo(org, repo),
        pull.number,
        spec_browser_url(pull.url),
        repo,
        states,
        pull.author,
    );
}

/// A person recorded in the reduced states ends up holding the matching
/// assignment after the review-state fold.
pub proof fn lemma_merge_states_contains(
    org: OrganizationV,
    id: Seq<char>,
    url: Seq<char>,
    repo: Seq<char>,
    states: Seq<(Seq<char>, Seq<char>)>,
    r: Seq<char>,
    st: Seq<char>,
)
    requires
        states.contains((r, st)),
    ensures
        spec_assignments_of(spec_merge_states(org, id, url, repo, states), r).contains(
            PullRequestV { id, url, repo_name: repo, state: st },
        ),
    decreases states.len(),
{
    let i = choose|i: int| 0 <= i < states.len() && states[i] == (r, st);
    let prev = spec_merge_states(org, id, url, repo, states.drop_last());
    let s = states.last();
    let entry = PullRequestV { id, url, repo_name: repo, state: st };
    if i == states.len() - 1 {
        lemma_add_assignment_effect(
            prev,
            s.0,
            PullRequestV { id, url, repo_name: repo, state: s.1 },
            r,
        );
        let a = spec_assignments_of(prev, r);
        assert(a.push(entry)[a.len() as int] == entry);
    } else {
        assert(states.drop_last()[i] == states[i]);
        assert(states.drop_last().contains((r, st)));
        lemma_merge_states_contains(org, id, url, repo, states.drop_last(), r, st);
        lemma_add_assignment_effect(
            prev,
            s.0,
            PullRequestV { id, url, repo_name: repo, state: s.1 },
            r,
        );
        if s.0 == r {
            let a = spec_assignments_of(prev, r);
            let j = choose|j: int| 0 <= j < a.len() && a[j] == entry;
            assert(a.push(PullRequestV { id, url, repo_name: repo, state: s.1 })[j] == entry);
        }
    }
}

/// A still-requested person ends up holding a requested-review
/// assignment after the requested-person fold.
pub proof fn lemma_merge_requested_contains(
    org: OrganizationV,
    id: Seq<char>,
    url: Seq<char>,
    repo: Seq<char>,
    names: Seq<Seq<char>>,
    r: Seq<char>,
)
    requires
        names.contains(r),
    ensures
        spec_assignments_of(spec_merge_requested(org, id, url, repo, names), r).contains(
            PullRequestV { id, url, repo_name: repo, state: "REQUESTED_REVIEW"@ },
        ),
    decreases names.len(),
{
    let i = choose|i: int| 0 <= i < names.len() && names[i] == r;
    let prev = spec_merge_requested(org, id, url, repo, names.drop_last());
    let entry = PullRequestV { id, url, repo_name: repo, state: "REQUESTED_REVIEW"@ };
    if i == names.len() - 1 {
        lemma_add_assignment_effect(prev, names.last(), entry, r);
        let a = spec_assignments_of(prev, r);
        assert(a.push(entry)[a.len() as int] == entry);
    } else {
        assert(names.drop_last()[i] == names[i]);
        assert(names.drop_last().contains(r));
        lemma_merge_requested_contains(org, id, url, repo, names.drop_last(), r);
        lemma_add_assignment_effect(prev, names.last(), entry, r);
        if names.last() == r {
            let a = spec_assignments_of(prev, r);
            let j = choose|j: int| 0 <= j < a.len() && a[j] == entry;
            assert(a.push(entry)[j] == entry);
        }
    }
}

/// A person who both has a reduced review state on a pull request and is
/// freshly requested again on it holds both assignments after the merge:
/// one with the historical state and one with the requested-review state.
pub proof fn lemma_reviewed_and_requested_twice(
    org: OrganizationV,
    repo: Seq<char>,
    pull: PullDataV,
    states: Seq<(Seq<char>, Seq<char>)>,
    r: Seq<char>,
    st: Seq<char>,
)
    requires
        states.contains((r, st)),
        pull.requested_reviewers.contains(r),
    ensures
        spec_assignments_of(spec_merge_pull(org, repo, pull, states), r).contains(
            PullRequestV {
                id: pull.number,
                url: spec_browser_url(pull.url),
                repo_name: repo,
                state: st,
            },
        ),
        spec_assignments_of(spec_merge_pull(org, repo, pull, states), r).contains(
            PullRequestV {
                id: pull.number,
                url: spec_browser_url(pull.url),
                repo_name: repo,
                state: "REQUESTED_REVIEW"@,
            },
        ),
{
    let url = spec_browser_url(pull.url);
    let with_repo = spec_add_repo(org, repo);
    lemma_merge_states_contains(with_repo, pull.number, url, repo, states, r, st);
    let with_states = spec_merge_states(with_repo, pull.number, url, repo, states);
    lemma_merge_requested_preserves(
        with_states,
        pull.number,
        url,
        repo,
        pull.requested_reviewers,
        r,
        PullRequestV { id: pull.number, url, repo_name: repo, state: st },
    );
    lemma_merge_requested_contains(
        with_states,
        pull.number,
        url,
        repo,
        pull.requested_reviewers,
        r,
    );
}

/// `x` and `y` stand at two distinct positions of `a`.
pub open spec fn spec_two_entries(a: Seq<PullRequestV>, x: PullRequestV, y: PullRequestV) -> bool {
    exists|i: int, j: int|
        #![trigger a[i], a[j]]
        0 <= i < a.len() && 0 <= j < a.len() && i != j && a[i] == x && a[j] == y
}

/// The two assignments of `lemma_reviewed_and_requested_twice` are two
/// separate entries: whenever the historical state is not itself the
/// requested-review marker, they stand at two distinct positions.
pub proof fn lemma_two_separate_entries(
    org: OrganizationV,
    repo: Seq<char>,
    pull: PullDataV,
    states: Seq<(Seq<char>, Seq<char>)>,
    r: Seq<char>,
    st: Seq<char>,
)
    requires
        states.contains((r, st)),
        pull.requested_reviewers.contains(r),
        st != "REQUESTED_REVIEW"@,
    ensures
        spec_two_entries(
            spec_assignments_of(spec_merge_pull(org, repo, pull, states), r),
            PullRequestV {
                id: pull.number,
                url: spec_browser_url(pull.url),
                repo_name: repo,
                state: st,
            },
            PullRequestV {
                id: pull.number,
                url: spec_browser_url(pull.url),
                repo_name: repo,
                state: "REQUESTED_REVIEW"@,
            },
        ),
{
    lemma_reviewed_and_requested_twice(org, repo, pull, states, r, st);
    let a = spec_assignments_of(spec_merge_pull(org, repo, pull, states), r);
    let hist = PullRequestV {
        id: pull.number,
        url: spec_browser_url(pull.url),
        repo_name: repo,
        state: st,
    };
    let req = PullRequestV {
        id: pull.number,
        url: spec_browser_url(pull.url),
        repo_name: repo,
        state: "REQUESTED_REVIEW"@,
    };
    let i = choose|i: int| 0 <= i < a.len() && a[i] == hist;
    let j = choose|j: int| 0 <= j < a.len() && a[j] == req;
    assert(a[i] != a[j]);
}

/// One processed pull request: the repository it belongs to, its payload,
/// and its reduced review states.
pub struct ProcessedPullV {
    pub repo_name: Seq<char>,
    pub pull: PullDataV,
    pub states: Seq<(Seq<char>, Seq<char>)>,
}

/// The aggregate after merging a whole run's processed pull requests, in
/// order, starting from `org`.
pub open spec fn spec_merge_all(org: OrganizationV, pulls: Seq<ProcessedPullV>) -> OrganizationV
    decreases pulls.len(),
{
    if pulls.len() == 0 {
        org
    } else {
        let p = pulls.last();
        spec_merge_pull(spec_merge_all(org, pulls.drop_last()), p.repo_name, p.pull, p.states)
    }
}

/// The repository names referenced by the processed pull requests.
pub open spec fn spec_referenced_repos(pulls: Seq<ProcessedPullV>) -> Set<Seq<char>> {
    pulls.map_values(|p: ProcessedPullV| p.repo_name).to_set()
}

/// Recording a repository adds exactly that name to the repository set.
pub proof fn lemma_add_repo_set(org: OrganizationV, name: Seq<char>)
    ensures
        spec_add_repo(org, name).repositories.to_set() =~= org.repositories.to_set().insert(name),
{
    if org.repositories.contains(name) {
        assert(org.repositories.to_set().contains(name));
    } else {
        let rep = org.repositories.push(name);
        assert forall|x: Seq<char>| rep.contains(x) implies org.repositories.contains(x) || x
            == name by {
            let i = choose|i: int| 0 <= i < rep.len() && rep[i] == x;
            if i < org.repositories.len() {
                assert(org.repositories[i] == x);
            }
        }
        assert forall|x: Seq<char>| org.repositories.contains(x) implies rep.contains(x) by {
            let i = choose|i: int| 0 <= i < org.repositories.len() && org.repositories[i] == x;
            assert(rep[i] == x);
        }
        assert(rep[org.repositories.len() as int] == name);
    }
}

/// The repository set of the aggregate is exactly the set of repository
/// names referenced by at least one processed pull request: a repository
/// with no open pull requests never appears.
pub proof fn lemma_repositories_exactly_referenced(pulls: Seq<ProcessedPullV>)
    ensures
        spec_merge_all(spec_empty_org(), pulls).repositories.to_set() =~= spec_referenced_repos(
            pulls,
        ),
    decreases pulls.len(),
{
    if pulls.len() == 0 {
        assert(spec_empty_org().repositories.to_set() =~= Set::<Seq<char>>::empty());
        assert(pulls.map_values(|p: ProcessedPullV| p.repo_name) =~= Seq::<Seq<char>>::empty());
    } else {
        lemma_repositories_exactly_referenced(pulls.drop_last());
        let p = pulls.last();
        let prev = spec_merge_all(spec_empty_org(), pulls.drop_last());
        lemma_merge_pull_repos_only(prev, p.repo_name, p.pull, p.states);
        lemma_add_repo_set(prev, p.repo_name);
        let f = |q: ProcessedPullV| q.repo_name;
        assert forall|x: Seq<char>| pulls.map_values(f).contains(x) implies pulls.drop_last(
        ).map_values(f).contains(x) || x == p.repo_name by {
            let i = choose|i: int| 0 <= i < pulls.len() && pulls.map_values(f)[i] == x;
            if i < pulls.len() - 1 {
                assert(pulls.drop_last().map_values(f)[i] == x);
            }
        }
        assert forall|x: Seq<char>| pulls.drop_last().map_values(f).contains(x) implies
            pulls.map_values(f).contains(x) by {
            let i = choose|i: int|
                0 <= i < pulls.drop_last().len() && pulls.drop_last().map_values(f)[i] == x;
            assert(pulls.map_values(f)[i] == x);
        }
        assert(pulls.map_values(f)[pulls.len() - 1] == p.repo_name);
        assert(spec_referenced_repos(pulls) =~= spec_referenced_repos(pulls.drop_last()).insert(
            p.repo_name,
        ));
    }
}

/// Merging a pull request changes the repository list exactly as
/// recording its repository does (no well-formedness needed).
proof fn lemma_merge_pull_repos_only(
    org: OrganizationV,
    repo: Seq<char>,
    pull: PullDataV,
    states: Seq<(Seq<char>, Seq<char>)>,
)
    ensures
        spec_merge_pull(org, repo, pull, states).repositories == spec_add_repo(
            org,
            repo,
        ).repositories,
{
    let url = spec_browser_url(pull.url);
    let with_repo = spec_add_repo(org, repo);
    lemma_merge_states_repos(with_repo, pull.number, url, repo, states);
    let with_states = spec_merge_states(with_repo, pull.number, url, repo, states);
    lemma_merge_requested_repos(with_states, pull.number, url, repo, pull.requested_reviewers);
}

/// A person for whom the reducer recorded a current state and who is also
/// freshly requested again on the same pull request holds, after the
/// merge, one assignment with that historical state and one with the
/// requested-review state.
pub proof fn lemma_state_and_request_both_recorded(
    org: OrganizationV,
    repo: Seq<char>,
    pull: PullDataV,
    events: Seq<crate::payload::ReviewEventV>,
    r: Seq<char>,
)
    requires
        crate::reducer::spec_lookup(crate::reducer::spec_reduce(pull.author, events), r)
            is Some,
        pull.requested_reviewers.contains(r),
    ensures
        spec_assignments_of(
            spec_merge_pull(org, repo, pull, crate::reducer::spec_reduce(pull.author, events)),
            r,
        ).contains(
            PullRequestV {
                id: pull.number,
                url: spec_browser_url(pull.url),
                repo_name: repo,
                state: crate::reducer::spec_lookup(
                    crate::reducer::spec_reduce(pull.author, events),
                    r,
                ).unwrap(),
            },
        ),
        spec_assignments_of(
            spec_merge_pull(org, repo, pull, crate::reducer::spec_reduce(pull.author, events)),
            r,
        ).contains(
            PullRequestV {
                id: pull.number,
                url: spec_browser_url(pull.url),
                repo_name: repo,
                state: "REQUESTED_REVIEW"@,
            },
        ),
{
    let states = crate::reducer::spec_reduce(pull.author, events);
    let st = crate::reducer::spec_lookup(states, r).unwrap();
    crate::reducer::lemma_lookup_contains(states, r);
    lemma_reviewed_and_requested_twice(org, repo, pull, states, r, st);
}

/// Merges one pull request into the aggregate: records its repository,
/// then appends one assignment per reduced (person, state) pair and one
/// requested-review assignment per still-requested person, all linking
/// to the browser form of the pull request's URL.
pub fn merge_pull_request(
    org: &mut Organization,
    repo_name: &String,
    pull: &PullData,
    states: &Vec<(String, String)>,
)
    ensures
        final(org)@ == spec_merge_pull(old(org)@, repo_name@, pull@, states.deep_view()),
{
    ensure_repository(org, repo_name);
    let url = browser_url(pull.url.as_str());
    let ghost with_repo = spec_add_repo(old(org)@, repo_name@);
    let ghost sv = states.deep_view();
    let mut i: usize = 0;
    proof {
        assert(sv.take(0) =~= Seq::<(Seq<char>, Seq<char>)>::empty());
    }
    while i < states.len()
        invariant
            sv == states.deep_view(),
            sv.len() == states@.len(),
            i <= states@.len(),
            url@ == spec_browser_url(pull@.url),
            org@ == spec_merge_states(with_repo, pull@.number, url@, repo_name@, sv.take(i as int)),
        decreases states@.len() - i,
    {
        let pr = PullRequest {
            id: pull.number.clone(),
            url: url.clone(),
            repo_name: repo_name.clone(),
            state: states[i].1.clone(),
        };
        add_assignment(org, &states[i].0, pr);
        proof {
            assert(sv.take(i + 1).drop_last() =~= sv.take(i as int));
            assert(sv.take(i + 1).last() == sv[i as int]);
            assert(sv[i as int].0 == states@[i as int].0@);
            assert(sv[i as int].1 == states@[i as int].1@);
        }
        i = i + 1;
    }
    proof {
        assert(sv.take(sv.len() as int) =~= sv);
    }
    let ghost with_states = spec_merge_states(with_repo, pull@.number, url@, repo_name@, sv);
    let ghost rv = pull@.requested_reviewers;
    let mut j: usize = 0;
    proof {
        assert(rv.take(0) =~= Seq::<Seq<char>>::empty());
    }
    while j < pull.requested_reviewers.len()
        invariant
            rv == pull@.requested_reviewers,
            rv.len() == pull.requested_reviewers@.len(),
            j <= pull.requested_reviewers@.len(),
            url@ == spec_browser_url(pull@.url),
            org@ == spec_merge_requested(
                with_states,
                pull@.number,
                url@,
                repo_name@,
                rv.take(j as int),
            ),
        decreases pull.requested_reviewers@.len() - j,
    {
        let pr = PullRequest {
            id: pull.number.clone(),
            url: url.clone(),
            repo_name: repo_name.clone(),
            state: String::from_str("REQUESTED_REVIEW"),
        };
        add_assignment(org, &pull.requested_reviewers[j], pr);
        proof {
            assert(rv.take(j + 1).drop_last() =~= rv.take(j as int));
            assert(rv.take(j + 1).last() == rv[j as int]);
            assert(rv[j as int] == pull.requested_reviewers@[j as int]@);
        }
        j = j + 1;
    }
    proof {
        assert(rv.take(rv.len() as int) =~= rv);
    }
}

} // verus!
