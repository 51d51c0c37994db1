use review_matrix::aggregate::add_assignment;
use review_matrix::aggregate::empty_organization;
use review_matrix::aggregate::ensure_repository;
use review_matrix::aggregate::merge_pull_request;
use review_matrix::aggregate::PullRequest;
use review_matrix::payload::PullData;

fn sample_pull() -> PullData {
    PullData {
        number: String::from("1"),
        url: String::from("https://api.github.com/repos/testorg/repo1/pulls/1"),
        author: String::from("alice"),
        requested_reviewers: vec![String::from("carol")],
    }
}

#[test]
fn repositories_are_deduplicated() {
    let mut org = empty_organization();
    let name = String::from("repo1");
    ensure_repository(&mut org, &name);
    ensure_repository(&mut org, &name);
    assert_eq!(org.repositories.len(), 1);
    assert_eq!(org.repositories[0].name, "repo1");
}

#[test]
fn assignments_accumulate_under_one_reviewer() {
    let mut org = empty_organization();
    let bob = String::from("bob");
    let pr = |id: &str| PullRequest {
        id: String::from(id),
        url: String::from("u"),
        repo_name: String::from("repo1"),
        state: String::from("APPROVED"),
    };
    add_assignment(&mut org, &bob, pr("1"));
    add_assignment(&mut org, &bob, pr("2"));
    assert_eq!(org.reviewers.len(), 1);
    assert_eq!(org.reviewers[0].name, "bob");
    assert_eq!(org.reviewers[0].assigned_pull_requests.len(), 2);
    assert_eq!(org.reviewers[0].assigned_pull_requests[0].id, "1");
    assert_eq!(org.reviewers[0].assigned_pull_requests[1].id, "2");
}

#[test]
fn merge_records_repository_and_both_sources() {
    let mut org = empty_organization();
    let repo = String::from("repo1");
    let pull = sample_pull();
    let states = vec![(String::from("bob"), String::from("CHANGES_REQUESTED"))];
    merge_pull_request(&mut org, &repo, &pull, &states);

    assert_eq!(org.repositories.len(), 1);
    assert_eq!(org.repositories[0].name, "repo1");
    assert_eq!(org.reviewers.len(), 2);

    assert_eq!(org.reviewers[0].name, "bob");
    let bob = &org.reviewers[0].assigned_pull_requests;
    assert_eq!(bob.len(), 1);
    assert_eq!(bob[0].id, "1");
    assert_eq!(bob[0].repo_name, "repo1");
    assert_eq!(bob[0].state, "CHANGES_REQUESTED");
    assert_eq!(bob[0].url, "https://github.com/testorg/repo1/pull/1");

    assert_eq!(org.reviewers[1].name, "carol");
    let carol = &org.reviewers[1].assigned_pull_requests;
    assert_eq!(carol.len(), 1);
    assert_eq!(carol[0].state, "REQUESTED_REVIEW");
}

#[test]
fn reviewed_and_requested_again_yields_two_entries() {
    let mut org = empty_organization();
    let repo = String::from("repo1");
    let pull = PullData {
        number: String::from("9"),
        url: String::from("https://api.github.com/repos/testorg/repo1/pulls/9"),
        author: String::from("alice"),
        requested_reviewers: vec![String::from("bob")],
    };
    let states = vec![(String::from("bob"), String::from("APPROVED"))];
    merge_pull_request(&mut org, &repo, &pull, &states);

    assert_eq!(org.reviewers.len(), 1);
    assert_eq!(org.reviewers[0].name, "bob");
    let bob = &org.reviewers[0].assigned_pull_requests;
    assert_eq!(bob.len(), 2);
    assert_eq!(bob[0].state, "APPROVED");
    assert_eq!(bob[1].state, "REQUESTED_REVIEW");
    assert_eq!(bob[0].id, "9");
    assert_eq!(bob[1].id, "9");
}

#[test]
fn merging_two_pulls_of_one_repo_records_it_once() {
    let mut org = empty_organization();
    let repo = String::from("repo1");
    let mut pull_a = sample_pull();
    pull_a.requested_reviewers = Vec::new();
    let mut pull_b = sample_pull();
    pull_b.number = String::from("2");
    pull_b.requested_reviewers = Vec::new();
    let states_a = vec![(String::from("bob"), String::from("APPROVED"))];
    let states_b = vec![(String::from("bob"), String::from("COMMENTED"))];
    merge_pull_request(&mut org, &repo, &pull_a, &states_a);
    merge_pull_request(&mut org, &repo, &pull_b, &states_b);
    assert_eq!(org.repositories.len(), 1);
    assert_eq!(org.reviewers.len(), 1);
    assert_eq!(org.reviewers[0].assigned_pull_requests.len(), 2);
}

#[test]
fn duplicate_requests_from_the_api_are_kept() {
    let mut org = empty_organization();
    let repo = String::from("repo1");
    let mut pull = sample_pull();
    pull.requested_reviewers = vec![String::from("carol"), String::from("carol")];
    let states: Vec<(String, String)> = Vec::new();
    merge_pull_request(&mut org, &repo, &pull, &states);
    assert_eq!(org.reviewers.len(), 1);
    assert_eq!(org.reviewers[0].assigned_pull_requests.len(), 2);
    assert_eq!(org.reviewers[0].assigned_pull_requests[0].state, "REQUESTED_REVIEW");
    assert_eq!(org.reviewers[0].assigned_pull_requests[1].state, "REQUESTED_REVIEW");
}

#[test]
fn merge_with_no_reviewers_still_records_repository() {
    let mut org = empty_organization();
    let repo = String::from("repo1");
    let mut pull = sample_pull();
    pull.requested_reviewers = Vec::new();
    let states: Vec<(String, String)> = Vec::new();
    merge_pull_request(&mut org, &repo, &pull, &states);
    assert_eq!(org.repositories.len(), 1);
    assert_eq!(org.reviewers.len(), 0);
}
