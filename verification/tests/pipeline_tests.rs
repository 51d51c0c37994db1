use review_matrix::error::FetchError;
use review_matrix::pipeline::FetchEvent;
use review_matrix::pipeline::Pipeline;

fn respond(p: Pipeline, body: &str) -> Pipeline {
    p.step(FetchEvent::Response(String::from(body)))
}

#[test]
fn end_to_end_scenario() {
    let mut p = Pipeline::new("testorg");

    assert_eq!(
        p.pending_request().unwrap(),
        "https://api.github.com/orgs/testorg/repos?per_page=100&page=1"
    );
    p = respond(p, r#"[{"name":"repo1"},{"name":"repo2"}]"#);

    assert_eq!(
        p.pending_request().unwrap(),
        "https://api.github.com/orgs/testorg/repos?per_page=100&page=2"
    );
    p = respond(p, "[]");

    assert_eq!(
        p.pending_request().unwrap(),
        "https://api.github.com/repos/testorg/repo1/pulls?state=open&per_page=100&page=1"
    );
    p = respond(
        p,
        r#"[{"number":1,"url":"https://api.github.com/repos/testorg/repo1/pulls/1","user":{"login":"alice"},"requested_reviewers":[{"login":"carol"}]}]"#,
    );

    assert_eq!(
        p.pending_request().unwrap(),
        "https://api.github.com/repos/testorg/repo1/pulls?state=open&per_page=100&page=2"
    );
    p = respond(p, "[]");

    assert_eq!(
        p.pending_request().unwrap(),
        "https://api.github.com/repos/testorg/repo1/pulls/1/reviews?per_page=100&page=1"
    );
    p = respond(
        p,
        r#"[{"user":{"login":"bob"},"state":"APPROVED"},{"user":{"login":"bob"},"state":"CHANGES_REQUESTED"}]"#,
    );

    assert_eq!(
        p.pending_request().unwrap(),
        "https://api.github.com/repos/testorg/repo1/pulls/1/reviews?per_page=100&page=2"
    );
    p = respond(p, "[]");

    assert_eq!(
        p.pending_request().unwrap(),
        "https://api.github.com/repos/testorg/repo2/pulls?state=open&per_page=100&page=1"
    );
    p = respond(p, "[]");

    assert!(p.pending_request().is_none());
    let org = p.outcome().unwrap().unwrap();

    assert_eq!(org.repositories.len(), 1);
    assert_eq!(org.repositories[0].name, "repo1");

    assert_eq!(org.reviewers.len(), 2);
    assert_eq!(org.reviewers[0].name, "bob");
    let bob = &org.reviewers[0].assigned_pull_requests;
    assert_eq!(bob.len(), 1);
    assert_eq!(bob[0].id, "1");
    assert_eq!(bob[0].repo_name, "repo1");
    assert_eq!(bob[0].state, "CHANGES_REQUESTED");
    assert_eq!(bob[0].url, "https://github.com/testorg/repo1/pull/1");

    assert_eq!(org.reviewers[1].name, "carol");
    let carol = &org.reviewers[1].assigned_pull_requests;
    assert_eq!(carol.len(), 1);
    assert_eq!(carol[0].id, "1");
    assert_eq!(carol[0].repo_name, "repo1");
    assert_eq!(carol[0].state, "REQUESTED_REVIEW");
}

#[test]
fn transport_failure_on_repository_list_aborts_with_that_url() {
    let p = Pipeline::new("testorg");
    let repos_url = p.pending_request().unwrap();
    let p = p.step(FetchEvent::TransportFailure);
    assert!(p.pending_request().is_none());
    match p.outcome().unwrap() {
        Ok(_) => panic!("no aggregate may come out of a failed run"),
        Err(FetchError::Transport { url }) => {
            assert_eq!(url, repos_url);
            assert_eq!(url, "https://api.github.com/orgs/testorg/repos?per_page=100&page=1");
        },
        Err(FetchError::Parse { .. }) => panic!("a transport failure is not a parse failure"),
    }
}

#[test]
fn invalid_repository_body_aborts_with_parse_error() {
    let p = Pipeline::new("testorg");
    let p = respond(p, "this is not json");
    match p.outcome().unwrap() {
        Err(FetchError::Parse { url }) => {
            assert_eq!(url, "https://api.github.com/orgs/testorg/repos?per_page=100&page=1");
        },
        _ => panic!("a malformed body must abort the run with a parse error"),
    }
}

#[test]
fn pull_request_missing_author_aborts_the_run() {
    let mut p = Pipeline::new("testorg");
    p = respond(p, r#"[{"name":"repo1"}]"#);
    p = respond(p, "[]");
    p = respond(p, r#"[{"number":1,"url":"u"}]"#);
    match p.outcome().unwrap() {
        Err(FetchError::Parse { url }) => {
            assert_eq!(
                url,
                "https://api.github.com/repos/testorg/repo1/pulls?state=open&per_page=100&page=1"
            );
        },
        _ => panic!("a pull request without its author login must abort the run"),
    }
}

#[test]
fn transport_failure_while_fetching_reviews_aborts_the_run() {
    let mut p = Pipeline::new("testorg");
    p = respond(p, r#"[{"name":"repo1"}]"#);
    p = respond(p, "[]");
    p = respond(
        p,
        r#"[{"number":3,"url":"https://api.github.com/repos/testorg/repo1/pulls/3","user":{"login":"alice"}}]"#,
    );
    p = respond(p, "[]");
    let reviews_url = p.pending_request().unwrap();
    assert_eq!(
        reviews_url,
        "https://api.github.com/repos/testorg/repo1/pulls/3/reviews?per_page=100&page=1"
    );
    let p = p.step(FetchEvent::TransportFailure);
    match p.outcome().unwrap() {
        Err(FetchError::Transport { url }) => assert_eq!(url, reviews_url),
        _ => panic!("a transport failure while fetching reviews must abort the run"),
    }
}

#[test]
fn organization_without_repositories_finishes_empty() {
    let p = Pipeline::new("testorg");
    let p = respond(p, "[]");
    assert!(p.pending_request().is_none());
    let org = p.outcome().unwrap().unwrap();
    assert!(org.repositories.is_empty());
    assert!(org.reviewers.is_empty());
}

#[test]
fn repository_pages_accumulate_across_pages() {
    let mut p = Pipeline::new("testorg");
    p = respond(p, r#"[{"name":"repo1"}]"#);
    p = respond(p, r#"[{"name":"repo2"}]"#);
    p = respond(p, "[]");
    assert_eq!(
        p.pending_request().unwrap(),
        "https://api.github.com/repos/testorg/repo1/pulls?state=open&per_page=100&page=1"
    );
    p = respond(p, "[]");
    assert_eq!(
        p.pending_request().unwrap(),
        "https://api.github.com/repos/testorg/repo2/pulls?state=open&per_page=100&page=1"
    );
    p = respond(p, "[]");
    let org = p.outcome().unwrap().unwrap();
    assert!(org.repositories.is_empty());
}

#[test]
fn review_pages_accumulate_before_reduction() {
    let mut p = Pipeline::new("testorg");
    p = respond(p, r#"[{"name":"repo1"}]"#);
    p = respond(p, "[]");
    p = respond(
        p,
        r#"[{"number":5,"url":"https://api.github.com/repos/testorg/repo1/pulls/5","user":{"login":"alice"}}]"#,
    );
    p = respond(p, "[]");
    p = respond(p, r#"[{"user":{"login":"bob"},"state":"APPROVED"}]"#);
    p = respond(p, r#"[{"user":{"login":"bob"},"state":"CHANGES_REQUESTED"}]"#);
    p = respond(p, "[]");
    let org = p.outcome().unwrap().unwrap();
    assert_eq!(org.reviewers.len(), 1);
    assert_eq!(org.reviewers[0].name, "bob");
    assert_eq!(org.reviewers[0].assigned_pull_requests.len(), 1);
    assert_eq!(org.reviewers[0].assigned_pull_requests[0].state, "CHANGES_REQUESTED");
}

#[test]
fn a_finished_run_stays_finished() {
    let p = Pipeline::new("testorg");
    let p = respond(p, "[]");
    let p = p.step(FetchEvent::TransportFailure);
    assert!(p.pending_request().is_none());
    assert!(p.outcome().unwrap().is_ok());
}
