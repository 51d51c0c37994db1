use review_matrix::payload::parse_pulls;
use review_matrix::payload::parse_repositories;
use review_matrix::payload::parse_reviews;

#[test]
fn repositories_page_parses() {
    let body = r#"[{"name":"repo1"},{"name":"repo2"}]"#;
    let names = parse_repositories(body).unwrap();
    assert_eq!(names, vec![String::from("repo1"), String::from("repo2")]);
}

#[test]
fn repositories_page_ignores_extra_fields() {
    let body = r#"[{"id":7,"name":"repo1","private":false}]"#;
    let names = parse_repositories(body).unwrap();
    assert_eq!(names, vec![String::from("repo1")]);
}

#[test]
fn repositories_page_rejects_invalid_json() {
    assert!(parse_repositories("not json").is_none());
}

#[test]
fn repositories_page_rejects_non_array() {
    assert!(parse_repositories(r#"{"name":"repo1"}"#).is_none());
}

#[test]
fn repositories_page_rejects_missing_name() {
    assert!(parse_repositories(r#"[{"full_name":"o/r"}]"#).is_none());
}

#[test]
fn repositories_page_rejects_non_string_name() {
    assert!(parse_repositories(r#"[{"name":7}]"#).is_none());
}

#[test]
fn empty_page_parses_as_empty() {
    assert_eq!(parse_repositories("[]").unwrap().len(), 0);
    assert_eq!(parse_pulls("[]").unwrap().len(), 0);
    assert_eq!(parse_reviews("[]").unwrap().len(), 0);
}

#[test]
fn pull_request_page_parses() {
    let body = r#"[{"number":1,"url":"https://api.github.com/repos/o/r/pulls/1","user":{"login":"alice"},"requested_reviewers":[{"login":"carol"},{"login":"dave"}]}]"#;
    let pulls = parse_pulls(body).unwrap();
    assert_eq!(pulls.len(), 1);
    assert_eq!(pulls[0].number, "1");
    assert_eq!(pulls[0].url, "https://api.github.com/repos/o/r/pulls/1");
    assert_eq!(pulls[0].author, "alice");
    assert_eq!(
        pulls[0].requested_reviewers,
        vec![String::from("carol"), String::from("dave")]
    );
}

#[test]
fn missing_requested_reviewers_reads_as_empty_list() {
    let body = r#"[{"number":2,"url":"https://api.github.com/repos/o/r/pulls/2","user":{"login":"alice"}}]"#;
    let pulls = parse_pulls(body).unwrap();
    assert_eq!(pulls.len(), 1);
    assert!(pulls[0].requested_reviewers.is_empty());
}

#[test]
fn pull_request_missing_author_login_is_malformed() {
    let body = r#"[{"number":1,"url":"u","user":{}}]"#;
    assert!(parse_pulls(body).is_none());
}

#[test]
fn pull_request_missing_user_is_malformed() {
    let body = r#"[{"number":1,"url":"u"}]"#;
    assert!(parse_pulls(body).is_none());
}

#[test]
fn pull_request_missing_number_is_malformed() {
    let body = r#"[{"url":"u","user":{"login":"alice"}}]"#;
    assert!(parse_pulls(body).is_none());
}

#[test]
fn pull_request_string_number_is_malformed() {
    let body = r#"[{"number":"1","url":"u","user":{"login":"alice"}}]"#;
    assert!(parse_pulls(body).is_none());
}

#[test]
fn pull_request_requested_reviewers_of_wrong_shape_is_malformed() {
    let body = r#"[{"number":1,"url":"u","user":{"login":"alice"},"requested_reviewers":"carol"}]"#;
    assert!(parse_pulls(body).is_none());
}

#[test]
fn review_page_parses_in_order() {
    let body = r#"[{"user":{"login":"bob"},"state":"APPROVED"},{"user":{"login":"carol"},"state":"COMMENTED"}]"#;
    let events = parse_reviews(body).unwrap();
    assert_eq!(events.len(), 2);
    assert_eq!(events[0].reviewer, "bob");
    assert_eq!(events[0].state, "APPROVED");
    assert_eq!(events[1].reviewer, "carol");
    assert_eq!(events[1].state, "COMMENTED");
}

#[test]
fn review_missing_state_is_malformed() {
    let body = r#"[{"user":{"login":"bob"}}]"#;
    assert!(parse_reviews(body).is_none());
}

#[test]
fn review_missing_user_is_malformed() {
    let body = r#"[{"state":"APPROVED"}]"#;
    assert!(parse_reviews(body).is_none());
}
