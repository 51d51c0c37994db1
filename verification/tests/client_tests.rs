use review_matrix::client::authorization_value;
use review_matrix::client::user_agent_value;
use review_matrix::client::validate_credential;
use review_matrix::error::FetchError;

#[test]
fn empty_credential_is_refused() {
    assert!(!validate_credential(""));
}

#[test]
fn ordinary_credential_is_accepted() {
    assert!(validate_credential("ghp_abc123XYZ"));
    assert!(validate_credential("token with spaces and ~tilde~"));
}

#[test]
fn control_characters_are_refused() {
    assert!(!validate_credential("bad\ntoken"));
    assert!(!validate_credential("bad\rtoken"));
    assert!(!validate_credential("\u{7f}"));
}

#[test]
fn tab_is_accepted_by_header_encoding() {
    assert!(validate_credential("a\tb"));
}

#[test]
fn authorization_header_carries_the_bearer_credential() {
    assert!(validate_credential("abc"));
    assert_eq!(authorization_value("abc"), "Bearer abc");
}

#[test]
fn user_agent_is_the_identifying_client_string() {
    assert_eq!(user_agent_value(), "ibr");
}

#[test]
fn error_messages_name_the_url() {
    let t = FetchError::Transport { url: String::from("https://api.github.com/x") };
    assert_eq!(t.message(), "Failed to fetch from https://api.github.com/x");
    let p = FetchError::Parse { url: String::from("https://api.github.com/y") };
    assert_eq!(p.message(), "Failed to parse the response from https://api.github.com/y");
}
