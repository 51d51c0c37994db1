use review_matrix::strutil::replace_all;
use review_matrix::strutil::str_eq;
use review_matrix::strutil::u64_to_string;
use review_matrix::urls::browser_url;
use review_matrix::urls::pulls_url;
use review_matrix::urls::repositories_url;
use review_matrix::urls::reviews_url;

#[test]
fn browser_url_transform_example() {
    let out = browser_url("https://api.example.com/repos/org/repo/pulls/42");
    assert_eq!(out, "https://example.com/org/repo/pull/42");
}

#[test]
fn browser_url_transform_is_deterministic() {
    let a = browser_url("https://api.github.com/repos/testorg/repo1/pulls/1");
    let b = browser_url("https://api.github.com/repos/testorg/repo1/pulls/1");
    assert_eq!(a, b);
    assert_eq!(a, "https://github.com/testorg/repo1/pull/1");
}

#[test]
fn replace_all_replaces_every_occurrence() {
    assert_eq!(replace_all("aXbXc", "X", "-"), "a-b-c");
    assert_eq!(replace_all("aaaa", "aa", "b"), "bb");
    assert_eq!(replace_all("abc", "z", "y"), "abc");
    assert_eq!(replace_all("abc", "abc", ""), "");
}

#[test]
fn str_eq_compares_characters() {
    assert!(str_eq("abc", "abc"));
    assert!(!str_eq("abc", "abd"));
    assert!(!str_eq("abc", "ab"));
    assert!(str_eq("", ""));
}

#[test]
fn u64_rendering_is_decimal() {
    assert_eq!(u64_to_string(0), "0");
    assert_eq!(u64_to_string(7), "7");
    assert_eq!(u64_to_string(42), "42");
    assert_eq!(u64_to_string(100), "100");
    assert_eq!(u64_to_string(18446744073709551615), "18446744073709551615");
}

#[test]
fn endpoint_urls_are_exact() {
    assert_eq!(
        repositories_url("testorg", 1),
        "https://api.github.com/orgs/testorg/repos?per_page=100&page=1"
    );
    assert_eq!(
        pulls_url("testorg", "repo1", 2),
        "https://api.github.com/repos/testorg/repo1/pulls?state=open&per_page=100&page=2"
    );
    assert_eq!(
        reviews_url("testorg", "repo1", "17", 3),
        "https://api.github.com/repos/testorg/repo1/pulls/17/reviews?per_page=100&page=3"
    );
}
