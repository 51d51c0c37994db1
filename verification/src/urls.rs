//! URL construction for the three REST endpoints the pipeline pages through,
//! and the rewrite of an API pull-request URL into the browser-navigable one.

use crate::strutil::replace_all;
use crate::strutil::spec_dec;
use crate::strutil::spec_replace_all;
use crate::strutil::u64_to_string;
use vstd::prelude::*;
use vstd::string::StringExecFns;

verus! {

/// The URL listing one page of the organization's repositories.
pub open spec fn spec_repositories_url(organization: Seq<char>, page: u64) -> Seq<char> {
    "https://api.github.com/orgs/"@ + organization + "/repos?per_page=100&page="@ + spec_dec(
        page as nat,
    )
}

/// The URL listing one page of a repository's open pull requests.
pub open spec fn spec_pulls_url(organization: Seq<char>, repo: Seq<char>, page: u64) -> Seq<char> {
    "https://api.github.com/repos/"@ + organization + "/"@ + repo
        + "/pulls?state=open&per_page=100&page="@ + spec_dec(page as nat)
}

/// The URL listing one page of a pull request's review events.
pub open spec fn spec_reviews_url(
    organization: Seq<char>,
    repo: Seq<char>,
    number: Seq<char>,
    page: u64,
) -> Seq<char> {
    "https://api.github.com/repos/"@ + organization + "/"@ + repo + "/pulls/"@ + number
        + "/reviews?per_page=100&page="@ + spec_dec(page as nat)
}

/// Builds the repository-list URL for one page.
pub fn repositories_url(organization: &str, page: u64) -> (r: String)
    ensures
        r@ == spec_repositories_url(organization@, page),
{
    let mut s = String::from_str("https://api.github.com/orgs/");
    s.append(organization);
    s.append("/repos?per_page=100&page=");
    let p = u64_to_string(page);
    s.append(p.as_str());
    proof {
        assert(s@ =~= spec_repositories_url(organization@, page));
    }
    s
}

/// Builds the open-pull-request-list URL for one page.
pub fn pulls_url(organization: &str, repo: &str, page: u64) -> (r: String)
    ensures
        r@ == spec_pulls_url(organization@, repo@, page),
{
    let mut s = String::from_str("https://api.github.com/repos/");
    s.append(organization);
    s.append("/");
    s.append(repo);
    s.append("/pulls?state=open&per_page=100&page=");
    let p = u64_to_string(page);
    s.append(p.as_str());
    proof {
        assert(s@ =~= spec_pulls_url(organization@, repo@, page));
    }
    s
}

/// Builds the review-event-list URL for one page.
pub fn reviews_url(organization: &str, repo: &str, number: &str, page: u64) -> (r: String)
    ensures
        r@ == spec_reviews_url(organization@, repo@, number@, page),
{
    let mut s = String::from_str("https://api.github.com/repos/");
    s.append(organization);
    s.append("/");
    s.append(repo);
    s.append("/pulls/");
    s.append(number);
    s.append("/reviews?per_page=100&page=");
    let p = u64_to_string(page);
    s.append(p.as_str());
    proof {
        assert(s@ =~= spec_reviews_url(organization@, repo@, number@, page));
    }
    s
}

/// The browser-navigable form of an API pull-request URL: the `api.`
/// subdomain marker and the `repos/` path segment are removed, and `pulls`
/// is singularized to `pull`.  Each rewrite replaces every occurrence,
/// scanning left to right, and the whole transform runs exactly once per URL.
pub open spec fn spec_browser_url(api_url: Seq<char>) -> Seq<char> {
    spec_replace_all(
        spec_replace_all(spec_replace_all(api_url, "api."@, ""@), "repos/"@, ""@),
        "pulls"@,
        "pull"@,
    )
}

/// Rewrites an API pull-request URL into the link a browser can open.
pub fn browser_url(api_url: &str) -> (r: String)
    ensures
        r@ == spec_browser_url(api_url@),
{
    proof {
        reveal_strlit("api.");
        reveal_strlit("repos/");
        reveal_strlit("pulls");
    }
    let s1 = replace_all(api_url, "api.", "");
    let s2 = replace_all(s1.as_str(), "repos/", "");
    replace_all(s2.as_str(), "pulls", "pull")
}

} // verus!
