//! Typed payloads for the three REST endpoints, extracted from parsed JSON
//! with required-field validation.
//!
//! A payload that lacks a field the data model expects (a pull request
//! without its author's login, a review without a state) makes the whole
//! extraction fail, which the pipeline turns into a parse error that aborts
//! the run.  The one exception is a pull request's `requested_reviewers`
//! list: when the field is missing altogether it is read as the empty list.

use crate::json::obj_lookup;
use crate::json::spec_obj_lookup;
use crate::json::spec_parse_json;
use crate::json::parse_json;
use crate::json::JsonValue;
use vstd::prelude::*;

verus! {

/// One review event: a person's verdict on a pull request.  Events arrive
/// in the order the platform reports them, which is relied upon to be
/// chronological.
pub struct ReviewEvent {
    pub reviewer: String,
    pub state: String,
}

/// Ghost mirror of `ReviewEvent`.
#[verifier::ext_equal]
pub struct ReviewEventV {
    pub reviewer: Seq<char>,
    pub state: Seq<char>,
}

impl View for ReviewEvent {
    type V = ReviewEventV;

    open spec fn view(&self) -> ReviewEventV {
        ReviewEventV { reviewer: self.reviewer@, state: self.state@ }
    }
}

impl DeepView for ReviewEvent {
    type V = ReviewEventV;

    open spec fn deep_view(&self) -> ReviewEventV {
        self.view()
    }
}

/// One open pull request, as the pull-request-list endpoint reports it:
/// its display number, its API URL, its author's login, and the people
/// still requested but not yet heard from.
pub struct PullData {
    pub number: String,
    pub url: String,
    pub author: String,
    pub requested_reviewers: Vec<String>,
}

/// Ghost mirror of `PullData`.
#[verifier::ext_equal]
pub struct PullDataV {
    pub number: Seq<char>,
    pub url: Seq<char>,
    pub author: Seq<char>,
    pub requested_reviewers: Seq<Seq<char>>,
}

impl View for PullData {
    type V = PullDataV;

    open spec fn view(&self) -> PullDataV {
        PullDataV {
            number: self.number@,
            url: self.url@,
            author: self.author@,
            requested_reviewers: self.requested_reviewers.deep_view(),
        }
    }
}

impl DeepView for PullData {
    type V = PullDataV;

    open spec fn deep_view(&self) -> PullDataV {
        self.view()
    }
}

/// The text of the field named `key`, when it is present and is a string.
pub open spec fn spec_string_field(fields: Seq<(String, JsonValue)>, key: Seq<char>) -> Option<
    Seq<char>,
> {
    match spec_obj_lookup(fields, key) {
        Some(JsonValue::Text(s)) => Some(s@),
        _ => None,
    }
}

/// The `login` of an account object.
pub open spec fn spec_login_of(v: JsonValue) -> Option<Seq<char>> {
    match v {
        JsonValue::Object(fields) => spec_string_field(fields@, "login"@),
        _ => None,
    }
}

/// The login of the `user` field of an object.
pub open spec fn spec_user_login(fields: Seq<(String, JsonValue)>) -> Option<Seq<char>> {
    match spec_obj_lookup(fields, "user"@) {
        Some(u) => spec_login_of(u),
        None => None,
    }
}

/// The `name` of a repository object.
pub open spec fn spec_repo_name(v: JsonValue) -> Option<Seq<char>> {
    match v {
        JsonValue::Object(fields) => spec_string_field(fields@, "name"@),
        _ => None,
    }
}

/// One review event: the review user's login and the verdict state.
pub open spec fn spec_review_item(v: JsonValue) -> Option<ReviewEventV> {
    match v {
        JsonValue::Object(fields) => match spec_user_login(fields@) {
            None => None,
            Some(reviewer) => match spec_string_field(fields@, "state"@) {
                None => None,
                Some(state) => Some(ReviewEventV { reviewer, state }),
            },
        },
        _ => None,
    }
}

/// The display id of a pull request: the decimal rendering of its `number`.
pub open spec fn spec_pull_number(fields: Seq<(String, JsonValue)>) -> Option<Seq<char>> {
    match spec_obj_lookup(fields, "number"@) {
        Some(JsonValue::Number(n)) => Some(n@),
        _ => None,
    }
}

/// Extracts every element of `items` with `f`; any element `f` rejects
/// makes the whole list extraction fail.
pub open spec fn spec_extract_list<A>(items: Seq<JsonValue>, f: spec_fn(JsonValue) -> Option<A>) -> Option<
    Seq<A>,
>
    decreases items.len(),
{
    if items.len() == 0 {
        Some(Seq::empty())
    } else {
        match spec_extract_list(items.drop_last(), f) {
            None => None,
            Some(rest) => match f(items.last()) {
                None => None,
                Some(a) => Some(rest.push(a)),
            },
        }
    }
}

/// A rejected element anywhere in the list makes the extraction fail.
pub proof fn lemma_extract_list_none<A>(
    items: Seq<JsonValue>,
    f: spec_fn(JsonValue) -> Option<A>,
    i: int,
)
    requires
        0 <= i < items.len(),
        f(items[i]) is None,
    ensures
        spec_extract_list(items, f) is None,
    decreases items.len(),
{
    if i < items.len() - 1 {
        lemma_extract_list_none(items.drop_last(), f, i);
    }
}

/// The element extractor for repository names.
pub open spec fn repo_name_fn() -> spec_fn(JsonValue) -> Option<Seq<char>> {
    |v: JsonValue| spec_repo_name(v)
}

/// The element extractor for requested-person logins.
pub open spec fn login_fn() -> spec_fn(JsonValue) -> Option<Seq<char>> {
    |v: JsonValue| spec_login_of(v)
}

/// The element extractor for review events.
pub open spec fn review_item_fn() -> spec_fn(JsonValue) -> Option<ReviewEventV> {
    |v: JsonValue| spec_review_item(v)
}

/// The element extractor for pull requests.
pub open spec fn pull_item_fn() -> spec_fn(JsonValue) -> Option<PullDataV> {
    |v: JsonValue| spec_pull_item(v)
}

/// The people still requested on a pull request.  A missing field is the
/// empty list; a field of any shape other than an array of account objects
/// is malformed.
pub open spec fn spec_pull_requested(fields: Seq<(String, JsonValue)>) -> Option<Seq<Seq<char>>> {
    match spec_obj_lookup(fields, "requested_reviewers"@) {
        None => Some(Seq::empty()),
        Some(JsonValue::Array(items)) => spec_extract_list(items@, login_fn()),
        Some(_) => None,
    }
}

/// One pull request, with all the fields the data model requires.
pub open spec fn spec_pull_item(v: JsonValue) -> Option<PullDataV> {
    match v {
        JsonValue::Object(fields) => match spec_pull_number(fields@) {
            None => None,
            Some(number) => match spec_string_field(fields@, "url"@) {
                None => None,
                Some(url) => match spec_user_login(fields@) {
                    None => None,
                    Some(author) => match spec_pull_requested(fields@) {
                        None => None,
                        Some(requested) => Some(
                            PullDataV {
                                number,
                                url,
                                author,
                                requested_reviewers: requested,
                            },
                        ),
                    },
                },
            },
        },
        _ => None,
    }
}

/// The repository names carried by one page of the repository-list
/// endpoint, or `None` when the page is not an array of objects each
/// carrying a string `name`.
pub open spec fn spec_parse_repositories(s: Seq<char>) -> Option<Seq<Seq<char>>> {
    match spec_parse_json(s) {
        Some(JsonValue::Array(items)) => spec_extract_list(items@, repo_name_fn()),
        _ => None,
    }
}

/// The pull requests carried by one page of the pull-request-list endpoint.
pub open spec fn spec_parse_pulls(s: Seq<char>) -> Option<Seq<PullDataV>> {
    match spec_parse_json(s) {
        Some(JsonValue::Array(items)) => spec_extract_list(items@, pull_item_fn()),
        _ => None,
    }
}

/// The review events carried by one page of the review-list endpoint.
pub open spec fn spec_parse_reviews(s: Seq<char>) -> Option<Seq<ReviewEventV>> {
    match spec_parse_json(s) {
        Some(JsonValue::Array(items)) => spec_extract_list(items@, review_item_fn()),
        _ => None,
    }
}

/// Reads the string field named `key`, cloning its text out.
fn string_field(fields: &Vec<(String, JsonValue)>, key: &str) -> (r: Option<String>)
    ensures
        r.deep_view() == spec_string_field(fields@, key@),
{
    match obj_lookup(fields, key) {
        Some(v) => match v {
            JsonValue::Text(s) => Some(s.clone()),
            _ => None,
        },
        None => None,
    }
}

/// Reads an account object's `login`.
fn login_of(item: &JsonValue) -> (r: Option<String>)
    ensures
        r.deep_view() == spec_login_of(*item),
{
    match item {
        JsonValue::Object(fields) => string_field(fields, "login"),
        _ => None,
    }
}

/// Reads the login of an object's `user` field.
fn user_login(fields: &Vec<(String, JsonValue)>) -> (r: Option<String>)
    ensures
        r.deep_view() == spec_user_login(fields@),
{
    match obj_lookup(fields, "user") {
        Some(v) => login_of(v),
        None => None,
    }
}

/// Reads a repository object's `name`.
fn repo_name(item: &JsonValue) -> (r: Option<String>)
    ensures
        r.deep_view() == spec_repo_name(*item),
{
    match item {
        JsonValue::Object(fields) => string_field(fields, "name"),
        _ => None,
    }
}

/// Reads one review event.
fn review_item(item: &JsonValue) -> (r: Option<ReviewEvent>)
    ensures
        r.deep_view() == spec_review_item(*item),
{
    match item {
        JsonValue::Object(fields) => match user_login(fields) {
            None => None,
            Some(reviewer) => match string_field(fields, "state") {
                None => None,
                Some(state) => Some(ReviewEvent { reviewer, state }),
            },
        },
        _ => None,
    }
}

/// Reads a pull request's requested-people list.
fn requested_list(fields: &Vec<(String, JsonValue)>) -> (r: Option<Vec<String>>)
    ensures
        r.deep_view() == spec_pull_requested(fields@),
{
    match obj_lookup(fields, "requested_reviewers") {
        None => {
            let out: Vec<String> = Vec::new();
            proof {
                assert(out.deep_view() =~= Seq::<Seq<char>>::empty());
            }
            Some(out)
        },
        Some(v) => match v {
            JsonValue::Array(items) => {
                let mut out: Vec<String> = Vec::new();
                let mut i: usize = 0;
                proof {
                    assert(items@.take(0) =~= Seq::<JsonValue>::empty());
                    assert(out.deep_view() =~= Seq::<Seq<char>>::empty());
                }
                while i < items.len()
                    invariant
                        i <= items@.len(),
                        spec_pull_requested(fields@) == spec_extract_list(items@, login_fn()),
                        spec_extract_list(items@.take(i as int), login_fn()) == Some(
                            out.deep_view(),
                        ),
                    decreases items@.len() - i,
                {
                    let ghost prev = out.deep_view();
                    match login_of(&items[i]) {
                        None => {
                            proof {
                                assert(spec_login_of(items@[i as int]) is None);
                                assert(login_fn()(items@[i as int]) is None);
                                lemma_extract_list_none(items@, login_fn(), i as int);
                            }
                            return None;
                        },
                        Some(name) => {
                            let ghost nv = name@;
                            out.push(name);
                            proof {
                                assert(items@.take(i + 1).drop_last() =~= items@.take(i as int));
                                assert(items@.take(i + 1).last() == items@[i as int]);
                                assert(out.deep_view() =~= prev.push(nv));
                            }
                        },
                    }
                    i = i + 1;
                }
                proof {
                    assert(items@.take(items@.len() as int) =~= items@);
                }
                Some(out)
            },
            _ => None,
        },
    }
}

/// The display id of a pull request, cloned out of its `number` field.
fn number_field(fields: &Vec<(String, JsonValue)>) -> (r: Option<String>)
    ensures
        r.deep_view() == spec_pull_number(fields@),
{
    match obj_lookup(fields, "number") {
        Some(v) => match v {
            JsonValue::Number(n) => Some(n.clone()),
            _ => None,
        },
        None => None,
    }
}

/// Reads one pull request, rejecting it when a required field is missing
/// or of the wrong shape.
fn pull_item(item: &JsonValue) -> (r: Option<PullData>)
    ensures
        r.deep_view() == spec_pull_item(*item),
{
    match item {
        JsonValue::Object(fields) => match number_field(fields) {
            None => None,
            Some(number) => match string_field(fields, "url") {
                None => None,
                Some(url) => match user_login(fields) {
                    None => None,
                    Some(author) => match requested_list(fields) {
                        None => None,
                        Some(requested) => Some(
                            PullData { number, url, author, requested_reviewers: requested },
                        ),
                    },
                },
            },
        },
        _ => None,
    }
}

/// Parses one page of the repository-list endpoint into the repository
/// names it carries.
pub fn parse_repositories(body: &str) -> (r: Option<Vec<String>>)
    ensures
        r.deep_view() == spec_parse_repositories(body@),
{
    match parse_json(body) {
        None => None,
        Some(doc) => match doc {
            JsonValue::Array(items) => {
                let mut out: Vec<String> = Vec::new();
                let mut i: usize = 0;
                proof {
                    assert(items@.take(0) =~= Seq::<JsonValue>::empty());
                    assert(out.deep_view() =~= Seq::<Seq<char>>::empty());
                }
                while i < items.len()
                    invariant
                        i <= items@.len(),
                        spec_parse_repositories(body@) == spec_extract_list(
                            items@,
                            repo_name_fn(),
                        ),
                        spec_extract_list(items@.take(i as int), repo_name_fn()) == Some(
                            out.deep_view(),
                        ),
                    decreases items@.len() - i,
                {
                    match repo_name(&items[i]) {
                        None => {
                            proof {
                                assert(repo_name_fn()(items@[i as int]) is None);
                                lemma_extract_list_none(items@, repo_name_fn(), i as int);
                            }
                            return None;
                        },
                        Some(name) => {
                            let ghost prev = out.deep_view();
                            let ghost nv = name@;
                            out.push(name);
                            proof {
                                assert(items@.take(i + 1).drop_last() =~= items@.take(i as int));
                                assert(items@.take(i + 1).last() == items@[i as int]);
                                assert(out.deep_view() =~= prev.push(nv));
                            }
                        },
                    }
                    i = i + 1;
                }
                proof {
                    assert(items@.take(items@.len() as int) =~= items@);
                }
                Some(out)
            },
            _ => None,
        },
    }
}

/// Parses one page of the pull-request-list endpoint into the pull
/// requests it carries.
pub fn parse_pulls(body: &str) -> (r: Option<Vec<PullData>>)
    ensures
        r.deep_view() == spec_parse_pulls(body@),
{
    match parse_json(body) {
        None => None,
        Some(doc) => match doc {
            JsonValue::Array(items) => {
                let mut out: Vec<PullData> = Vec::new();
                let mut i: usize = 0;
                proof {
                    assert(items@.take(0) =~= Seq::<JsonValue>::empty());
                    assert(out.deep_view() =~= Seq::<PullDataV>::empty());
                }
                while i < items.len()
                    invariant
                        i <= items@.len(),
                        spec_parse_pulls(body@) == spec_extract_list(items@, pull_item_fn()),
                        spec_extract_list(items@.take(i as int), pull_item_fn()) == Some(
                            out.deep_view(),
                        ),
                    decreases items@.len() - i,
                {
                    match pull_item(&items[i]) {
                        None => {
                            proof {
                                assert(pull_item_fn()(items@[i as int]) is None);
                                lemma_extract_list_none(items@, pull_item_fn(), i as int);
                            }
                            return None;
                        },
                        Some(pull) => {
                            let ghost prev = out.deep_view();
                            let ghost pv = pull.deep_view();
                            out.push(pull);
                            proof {
                                assert(items@.take(i + 1).drop_last() =~= items@.take(i as int));
                                assert(items@.take(i + 1).last() == items@[i as int]);
                                assert(out.deep_view() =~= prev.push(pv));
                            }
                        },
                    }
                    i = i + 1;
                }
                proof {
                    assert(items@.take(items@.len() as int) =~= items@);
                }
                Some(out)
            },
            _ => None,
        },
    }
}

/// Parses one page of the review-list endpoint into the review events it
/// carries, in the order the platform reports them.
pub fn parse_reviews(body: &str) -> (r: Option<Vec<ReviewEvent>>)
    ensures
        r.deep_view() == spec_parse_reviews(body@),
{
    match parse_json(body) {
        None => None,
        Some(doc) => match doc {
            JsonValue::Array(items) => {
                let mut out: Vec<ReviewEvent> = Vec::new();
                let mut i: usize = 0;
                proof {
                    assert(items@.take(0) =~= Seq::<JsonValue>::empty());
                    assert(out.deep_view() =~= Seq::<ReviewEventV>::empty());
                }
                while i < items.len()
                    invariant
                        i <= items@.len(),
                        spec_parse_reviews(body@) == spec_extract_list(items@, review_item_fn()),
                        spec_extract_list(items@.take(i as int), review_item_fn()) == Some(
                            out.deep_view(),
                        ),
                    decreases items@.len() - i,
                {
                    match review_item(&items[i]) {
                        None => {
                            proof {
                                assert(review_item_fn()(items@[i as int]) is None);
                                lemma_extract_list_none(items@, review_item_fn(), i as int);
                            }
                            return None;
                        },
                        Some(ev) => {
                            let ghost prev = out.deep_view();
                            let ghost ev_v = ev.deep_view();
                            out.push(ev);
                            proof {
                                assert(items@.take(i + 1).drop_last() =~= items@.take(i as int));
                                assert(items@.take(i + 1).last() == items@[i as int]);
                                assert(out.deep_view() =~= prev.push(ev_v));
                            }
                        },
                    }
                    i = i + 1;
                }
                proof {
                    assert(items@.take(items@.len() as int) =~= items@);
                }
                Some(out)
            },
            _ => None,
        },
    }
}

} // verus!
