//! The ways one aggregation run can fail.

use vstd::prelude::*;
use vstd::string::StringExecFns;

verus! {

/// Failure of one aggregation run.  The run aborts on the first failure at
/// any nesting level; there is no partial-result mode.
#[derive(Debug)]
pub enum FetchError {
    /// The transport could not deliver a successful response for `url`
    /// (connection failure, timeout, or a non-2xx status).
    Transport { url: String },
    /// The response body fetched from `url` was not valid JSON, or lacked a
    /// field that the data model requires.
    Parse { url: String },
}

/// Ghost mirror of `FetchError`, over character sequences.
pub enum FetchErrorV {
    Transport { url: Seq<char> },
    Parse { url: Seq<char> },
}

impl View for FetchError {
    type V = FetchErrorV;

    open spec fn view(&self) -> FetchErrorV {
        match self {
            FetchError::Transport { url } => FetchErrorV::Transport { url: url@ },
            FetchError::Parse { url } => FetchErrorV::Parse { url: url@ },
        }
    }
}

/// The text that `FetchError::message` produces: the failing stage is named
/// by the URL that was being fetched when the run aborted.
pub open spec fn spec_message(e: FetchErrorV) -> Seq<char> {
    match e {
        FetchErrorV::Transport { url } => "Failed to fetch from "@ + url,
        FetchErrorV::Parse { url } => "Failed to parse the response from "@ + url,
    }
}

impl FetchError {
    /// A human-readable description of the failure, naming the URL whose
    /// fetch or parse aborted the run.
    pub fn message(&self) -> (r: String)
        ensures
            r@ == spec_message(self@),
    {
        match self {
            FetchError::Transport { url } => {
                let mut s = String::from_str("Failed to fetch from ");
                s.append(url.as_str());
                s
            },
            FetchError::Parse { url } => {
                let mut s = String::from_str("Failed to parse the response from ");
                s.append(url.as_str());
                s
            },
        }
    }
}

} // verus!
