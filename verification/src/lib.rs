//! Review-assignment aggregation for one organization on a code-hosting
//! platform.
//!
//! The library answers the question "whose review is each open pull request
//! currently waiting for, across every repository?".  It models
//! the aggregation pipeline as a state machine whose suspension points are
//! exactly the HTTP requests: a caller repeatedly asks the pipeline which URL
//! to fetch next, performs the request, and hands the raw response body back.
//! Everything between those points — payload extraction, review-state
//! reduction, assignment building and the final aggregate — is verified.

pub mod aggregate;
pub mod client;
pub mod error;
pub mod json;
pub mod payload;
pub mod pipeline;
pub mod reducer;
pub mod strutil;
pub mod urls;

pub use error::FetchError;
pub use error::FetchErrorV;
