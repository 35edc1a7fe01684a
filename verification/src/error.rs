//! The failures that a run reports.

use vstd::prelude::*;

verus! {

/// `reqwest::Error`, the failure of an HTTP request; it is carried, never
/// looked into.
#[verifier::external_type_specification]
#[verifier::external_body]
pub struct ExTransportError(reqwest::Error);

/// What can go wrong between a query and the cleaned text of its pages.
#[derive(Debug)]
pub enum ScraperError {
    /// The HTTP request could not be carried out.
    RequestError(reqwest::Error),
    /// The rate limiter refused a permit.
    RateLimitError,
    /// No pattern produced text from a page.
    ExtractionError(String),
    /// The language model could not process the prompt.
    LLMError(String),
    /// The results page could not be obtained or read.
    SearchError(String),
}

} // verus!
