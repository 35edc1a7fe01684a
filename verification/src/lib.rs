//! Retrieval of web pages for a query and their reduction to clean text.
//!
//! The crate holds what is decided and computed on the way from a query
//! to the text of the pages found: the address of the results page, the
//! links on it, the text and the named values of a fetched page, when a
//! failed fetch is tried again, and the prompt built from the pages. The
//! requests themselves are the caller's.

use vstd::prelude::*;

pub mod dom;
pub mod error;
pub mod fetch;
pub mod named;
pub mod order;
pub mod prompt;
pub mod scraper;
pub mod search;
pub mod text;
pub mod types;
pub mod url;

pub use crate::error::ScraperError;
pub use crate::types::ScrapedContent;

verus! {

/// The seconds after which a request is given up, unless set otherwise.
pub const DEFAULT_TIMEOUT_SECS: u64 = 30;

/// The number of fetches under way at once, unless set otherwise.
pub const DEFAULT_CONCURRENT_REQUESTS: usize = 5;

/// The most attempts for one page, unless set otherwise.
pub const DEFAULT_MAX_RETRIES: u32 = 3;

} // verus!
