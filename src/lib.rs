//! A same-host web crawler core: link admission, content deduplication,
//! a bounded frontier with termination detection, and the crawl state machine
//! that ties them together. Fetching pages and printing results are left to
//! the caller.
use vstd::prelude::*;

pub mod store;
pub mod crawler;
pub mod html_parser;
pub mod printer;
pub mod robots;
pub mod types;
pub mod url_filter;
pub mod url_scheduler;

verus! {

} // verus!
