//! Fetch a batch of URLs and extract the absolute links from each page.
//!
//! The crate merges URLs given literally with URLs parsed out of input
//! files (JSON, XML, CSV or plain text), deduplicates and sorts them,
//! fetches every URL once over a shared HTTP client (degrading a failed
//! fetch to a fixed sentinel body instead of an error), extracts the
//! unique absolute links from the returned HTML, and aggregates exactly
//! one record per URL for serialization.

pub mod adapter;
pub mod cli;
pub mod extract;
pub mod fetch;
pub mod normalize;
pub mod orchestrate;
pub mod parser_csv;
pub mod parser_json;
pub mod parser_txt;
pub mod parser_xml;
pub mod text;
