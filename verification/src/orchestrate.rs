//! Parallel orchestrator: fans the normalized URL sequence out across
//! rayon's worker pool, runs fetch-then-extract for each URL, and
//! collects exactly one record per URL in input order, whatever order
//! the fetches complete in.

use vstd::prelude::*;
use rayon::iter::{IntoParallelRefIterator, ParallelIterator};
use crate::extract::{anchor_hrefs, is_absolute_url};
use crate::fetch::fetch_and_extract;
use crate::text::{strict_sorted, distinct_strs};

verus! {

/// One record per processed URL: the URL itself, the fetched body (or
/// the failure sentinel), and the unique absolute links of that body.
/// Immutable once constructed.
pub struct PageResult {
    /// The URL that was fetched.
    pub url: String,
    /// All unique absolute links extracted from the page's HTML,
    /// sorted ascending.
    pub links: Vec<String>,
    /// The raw HTML content of the page, or the failure sentinel.
    pub html: String,
}

/// A page record is well formed when its links are exactly the unique
/// absolute links of its html.
pub open spec fn page_result_wf(page: PageResult) -> bool {
    &&& strict_sorted(page.links.deep_view())
    &&& distinct_strs(page.links.deep_view())
    &&& forall|s: Seq<char>| #[trigger]
        page.links.deep_view().contains(s) <==> anchor_hrefs(page.html@).contains(s)
            && is_absolute_url(s)
}

/// The full collection of page records, ordered by the input URL
/// sequence, wrapped for serialization.
pub struct ResultBatch {
    /// One entry per input URL, in input order.
    pub pages: Vec<PageResult>,
}

/// Processes a single URL: fetch, then extract, then build the record.
pub fn process_one(client: &reqwest::blocking::Client, url: &String) -> (page: PageResult)
    ensures
        page.url@ == url@,
        page_result_wf(page),
{
    let (html, links) = fetch_and_extract(client, url.as_str());
    PageResult { url: url.clone(), links, html }
}

/// Relies on rayon's `par_iter`, `ParallelIterator::map` and `collect`
/// into `Vec`: the closure runs once per input element across the
/// worker pool, and collecting an indexed parallel iterator into a
/// `Vec` keeps the input's order. Every element of the result is one
/// return value of the verified `process_one`, whose contract gives
/// the per-page clauses stated here.
#[verifier::external_body]
fn par_map_process(client: &reqwest::blocking::Client, urls: &Vec<String>) -> (pages: Vec<
    PageResult,
>)
    ensures
        pages@.len() == urls@.len(),
        forall|i: int|
            0 <= i < urls@.len() ==> (#[trigger] pages@[i]).url@ == urls@[i]@ && page_result_wf(
                pages@[i],
            ),
{
    urls.par_iter().map(|url| process_one(client, url)).collect()
}

/// The orchestrator's contract: every URL of the input appears exactly
/// once in the output batch, at its input position, with a well-formed
/// record — no dropped and no duplicated results, independent of the
/// completion order of the workers and of any individual fetch
/// failure.
pub fn process(client: &reqwest::blocking::Client, urls: &Vec<String>) -> (batch: ResultBatch)
    ensures
        batch.pages@.len() == urls@.len(),
        forall|i: int|
            0 <= i < urls@.len() ==> (#[trigger] batch.pages@[i]).url@ == urls@[i]@
                && page_result_wf(batch.pages@[i]),
{
    ResultBatch { pages: par_map_process(client, urls) }
}

} // verus!
