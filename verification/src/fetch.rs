//! Fetcher: one blocking HTTP GET per URL through a shared `reqwest`
//! client. A fetch never fails the batch: any network-layer error
//! degrades to a fixed sentinel body, so downstream steps proceed
//! uniformly.

use vstd::prelude::*;
use vstd::string::StringExecFns;
use crate::extract::{extract_links, anchor_hrefs, is_absolute_url};
use crate::text::{strict_sorted, distinct_strs};

verus! {

#[verifier::external_type_specification]
#[verifier::external_body]
pub struct ExClient(reqwest::blocking::Client);

/// The fixed body a failed fetch degrades to.
pub open spec fn fetch_failure_sentinel() -> Seq<char> {
    "Failed to fetch"@
}

/// Relies on reqwest's blocking `Client::get`, `RequestBuilder::send`
/// and `Response::text`: performs one HTTP GET for `url`. Nothing is
/// promised of the outcome, which depends on the network; any error on
/// the way to the decoded body comes back as `None`.
#[verifier::external_body]
fn http_get_text(client: &reqwest::blocking::Client, url: &str) -> (body: Option<String>) {
    match client.get(url).send().and_then(|resp| resp.text()) {
        Ok(text) => Some(text),
        Err(_) => None,
    }
}

/// Turns a fetch outcome into the page body: the response text when
/// the fetch succeeded, the failure sentinel otherwise.
pub fn body_or_sentinel(outcome: Option<String>) -> (html: String)
    ensures
        outcome matches Some(text) ==> html@ == text@,
        outcome is None ==> html@ == fetch_failure_sentinel(),
{
    match outcome {
        Some(text) => text,
        None => String::from_str("Failed to fetch"),
    }
}

/// Fetches the HTML of one URL. On any network-layer failure (bad URL,
/// DNS, refused connection, timeout, undecodable body) the result is
/// the fixed sentinel body rather than an error: one unreachable host
/// must not abort the rest of the batch. Which of the two cases
/// happened depends on the network alone, so no more is stated here;
/// [`body_or_sentinel`] carries the exact per-outcome contract.
pub fn fetch_html(client: &reqwest::blocking::Client, url: &str) -> (html: String) {
    body_or_sentinel(http_get_text(client, url))
}

/// Fetch plus extraction in one step: the returned pair holds the page
/// body (or the failure sentinel) and exactly the unique absolute
/// links of that body, sorted ascending.
pub fn fetch_and_extract(client: &reqwest::blocking::Client, url: &str) -> (r: (String, Vec<
    String,
>))
    ensures
        strict_sorted(r.1.deep_view()),
        distinct_strs(r.1.deep_view()),
        forall|s: Seq<char>| #[trigger]
            r.1.deep_view().contains(s) <==> anchor_hrefs(r.0@).contains(s) && is_absolute_url(s),
{
    let html = fetch_html(client, url);
    let links = extract_links(html.as_str());
    (html, links)
}

} // verus!
