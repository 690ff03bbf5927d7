//! Link extractor: parses a page's HTML and keeps the unique absolute
//! hyperlinks, i.e. the anchor `href` values that start with `http://`
//! or `https://`.
//!
//! The HTML parsing itself is the work of the `scraper` crate; its
//! result is named by [`anchor_hrefs`] and everything after that call
//! is verified.

use vstd::prelude::*;
use crate::text::{strict_sorted, distinct_strs, has_prefix};
use crate::normalize::{sort_dedup, lemma_contains_push};

verus! {

/// The `href` attribute values of the anchor elements of `html`, in
/// document order, as a best-effort HTML parse recovers them.
pub uninterp spec fn anchor_hrefs(html: Seq<char>) -> Seq<Seq<char>>;

/// Relies on scraper's `Html::parse_document`, `Selector::parse` and
/// `ElementRef::attr`: parses `html` with best-effort error recovery
/// and hands back the `href` attribute of every `<a>` element, in
/// document order; anchors without an `href` contribute nothing.
#[verifier::external_body]
fn collect_anchor_hrefs(html: &str) -> (hrefs: Vec<String>)
    ensures
        hrefs.deep_view() == anchor_hrefs(html@),
{
    let document = scraper::Html::parse_document(html);
    let selector = scraper::Selector::parse("a").unwrap();
    let mut hrefs = Vec::new();
    for element in document.select(&selector) {
        if let Some(href) = element.attr("href") {
            hrefs.push(href.to_string());
        }
    }
    hrefs
}

/// A link is kept only when it is absolute: its prefix is `http://` or
/// `https://`. Relative links contribute nothing.
pub open spec fn is_absolute_url(s: Seq<char>) -> bool {
    "http://"@.is_prefix_of(s) || "https://"@.is_prefix_of(s)
}

/// Decides the absolute-link rule for one href value.
pub fn is_absolute(url: &str) -> (r: bool)
    ensures
        r == is_absolute_url(url@),
{
    has_prefix(url, "http://") || has_prefix(url, "https://")
}

/// The verified tail of link extraction: given the href values an HTML
/// parse produced, keeps exactly the absolute ones, deduplicated and
/// sorted ascending.
pub fn links_from_hrefs(hrefs: &Vec<String>) -> (links: Vec<String>)
    ensures
        strict_sorted(links.deep_view()),
        distinct_strs(links.deep_view()),
        forall|s: Seq<char>| #[trigger]
            links.deep_view().contains(s) <==> hrefs.deep_view().contains(s) && is_absolute_url(s),
{
    let mut kept: Vec<String> = Vec::new();
    let n = hrefs.len();
    let mut i: usize = 0;
    while i < n
        invariant
            n == hrefs@.len(),
            i <= n,
            forall|s: Seq<char>| #[trigger]
                kept.deep_view().contains(s) <==> (exists|k: int|
                    0 <= k < i && hrefs.deep_view()[k] == s) && is_absolute_url(s),
        decreases n - i,
    {
        let ghost before = kept.deep_view();
        let ghost h = hrefs.deep_view()[i as int];
        if is_absolute(hrefs[i].as_str()) {
            kept.push(hrefs[i].clone());
            proof {
                assert(kept.deep_view() =~= before.push(h));
                assert forall|s: Seq<char>| #[trigger]
                    kept.deep_view().contains(s) <==> (before.contains(s) || s == h) by {
                    lemma_contains_push(before, h, s);
                }
            }
        }
        i += 1;
    }
    sort_dedup(&kept)
}

/// Extracts the set of unique absolute links from `html`, sorted
/// ascending for determinism. Malformed HTML is recovered from
/// best-effort by the parser; a page without anchors yields the empty
/// vector, never an error.
pub fn extract_links(html: &str) -> (links: Vec<String>)
    ensures
        strict_sorted(links.deep_view()),
        distinct_strs(links.deep_view()),
        forall|s: Seq<char>| #[trigger]
            links.deep_view().contains(s) <==> anchor_hrefs(html@).contains(s) && is_absolute_url(
                s,
            ),
{
    let hrefs = collect_anchor_hrefs(html);
    links_from_hrefs(&hrefs)
}

} // verus!
