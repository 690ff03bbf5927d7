use std::time::Duration;

use ss_crusty::adapter::parse_file_content;
use ss_crusty::cli::{get_user_agent_string, Args, UserAgent};
use ss_crusty::extract::extract_links;
use ss_crusty::fetch::{body_or_sentinel, fetch_and_extract, fetch_html};
use ss_crusty::normalize::{normalize_urls, sort_dedup};
use ss_crusty::orchestrate::process;

fn local_client() -> reqwest::blocking::Client {
    reqwest::blocking::Client::builder()
        .timeout(Duration::from_secs(2))
        .build()
        .expect("client")
}

#[test]
fn normalizer_dedups_and_sorts() {
    let literals = vec![
        "https://b.example".to_string(),
        "https://a.example".to_string(),
        "https://b.example".to_string(),
    ];
    let file_lists = vec![
        vec!["https://a.example".to_string(), "https://c.example".to_string()],
        vec![],
    ];
    assert_eq!(
        normalize_urls(&literals, &file_lists),
        vec![
            "https://a.example".to_string(),
            "https://b.example".to_string(),
            "https://c.example".to_string(),
        ]
    );
}

#[test]
fn normalizer_empty_means_nothing_to_do() {
    let none: Vec<String> = vec![];
    let no_lists: Vec<Vec<String>> = vec![];
    assert!(normalize_urls(&none, &no_lists).is_empty());
}

#[test]
fn sort_dedup_equal_keys() {
    let input = vec!["x".to_string(), "x".to_string(), "x".to_string()];
    assert_eq!(sort_dedup(&input), vec!["x".to_string()]);
    assert_eq!(sort_dedup(&Vec::new()), Vec::<String>::new());
}

#[test]
fn extract_single_absolute_link() {
    let html = r#"<a href="https://example.com">x</a>"#;
    assert_eq!(extract_links(html), vec!["https://example.com".to_string()]);
}

#[test]
fn extract_ignores_relative_hrefs() {
    let html = r#"<a href="/about">x</a>"#;
    assert_eq!(extract_links(html), Vec::<String>::new());
}

#[test]
fn extract_dedups_shared_href() {
    let html = r#"<a href="https://example.com">x</a><a href="https://example.com">y</a>"#;
    assert_eq!(extract_links(html), vec!["https://example.com".to_string()]);
}

#[test]
fn extract_keeps_http_and_https_sorted() {
    let html = r#"<a href="https://z.example">z</a><a href="http://a.example">a</a><a href="ftp://files.example">f</a><a href="//host/path">p</a><a>no href</a>"#;
    assert_eq!(
        extract_links(html),
        vec!["http://a.example".to_string(), "https://z.example".to_string()]
    );
}

#[test]
fn extract_from_sentinel_is_empty() {
    assert_eq!(extract_links("Failed to fetch"), Vec::<String>::new());
}

#[test]
fn body_or_sentinel_cases() {
    assert_eq!(body_or_sentinel(Some("<p>ok</p>".to_string())), "<p>ok</p>");
    assert_eq!(body_or_sentinel(None), "Failed to fetch");
}

#[test]
fn failed_fetch_degrades_to_sentinel() {
    let client = local_client();
    let html = fetch_html(&client, "http://127.0.0.1:1/");
    assert_eq!(html, "Failed to fetch");
    let (html, links) = fetch_and_extract(&client, "http://127.0.0.1:1/");
    assert_eq!(html, "Failed to fetch");
    assert!(links.is_empty());
}

#[test]
fn invalid_url_degrades_to_sentinel() {
    let client = local_client();
    assert_eq!(fetch_html(&client, "not a url"), "Failed to fetch");
}

#[test]
fn process_yields_one_entry_per_url() {
    let client = local_client();
    let urls = vec![
        "http://127.0.0.1:1/a".to_string(),
        "http://127.0.0.1:1/b".to_string(),
        "http://127.0.0.1:1/c".to_string(),
    ];
    let batch = process(&client, &urls);
    assert_eq!(batch.pages.len(), 3);
    for (i, page) in batch.pages.iter().enumerate() {
        assert_eq!(page.url, urls[i]);
        assert_eq!(page.html, "Failed to fetch");
        assert!(page.links.is_empty());
    }
}

#[test]
fn process_of_no_urls_is_empty() {
    let client = local_client();
    let batch = process(&client, &Vec::new());
    assert!(batch.pages.is_empty());
}

#[test]
fn csv_file_and_literal_dedup_end_to_end() {
    let csv = "url\nhttps://example.com\nhttps://en.wikipedia.org/wiki/Online_magazine\n";
    let from_file = parse_file_content("urls.csv", csv);
    let literals = vec!["https://example.com".to_string()];
    let urls = normalize_urls(&literals, &vec![from_file]);
    assert_eq!(urls.len(), 2);
    assert_eq!(
        urls,
        vec![
            "https://en.wikipedia.org/wiki/Online_magazine".to_string(),
            "https://example.com".to_string(),
        ]
    );
}

#[test]
fn user_agent_strings() {
    assert_eq!(
        get_user_agent_string(Some(&UserAgent::Mozilla)),
        "Mozilla/5.0 (Windows NT 10.0; Win64; x64) Firefox/120.0"
    );
    assert_eq!(
        get_user_agent_string(Some(&UserAgent::Webkit)),
        "AppleWebKit/605.1.15 (KHTML, like Gecko) Version/16.4 Safari/605.1.15"
    );
    assert_eq!(
        get_user_agent_string(Some(&UserAgent::Chrome)),
        "Chrome/120.0.0.0 Safari/537.36"
    );
    assert_eq!(
        get_user_agent_string(None),
        "Mozilla/5.0 (Windows NT 10.0; Win64; x64) AppleWebKit/537.36 (KHTML, like Gecko) Chrome/120.0.0.0 Safari/537.36"
    );
}

#[test]
fn args_carry_the_run_configuration() {
    let args = Args {
        urls: vec!["https://example.com".to_string()],
        file: vec!["list.txt".to_string()],
        output: "results.json".to_string(),
        user_agent: Some(UserAgent::Chrome),
        verbose: 2,
    };
    assert_eq!(args.urls.len(), 1);
    assert_eq!(args.file.len(), 1);
    assert_eq!(args.output, "results.json");
    assert_eq!(args.verbose, 2);
    assert!(matches!(args.user_agent, Some(UserAgent::Chrome)));
}
