use ss_crusty::adapter::{parse_file_content, recognized_format};
use ss_crusty::parser_csv::{parse_csv, parser_csv};
use ss_crusty::parser_json::parser_json;
use ss_crusty::parser_txt::{parse_txt, parser_txt};
use ss_crusty::parser_xml::parser_xml;

fn expected_urls() -> Vec<String> {
    vec![
        "https://example.com".to_string(),
        "https://en.wikipedia.org/wiki/Online_magazine".to_string(),
    ]
}

#[test]
fn json_two_urls() {
    let json = r#"{ "urls": ["https://example.com", "https://en.wikipedia.org/wiki/Online_magazine"] }"#;
    assert_eq!(parser_json(json), expected_urls());
}

#[test]
fn json_malformed_is_empty() {
    assert_eq!(parser_json("{ not json"), Vec::<String>::new());
}

#[test]
fn json_missing_key_is_empty() {
    assert_eq!(parser_json(r#"{ "links": ["https://a"] }"#), Vec::<String>::new());
}

#[test]
fn json_non_array_is_empty() {
    assert_eq!(parser_json(r#"{ "urls": "https://a" }"#), Vec::<String>::new());
}

#[test]
fn json_skips_non_string_elements() {
    let json = r#"{ "urls": ["https://a", 5, null, "https://b"] }"#;
    assert_eq!(parser_json(json), vec!["https://a".to_string(), "https://b".to_string()]);
}

#[test]
fn txt_lines_two_urls() {
    let txt = "https://example.com\r\nhttps://en.wikipedia.org/wiki/Online_magazine";
    assert_eq!(parser_txt(txt), expected_urls());
}

#[test]
fn txt_lines_trims_and_drops_blanks() {
    let txt = "  https://a  \n\n   \nhttps://b\n";
    assert_eq!(parser_txt(txt), vec!["https://a".to_string(), "https://b".to_string()]);
}

#[test]
fn txt_empty_is_empty() {
    assert_eq!(parser_txt(""), Vec::<String>::new());
}

#[test]
fn txt_semicolons_two_urls() {
    let txt = "https://example.com;https://en.wikipedia.org/wiki/Online_magazine;";
    assert_eq!(parse_txt(txt), expected_urls());
}

#[test]
fn txt_semicolons_trims_and_drops_blanks() {
    let txt = " https://a ;; ; https://b";
    assert_eq!(parse_txt(txt), vec!["https://a".to_string(), "https://b".to_string()]);
}

#[test]
fn csv_url_column() {
    let csv = "url\nhttps://example.com\nhttps://en.wikipedia.org/wiki/Online_magazine\n";
    assert_eq!(parser_csv(csv), expected_urls());
    assert_eq!(parse_csv(csv), expected_urls());
}

#[test]
fn csv_url_column_among_others() {
    let csv = "name,url\nfirst,https://a\nsecond,https://b\n";
    assert_eq!(parser_csv(csv), vec!["https://a".to_string(), "https://b".to_string()]);
}

#[test]
fn csv_without_url_column_is_empty() {
    let csv = "name,link\nfirst,https://a\n";
    assert_eq!(parser_csv(csv), Vec::<String>::new());
}

#[test]
fn csv_empty_is_empty() {
    assert_eq!(parser_csv(""), Vec::<String>::new());
}

#[test]
fn xml_two_urls() {
    let xml = "<root><url>https://example.com</url><url>https://en.wikipedia.org/wiki/Online_magazine</url></root>";
    assert_eq!(parser_xml(xml), expected_urls());
}

#[test]
fn xml_unescapes_text() {
    let xml = "<root><url>https://a?x=1&amp;y=2</url></root>";
    assert_eq!(parser_xml(xml), vec!["https://a?x=1&y=2".to_string()]);
}

#[test]
fn xml_without_url_tags_is_empty() {
    let xml = "<root><link>https://a</link></root>";
    assert_eq!(parser_xml(xml), Vec::<String>::new());
}

#[test]
fn dispatch_by_extension() {
    assert_eq!(
        parse_file_content("list.txt", "https://a\nhttps://b"),
        vec!["https://a".to_string(), "https://b".to_string()]
    );
    assert_eq!(
        parse_file_content("data/input.json", r#"{ "urls": ["https://a"] }"#),
        vec!["https://a".to_string()]
    );
    assert_eq!(
        parse_file_content("feed.xml", "<r><url>https://a</url></r>"),
        vec!["https://a".to_string()]
    );
    assert_eq!(
        parse_file_content("table.csv", "url\nhttps://a\n"),
        vec!["https://a".to_string()]
    );
}

#[test]
fn dispatch_is_case_insensitive() {
    assert_eq!(
        parse_file_content("DATA.JSON", r#"{ "urls": ["https://a"] }"#),
        vec!["https://a".to_string()]
    );
}

#[test]
fn recognized_formats() {
    assert!(recognized_format("list.txt"));
    assert!(recognized_format("dir/data.JSON"));
    assert!(recognized_format("feed.xml"));
    assert!(recognized_format("table.csv"));
    assert!(!recognized_format("notes.yaml"));
    assert!(!recognized_format("noextension"));
    assert!(!recognized_format(".txt"));
    assert!(!recognized_format("dir.txt/file"));
}

#[test]
fn dispatch_unknown_extension_is_empty() {
    assert_eq!(parse_file_content("notes.yaml", "https://a"), Vec::<String>::new());
    assert_eq!(parse_file_content("noextension", "https://a"), Vec::<String>::new());
    assert_eq!(parse_file_content(".txt", "https://a"), Vec::<String>::new());
}
