use search_engine::parser::html::{
    extract_links, extract_metadata, extract_text, info_from, join_with_space, metadata_from, page_info,
    resolve_links,
};
use search_engine::utils::url_utils::{get_domain, get_path, normalize_url, trim_trailing_slash};

#[test]
fn normalize_drops_query_fragment_and_slash() {
    assert_eq!(
        normalize_url("https://Example.com/path/?q=1#frag"),
        Some("https://example.com/path".to_string())
    );
    assert_eq!(normalize_url("https://example.com"), Some("https://example.com".to_string()));
    assert_eq!(normalize_url("not a url"), None);
    assert_eq!(normalize_url("/relative/path"), None);
}

#[test]
fn trailing_slash_removed_once() {
    assert_eq!(trim_trailing_slash("a//".to_string()), "a/");
    assert_eq!(trim_trailing_slash("a".to_string()), "a");
    assert_eq!(trim_trailing_slash(String::new()), "");
}

#[test]
fn domain_and_path() {
    assert_eq!(get_domain("https://www.wikipedia.org/wiki/Rust"), Some("www.wikipedia.org".to_string()));
    assert_eq!(get_domain("mailto:someone@example.com"), None);
    assert_eq!(get_domain("no scheme"), None);
    assert_eq!(get_path("https://a.com/x/y?z=1"), Some("/x/y".to_string()));
    assert_eq!(get_path("https://a.com"), Some("/".to_string()));
    assert_eq!(get_path("relative"), None);
}

#[test]
fn links_resolved_and_normalised() {
    let body = r#"<html><head><title>T</title></head><body>
        <a href="/x">one</a>
        <a href="http://b.com/y/#f">two</a>
        <a>no href</a>
        <a href="rel?q=2">three</a>
        <a href="https://c.com">four</a>
        </body></html>"#;
    assert_eq!(
        extract_links("https://a.com/dir/page", body),
        vec![
            "https://a.com/x".to_string(),
            "http://b.com/y".to_string(),
            "https://a.com/dir/rel".to_string(),
            "https://c.com".to_string(),
        ]
    );
}

#[test]
fn resolve_links_skips_missing_and_bad() {
    let hrefs = vec![None, Some("http//broken".to_string()), Some("page".to_string())];
    // "http//broken" starts with "http" so it is taken as absolute, and it does not parse.
    assert_eq!(resolve_links("https://a.com/", &hrefs), vec!["https://a.com/page".to_string()]);
    assert!(resolve_links("not a base", &vec![Some("page".to_string())]).is_empty());
}

#[test]
fn text_joined_with_spaces() {
    assert_eq!(join_with_space(&vec![]), "");
    assert_eq!(join_with_space(&vec!["a".to_string()]), "a");
    assert_eq!(join_with_space(&vec!["a".to_string(), "b c".to_string(), "".to_string()]), "a b c ");
    assert_eq!(extract_text("<html><body><p>Hello</p><p>World</p></body></html>"), "Hello World");
}

#[test]
fn metadata_first_title_and_description() {
    let body = r#"<html><head><title>First</title><title>Second</title>
        <meta name="description" content="About it"><meta name="description" content="Other">
        </head><body></body></html>"#;
    assert_eq!(extract_metadata(body), ("First".to_string(), "About it".to_string()));
    assert_eq!(extract_metadata("<html></html>"), (String::new(), String::new()));
    let body = r#"<html><head><meta name="description"><meta name="description" content="x"></head></html>"#;
    assert_eq!(extract_metadata(body).1, "");
}

#[test]
fn metadata_from_defaults() {
    assert_eq!(metadata_from(&vec![], &vec![]), (String::new(), String::new()));
    assert_eq!(
        metadata_from(&vec!["t".to_string()], &vec![None, Some("d".to_string())]),
        ("t".to_string(), String::new())
    );
}

#[test]
fn page_info_first_title_and_every_description() {
    let body = r#"<html><head><title>First</title><title>Second</title>
        <meta name="description" content="About it"><meta name="description">
        <meta name="description" content="Other"></head><body></body></html>"#;
    assert_eq!(
        page_info(body),
        (Some("First".to_string()), vec!["About it".to_string(), "Other".to_string()])
    );
    assert_eq!(page_info("<html><body>no head</body></html>"), (None, vec![]));
}

#[test]
fn info_from_keeps_present_descriptions() {
    assert_eq!(info_from(&vec![], &vec![None]), (None, vec![]));
    assert_eq!(
        info_from(&vec!["a".to_string(), "b".to_string()], &vec![Some("x".to_string()), None, Some("y".to_string())]),
        (Some("a".to_string()), vec!["x".to_string(), "y".to_string()])
    );
}
