use search_engine::parser::robots::{is_blocked, parse_robots_txt};

fn strings(v: &[&str]) -> Vec<String> {
    v.iter().map(|s| s.to_string()).collect()
}

#[test]
fn rules_for_every_agent_only() {
    let text = "User-agent: Googlebot\nDisallow: /google-only\n\nUser-agent: *\nDisallow: /private\nDisallow: /tmp/\nAllow: /public\nUser-agent: Bing\nDisallow: /bing\n";
    assert_eq!(parse_robots_txt(text), strings(&["/private", "/tmp/"]));
}

#[test]
fn rules_trimmed_and_crlf_lines() {
    let text = "  User-agent: *  \r\n   Disallow:    /a b   \r\nDisallow:\r\n";
    assert_eq!(parse_robots_txt(text), strings(&["/a b", ""]));
}

#[test]
fn every_disallow_marker_is_removed() {
    let text = "User-agent: *\nDisallow: /x/Disallow:/y";
    assert_eq!(parse_robots_txt(text), strings(&["/x//y"]));
}

#[test]
fn no_group_no_rules() {
    assert!(parse_robots_txt("").is_empty());
    assert!(parse_robots_txt("Disallow: /before-any-group\n").is_empty());
    assert!(parse_robots_txt("User-agent: Other\nDisallow: /x").is_empty());
}

#[test]
fn later_any_agent_group_reopens() {
    let text = "User-agent: *\nDisallow: /a\nUser-agent: X\nDisallow: /b\nUser-agent: *\nDisallow: /c";
    assert_eq!(parse_robots_txt(text), strings(&["/a", "/c"]));
}

#[test]
fn blocked_by_non_empty_prefix() {
    let rules = strings(&["", "/private"]);
    assert!(is_blocked(&rules, "/private/page"));
    assert!(!is_blocked(&rules, "/public"));
    assert!(!is_blocked(&strings(&[""]), "/anything"));
    assert!(is_blocked(&strings(&["/"]), "/anything"));
    assert!(!is_blocked(&Vec::new(), "/x"));
}

#[test]
fn robots_file_address() {
    assert_eq!(search_engine::parser::robots::robots_url("example.com"), "https://example.com/robots.txt");
}
