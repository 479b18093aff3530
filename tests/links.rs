use reqwest::Url;
use wrake::link::{
    classify_link, find_colon, format_link, is_web_url, keep_web_url, protocol_relative_target,
    LinkKind,
};
use wrake::origin::{hosts_match, share_same_domain};
use wrake::page::{collect_links, normalize_links};
use wrake::text::{equals_ci, starts_with_ci, trim_spaces};

#[test]
fn test_format_link_relative() {
    let url = Url::parse("https://example.com").unwrap();
    for (link, expected) in [
        ("./hello", "https://example.com/hello"),
        ("/hello", "https://example.com/hello"),
        ("/hello.js", "https://example.com/hello.js"),
        ("./hello.js", "https://example.com/hello.js"),
    ] {
        let result = format_link(url.as_str(), link).unwrap();
        assert_eq!(result, expected);
    }
}

#[test]
fn test_format_link_absolute() {
    let url = Url::parse("https://example.com").unwrap();
    for (link, expected) in [
        ("//hello.com", "https://hello.com/"),
        ("//hello.com/some/path", "https://hello.com/some/path"),
        ("//hello.com/some/path/", "https://hello.com/some/path/"),
    ] {
        let result = format_link(url.as_str(), link).unwrap();
        assert_eq!(result, expected);
    }
}

#[test]
fn test_format_link_invalid() {
    let url = Url::parse("https://example.com").unwrap();
    for link in [
        "#some-anchor",
        "mailto:bob@example.com",
        "javascript:something",
        "tel:1234567",
    ] {
        let result = format_link(url.as_str(), link);
        assert!(result.is_none());
    }
}

#[test]
fn format_link_scenarios_from_a_bare_base() {
    let base = "https://example.com";
    assert_eq!(format_link(base, "./hello").unwrap(), "https://example.com/hello");
    assert_eq!(format_link(base, "/hello").unwrap(), "https://example.com/hello");
    assert_eq!(format_link(base, "//hello.com").unwrap(), "https://hello.com/");
    assert_eq!(format_link(base, "mailto:bob@example.com"), None);
    assert_eq!(format_link(base, "javascript:x"), None);
    assert_eq!(format_link(base, "#frag"), None);
    assert_eq!(format_link(base, "https://other.com/a").unwrap(), "https://other.com/a");
}

#[test]
fn format_link_merges_dot_segments() {
    let base = "https://example.com/a/b/c.html";
    assert_eq!(format_link(base, "../x").unwrap(), "https://example.com/a/x");
    assert_eq!(format_link(base, "./y/../z").unwrap(), "https://example.com/a/b/z");
    assert_eq!(format_link(base, "/root").unwrap(), "https://example.com/root");
    assert_eq!(format_link(base, "..").unwrap(), "https://example.com/a/");
}

#[test]
fn format_link_protocol_relative_keeps_page_scheme() {
    assert_eq!(format_link("http://example.com/p", "//cdn.net/x.js").unwrap(), "http://cdn.net/x.js");
}

#[test]
fn format_link_trims_and_rejects_blank_or_ambiguous() {
    let base = "https://example.com/";
    assert_eq!(format_link(base, "  /hello \n").unwrap(), "https://example.com/hello");
    assert_eq!(format_link(base, ""), None);
    assert_eq!(format_link(base, "   \t"), None);
    assert_eq!(format_link(base, "something"), None);
    assert_eq!(format_link(base, "ftp://files.example.com/a"), None);
    assert_eq!(format_link(base, "TEL:123"), None);
    assert_eq!(format_link(base, "http://exa mple.com"), None);
    assert_eq!(format_link(base, "HTTPS://Other.com/A").unwrap(), "HTTPS://Other.com/A");
}

#[test]
fn format_link_needs_a_base_with_a_scheme_for_protocol_relative() {
    assert_eq!(format_link("example.com", "//hello.com"), None);
    assert_eq!(format_link("not a url", "/hello"), None);
}

#[test]
fn classify_link_kinds() {
    assert_eq!(classify_link(""), LinkKind::Excluded);
    assert_eq!(classify_link("#top"), LinkKind::Excluded);
    assert_eq!(classify_link("Mailto:x@y.z"), LinkKind::Excluded);
    assert_eq!(classify_link("//h.com"), LinkKind::ProtocolRelative);
    assert_eq!(classify_link("/a"), LinkKind::Relative);
    assert_eq!(classify_link("./a"), LinkKind::Relative);
    assert_eq!(classify_link("../a"), LinkKind::Relative);
    assert_eq!(classify_link("."), LinkKind::Relative);
    assert_eq!(classify_link(".."), LinkKind::Relative);
    assert_eq!(classify_link("http://a.com"), LinkKind::Absolute);
    assert_eq!(classify_link("https://a.com"), LinkKind::Absolute);
    assert_eq!(classify_link("a/b"), LinkKind::Unresolvable);
    assert_eq!(classify_link("data:text/plain,x"), LinkKind::Unresolvable);
}

#[test]
fn keep_web_url_drops_other_schemes() {
    assert_eq!(keep_web_url(Some("ftp://a.com/".to_string())), None);
    assert_eq!(keep_web_url(None), None);
    assert_eq!(
        keep_web_url(Some("http://a.com/".to_string())),
        Some("http://a.com/".to_string())
    );
    assert!(is_web_url("HTTP://A.COM"));
    assert!(!is_web_url("httpx://a.com"));
}

#[test]
fn protocol_relative_target_prefixes_scheme() {
    assert_eq!(find_colon("https://a.com"), 5);
    assert_eq!(find_colon("abc"), 3);
    assert_eq!(
        protocol_relative_target("https://a.com/x", "//b.com/y"),
        Some("https://b.com/y".to_string())
    );
    assert_eq!(protocol_relative_target("nocolon", "//b.com"), None);
}

#[test]
fn text_helpers() {
    assert!(starts_with_ci("HTTPS://x", "https://"));
    assert!(!starts_with_ci("ht", "https://"));
    assert!(equals_ci("Example.COM", "example.com"));
    assert!(!equals_ci("example.com", "example.org"));
    assert_eq!(trim_spaces(" \t a b \r\n"), "a b");
    assert_eq!(trim_spaces("   "), "");
}

#[test]
fn same_origin_examples() {
    assert!(share_same_domain("https://a.com/x", "https://a.com/y"));
    assert!(!share_same_domain("https://a.com", "https://b.com"));
    assert!(share_same_domain("https://A.com/x", "http://a.COM:8080/y"));
    assert!(share_same_domain("https://user@a.com/x", "https://a.com/"));
    assert!(!share_same_domain("not a url", "not a url"));
    assert!(!share_same_domain("mailto:x@a.com", "mailto:x@a.com"));
}

#[test]
fn hosts_match_needs_both_hosts() {
    assert!(hosts_match(&Some("A.com".to_string()), &Some("a.COM".to_string())));
    assert!(!hosts_match(&None, &Some("a.com".to_string())));
    assert!(!hosts_match(&None, &None));
    assert!(!hosts_match(&Some("a.com".to_string()), &Some("b.com".to_string())));
}

#[test]
fn collect_links_reads_anchors_scripts_and_stylesheets() {
    let html = r#"<html><head><link rel="stylesheet" href="/s.css"><script src="app.js"></script>
        <script src="./main.js"></script></head><body><a href="/a">A</a><a>none</a>
        <a href="mailto:x@y.z">m</a><a href="https://other.com/o">o</a></body></html>"#;
    let links = collect_links("https://example.com/dir/", html);
    assert_eq!(
        links,
        vec![
            "https://example.com/a".to_string(),
            "https://other.com/o".to_string(),
            "https://example.com/dir/main.js".to_string(),
            "https://example.com/s.css".to_string(),
        ]
    );
}

#[test]
fn normalize_links_keeps_order_and_drops_rejects() {
    let raws = vec![
        Some("/b".to_string()),
        None,
        Some("#x".to_string()),
        Some("//c.org".to_string()),
    ];
    assert_eq!(
        normalize_links("https://a.com/", &raws),
        vec!["https://a.com/b".to_string(), "https://c.org/".to_string()]
    );
}
