use wrake::cli::Args;
use wrake::crawler::{CrawlError, Crawler};

fn args(url: &str, depth: u8, no_domain_filter: bool) -> Args {
    Args {
        url: url.to_string(),
        user_agent: "wrake".to_string(),
        proxy: None,
        depth,
        no_domain_filter,
        insecure_proxy: false,
    }
}

fn page(links: &[&str]) -> Option<Vec<String>> {
    Some(links.iter().map(|l| l.to_string()).collect())
}

#[test]
fn crawler_rejects_unparseable_start() {
    assert_eq!(Crawler::new(&args("not a url", 2, false)).err(), Some(CrawlError::InvalidStartUrl));
}

#[test]
fn crawler_starts_from_canonical_url() {
    let c = Crawler::new(&args("https://Example.com", 2, false)).unwrap();
    assert_eq!(c.frontier(), &vec!["https://example.com/".to_string()]);
    assert!(!c.is_done());
    assert!(c.same_domain("https://example.com/x"));
    assert!(!c.same_domain("https://other.com/x"));
}

#[test]
fn crawl_depth_zero_fetches_start_only() {
    let mut c = Crawler::new(&args("https://example.com/", 0, false)).unwrap();
    let body = r#"<a href="/a"></a><a href="/b"></a><a href="/a"></a><a href="/"></a>"#;
    let out = c.advance(vec![Some(body.to_string())]);
    assert_eq!(
        out,
        vec!["https://example.com/a".to_string(), "https://example.com/b".to_string()]
    );
    assert!(c.is_done());
    assert_eq!(c.advance(vec![]), Vec::<String>::new());
}

#[test]
fn crawl_reports_each_url_once_across_cycles() {
    let mut c = Crawler::new(&args("https://a.com/", 5, false)).unwrap();
    let first = c.advance_links(vec![page(&["https://a.com/x", "https://a.com/y", "https://a.com/x"])]);
    assert_eq!(first, vec!["https://a.com/x".to_string(), "https://a.com/y".to_string()]);
    assert_eq!(c.frontier().len(), 2);
    let second = c.advance_links(vec![
        page(&["https://a.com/y", "https://a.com/", "https://a.com/z"]),
        page(&["https://a.com/x", "https://a.com/z"]),
    ]);
    assert_eq!(second, vec!["https://a.com/z".to_string()]);
    let third = c.advance_links(vec![page(&["https://a.com/x", "https://a.com/y"])]);
    assert!(third.is_empty());
    assert!(c.is_done());
}

#[test]
fn crawl_domain_filter_reports_but_does_not_follow() {
    let mut c = Crawler::new(&args("https://a.com/", 3, false)).unwrap();
    let out = c.advance_links(vec![page(&["https://b.com/p", "https://a.com/q"])]);
    assert_eq!(out, vec!["https://b.com/p".to_string(), "https://a.com/q".to_string()]);
    assert_eq!(c.frontier(), &vec!["https://a.com/q".to_string()]);
}

#[test]
fn crawl_without_domain_filter_follows_everything() {
    let mut c = Crawler::new(&args("https://a.com/", 3, true)).unwrap();
    c.advance_links(vec![page(&["https://b.com/p", "https://a.com/q"])]);
    assert_eq!(
        c.frontier(),
        &vec!["https://b.com/p".to_string(), "https://a.com/q".to_string()]
    );
}

#[test]
fn crawl_fetch_failure_is_isolated() {
    let mut c = Crawler::new(&args("https://a.com/", 3, false)).unwrap();
    c.advance_links(vec![page(&["https://a.com/1", "https://a.com/2"])]);
    let out = c.advance(vec![None, Some(r#"<a href="/3"></a>"#.to_string())]);
    assert_eq!(out, vec!["https://a.com/3".to_string()]);
    assert_eq!(c.frontier(), &vec!["https://a.com/3".to_string()]);
    assert!(!c.is_done());
}

#[test]
fn crawl_ends_after_max_depth_plus_one_rounds() {
    let mut c = Crawler::new(&args("https://a.com/", 1, false)).unwrap();
    c.advance_links(vec![page(&["https://a.com/1"])]);
    assert!(!c.is_done());
    let out = c.advance_links(vec![page(&["https://a.com/2"])]);
    assert_eq!(out, vec!["https://a.com/2".to_string()]);
    assert!(c.is_done());
}

#[test]
fn crawl_stops_when_frontier_empties() {
    let mut c = Crawler::new(&args("https://a.com/", 9, false)).unwrap();
    let out = c.advance_links(vec![None]);
    assert!(out.is_empty());
    assert!(c.is_done());
}
