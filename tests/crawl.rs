use web_crawler::crawler::{Crawler, MAX_CONCURRENCY};
use web_crawler::robots::robots_rules_from;
use web_crawler::types::{CrawlerError, HtmlPage, Link};
use web_crawler::url_scheduler::FrontierState;

const BASE: &str = "http://site.test";

fn link(s: &str) -> Link {
    Link::parse(s).unwrap()
}

fn robots_txt() -> String {
    r#"User-agent: *
                        Disallow: /docs/
                        Disallow: /referral/
                        Disallow: /-staging-referral/
                        Disallow: /install/
                        Disallow: /blog/authors/
                        Disallow: /-deeplinks/"#
        .to_string()
}

fn anchors(paths: &[&str]) -> String {
    let mut body = String::from("<html><body>");
    for p in paths {
        body.push_str(&format!(r#"<a href="{}{}">{}</a>"#, BASE, p, p));
    }
    body.push_str("</body></html>");
    body
}

/// The mocked site: a fixed answer per path; unknown paths give 404.
fn serve(url: &Link) -> Option<HtmlPage> {
    let path = &url.text[BASE.len()..];
    let (status, body) = match path {
        "/" => (200, anchors(&["/a", "/b", "/c", "/docs"])),
        "/a" => (200, anchors(&["/b", "/e", "/f", "/referral"])),
        "/b" => (200, "<html><body>Exciting content</body></html>".to_string()),
        "/f" => (404, "<html><body>Not found</body></html>".to_string()),
        _ => (404, String::new()),
    };
    Some(HtmlPage { status, body })
}

/// Runs a crawl to the end with a fetch function; returns the fetched texts.
fn drive(crawler: &mut Crawler, fetch: &dyn Fn(&Link) -> Option<HtmlPage>) -> Vec<String> {
    let mut fetched = Vec::new();
    let mut in_flight: Vec<Link> = Vec::new();
    loop {
        while let Some(u) = crawler.next_url() {
            in_flight.push(u);
        }
        assert!(crawler.active() <= MAX_CONCURRENCY);
        match in_flight.pop() {
            Some(u) => {
                fetched.push(u.text.clone());
                crawler.complete(fetch(&u));
            }
            None => break,
        }
    }
    fetched
}

#[test]
fn end_to_end() {
    let seed = link(&format!("{}/", BASE));
    let mut crawler = Crawler::new(seed, robots_txt()).unwrap();
    let fetched = drive(&mut crawler, &serve);
    assert!(crawler.is_done());
    assert_eq!(crawler.state(), FrontierState::Done);
    for p in ["/", "/a", "/b", "/c", "/e", "/f"] {
        let t = format!("{}{}", BASE, p);
        assert_eq!(fetched.iter().filter(|f| **f == t).count(), 1, "{}", t);
    }
}

#[test]
fn error_status_contributes_no_links() {
    let seed = link(&format!("{}/f", BASE));
    let mut crawler = Crawler::new(seed, String::new()).unwrap();
    let u = crawler.next_url().unwrap();
    let found = crawler.complete(serve(&u));
    assert!(found.is_none());
    assert!(crawler.is_done());
}

#[test]
fn failed_fetch_contributes_no_links() {
    let mut crawler = Crawler::new(link(BASE), String::new()).unwrap();
    crawler.next_url().unwrap();
    assert!(crawler.complete(None).is_none());
    assert!(crawler.is_done());
}

#[test]
fn seed_without_host_is_refused() {
    let seed = link("mailto:someone@site.test");
    assert!(seed.host.is_none());
    match Crawler::new(seed.clone(), String::new()) {
        Err(CrawlerError::SubdomainError { url }) => assert_eq!(url.text, seed.text),
        _ => panic!("a seed without a host must be refused"),
    }
    assert!(matches!(Crawler::check_seed(seed), Err(CrawlerError::SubdomainError { .. })));
}

#[test]
fn link_back_to_seed_is_not_fetched_again() {
    let mut crawler = Crawler::new(link(&format!("{}/", BASE)), String::new()).unwrap();
    let fetched = drive(&mut crawler, &|u: &Link| {
        Some(HtmlPage { status: 200, body: anchors(&["/", "/x"]) + &u.text })
    });
    assert_eq!(fetched.len(), 2);
    assert!(crawler.is_done());
}

#[test]
fn mirrored_content_is_processed_once() {
    let mut crawler = Crawler::new(link(&format!("{}/", BASE)), String::new()).unwrap();
    // Every page serves the same body, linking to two more URLs.
    let fetched = drive(&mut crawler, &|_u: &Link| {
        Some(HtmlPage { status: 200, body: anchors(&["/p", "/q"]) })
    });
    // The seed's body yields /p and /q; their identical bodies yield nothing.
    assert_eq!(fetched.len(), 3);
}

#[test]
fn concurrency_never_exceeds_limit() {
    let seed = link(&format!("{}/", BASE));
    let mut crawler = Crawler::with_limits(seed, String::new(), 100, 2).unwrap();
    let first = crawler.next_url().unwrap();
    let found = crawler
        .complete(Some(HtmlPage { status: 200, body: anchors(&["/1", "/2", "/3", "/4", "/5"]) }))
        .unwrap();
    assert_eq!(found.len(), 5);
    assert!(first.text.ends_with('/'));
    assert!(crawler.next_url().is_some());
    assert!(crawler.next_url().is_some());
    assert!(crawler.next_url().is_none());
    assert_eq!(crawler.active(), 2);
    crawler.complete(None);
    assert!(crawler.next_url().is_some());
    assert!(crawler.next_url().is_none());
}

#[test]
fn full_frontier_keeps_overflow_waiting() {
    let seed = link(&format!("{}/", BASE));
    let mut crawler = Crawler::with_limits(seed, String::new(), 2, 4).unwrap();
    crawler.next_url().unwrap();
    let found = crawler
        .complete(Some(HtmlPage { status: 200, body: anchors(&["/1", "/2", "/3"]) }))
        .unwrap();
    assert_eq!(found.len(), 3);
    let mut handed = Vec::new();
    while let Some(u) = crawler.next_url() {
        handed.push(u.text);
    }
    let want: Vec<String> = ["/1", "/2", "/3"].iter().map(|p| format!("{}{}", BASE, p)).collect();
    assert_eq!(handed, want);
}

#[test]
fn off_domain_links_are_not_emitted() {
    let mut crawler = Crawler::new(link(&format!("{}/", BASE)), String::new()).unwrap();
    crawler.next_url().unwrap();
    let body = r#"<a href="http://site.test/in">in</a><a href="http://elsewhere.test/out">out</a><a href="http://www.site.test/sib">sib</a>"#;
    let found = crawler.complete(Some(HtmlPage { status: 200, body: body.to_string() })).unwrap();
    let texts: Vec<&str> = found.iter().map(|l| l.text.as_str()).collect();
    assert_eq!(texts, vec!["http://site.test/in"]);
}

#[test]
fn duplicate_content_contributes_no_links() {
    let mut crawler = Crawler::new(link(&format!("{}/", BASE)), String::new()).unwrap();
    let body = anchors(&["/x"]);
    crawler.next_url().unwrap();
    let first = crawler.complete(Some(HtmlPage { status: 200, body: body.clone() })).unwrap();
    assert_eq!(first.len(), 1);
    crawler.next_url().unwrap();
    let second = crawler.complete(Some(HtmlPage { status: 200, body })).unwrap();
    assert!(second.is_empty());
    assert!(crawler.is_done());
}

#[test]
fn robots_fallback_allows_everything() {
    assert_eq!(robots_rules_from(None), "");
    assert_eq!(robots_rules_from(Some(HtmlPage { status: 404, body: "Disallow: /".to_string() })), "");
    let kept = robots_rules_from(Some(HtmlPage { status: 200, body: robots_txt() }));
    assert_eq!(kept, robots_txt());
    // With no rules every path may be fetched.
    let mut crawler = Crawler::new(link(&format!("{}/", BASE)), robots_rules_from(None)).unwrap();
    crawler.next_url().unwrap();
    let found = crawler
        .complete(Some(HtmlPage { status: 200, body: anchors(&["/docs/a", "/referral/b"]) }))
        .unwrap();
    assert_eq!(found.len(), 2);
}

#[test]
fn long_robots_lines_are_cut() {
    let mut body = "a".repeat(16663);
    body.push_str("\u{20ac}\n\u{e9}\nDisallow: /x/\n");
    let rules = web_crawler::robots::robots_rules(&body);
    let lines: Vec<&str> = rules.split('\n').collect();
    assert_eq!(lines[0], "a".repeat(web_crawler::robots::MATCHER_LINE_LIMIT));
    assert_eq!(lines[1], "\u{e9}");
    assert_eq!(lines[2], "Disallow: /x/");
    let mut crawler = Crawler::new(link(&format!("{}/", BASE)), body).unwrap();
    crawler.next_url().unwrap();
    let found = crawler.complete(Some(HtmlPage { status: 200, body: anchors(&["/y"]) })).unwrap();
    assert_eq!(found.len(), 1);
}

#[test]
fn long_ascii_robots_line_is_kept_whole() {
    let mut body = String::from("User-agent: *\nDisallow: /");
    body.push_str(&"p".repeat(5000));
    body.push('\n');
    assert_eq!(web_crawler::robots::robots_rules(&body), body);
    let mut crawler = Crawler::new(link(&format!("{}/", BASE)), body).unwrap();
    crawler.next_url().unwrap();
    let long_path = format!("/{}", "p".repeat(5000));
    let found = crawler
        .complete(Some(HtmlPage { status: 200, body: anchors(&[&long_path, "/q"]) }))
        .unwrap();
    let texts: Vec<&str> = found.iter().map(|l| l.text.as_str()).collect();
    assert_eq!(texts, vec!["http://site.test/q"]);
}

#[test]
fn bytes_decide_where_a_robots_line_ends() {
    // Two-byte characters: the line is cut once it holds the limit in bytes.
    let mut body = "\u{e9}".repeat(9000);
    body.push_str("\nDisallow: /x/");
    let rules = web_crawler::robots::robots_rules(&body);
    let first = rules.split('\n').next().unwrap();
    assert_eq!(first.chars().count(), (web_crawler::robots::MATCHER_LINE_LIMIT + 1) / 2);
    assert!(rules.ends_with("\nDisallow: /x/"));
}
