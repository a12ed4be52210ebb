use web_crawler::html_parser::HtmlParser;
use web_crawler::printer::Printer;
use web_crawler::store::Store;
use web_crawler::types::{CrawlerError, HtmlPage, Link};
use web_crawler::url_filter::UrlFilter;
use web_crawler::url_scheduler::{FrontierState, UrlScheduler};

fn link(s: &str) -> Link {
    Link::parse(s).unwrap()
}

fn build_html(seed_link: &String) -> String {
    format!(
        r#"
            <html>
                <body>
                    <a href="https://example.com">Example</a>
                    <a href="/relative-path">Relative Link</a>
                    <a href="{}">Seed Link</a>
                    <a>Not the hrefs you're looking for</a>
                </body>
            </html>
        "#,
        seed_link
    )
    .to_string()
}

fn build_urls() -> Vec<Link> {
    // Dataset contains 21 links with a matching subdomain.
    let links = vec![
        "https://we83.adj.st/home?adj_t=1dj2rkno_1dxkjz95&adj_redirect=https%3A%2F%2Fexample.com%2Fsign-up&adj_engagement_type=fallback_click",
        "https://uk.trustpilot.com/review/www.example.com",
        "https://we83.adj.st/home?adj_t=1dj2rkno&adj_fallback=https%3A%2F%2Fexample.com%2Fdownload&adj_engagement_type=fallback_click",
        "https://app.adjust.com/1dxkjz95?fallback=https%3A%2F%2Fexample.com%2Fdownload&engagement_type=fallback_click",
        "https://www.psr.org.uk/app-fraud-data",
        "https://we83.adj.st/home?adj_t=1dj2rkno&adj_redirect=https%3A%2F%2Fexample.com%2Fsign-up&adj_engagement_type=fallback_click",
        "https://app.adjust.com/1dxkjz95?redirect=https%3A%2F%2Fexample.com%2Fsign-up&engagement_type=fallback_click",
        "https://example.com/help",
        "https://example.com/about",
        "https://example.com/us",
        "https://example.com/blog",
        "https://example.com/press",
        "https://web.example.com/",
        "https://example.com/investor-information",
        "https://example.com/supporting-all-our-customers",
        "https://example.com/helping-everyone-belong-at-example",
        "https://example.com/fraud",
        "https://example.com/tone-of-voice",
        "https://example.com/business-banking",
        "https://example.com/modern-slavery-statements",
        "https://example.com/faq",
        "https://example.com/legal/terms-and-conditions/",
        "https://example.com/legal/fscs-information/",
        "https://example.com/legal/privacy-notice/",
        "https://example.com/legal/cookie-notice/",
        "https://example.com/legal/browser-support-policy/",
        "https://example.com/legal/mobile-operating-system-support-policy/",
        "https://example.com/information-about-current-account-services",
        "https://example.com/service-information",
        "https://twitter.com/example",
        "https://www.instagram.com/example",
        "https://www.facebook.com/example",
        "https://www.linkedin.com/company/example",
        "https://www.youtube.com/example",
    ];
    links.iter().map(|input| link(input)).collect()
}

fn build_robots_txt() -> String {
    r#"User-agent: *
            Disallow: /docs/
            Disallow: /referral/
            Disallow: /-staging-referral/
            Disallow: /install/
            Disallow: /blog/authors/
            Disallow: /-deeplinks/"#
        .to_string()
}

fn example_filter() -> UrlFilter {
    let start_url = link("https://example.com/");
    let subdomain = start_url.host.clone().unwrap();
    UrlFilter::new(subdomain, build_robots_txt())
}

#[test]
fn insert() {
    let mut store = Store::new();
    assert!(store.insert("a".to_string()));
    assert!(store.insert("b".to_string()));
    assert!(!store.insert("a".to_string()));
}

#[test]
fn store_contains_after_insert() {
    let mut store = Store::default();
    assert!(!store.contains(&"k".to_string()));
    store.insert("k".to_string());
    assert!(store.contains(&"k".to_string()));
    assert!(!store.contains(&"K".to_string()));
}

#[test]
fn visit_new_page() {
    let mut html_parser = HtmlParser::default();
    assert!(!html_parser.visited_before(&build_html(&"https://example.com/kolo".to_string())));
    assert!(!html_parser.visited_before(&build_html(&"https://example.com/yaya".to_string())));
}

#[test]
fn visit_same_page() {
    let mut html_parser = HtmlParser::default();
    assert!(!html_parser.visited_before(&build_html(&"https://example.com/kolo".to_string())));
    assert!(html_parser.visited_before(&build_html(&"https://example.com/kolo".to_string())));
}

#[test]
fn extract_urls() {
    let seed_link = "https://example.com/toure".to_string();
    let urls = HtmlParser::extract_urls(&build_html(&seed_link));
    assert!(urls.len() == 2);
    assert!(urls.iter().any(|u| u.text == link(&seed_link).text));
}

#[test]
fn extract_urls_normalizes_and_drops_repeats() {
    let body = r#"<a href="HTTPS://Example.COM">x</a><a href="https://example.com/">y</a><a href="rel">z</a>"#;
    let urls = HtmlParser::extract_urls(body);
    assert_eq!(urls.len(), 1);
    assert_eq!(urls[0].text, "https://example.com/");
    assert_eq!(urls[0].host.as_deref(), Some("example.com"));
}

#[test]
fn collect_links_keeps_parsed_texts_once() {
    let hrefs = vec![
        "https://a.example/x".to_string(),
        "not a url".to_string(),
        "https://a.example/x".to_string(),
        "https://b.example".to_string(),
    ];
    let links = HtmlParser::collect_links(&hrefs);
    let texts: Vec<&str> = links.iter().map(|l| l.text.as_str()).collect();
    assert_eq!(texts, vec!["https://a.example/x", "https://b.example/"]);
}

#[test]
fn same_body_twice_is_duplicate_regardless_of_source() {
    let mut parser = HtmlParser::new();
    let body = r#"<a href="https://example.com/one">one</a>"#;
    let first = parser.parse(body);
    assert_eq!(first.len(), 1);
    let second = parser.parse(body);
    assert!(second.is_empty());
    assert!(parser.visited_before(body));
}

#[test]
fn filter_new_urls() {
    let mut url_filter = example_filter();
    let urls = build_urls();
    let filtered = url_filter.filter(urls);
    assert_eq!(filtered.len(), 21);
}

#[test]
fn filter_visited_urls() {
    let mut url_filter = example_filter();
    let mut urls = build_urls();
    url_filter.filter(urls.clone());

    // Add a new URL to the dataset and filter again, only this URL should be returned.
    let new_url = link("https://example.com/gonzo");
    urls.push(new_url.clone());
    let filtered = url_filter.filter(urls);
    assert_eq!(filtered.len(), 1);
    assert_eq!(filtered.into_iter().next().unwrap().text, new_url.text);
}

#[test]
fn apply_robots_txt() {
    let start_url = url::Url::parse("https://example.com/").unwrap();
    let url_filter = example_filter();

    let allow_1 = link(start_url.join("faq/").unwrap().as_str());
    let allow_2 = link("https://instagram.com/example");
    let allow_3 = link(start_url.join("legal/docs/").unwrap().as_str());
    assert!(url_filter.allowed(&allow_1));
    assert!(url_filter.allowed(&allow_2));
    assert!(url_filter.allowed(&allow_3));

    let disallow_1 = link(start_url.join("docs/").unwrap().as_str());
    let disallow_2 = link(start_url.join("docs/introduction").unwrap().as_str());
    let disallow_3 = link(start_url.join("docs/legal/").unwrap().as_str());
    assert!(!url_filter.allowed(&disallow_1));
    assert!(!url_filter.allowed(&disallow_2));
    assert!(!url_filter.allowed(&disallow_3));
}

#[test]
fn admission_needs_all_three_checks() {
    let mut f = example_filter();
    // Other host.
    assert!(!f.consider(&link("https://web.example.com/help")));
    // Disallowed by robots.txt.
    assert!(!f.consider(&link("https://example.com/docs/intro")));
    // All three hold.
    assert!(f.consider(&link("https://example.com/help")));
    // Seen before.
    assert!(!f.consider(&link("https://example.com/help")));
}

#[test]
fn off_domain_links_never_pass() {
    let mut f = example_filter();
    let mixed = vec![
        link("https://example.com/a"),
        link("https://other.org/a"),
        link("https://sub.example.com/b"),
        link("https://example.com/b"),
    ];
    let kept = f.filter(mixed);
    let texts: Vec<&str> = kept.iter().map(|l| l.text.as_str()).collect();
    assert_eq!(texts, vec!["https://example.com/a", "https://example.com/b"]);
    assert!(kept.iter().all(|l| l.host.as_deref() == Some("example.com")));
}

#[test]
fn rediscovered_url_is_refused() {
    let mut f = example_filter();
    let first = f.filter(vec![link("https://example.com/x")]);
    assert_eq!(first.len(), 1);
    // The same URL written differently normalizes to the same text.
    let again = f.filter(vec![link("https://EXAMPLE.com/x")]);
    assert!(again.is_empty());
}

#[test]
fn link_parse_rejects_relative_text() {
    assert!(matches!(Link::parse("/relative"), Err(CrawlerError::ParseError(_))));
    let l = link("HTTP://Example.com");
    assert_eq!(l.text, "http://example.com/");
    assert_eq!(l.host.as_deref(), Some("example.com"));
}

#[test]
fn page_success_class() {
    let page = |status: u16| HtmlPage { status, body: String::new() };
    assert!(page(200).is_success());
    assert!(page(299).is_success());
    assert!(!page(199).is_success());
    assert!(!page(300).is_success());
    assert!(!page(404).is_success());
}

#[test]
fn scheduler_bounds_and_states() {
    let mut s = UrlScheduler::new(2, 1);
    assert_eq!(s.state(), FrontierState::Done);
    assert!(s.send(link("https://example.com/1")).is_ok());
    assert!(s.send(link("https://example.com/2")).is_ok());
    match s.send(link("https://example.com/3")) {
        Err(CrawlerError::NotScheduled { url }) => assert_eq!(url.text, "https://example.com/3"),
        _ => panic!("a full queue must refuse"),
    }
    assert_eq!(s.state(), FrontierState::Running);
    let first = s.recv().unwrap();
    assert_eq!(first.text, "https://example.com/1");
    // The in-flight limit is one.
    assert!(s.recv().is_none());
    assert_eq!(s.active(), 1);
    s.finish();
    let second = s.recv().unwrap();
    assert_eq!(second.text, "https://example.com/2");
    assert_eq!(s.state(), FrontierState::Draining);
    s.finish();
    assert_eq!(s.state(), FrontierState::Done);
    assert_eq!(s.len(), 0);
}

#[test]
fn printer_renders_lines() {
    let url = link("https://example.com/");
    let links = vec![link("https://example.com/a"), link("https://example.com/b")];
    assert_eq!(
        Printer::render(&url, &links),
        "https://example.com/\n-- https://example.com/a\n-- https://example.com/b\n"
    );
    assert_eq!(Printer::render(&url, &Vec::new()), "https://example.com/\n");
}

#[test]
fn error_messages() {
    assert_eq!(CrawlerError::InputMalformed.message(), "please specify a single URL argument");
}

#[test]
fn hostless_link_never_matches_empty_subdomain() {
    let mut f = UrlFilter::new(String::new(), String::new());
    let hostless = link("mailto:someone@example.com");
    assert!(hostless.host.is_none());
    assert!(!f.consider(&hostless));
    assert!(f.filter(vec![hostless]).is_empty());
}
