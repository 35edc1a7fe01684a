use sollama::error::ScraperError;
use sollama::search::SearchEngine;
use sollama::types::{Metadata, ScrapedContent, Timestamp};
use sollama::url::find_redirect_target;

fn engine() -> SearchEngine {
    SearchEngine::new(3)
}

fn results_page() -> String {
    let anchors = [
        "https://doc.rust-lang.org/book/",
        "https://www.rust-lang.org/",
        "/url?q=https%3A%2F%2Fen.wikipedia.org%2Fwiki%2FRust&sa=U",
        "https://crates.io/",
        "https://blog.rust-lang.org/",
        "https://www.google.com/search?q=rust",
        "https://accounts.google.com/login",
    ];
    let mut page = String::from("<html><body>");
    for href in anchors {
        page.push_str(&format!(
            "<div class=\"g\"><div class=\"yuRUbf\"><a href=\"{}\" data-ved=\"x\">link</a></div></div>",
            href
        ));
    }
    page.push_str("<a href=\"/relative/path\" data-ved=\"y\">relative</a>");
    page.push_str("<a data-ved=\"z\">no href</a>");
    page.push_str("</body></html>");
    page
}

#[test]
fn search_for_rust_programming_finds_the_five_valid_links() {
    let engine = engine();
    assert_eq!(
        engine.search_url("rust programming", "5"),
        "https://www.google.com/search?q=rust%20programming&hl=en&num=5"
    );
    let valid = [
        "https://www.rust-lang.org/learn",
        "https://doc.rust-lang.org/book/",
        "https://en.wikipedia.org/wiki/Rust_(programming_language)",
        "https://github.com/rust-lang/rust",
        "https://crates.io/",
    ];
    let denylisted = [
        "https://www.google.com/search?q=rust+tutorial",
        "https://accounts.google.com/ServiceLogin",
    ];
    let mut page = String::from("<html><body><div id=\"search\">");
    for href in valid.iter().chain(denylisted.iter()) {
        page.push_str(&format!(
            "<div class=\"g\"><div class=\"yuRUbf\"><a href=\"{}\"><h3>Result</h3></a></div></div>",
            href
        ));
    }
    page.push_str("</div></body></html>");
    let urls = engine.read_results(&page).unwrap();
    assert_eq!(
        urls,
        vec![
            "https://crates.io/".to_string(),
            "https://doc.rust-lang.org/book/".to_string(),
            "https://en.wikipedia.org/wiki/Rust_(programming_language)".to_string(),
            "https://github.com/rust-lang/rust".to_string(),
            "https://www.rust-lang.org/learn".to_string(),
        ]
    );
}

#[test]
fn search_url_encodes_the_query() {
    assert_eq!(
        engine().search_url("rust programming", "5"),
        "https://www.google.com/search?q=rust%20programming&hl=en&num=5"
    );
}

#[test]
fn search_url_escapes_reserved_and_multibyte_characters() {
    assert_eq!(
        engine().search_url("a&b=c/d?é~_-.", "10"),
        "https://www.google.com/search?q=a%26b%3Dc%2Fd%3F%C3%A9~_-.&hl=en&num=10"
    );
}

#[test]
fn results_page_gives_the_valid_links_sorted_once() {
    let urls = engine().read_results(&results_page()).unwrap();
    assert_eq!(
        urls,
        vec![
            "https://blog.rust-lang.org/".to_string(),
            "https://crates.io/".to_string(),
            "https://doc.rust-lang.org/book/".to_string(),
            "https://en.wikipedia.org/wiki/Rust".to_string(),
            "https://www.rust-lang.org/".to_string(),
        ]
    );
}

#[test]
fn extract_urls_agrees_with_read_results() {
    let page = results_page();
    let document = scraper::Html::parse_document(&page);
    let from_document = engine().extract_urls(&document).unwrap();
    let from_markup = engine().read_results(&page).unwrap();
    assert_eq!(from_document, from_markup);
    assert_eq!(from_document.len(), 5);
}

#[test]
fn reading_a_results_page_twice_gives_the_same_links() {
    let page = results_page();
    let first = engine().read_results(&page).unwrap();
    let second = engine().read_results(&page).unwrap();
    assert_eq!(first, second);
    let again = engine().candidate_urls(&first);
    assert_eq!(again, first);
}

#[test]
fn results_page_without_links_gives_none() {
    let urls = engine()
        .read_results("<html><body><p>nothing here</p></body></html>")
        .unwrap();
    assert!(urls.is_empty());
}

#[test]
fn candidate_urls_sorts_and_drops_repeats() {
    let hrefs: Vec<String> = [
        "https://b.example/",
        "https://a.example/",
        "https://b.example/",
        "http://insecure.example/",
        "https://a.example/path?x=1&y=2",
        "/url?q=https://a.example/",
        "https://B.example/",
        "ftp://c.example/",
    ]
    .iter()
    .map(|s| s.to_string())
    .collect();
    assert_eq!(
        engine().candidate_urls(&hrefs),
        vec![
            "https://B.example/".to_string(),
            "https://a.example/".to_string(),
            "https://b.example/".to_string(),
        ]
    );
    assert!(engine().candidate_urls(&Vec::new()).is_empty());
}

#[test]
fn candidate_of_cleans_then_validates() {
    let engine = engine();
    assert_eq!(
        engine.candidate_of("/url?q=https%3A%2F%2Fexample.com%2Fa&sa=U"),
        Some("https://example.com/a".to_string())
    );
    assert_eq!(engine.candidate_of("/url?q=http%3A%2F%2Fexample.com"), None);
    assert_eq!(engine.candidate_of("https://example.com/settings"), None);
    assert_eq!(engine.candidate_of("relative"), None);
}

#[test]
fn clean_google_url_decodes_redirect_targets() {
    let engine = engine();
    assert_eq!(
        engine.clean_google_url("/url?q=https%3A%2F%2Fexample.com%2Fa%20b&sa=U&ved=1"),
        Some("https://example.com/a b".to_string())
    );
    assert_eq!(
        engine.clean_google_url("https://www.google.com/url?sa=t&q=https://example.com/"),
        Some("https://example.com/".to_string())
    );
    assert_eq!(engine.clean_google_url("/url?q=plain"), Some("plain".to_string()));
}

#[test]
fn clean_google_url_gives_nothing_for_an_undecodable_target() {
    assert_eq!(engine().clean_google_url("/url?q=%FF%FE"), None);
}

#[test]
fn clean_google_url_keeps_absolute_links() {
    let engine = engine();
    assert_eq!(
        engine.clean_google_url("https://example.com/x%20y"),
        Some("https://example.com/x%20y".to_string())
    );
    assert_eq!(
        engine.clean_google_url("http://example.com"),
        Some("http://example.com".to_string())
    );
    assert_eq!(
        engine.clean_google_url("https://example.com/url?a=1"),
        Some("https://example.com/url?a=1".to_string())
    );
}

#[test]
fn clean_google_url_drops_relative_links() {
    let engine = engine();
    assert_eq!(engine.clean_google_url("/search?q=rust"), None);
    assert_eq!(engine.clean_google_url("#top"), None);
    assert_eq!(engine.clean_google_url(""), None);
    assert_eq!(engine.clean_google_url("/url?sa=U"), None);
}

#[test]
fn redirect_target_is_what_follows_q_in_the_first_q_segment() {
    assert_eq!(
        find_redirect_target("/url?q=one&q=two"),
        Some("one".to_string())
    );
    assert_eq!(
        find_redirect_target("/url?sa=U&q=aq=b"),
        Some("aq=b".to_string())
    );
    assert_eq!(
        find_redirect_target("https://www.google.com/url?q=https%3A%2F%2Fexample.com%2F&sa=U"),
        Some("https%3A%2F%2Fexample.com%2F".to_string())
    );
    assert_eq!(find_redirect_target("/url?q="), Some(String::new()));
    assert_eq!(find_redirect_target("/url?/url?q=x"), None);
    assert_eq!(find_redirect_target("/url?sa=U&xq=1"), None);
    assert_eq!(find_redirect_target("https://example.com/?q=x"), None);
}

#[test]
fn redirect_wrapper_inside_an_absolute_link_is_unwrapped() {
    let engine = engine();
    assert_eq!(
        engine.clean_google_url("https://www.google.com/url?q=https%3A%2F%2Fexample.com%2F&sa=U"),
        Some("https://example.com/".to_string())
    );
    assert_eq!(
        engine.candidate_of("https://www.google.com/url?q=https%3A%2F%2Fexample.com%2F&sa=U"),
        Some("https://example.com/".to_string())
    );
}

#[test]
fn is_valid_url_wants_the_secure_scheme() {
    let engine = engine();
    assert!(engine.is_valid_url("https://example.com/page"));
    assert!(!engine.is_valid_url("http://example.com/page"));
    assert!(!engine.is_valid_url("ftp://example.com"));
    assert!(!engine.is_valid_url("example.com https://"));
    assert!(!engine.is_valid_url(""));
    assert!(engine.is_valid_url("https://"));
}

#[test]
fn is_valid_url_rejects_every_denylisted_substring() {
    let engine = engine();
    for pattern in [
        "google.com/search",
        "google.com/url",
        "google.com/imgres",
        "accounts.google",
        "webcache.googleusercontent",
        "/preferences",
        "/settings",
        "/advanced_search",
        "/setprefs",
        "javascript:",
    ] {
        assert!(!engine.is_valid_url(&format!("https://host.example/{}", pattern)));
        assert!(!engine.is_valid_url(&format!("http://host.example/{}", pattern)));
        assert!(!engine.is_valid_url(pattern));
    }
}

#[test]
fn is_valid_url_rejects_an_ampersand() {
    let engine = engine();
    assert!(!engine.is_valid_url("https://example.com/?a=1&b=2"));
    assert!(engine.is_valid_url("https://example.com/?a=1"));
}

#[test]
fn extract_text_takes_the_first_pattern_with_text() {
    let html = r#"<html><body>
            <article><p> </p></article>
            <main><p>Main one</p><li>Main  two</li></main>
            <p>Loose</p>
        </body></html>"#;
    let document = scraper::Html::parse_document(html);
    assert_eq!(engine().extract_text(&document).unwrap(), "Main one\nMain two");
}

#[test]
fn extract_text_fails_without_text() {
    let document = scraper::Html::parse_document("<html><body><div>no paragraph</div></body></html>");
    match engine().extract_text(&document) {
        Err(ScraperError::ExtractionError(message)) => assert_eq!(message, "No content found"),
        other => panic!("unexpected outcome: {:?}", other),
    }
}

#[test]
fn read_page_gives_the_record() {
    let page = engine()
        .read_page(
            "https://example.com/a",
            "<html><body><article><p>Hello</p><p>World</p></article></body></html>",
        )
        .unwrap();
    assert_eq!(page.url, "https://example.com/a");
    assert_eq!(page.content, "Hello\nWorld");
    assert!(page.metadata.is_empty());
    assert!(page.timestamp.nanos > 0);
}

#[test]
fn read_page_fails_on_an_empty_page() {
    let outcome = engine().read_page("https://example.com/a", "");
    assert!(matches!(outcome, Err(ScraperError::ExtractionError(_))));
}

#[test]
fn successes_keeps_the_pages_in_order() {
    let page = |url: &str| ScrapedContent {
        url: url.to_string(),
        content: "text".to_string(),
        metadata: Metadata::new(),
        timestamp: Timestamp { nanos: 0 },
    };
    let outcomes = vec![
        None,
        Some(page("https://one.example")),
        None,
        Some(page("https://two.example")),
        Some(page("https://three.example")),
        None,
    ];
    let pages = engine().successes(outcomes);
    let urls: Vec<&str> = pages.iter().map(|p| p.url.as_str()).collect();
    assert_eq!(
        urls,
        vec!["https://one.example", "https://two.example", "https://three.example"]
    );
    assert!(engine().successes(vec![None, None]).is_empty());
    assert!(engine().successes(Vec::new()).is_empty());
}

#[test]
fn gather_drops_failures_and_keeps_the_order() {
    let page = |url: &str| ScrapedContent {
        url: url.to_string(),
        content: "text".to_string(),
        metadata: Metadata::new(),
        timestamp: Timestamp { nanos: 0 },
    };
    let outcomes = vec![
        Err(ScraperError::ExtractionError("No content found".to_string())),
        Ok(page("https://one.example")),
        Err(ScraperError::SearchError("x".to_string())),
        Ok(page("https://two.example")),
    ];
    let pages = engine().gather(outcomes).unwrap();
    let urls: Vec<&str> = pages.iter().map(|p| p.url.as_str()).collect();
    assert_eq!(urls, vec!["https://one.example", "https://two.example"]);
    assert!(engine().gather(Vec::new()).unwrap().is_empty());
    let all_failed = vec![Err(ScraperError::LLMError("x".to_string()))];
    assert!(engine().gather(all_failed).unwrap().is_empty());
}

#[test]
fn gather_fails_where_the_limiter_was_closed() {
    let page = ScrapedContent {
        url: "https://one.example".to_string(),
        content: "text".to_string(),
        metadata: Metadata::new(),
        timestamp: Timestamp { nanos: 0 },
    };
    let outcomes = vec![Ok(page), Err(ScraperError::RateLimitError)];
    assert!(matches!(
        engine().gather(outcomes),
        Err(ScraperError::RateLimitError)
    ));
}

#[test]
fn page_is_read_at_an_instant_after_the_epoch() {
    let page = engine()
        .read_page("https://example.com/a", "<html><body><p>One   two</p></body></html>")
        .unwrap();
    assert_eq!(page.content, "One two");
    assert!(page.timestamp.nanos >= 0);
}

#[test]
fn retry_ceiling_is_what_was_given() {
    assert_eq!(SearchEngine::new(7).retry_ceiling(), 7);
}

#[test]
fn request_headers_are_those_of_a_browser() {
    let headers = engine().request_headers();
    assert_eq!(headers.len(), 9);
    assert_eq!(
        headers[0],
        (
            "Accept",
            "text/html,application/xhtml+xml,application/xml;q=0.9,image/avif,image/webp,*/*;q=0.8"
        )
    );
    assert_eq!(headers[1], ("Accept-Language", "en-US,en;q=0.5"));
    assert_eq!(headers[2], ("Accept-Encoding", "gzip, deflate, br"));
    assert_eq!(headers[3], ("Connection", "keep-alive"));
    assert_eq!(headers[4], ("Upgrade-Insecure-Requests", "1"));
    assert_eq!(headers[5], ("Sec-Fetch-Dest", "document"));
    assert_eq!(headers[6], ("Sec-Fetch-Mode", "navigate"));
    assert_eq!(headers[7], ("Sec-Fetch-Site", "none"));
    assert_eq!(headers[8], ("Sec-Fetch-User", "?1"));
}
