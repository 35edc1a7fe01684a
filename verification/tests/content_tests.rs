use sollama::dom::Element;
use sollama::error::ScraperError;
use sollama::scraper::{first_value, joined_text, text_of, ContentScraper};

fn element(text: &[&str], attr: Option<&str>) -> Element {
    Element {
        text: text.iter().map(|t| t.to_string()).collect(),
        attr: attr.map(|a| a.to_string()),
    }
}

#[test]
fn test_content_extraction() {
    let html = r#"
            <!DOCTYPE html>
            <html>
                <head>
                    <title>Test Page</title>
                    <meta name="description" content="Test description">
                    <meta name="author" content="Test Author">
                </head>
                <body>
                    <article>
                        <h1>Test Article</h1>
                        <p>This is a test paragraph.</p>
                        <p>This is another paragraph.</p>
                    </article>
                </body>
            </html>
        "#;

    let scraper = ContentScraper::default();
    let result = scraper.extract(html, "https://example.com").unwrap();

    assert!(result.content.contains("This is a test paragraph"));
    assert!(result.content.contains("This is another paragraph"));
    assert_eq!(result.metadata.get("title").unwrap(), "Test Page");
    assert_eq!(result.metadata.get("description").unwrap(), "Test description");
    assert_eq!(result.metadata.get("author").unwrap(), "Test Author");
}

#[test]
fn test_custom_selectors() {
    let html = r#"
            <div class="custom-content">
                <span class="special">Special content</span>
            </div>
        "#;

    let scraper = ContentScraper::new(
        vec![".custom-content .special"],
        vec![("custom", ".special")],
    );

    let result = scraper.extract(html, "https://example.com").unwrap();

    assert!(result.content.contains("Special content"));
    assert_eq!(result.metadata.get("custom").unwrap(), "Special content");
}

#[test]
fn test_empty_content() {
    let html = "<html><body></body></html>";
    let scraper = ContentScraper::default();
    let result = scraper.extract(html, "https://example.com");

    assert!(result.is_err());
    matches!(result.unwrap_err(), ScraperError::ExtractionError(_));
}

#[test]
fn extraction_failure_names_its_cause() {
    let scraper = ContentScraper::default();
    match scraper.extract("<html><body></body></html>", "https://example.com") {
        Err(ScraperError::ExtractionError(message)) => {
            assert_eq!(message, "No content found with available selectors");
        }
        other => panic!("unexpected outcome: {:?}", other),
    }
}

#[test]
fn extract_keeps_the_address_and_the_exact_text() {
    let html = "<html><body><article><p>First   line</p><p>  Second\tline </p></article></body></html>";
    let page = ContentScraper::default()
        .extract(html, "https://example.com/page")
        .unwrap();
    assert_eq!(page.url, "https://example.com/page");
    assert_eq!(page.content, "First line\nSecond line");
    assert!(page.metadata.is_empty());
    assert_eq!(page.metadata.len(), 0);
}

#[test]
fn first_pattern_with_text_wins() {
    let html = r#"<html><body>
            <article><p>From the article</p></article>
            <main><p>From main</p></main>
        </body></html>"#;
    let scraper = ContentScraper::new(vec!["main p", "article p"], vec![]);
    let page = scraper.extract(html, "https://example.com").unwrap();
    assert_eq!(page.content, "From main");

    let scraper = ContentScraper::new(vec!["article p", "main p"], vec![]);
    let page = scraper.extract(html, "https://example.com").unwrap();
    assert_eq!(page.content, "From the article");
}

#[test]
fn pattern_matching_only_empty_nodes_is_passed_over() {
    let html = r#"<html><body>
            <div class="first"><p>   </p><p></p></div>
            <div class="second"><p>Real text</p></div>
        </body></html>"#;
    let scraper = ContentScraper::new(vec![".first p", ".second p"], vec![]);
    let page = scraper.extract(html, "https://example.com").unwrap();
    assert_eq!(page.content, "Real text");
}

#[test]
fn pattern_that_does_not_compile_is_left_out() {
    let html = "<html><body><p>Only paragraph</p></body></html>";
    let scraper = ContentScraper::new(vec!["p[", "p"], vec![("broken", "]]"), ("para", "p")]);
    let page = scraper.extract(html, "https://example.com").unwrap();
    assert_eq!(page.content, "Only paragraph");
    assert!(page.metadata.get("broken").is_none());
    assert_eq!(page.metadata.get("para").unwrap(), "Only paragraph");
    assert_eq!(page.metadata.len(), 1);
}

#[test]
fn first_pattern_of_a_field_with_a_value_wins() {
    let html = r#"<html><body><p class="a">Alpha</p><p class="b">Beta</p></body></html>"#;
    let scraper = ContentScraper::new(vec!["p"], vec![("field", ".a"), ("field", ".b")]);
    let page = scraper.extract(html, "https://example.com").unwrap();
    assert_eq!(page.metadata.get("field").unwrap(), "Alpha");
    assert_eq!(page.metadata.len(), 1);

    let scraper = ContentScraper::new(
        vec!["p"],
        vec![("field", ".missing"), ("other", ".a"), ("field", ".b"), ("field", ".a")],
    );
    let page = scraper.extract(html, "https://example.com").unwrap();
    assert_eq!(page.metadata.get("field").unwrap(), "Beta");
    assert_eq!(page.metadata.get("other").unwrap(), "Alpha");
    assert_eq!(page.metadata.len(), 2);
}

#[test]
fn meta_tag_is_preferred_to_an_earlier_element_with_text() {
    let html = "<html><body><span class='author'>Text Author</span>\
<meta name='author' content='Meta Author'></body></html>";
    let document = scraper::Html::parse_document(html);
    let metadata = ContentScraper::default().extract_metadata(&document);
    assert_eq!(metadata.get("author").unwrap(), "Meta Author");
}

#[test]
fn text_is_used_where_the_meta_tag_is_missing() {
    let html = "<html><body><span class='author'>Text Author</span><time>Today</time></body></html>";
    let document = scraper::Html::parse_document(html);
    let metadata = ContentScraper::default().extract_metadata(&document);
    assert_eq!(metadata.get("author").unwrap(), "Text Author");
    assert_eq!(metadata.get("date").unwrap(), "Today");
}

#[test]
fn empty_content_attribute_leaves_the_field_out() {
    let html = "<html><head><meta name='description' content=''></head><body></body></html>";
    let document = scraper::Html::parse_document(html);
    let selector = scraper::Selector::parse("meta[name='description']").unwrap();
    let scraper = ContentScraper::default();
    assert_eq!(scraper.extract_metadata_value(&document, &selector), None);
    assert!(scraper.extract_metadata(&document).get("description").is_none());
}

#[test]
fn content_attribute_is_preferred_to_text() {
    let html = r#"<html><body>
            <p>Body</p>
            <div class="author" content="From attribute">From text</div>
        </body></html>"#;
    let scraper = ContentScraper::new(vec!["p"], vec![("author", ".author")]);
    let page = scraper.extract(html, "https://example.com").unwrap();
    assert_eq!(page.metadata.get("author").unwrap(), "From attribute");
}

#[test]
fn field_without_value_is_absent() {
    let html = r#"<html><body><p>Body</p><span class="date">   </span></body></html>"#;
    let scraper = ContentScraper::new(vec!["p"], vec![("date", ".date"), ("none", ".missing")]);
    let page = scraper.extract(html, "https://example.com").unwrap();
    assert!(page.metadata.get("date").is_none());
    assert!(page.metadata.get("none").is_none());
    assert!(page.metadata.is_empty());
}

#[test]
fn field_is_read_from_the_first_element_only() {
    let html = r#"<html><body><p>Body</p><i class="k"> </i><i class="k">Second</i></body></html>"#;
    let scraper = ContentScraper::new(vec!["p"], vec![("k", ".k")]);
    let page = scraper.extract(html, "https://example.com").unwrap();
    assert!(page.metadata.get("k").is_none());
}

#[test]
fn first_value_prefers_the_attribute() {
    let elements = vec![
        element(&["text of first"], Some("attribute of first")),
        element(&["text of second"], None),
    ];
    assert_eq!(first_value(&elements), Some("attribute of first".to_string()));
}

#[test]
fn first_value_of_an_empty_attribute_is_none() {
    let elements = vec![element(&["text"], Some(""))];
    assert_eq!(first_value(&elements), None);
}

#[test]
fn first_value_falls_back_to_trimmed_text() {
    let elements = vec![element(&["  Hello", "World \n"], None)];
    assert_eq!(first_value(&elements), Some("Hello World".to_string()));
}

#[test]
fn first_value_of_blank_text_is_none() {
    assert_eq!(first_value(&vec![element(&[" ", "\t\n"], None)]), None);
    assert_eq!(first_value(&vec![]), None);
}

#[test]
fn text_of_joins_nodes_with_a_space() {
    let chars = text_of(&element(&["a", "b", "", "c"], None));
    let text: String = chars.into_iter().collect();
    assert_eq!(text, "a b  c");
}

#[test]
fn joined_text_puts_elements_on_lines_and_trims() {
    let elements = vec![
        element(&["  "], None),
        element(&[" one"], None),
        element(&[], None),
        element(&["two", "three "], None),
        element(&["\n"], None),
    ];
    assert_eq!(joined_text(&elements), "one\n\ntwo three");
    assert_eq!(joined_text(&vec![element(&[" "], None), element(&["\t"], None)]), "");
    assert_eq!(joined_text(&vec![]), "");
}

#[test]
fn scraper_clean_text_collapses_lines() {
    let scraper = ContentScraper::default();
    assert_eq!(
        scraper.clean_text("  alpha   beta \n\n \t \ngamma\tdelta\n"),
        "alpha beta\ngamma delta"
    );
    assert_eq!(scraper.clean_text(""), "");
    assert_eq!(scraper.clean_text(" \n \n"), "");
}
