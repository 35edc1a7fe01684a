//! The search engine's own work: the request for a results page, the
//! links found on it, and the text of a fetched page.

use crate::dom::{
    element_attrs, parse_document, parse_selector, parsed_document, parsed_selector, select,
    selected_attrs, selected_texts, Element,
};
use crate::error::ScraperError;
use crate::fetch::{step, transition, FetchAction, FetchEvent, FetchState};
use crate::order::{sorted_unique, strictly_sorted};
use crate::scraper::{joined_text, plain_text};
use crate::text::{
    begins_with, chars_of, clean, cleaned, contains, includes, pair_views, starts_with,
    str_views, string_of, string_views,
};
use crate::types::{Metadata, ScrapedContent, Timestamp};
use crate::url::{
    cleaned_url, denylist, denylisted, find_redirect_target, percent_decode, percent_encode,
    percent_encoded, redirect_target, valid_url,
};
use vstd::prelude::*;
use vstd::string::*;

verus! {

/// The address of the results page for a query: the query
/// percent-encoded, the language, and the number of results asked for.
pub open spec fn search_address(query: Seq<char>, result_count: Seq<char>) -> Seq<char> {
    "https://www.google.com/search?q="@ + percent_encoded(query) + "&hl=en&num="@ + result_count
}

/// The patterns that find the links of a results page.
pub open spec fn result_patterns() -> Seq<Seq<char>> {
    seq![
        "div.g div.yuRUbf > a"@,
        "div.tF2Cxc > div.yuRUbf > a"@,
        "div.g a[href]"@,
        "div[class='g'] a[ping]"@,
        "div.rc > a"@,
        "div.r > a"@,
        "a[data-ved]"@,
    ]
}

/// The patterns that find the text of a fetched page, in the order in
/// which they are tried.
pub open spec fn page_patterns() -> Seq<Seq<char>> {
    seq![
        "article p, article li"@,
        "div.content p, div.content li"@,
        "main p, main li"@,
        ".documentation-content"@,
        "div.markdown-body"@,
        "div.mw-parser-output p"@,
        "p, li"@,
    ]
}

/// The headers that go with every request, each with its value: those
/// of a browser that asks for a page.
pub open spec fn browser_headers() -> Seq<(Seq<char>, Seq<char>)> {
    seq![
        (
            "Accept"@,
            "text/html,application/xhtml+xml,application/xml;q=0.9,image/avif,image/webp,*/*;q=0.8"@,
        ),
        ("Accept-Language"@, "en-US,en;q=0.5"@),
        ("Accept-Encoding"@, "gzip, deflate, br"@),
        ("Connection"@, "keep-alive"@),
        ("Upgrade-Insecure-Requests"@, "1"@),
        ("Sec-Fetch-Dest"@, "document"@),
        ("Sec-Fetch-Mode"@, "navigate"@),
        ("Sec-Fetch-Site"@, "none"@),
        ("Sec-Fetch-User"@, "?1"@),
    ]
}

/// The attribute values that are there, in order.
pub open spec fn present(attrs: Seq<Option<Seq<char>>>) -> Seq<Seq<char>>
    decreases attrs.len(),
{
    if attrs.len() == 0 {
        Seq::empty()
    } else {
        match attrs.last() {
            Some(value) => present(attrs.drop_last()).push(value),
            None => present(attrs.drop_last()),
        }
    }
}

/// The `href` values of the elements that a pattern finds in a
/// document; none where the pattern does not compile.
pub open spec fn pattern_links(document: scraper::Html, pattern: Seq<char>) -> Seq<Seq<char>> {
    match parsed_selector(pattern) {
        Some(selector) => present(selected_attrs(document, selector, "href"@)),
        None => Seq::empty(),
    }
}

/// The `href` values that the patterns find in a document, pattern by
/// pattern.
pub open spec fn raw_links(document: scraper::Html, patterns: Seq<Seq<char>>) -> Seq<Seq<char>>
    decreases patterns.len(),
{
    if patterns.len() == 0 {
        Seq::empty()
    } else {
        raw_links(document, patterns.drop_last()) + pattern_links(document, patterns.last())
    }
}

/// The candidate that a raw `href` gives: its cleaned link, where there
/// is one and it is valid.
pub open spec fn candidate(href: Seq<char>) -> Option<Seq<char>> {
    match cleaned_url(href) {
        Some(url) => if valid_url(url) {
            Some(url)
        } else {
            None
        },
        None => None,
    }
}

/// Whether `url` is the candidate of one of the raw `href` values.
pub open spec fn is_candidate(hrefs: Seq<Seq<char>>, url: Seq<char>) -> bool {
    exists|i: int| 0 <= i < hrefs.len() && #[trigger] candidate(hrefs[i]) == Some(url)
}

/// The cleaned text of the first pattern that compiles and finds text
/// in the document, or `None` where no pattern does.
pub open spec fn first_text(document: scraper::Html, patterns: Seq<Seq<char>>) -> Option<
    Seq<char>,
>
    decreases patterns.len(),
{
    if patterns.len() == 0 {
        None
    } else {
        match parsed_selector(patterns[0]) {
            Some(selector) => {
                let found = plain_text(selected_texts(document, selector));
                if found.len() > 0 {
                    Some(cleaned(found))
                } else {
                    first_text(document, patterns.skip(1))
                }
            },
            None => first_text(document, patterns.skip(1)),
        }
    }
}

/// The pages among the outcomes, in order.
pub open spec fn pages_of(outcomes: Seq<Option<ScrapedContent>>) -> Seq<ScrapedContent>
    decreases outcomes.len(),
{
    if outcomes.len() == 0 {
        Seq::empty()
    } else {
        match outcomes.last() {
            Some(page) => pages_of(outcomes.drop_last()).push(page),
            None => pages_of(outcomes.drop_last()),
        }
    }
}

/// Whether one of the fetches found the rate limiter closed.
pub open spec fn limiter_closed(outcomes: Seq<Result<ScrapedContent, ScraperError>>) -> bool {
    exists|i: int| 0 <= i < outcomes.len() && (#[trigger] outcomes[i]) == Err::<
        ScrapedContent,
        ScraperError,
    >(ScraperError::RateLimitError)
}

/// The outcomes with every failure forgotten.
pub open spec fn fetched(outcomes: Seq<Result<ScrapedContent, ScraperError>>) -> Seq<
    Option<ScrapedContent>,
> {
    Seq::new(
        outcomes.len(),
        |i: int|
            match outcomes[i] {
                Ok(page) => Some(page),
                Err(_) => None,
            },
    )
}

/// The attribute values of the elements that have one, in order.
pub fn links_of(elements: &Vec<Element>) -> (links: Vec<String>)
    ensures
        string_views(links@) == present(element_attrs(elements@)),
{
    let mut links: Vec<String> = Vec::new();
    let mut i: usize = 0;
    proof {
        assert(string_views(links@) =~= Seq::<Seq<char>>::empty());
    }
    while i < elements.len()
        invariant
            i <= elements.len(),
            string_views(links@) == present(element_attrs(elements@).take(i as int)),
        decreases elements.len() - i,
    {
        proof {
            let all = element_attrs(elements@);
            assert(all.take(i + 1).drop_last() =~= all.take(i as int));
        }
        match &elements[i].attr {
            Some(value) => {
                let ghost before = string_views(links@);
                links.push(value.clone());
                proof {
                    assert(string_views(links@) =~= before.push(value@));
                }
            },
            None => {},
        }
        i += 1;
    }
    proof {
        assert(element_attrs(elements@).take(elements.len() as int) =~= element_attrs(
            elements@,
        ));
    }
    links
}

/// The deciding half of the search engine: what to ask for, what a
/// results page and a fetched page hold, and when to try again. The
/// requests themselves are made by the caller.
pub struct SearchEngine {
    max_retries: u32,
}

impl SearchEngine {
    /// The most attempts that the fetch of one page may take.
    pub closed spec fn max_retries(&self) -> u32 {
        self.max_retries
    }

    /// An engine that gives the fetch of one page at most `max_retries`
    /// attempts.
    pub fn new(max_retries: u32) -> (engine: SearchEngine)
        ensures
            engine.max_retries() == max_retries,
    {
        SearchEngine { max_retries }
    }

    /// The most attempts that the fetch of one page may take.
    pub fn retry_ceiling(&self) -> (ceiling: u32)
        ensures
            ceiling == self.max_retries(),
    {
        self.max_retries
    }

    /// The headers that go with every request, each with its value.
    pub fn request_headers(&self) -> (headers: Vec<(&'static str, &'static str)>)
        ensures
            pair_views(headers@) == browser_headers(),
    {
        let headers: Vec<(&'static str, &'static str)> = vec![
            (
                "Accept",
                "text/html,application/xhtml+xml,application/xml;q=0.9,image/avif,image/webp,*/*;q=0.8",
            ),
            ("Accept-Language", "en-US,en;q=0.5"),
            ("Accept-Encoding", "gzip, deflate, br"),
            ("Connection", "keep-alive"),
            ("Upgrade-Insecure-Requests", "1"),
            ("Sec-Fetch-Dest", "document"),
            ("Sec-Fetch-Mode", "navigate"),
            ("Sec-Fetch-Site", "none"),
            ("Sec-Fetch-User", "?1"),
        ];
        proof {
            assert(pair_views(headers@) =~= browser_headers());
        }
        headers
    }

    /// The address of the results page for `query`, asking for
    /// `result_count` results.
    pub fn search_url(&self, query: &str, result_count: &str) -> (url: String)
        ensures
            url@ == search_address(query@, result_count@),
    {
        let mut url = "https://www.google.com/search?q=".to_owned();
        url.append(percent_encode(query).as_str());
        url.append("&hl=en&num=");
        url.append(result_count);
        url
    }

    /// The links of a results page, given as markup: the candidates of
    /// the `href` values that the result patterns find, sorted, each
    /// once. A page without candidates gives the empty list.
    pub fn read_results(&self, html: &str) -> (outcome: Result<Vec<String>, ScraperError>)
        ensures
            outcome matches Ok(urls) && {
                &&& strictly_sorted(string_views(urls@))
                &&& forall|url: Seq<char>|
                    string_views(urls@).contains(url) <==> is_candidate(
                        raw_links(parsed_document(html@), result_patterns()),
                        url,
                    )
                &&& forall|i: int| 0 <= i < urls.len() ==> valid_url(#[trigger] urls@[i]@)
            },
    {
        let document = parse_document(html);
        self.extract_urls(&document)
    }

    /// The links of a results page: the candidates of the `href` values
    /// that the result patterns find, sorted, each once.
    pub fn extract_urls(&self, document: &scraper::Html) -> (outcome: Result<
        Vec<String>,
        ScraperError,
    >)
        ensures
            outcome matches Ok(urls) && {
                &&& strictly_sorted(string_views(urls@))
                &&& forall|url: Seq<char>|
                    string_views(urls@).contains(url) <==> is_candidate(
                        raw_links(*document, result_patterns()),
                        url,
                    )
                &&& forall|i: int| 0 <= i < urls.len() ==> valid_url(#[trigger] urls@[i]@)
            },
    {
        let patterns: Vec<&str> = vec![
            "div.g div.yuRUbf > a",
            "div.tF2Cxc > div.yuRUbf > a",
            "div.g a[href]",
            "div[class='g'] a[ping]",
            "div.rc > a",
            "div.r > a",
            "a[data-ved]",
        ];
        proof {
            assert(str_views(patterns@) =~= result_patterns());
        }
        let mut hrefs: Vec<String> = Vec::new();
        let mut i: usize = 0;
        proof {
            assert(string_views(hrefs@) =~= Seq::<Seq<char>>::empty());
        }
        while i < patterns.len()
            invariant
                i <= patterns.len(),
                str_views(patterns@) == result_patterns(),
                string_views(hrefs@) == raw_links(*document, result_patterns().take(i as int)),
            decreases patterns.len() - i,
        {
            proof {
                let all = result_patterns();
                assert(all.take(i + 1).drop_last() =~= all.take(i as int));
                assert(all.take(i + 1).last() == patterns@[i as int]@);
            }
            let ghost before = string_views(hrefs@);
            match parse_selector(patterns[i]) {
                Some(selector) => {
                    let elements = select(document, &selector, "href");
                    let mut links = links_of(&elements);
                    let ghost added = string_views(links@);
                    hrefs.append(&mut links);
                    proof {
                        assert(string_views(hrefs@) =~= before + added);
                    }
                },
                None => {
                    proof {
                        assert(before + Seq::<Seq<char>>::empty() =~= before);
                    }
                },
            }
            i += 1;
        }
        proof {
            assert(result_patterns().take(patterns.len() as int) =~= result_patterns());
        }
        Ok(self.candidate_urls(&hrefs))
    }

    /// The candidates of the raw `href` values: sorted, each once.
    pub fn candidate_urls(&self, hrefs: &Vec<String>) -> (urls: Vec<String>)
        ensures
            strictly_sorted(string_views(urls@)),
            forall|url: Seq<char>|
                string_views(urls@).contains(url) <==> is_candidate(string_views(hrefs@), url),
            forall|i: int| 0 <= i < urls.len() ==> valid_url(#[trigger] urls@[i]@),
    {
        let mut found: Vec<String> = Vec::new();
        let mut i: usize = 0;
        while i < hrefs.len()
            invariant
                i <= hrefs.len(),
                forall|url: Seq<char>|
                    string_views(found@).contains(url) <==> is_candidate(
                        string_views(hrefs@).take(i as int),
                        url,
                    ),
            decreases hrefs.len() - i,
        {
            let ghost kept = string_views(found@);
            let ghost seen = string_views(hrefs@).take(i as int);
            let ghost next = string_views(hrefs@).take(i + 1);
            let ghost href = hrefs@[i as int]@;
            let url = self.candidate_of(hrefs[i].as_str());
            proof {
                assert(next =~= seen.push(href));
                assert forall|u: Seq<char>|
                    is_candidate(next, u) <==> (is_candidate(seen, u) || candidate(href)
                        == Some(u)) by {
                    if is_candidate(next, u) {
                        let j = choose|j: int|
                            0 <= j < next.len() && #[trigger] candidate(next[j]) == Some(u);
                        if j < i {
                            assert(candidate(seen[j]) == Some(u));
                        }
                    }
                    if is_candidate(seen, u) {
                        let j = choose|j: int|
                            0 <= j < seen.len() && #[trigger] candidate(seen[j]) == Some(u);
                        assert(candidate(next[j]) == Some(u));
                    }
                    if candidate(href) == Some(u) {
                        assert(candidate(next[i as int]) == Some(u));
                    }
                }
            }
            match url {
                Some(u) => {
                    found.push(u);
                    proof {
                        let now = string_views(found@);
                        assert(now =~= kept.push(u@));
                        assert forall|s: Seq<char>| now.contains(s) <==> (kept.contains(s) || s
                            == u@) by {
                            if now.contains(s) {
                                let j = choose|j: int| 0 <= j < now.len() && now[j] == s;
                                if j < kept.len() {
                                    assert(kept[j] == s);
                                }
                            }
                            if kept.contains(s) {
                                let j = choose|j: int| 0 <= j < kept.len() && kept[j] == s;
                                assert(now[j] == s);
                            }
                            if s == u@ {
                                assert(now[kept.len() as int] == s);
                            }
                        }
                    }
                },
                None => {},
            }
            i += 1;
        }
        proof {
            assert(string_views(hrefs@).take(hrefs.len() as int) =~= string_views(hrefs@));
        }
        let urls = sorted_unique(found);
        proof {
            assert forall|i: int| 0 <= i < urls.len() implies valid_url(
                #[trigger] urls@[i]@,
            ) by {
                let url = urls@[i]@;
                assert(string_views(urls@)[i] == url);
                assert(string_views(urls@).contains(url));
                assert(is_candidate(string_views(hrefs@), url));
            }
        }
        urls
    }

    /// The candidate that a raw `href` gives: its cleaned link, where
    /// there is one and it is valid.
    pub fn candidate_of(&self, href: &str) -> (url: Option<String>)
        ensures
            match url {
                Some(u) => candidate(href@) == Some(u@),
                None => candidate(href@) is None,
            },
    {
        match self.clean_google_url(href) {
            Some(url) => if self.is_valid_url(url.as_str()) {
                Some(url)
            } else {
                None
            },
            None => None,
        }
    }

    /// The link that a raw `href` stands for: the decoded target of a
    /// redirect link, the link itself where it begins with `http`, and
    /// nothing otherwise. A redirect target that does not decode gives
    /// nothing.
    pub fn clean_google_url(&self, url: &str) -> (cleaned: Option<String>)
        ensures
            match cleaned {
                Some(u) => cleaned_url(url@) == Some(u@),
                None => cleaned_url(url@) is None,
            },
            redirect_target(url@) is Some && !redirect_target(url@)->0.contains('%')
                ==> cleaned is Some && cleaned->0@ == redirect_target(url@)->0,
    {
        match find_redirect_target(url) {
            Some(raw) => percent_decode(raw.as_str()),
            None => {
                let link = chars_of(url);
                let scheme = chars_of("http");
                if begins_with(&link, &scheme) {
                    Some(url.to_owned())
                } else {
                    None
                }
            },
        }
    }

    /// Whether a link may be fetched: it begins with `https://`, holds
    /// no denylisted substring, and holds no `&`.
    pub fn is_valid_url(&self, url: &str) -> (valid: bool)
        ensures
            valid == valid_url(url@),
            denylisted(url@) ==> !valid,
    {
        let link = chars_of(url);
        if !begins_with(&link, &chars_of("https://")) {
            return false;
        }
        if includes(&link, &chars_of("&")) {
            return false;
        }
        let refused: Vec<&str> = vec![
            "google.com/search",
            "google.com/url",
            "google.com/imgres",
            "accounts.google",
            "webcache.googleusercontent",
            "/preferences",
            "/settings",
            "/advanced_search",
            "/setprefs",
            "javascript:",
        ];
        proof {
            assert(str_views(refused@) =~= denylist());
        }
        let mut i: usize = 0;
        while i < refused.len()
            invariant
                i <= refused.len(),
                link@ == url@,
                str_views(refused@) == denylist(),
                forall|k: int| 0 <= k < i ==> !contains(url@, denylist()[k]),
            decreases refused.len() - i,
        {
            proof {
                assert(str_views(refused@)[i as int] == refused@[i as int]@);
            }
            if includes(&link, &chars_of(refused[i])) {
                return false;
            }
            i += 1;
        }
        true
    }

    /// The text of a fetched page: the cleaned text of the first page
    /// pattern that finds text. Fails where none does.
    pub fn extract_text(&self, document: &scraper::Html) -> (outcome: Result<String, ScraperError>)
        ensures
            match outcome {
                Ok(text) => first_text(*document, page_patterns()) == Some(text@) && text@.len()
                    > 0,
                Err(error) => {
                    &&& first_text(*document, page_patterns()) is None
                    &&& error matches ScraperError::ExtractionError(message)
                    &&& message@ == "No content found"@
                },
            },
    {
        let patterns: Vec<&str> = vec![
            "article p, article li",
            "div.content p, div.content li",
            "main p, main li",
            ".documentation-content",
            "div.markdown-body",
            "div.mw-parser-output p",
            "p, li",
        ];
        proof {
            assert(str_views(patterns@) =~= page_patterns());
            assert(page_patterns().skip(0) =~= page_patterns());
        }
        let mut i: usize = 0;
        while i < patterns.len()
            invariant
                i <= patterns.len(),
                str_views(patterns@) == page_patterns(),
                first_text(*document, page_patterns()) == first_text(
                    *document,
                    page_patterns().skip(i as int),
                ),
            decreases patterns.len() - i,
        {
            proof {
                let rest = page_patterns().skip(i as int);
                assert(rest[0] == patterns@[i as int]@);
                assert(rest.skip(1) =~= page_patterns().skip(i + 1));
            }
            match parse_selector(patterns[i]) {
                Some(selector) => {
                    let elements = select(document, &selector, "href");
                    let text = joined_text(&elements);
                    if !text.as_str().is_empty() {
                        let tidy = clean(&chars_of(text.as_str()));
                        return Ok(string_of(&tidy));
                    }
                },
                None => {},
            }
            i += 1;
        }
        Err(ScraperError::ExtractionError("No content found".to_owned()))
    }

    /// What a fetched page comes to: its address, its text, no named
    /// values, and the instant of reading. Fails where no page pattern
    /// finds text in the markup.
    pub fn read_page(&self, url: &str, html: &str) -> (outcome: Result<
        ScrapedContent,
        ScraperError,
    >)
        ensures
            match outcome {
                Ok(page) => {
                    &&& first_text(parsed_document(html@), page_patterns()) == Some(
                        page.content@,
                    )
                    &&& page.content@.len() > 0
                    &&& page.url@ == url@
                    &&& page.metadata@ == Map::<Seq<char>, Seq<char>>::empty()
                    &&& page.timestamp.nanos >= 0
                },
                Err(error) => {
                    &&& first_text(parsed_document(html@), page_patterns()) is None
                    &&& error matches ScraperError::ExtractionError(message)
                    &&& message@ == "No content found"@
                },
            },
    {
        let document = parse_document(html);
        match self.extract_text(&document) {
            Ok(content) => Ok(
                ScrapedContent {
                    url: url.to_owned(),
                    content,
                    metadata: Metadata::new(),
                    timestamp: Timestamp::now(),
                },
            ),
            Err(error) => Err(error),
        }
    }

    /// The state and the action that follow an event in the fetch of
    /// one page.
    pub fn advance(&self, state: FetchState, event: FetchEvent) -> (next: (
        FetchState,
        FetchAction,
    ))
        ensures
            next == transition(self.max_retries(), state, event),
    {
        step(self.max_retries, state, event)
    }

    /// What the fetches of a run come to. Where a fetch found the rate
    /// limiter closed, the run fails with that; otherwise it gives the
    /// pages that were fetched, in order, and the fetches that failed
    /// leave nothing.
    pub fn gather(&self, outcomes: Vec<Result<ScrapedContent, ScraperError>>) -> (run: Result<
        Vec<ScrapedContent>,
        ScraperError,
    >)
        ensures
            match run {
                Ok(pages) => !limiter_closed(outcomes@) && pages@ == pages_of(
                    fetched(outcomes@),
                ),
                Err(error) => limiter_closed(outcomes@) && error is RateLimitError,
            },
    {
        let mut i: usize = 0;
        while i < outcomes.len()
            invariant
                i <= outcomes.len(),
                forall|k: int|
                    0 <= k < i ==> (#[trigger] outcomes@[k]) != Err::<ScrapedContent, ScraperError>(
                        ScraperError::RateLimitError,
                    ),
            decreases outcomes.len() - i,
        {
            match &outcomes[i] {
                Err(ScraperError::RateLimitError) => {
                    return Err(ScraperError::RateLimitError);
                },
                _ => {},
            }
            i += 1;
        }
        let ghost all = outcomes@;
        let mut options: Vec<Option<ScrapedContent>> = Vec::new();
        for outcome in it: outcomes
            invariant
                it.seq() == all,
                options@ == fetched(all).take(it.index() as int),
        {
            let ghost before = options@;
            match outcome {
                Ok(page) => {
                    options.push(Some(page));
                },
                Err(_) => {
                    options.push(None);
                },
            }
            proof {
                assert(options@ =~= fetched(all).take(it.index() + 1));
            }
        }
        proof {
            assert(fetched(all).take(all.len() as int) =~= fetched(all));
        }
        Ok(self.successes(options))
    }

    /// The pages among the outcomes of the fetches, in order; the
    /// fetches that failed leave nothing.
    pub fn successes(&self, outcomes: Vec<Option<ScrapedContent>>) -> (pages: Vec<
        ScrapedContent,
    >)
        ensures
            pages@ == pages_of(outcomes@),
    {
        let mut outcomes = outcomes;
        let ghost all = outcomes@;
        let mut pages: Vec<ScrapedContent> = Vec::new();
        let mut rest: Vec<ScrapedContent> = Vec::new();
        while outcomes.len() > 0
            invariant
                outcomes@.len() <= all.len(),
                outcomes@ == all.take(outcomes@.len() as int),
                pages_of(all) == pages_of(outcomes@) + rest@.reverse(),
            decreases outcomes.len(),
        {
            let ghost before = outcomes@;
            let last = outcomes.pop();
            proof {
                assert(outcomes@ =~= before.drop_last());
                assert(outcomes@ =~= all.take(outcomes@.len() as int));
            }
            match last {
                Some(Some(page)) => {
                    let ghost had = rest@;
                    rest.push(page);
                    proof {
                        assert(rest@.reverse() =~= seq![page] + had.reverse());
                        assert(pages_of(before.drop_last()).push(page) + had.reverse()
                            =~= pages_of(before.drop_last()) + (seq![page] + had.reverse()));
                    }
                },
                _ => {},
            }
        }
        proof {
            assert(pages_of(outcomes@) + rest@.reverse() =~= rest@.reverse());
        }
        while rest.len() > 0
            invariant
                pages@ + rest@.reverse() == pages_of(all),
            decreases rest.len(),
        {
            let ghost before = rest@;
            let ghost had = pages@;
            let page = rest.pop();
            match page {
                Some(page) => {
                    pages.push(page);
                    proof {
                        assert(rest@ =~= before.drop_last());
                        assert(before.reverse() =~= seq![page] + rest@.reverse());
                        assert(had.push(page) + rest@.reverse() =~= had + (seq![page]
                            + rest@.reverse()));
                    }
                },
                None => {},
            }
        }
        proof {
            assert(pages@ + rest@.reverse() =~= pages@);
        }
        pages
    }
}

/// No link that holds a denylisted substring is valid, whatever it
/// begins with.
pub proof fn lemma_denylisted_is_invalid(url: Seq<char>, i: int)
    requires
        0 <= i < denylist().len(),
        contains(url, denylist()[i]),
    ensures
        !valid_url(url),
{
}

/// A raw `href` that is no redirect link gives itself where it begins
/// with `http`, and nothing otherwise.
pub proof fn lemma_plain_link_cleaned(href: Seq<char>)
    requires
        redirect_target(href) is None,
    ensures
        cleaned_url(href) == if starts_with(href, "http"@) {
            Some(href)
        } else {
            None
        },
{
}

/// Every candidate begins with `https://`.
pub proof fn lemma_candidates_are_absolute(href: Seq<char>)
    requires
        candidate(href) is Some,
    ensures
        starts_with(candidate(href)->0, "https://"@),
{
}

/// The links of a results page are fixed by the page: two lists that
/// are sorted without repeats and hold the candidates of the same
/// `href` values are one list, so reading the page again, or sorting
/// the list again, changes nothing.
pub proof fn lemma_links_are_fixed(
    hrefs: Seq<Seq<char>>,
    first: Seq<Seq<char>>,
    second: Seq<Seq<char>>,
)
    requires
        strictly_sorted(first),
        strictly_sorted(second),
        forall|url: Seq<char>| first.contains(url) <==> is_candidate(hrefs, url),
        forall|url: Seq<char>| second.contains(url) <==> is_candidate(hrefs, url),
    ensures
        first == second,
{
    crate::order::lemma_strictly_sorted_unique(first, second);
}

/// A valid link that is no redirect link is its own candidate: cleaning
/// leaves it as it is.
pub proof fn lemma_valid_link_is_candidate(url: Seq<char>)
    requires
        valid_url(url),
        redirect_target(url) is None,
    ensures
        candidate(url) == Some(url),
{
    reveal_strlit("https://");
    reveal_strlit("http");
    let secure = "https://"@;
    assert(url.subrange(0, 8) == secure);
    assert forall|i: int| 0 <= i < 4 implies url[i] == "http"@[i] by {
        assert(url.subrange(0, 8)[i] == secure[i]);
    }
    assert(url.subrange(0, 4) =~= "http"@);
}

/// Finding the candidates is idempotent where no link found is itself
/// a redirect link: where `urls` are the sorted candidates of some
/// `href` values, the sorted candidates of `urls` are `urls` again.
pub proof fn lemma_candidates_idempotent(
    hrefs: Seq<Seq<char>>,
    urls: Seq<Seq<char>>,
    again: Seq<Seq<char>>,
)
    requires
        strictly_sorted(urls),
        forall|url: Seq<char>| urls.contains(url) <==> is_candidate(hrefs, url),
        forall|i: int| 0 <= i < urls.len() ==> redirect_target(#[trigger] urls[i]) is None,
        strictly_sorted(again),
        forall|url: Seq<char>| again.contains(url) <==> is_candidate(urls, url),
    ensures
        again == urls,
{
    assert forall|url: Seq<char>| again.contains(url) <==> urls.contains(url) by {
        if urls.contains(url) {
            let k = choose|k: int| 0 <= k < urls.len() && urls[k] == url;
            let i = choose|i: int|
                0 <= i < hrefs.len() && #[trigger] candidate(hrefs[i]) == Some(url);
            lemma_valid_link_is_candidate(urls[k]);
            assert(candidate(urls[k]) == Some(url));
        }
        if is_candidate(urls, url) {
            let k = choose|k: int|
                0 <= k < urls.len() && #[trigger] candidate(urls[k]) == Some(url);
            assert(urls.contains(urls[k]));
            let i = choose|i: int|
                0 <= i < hrefs.len() && #[trigger] candidate(hrefs[i]) == Some(urls[k]);
            lemma_valid_link_is_candidate(urls[k]);
        }
    }
    crate::order::lemma_strictly_sorted_unique(again, urls);
}

} // verus!
