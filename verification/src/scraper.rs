//! Extraction of the main text and the named values of a page.

use crate::dom::{
    element_attrs, element_texts, parse_document, parse_selector, parsed_document,
    parsed_selector, select, selected_attrs, selected_texts, Element,
};
use crate::error::ScraperError;
use crate::text::{
    chars_of, clean, cleaned, join, join_with, lemma_views_push, pair_views, str_views,
    string_of, string_views, trim, trimmed, views, white_space,
};
use crate::types::{Metadata, ScrapedContent, Timestamp};
use vstd::prelude::*;

verus! {

/// The text of one element: its text nodes with a space between each
/// two.
pub open spec fn element_text(nodes: Seq<Seq<char>>) -> Seq<char> {
    join(nodes, ' ')
}

/// The texts of the elements of a selection, in order.
pub open spec fn all_texts(texts: Seq<Seq<Seq<char>>>) -> Seq<Seq<char>> {
    Seq::new(texts.len(), |i: int| element_text(texts[i]))
}

/// The text of a selection: the texts of its elements, one per line,
/// trimmed.
pub open spec fn plain_text(texts: Seq<Seq<Seq<char>>>) -> Seq<char> {
    trimmed(join(all_texts(texts), '\n'))
}

/// The cleaned text of the first selector whose selection has text, or
/// `None` where no selector finds any.
pub open spec fn first_content(
    document: scraper::Html,
    selectors: Seq<scraper::Selector>,
) -> Option<Seq<char>>
    decreases selectors.len(),
{
    if selectors.len() == 0 {
        None
    } else {
        let found = plain_text(selected_texts(document, selectors[0]));
        if found.len() > 0 {
            Some(cleaned(found))
        } else {
            first_content(document, selectors.skip(1))
        }
    }
}

/// The value that a selection gives a field, read off its first
/// element: the attribute where the element has it, else the element's
/// trimmed text. A value that is empty is no value.
pub open spec fn metadata_value(
    texts: Seq<Seq<Seq<char>>>,
    attrs: Seq<Option<Seq<char>>>,
) -> Option<Seq<char>> {
    if texts.len() == 0 || attrs.len() == 0 {
        None
    } else {
        match attrs[0] {
            Some(value) => if value.len() > 0 {
                Some(value)
            } else {
                None
            },
            None => {
                let text = trimmed(element_text(texts[0]));
                if text.len() > 0 {
                    Some(text)
                } else {
                    None
                }
            },
        }
    }
}

/// The value that a selector gives a field of a document, read from the
/// attribute `content` or from the text.
pub open spec fn field_value(document: scraper::Html, selector: scraper::Selector) -> Option<
    Seq<char>,
> {
    metadata_value(
        selected_texts(document, selector),
        selected_attrs(document, selector, "content"@),
    )
}

/// Whether one of the patterns of the field `name` gives a value.
pub open spec fn has_value(
    document: scraper::Html,
    fields: Seq<(Seq<char>, scraper::Selector)>,
    name: Seq<char>,
) -> bool {
    exists|i: int|
        0 <= i < fields.len() && (#[trigger] fields[i]).0 == name && field_value(
            document,
            fields[i].1,
        ) is Some
}

/// The named values of a document. The patterns of a field are those
/// listed under its name, in the order of the list; the first of them
/// that gives a value gives the field's value, and a field none of
/// whose patterns gives a value is left out.
pub open spec fn metadata_of(
    document: scraper::Html,
    fields: Seq<(Seq<char>, scraper::Selector)>,
) -> Map<Seq<char>, Seq<char>>
    decreases fields.len(),
{
    if fields.len() == 0 {
        Map::empty()
    } else {
        let earlier = metadata_of(document, fields.drop_last());
        match field_value(document, fields.last().1) {
            Some(value) => if earlier.contains_key(fields.last().0) {
                earlier
            } else {
                earlier.insert(fields.last().0, value)
            },
            None => earlier,
        }
    }
}

/// The selectors of the patterns that compile, in order.
pub open spec fn compiled_all(patterns: Seq<Seq<char>>) -> Seq<scraper::Selector>
    decreases patterns.len(),
{
    if patterns.len() == 0 {
        Seq::empty()
    } else {
        match parsed_selector(patterns.last()) {
            Some(selector) => compiled_all(patterns.drop_last()).push(selector),
            None => compiled_all(patterns.drop_last()),
        }
    }
}

/// The fields whose patterns compile, each with its selector, in the
/// order given.
pub open spec fn compiled_fields(fields: Seq<(Seq<char>, Seq<char>)>) -> Seq<
    (Seq<char>, scraper::Selector),
>
    decreases fields.len(),
{
    if fields.len() == 0 {
        Seq::empty()
    } else {
        match parsed_selector(fields.last().1) {
            Some(selector) => compiled_fields(fields.drop_last()).push(
                (fields.last().0, selector),
            ),
            None => compiled_fields(fields.drop_last()),
        }
    }
}

/// The names and selectors of `v`.
pub open spec fn field_views(v: Seq<(String, scraper::Selector)>) -> Seq<
    (Seq<char>, scraper::Selector),
> {
    Seq::new(v.len(), |i: int| (v[i].0@, v[i].1))
}

/// The patterns that are tried for the main text where none are given.
pub open spec fn default_content_patterns() -> Seq<Seq<char>> {
    seq![
        "article p, article li"@,
        "div.content p, div.content li"@,
        "main p, main li"@,
        ".documentation-content"@,
        "div.markdown-body"@,
        "div.mw-parser-output p"@,
        "p, li"@,
    ]
}

/// The fields that are read where none are given, each with its
/// patterns in the order in which they are tried.
pub open spec fn default_metadata_patterns() -> Seq<(Seq<char>, Seq<char>)> {
    seq![
        ("title"@, "title"@),
        ("title"@, "h1.title"@),
        ("title"@, ".article-title"@),
        ("description"@, "meta[name='description']"@),
        ("keywords"@, "meta[name='keywords']"@),
        ("author"@, "meta[name='author']"@),
        ("author"@, ".author"@),
        ("date"@, "meta[name='date']"@),
        ("date"@, ".date"@),
        ("date"@, "time"@),
    ]
}

/// The text nodes of an element as one text, a space between each two.
pub fn text_of(element: &Element) -> (text: Vec<char>)
    ensures
        text@ == element_text(string_views(element.text@)),
{
    let mut nodes: Vec<Vec<char>> = Vec::new();
    let mut i: usize = 0;
    while i < element.text.len()
        invariant
            i <= element.text.len(),
            views(nodes@) == string_views(element.text@).take(i as int),
        decreases element.text.len() - i,
    {
        let node = chars_of(element.text[i].as_str());
        proof {
            lemma_views_push(nodes@, node);
            assert(string_views(element.text@).take(i + 1) =~= string_views(
                element.text@,
            ).take(i as int).push(node@));
        }
        nodes.push(node);
        i += 1;
    }
    proof {
        assert(string_views(element.text@).take(element.text.len() as int) =~= string_views(
            element.text@,
        ));
    }
    join_with(&nodes, ' ')
}

/// The text of a selection: the texts of its elements, one per line,
/// trimmed.
pub fn joined_text(elements: &Vec<Element>) -> (text: String)
    ensures
        text@ == plain_text(element_texts(elements@)),
        text@.len() > 0 ==> !white_space(text@[0]),
{
    let mut lines: Vec<Vec<char>> = Vec::new();
    let mut i: usize = 0;
    while i < elements.len()
        invariant
            i <= elements.len(),
            views(lines@) == all_texts(element_texts(elements@)).take(i as int),
        decreases elements.len() - i,
    {
        let line = text_of(&elements[i]);
        proof {
            lemma_views_push(lines@, line);
            let all = all_texts(element_texts(elements@));
            assert(all.take(i + 1) =~= all.take(i as int).push(line@));
        }
        lines.push(line);
        i += 1;
    }
    proof {
        let all = all_texts(element_texts(elements@));
        assert(all.take(elements.len() as int) =~= all);
    }
    let joined = join_with(&lines, '\n');
    let text = trim(&joined);
    string_of(&text)
}

/// The value that a selection gives a field.
pub fn first_value(elements: &Vec<Element>) -> (value: Option<String>)
    ensures
        match value {
            Some(v) => metadata_value(element_texts(elements@), element_attrs(elements@))
                == Some(v@),
            None => metadata_value(element_texts(elements@), element_attrs(elements@)) is None,
        },
{
    if elements.len() == 0 {
        return None;
    }
    let first = &elements[0];
    match &first.attr {
        Some(value) => if value.as_str().is_empty() {
            None
        } else {
            Some(value.clone())
        },
        None => {
            let text = text_of(first);
            let text = trim(&text);
            if text.len() > 0 {
                Some(string_of(&text))
            } else {
                None
            }
        },
    }
}

/// The first selector with text wins: where the selectors before
/// position `i` find no text and the one at `i` finds some, the content
/// is the cleaned text of the selection at `i`.
pub proof fn lemma_first_match_wins(
    document: scraper::Html,
    selectors: Seq<scraper::Selector>,
    i: int,
)
    requires
        0 <= i < selectors.len(),
        forall|j: int|
            0 <= j < i ==> plain_text(selected_texts(document, selectors[j])).len() == 0,
        plain_text(selected_texts(document, selectors[i])).len() > 0,
    ensures
        first_content(document, selectors) == Some(
            cleaned(plain_text(selected_texts(document, selectors[i]))),
        ),
    decreases i,
{
    if i > 0 {
        let rest = selectors.skip(1);
        assert forall|j: int| 0 <= j < i - 1 implies plain_text(
            selected_texts(document, rest[j]),
        ).len() == 0 by {
            assert(rest[j] == selectors[j + 1]);
        }
        lemma_first_match_wins(document, rest, i - 1);
    }
}

/// There is content exactly where some selector finds text.
pub proof fn lemma_content_found(document: scraper::Html, selectors: Seq<scraper::Selector>)
    ensures
        first_content(document, selectors) is Some <==> exists|i: int|
            0 <= i < selectors.len() && plain_text(
                selected_texts(document, #[trigger] selectors[i]),
            ).len() > 0,
    decreases selectors.len(),
{
    if selectors.len() > 0 {
        let rest = selectors.skip(1);
        lemma_content_found(document, rest);
        if plain_text(selected_texts(document, selectors[0])).len() == 0 {
            if first_content(document, selectors) is Some {
                let i = choose|i: int|
                    0 <= i < rest.len() && plain_text(
                        selected_texts(document, #[trigger] rest[i]),
                    ).len() > 0;
                assert(rest[i] == selectors[i + 1]);
            }
            if exists|i: int|
                0 <= i < selectors.len() && plain_text(
                    selected_texts(document, #[trigger] selectors[i]),
                ).len() > 0 {
                let i = choose|i: int|
                    0 <= i < selectors.len() && plain_text(
                        selected_texts(document, #[trigger] selectors[i]),
                    ).len() > 0;
                assert(rest[i - 1] == selectors[i]);
            }
        }
    }
}

/// An attribute on the first element is preferred to its text: where
/// the first element of a selection has the attribute, and it is not
/// empty, the field's value is the attribute's, whatever text the
/// element holds.
pub proof fn lemma_attribute_preferred(
    texts: Seq<Seq<Seq<char>>>,
    attrs: Seq<Option<Seq<char>>>,
)
    requires
        texts.len() > 0,
        attrs.len() > 0,
        attrs[0] is Some,
        attrs[0]->0.len() > 0,
    ensures
        metadata_value(texts, attrs) == attrs[0],
{
}

/// A value is never empty.
pub proof fn lemma_value_not_empty(texts: Seq<Seq<Seq<char>>>, attrs: Seq<Option<Seq<char>>>)
    requires
        metadata_value(texts, attrs) is Some,
    ensures
        metadata_value(texts, attrs)->0.len() > 0,
{
}

/// A field has a value exactly where one of its patterns gives one.
pub proof fn lemma_field_present(
    document: scraper::Html,
    fields: Seq<(Seq<char>, scraper::Selector)>,
    name: Seq<char>,
)
    ensures
        metadata_of(document, fields).contains_key(name) <==> has_value(document, fields, name),
    decreases fields.len(),
{
    if fields.len() > 0 {
        let front = fields.drop_last();
        let last = fields.len() - 1;
        lemma_field_present(document, front, name);
        if has_value(document, front, name) {
            let i = choose|i: int|
                0 <= i < front.len() && (#[trigger] front[i]).0 == name && field_value(
                    document,
                    front[i].1,
                ) is Some;
            assert(fields[i] == front[i]);
        }
        if has_value(document, fields, name) {
            let i = choose|i: int|
                0 <= i < fields.len() && (#[trigger] fields[i]).0 == name && field_value(
                    document,
                    fields[i].1,
                ) is Some;
            if i < last {
                assert(front[i] == fields[i]);
            }
        }
        if metadata_of(document, fields).contains_key(name) && !metadata_of(
            document,
            front,
        ).contains_key(name) {
            assert(fields[last].0 == name);
        }
    }
}

/// The first pattern of a field that gives a value wins: where the
/// pattern at position `i` gives a value and no earlier pattern of the
/// same field does, that value is the field's.
pub proof fn lemma_first_pattern_wins(
    document: scraper::Html,
    fields: Seq<(Seq<char>, scraper::Selector)>,
    i: int,
)
    requires
        0 <= i < fields.len(),
        field_value(document, fields[i].1) is Some,
        forall|j: int|
            0 <= j < i && (#[trigger] fields[j]).0 == fields[i].0 ==> field_value(
                document,
                fields[j].1,
            ) is None,
    ensures
        metadata_of(document, fields).contains_key(fields[i].0),
        metadata_of(document, fields)[fields[i].0] == field_value(document, fields[i].1)->0,
    decreases fields.len(),
{
    let front = fields.drop_last();
    let last = fields.len() - 1;
    let name = fields[i].0;
    if i == last {
        lemma_field_present(document, front, name);
        if has_value(document, front, name) {
            let j = choose|j: int|
                0 <= j < front.len() && (#[trigger] front[j]).0 == name && field_value(
                    document,
                    front[j].1,
                ) is Some;
            assert(fields[j] == front[j]);
        }
    } else {
        assert(front[i] == fields[i]);
        assert forall|j: int| 0 <= j < i && (#[trigger] front[j]).0 == front[i].0 implies field_value(
            document,
            front[j].1,
        ) is None by {
            assert(front[j] == fields[j]);
        }
        lemma_first_pattern_wins(document, front, i);
    }
}

/// Reads the main text and the named values off pages, by selectors
/// that are tried in order.
pub struct ContentScraper {
    selectors: Vec<scraper::Selector>,
    metadata_selectors: Vec<(String, scraper::Selector)>,
}

impl Default for ContentScraper {
    /// The scraper with the usual patterns for articles and
    /// documentation pages.
    fn default() -> (made: ContentScraper)
        ensures
            made.content_selectors() == compiled_all(default_content_patterns()),
            made.metadata_selectors() == compiled_fields(default_metadata_patterns()),
    {
        let content: Vec<&str> = vec![
            "article p, article li",
            "div.content p, div.content li",
            "main p, main li",
            ".documentation-content",
            "div.markdown-body",
            "div.mw-parser-output p",
            "p, li",
        ];
        let metadata: Vec<(&str, &str)> = vec![
            ("title", "title"),
            ("title", "h1.title"),
            ("title", ".article-title"),
            ("description", "meta[name='description']"),
            ("keywords", "meta[name='keywords']"),
            ("author", "meta[name='author']"),
            ("author", ".author"),
            ("date", "meta[name='date']"),
            ("date", ".date"),
            ("date", "time"),
        ];
        proof {
            assert(str_views(content@) =~= default_content_patterns());
            assert(pair_views(metadata@) =~= default_metadata_patterns());
        }
        ContentScraper::new(content, metadata)
    }
}

impl ContentScraper {
    /// The selectors for the main text, in the order in which they are
    /// tried.
    pub closed spec fn content_selectors(&self) -> Seq<scraper::Selector> {
        self.selectors@
    }

    /// The patterns of the fields, each under its field's name, in the
    /// order in which they are tried.
    pub closed spec fn metadata_selectors(&self) -> Seq<(Seq<char>, scraper::Selector)> {
        field_views(self.metadata_selectors@)
    }

    /// A scraper that tries the given patterns for the main text, in
    /// order, and reads each named field by the patterns listed under
    /// its name, in order. A pattern that does not compile is left out.
    pub fn new(content_selectors: Vec<&str>, metadata_selectors: Vec<(&str, &str)>) -> (made:
        ContentScraper)
        ensures
            made.content_selectors() == compiled_all(str_views(content_selectors@)),
            made.metadata_selectors() == compiled_fields(pair_views(metadata_selectors@)),
    {
        let mut selectors: Vec<scraper::Selector> = Vec::new();
        let mut i: usize = 0;
        while i < content_selectors.len()
            invariant
                i <= content_selectors.len(),
                selectors@ == compiled_all(str_views(content_selectors@).take(i as int)),
            decreases content_selectors.len() - i,
        {
            proof {
                let all = str_views(content_selectors@);
                assert(all.take(i + 1).drop_last() =~= all.take(i as int));
                assert(all.take(i + 1).last() == content_selectors@[i as int]@);
            }
            match parse_selector(content_selectors[i]) {
                Some(selector) => {
                    selectors.push(selector);
                },
                None => {},
            }
            i += 1;
        }
        let mut fields: Vec<(String, scraper::Selector)> = Vec::new();
        let mut k: usize = 0;
        proof {
            assert(field_views(fields@) =~= Seq::<(Seq<char>, scraper::Selector)>::empty());
        }
        while k < metadata_selectors.len()
            invariant
                k <= metadata_selectors.len(),
                field_views(fields@) == compiled_fields(
                    pair_views(metadata_selectors@).take(k as int),
                ),
            decreases metadata_selectors.len() - k,
        {
            proof {
                let all = pair_views(metadata_selectors@);
                assert(all.take(k + 1).drop_last() =~= all.take(k as int));
                assert(all.take(k + 1).last() == (
                    metadata_selectors@[k as int].0@,
                    metadata_selectors@[k as int].1@,
                ));
            }
            match parse_selector(metadata_selectors[k].1) {
                Some(selector) => {
                    let ghost before = field_views(fields@);
                    let name = metadata_selectors[k].0.to_owned();
                    fields.push((name, selector));
                    proof {
                        assert(field_views(fields@) =~= before.push((name@, selector)));
                    }
                },
                None => {},
            }
            k += 1;
        }
        proof {
            assert(str_views(content_selectors@).take(content_selectors.len() as int)
                =~= str_views(content_selectors@));
            assert(pair_views(metadata_selectors@).take(metadata_selectors.len() as int)
                =~= pair_views(metadata_selectors@));
        }
        ContentScraper { selectors, metadata_selectors: fields }
    }

    /// Reads a page: its main text, its named values, and the instant
    /// of reading. Fails where no selector finds text.
    pub fn extract(&self, html: &str, url: &str) -> (outcome: Result<ScrapedContent, ScraperError>)
        ensures
            match outcome {
                Ok(page) => {
                    &&& first_content(parsed_document(html@), self.content_selectors())
                        == Some(page.content@)
                    &&& page.content@.len() > 0
                    &&& page.url@ == url@
                    &&& page.metadata@ == metadata_of(
                        parsed_document(html@),
                        self.metadata_selectors(),
                    )
                    &&& page.timestamp.nanos >= 0
                },
                Err(error) => {
                    &&& first_content(parsed_document(html@), self.content_selectors()) is None
                    &&& error matches ScraperError::ExtractionError(message)
                    &&& message@ == "No content found with available selectors"@
                },
            },
    {
        let document = parse_document(html);
        match self.extract_content(&document) {
            Ok(content) => {
                let metadata = self.extract_metadata(&document);
                Ok(
                    ScrapedContent {
                        url: url.to_owned(),
                        content,
                        metadata,
                        timestamp: Timestamp::now(),
                    },
                )
            },
            Err(error) => Err(error),
        }
    }

    /// The cleaned text of the first selector that finds text in the
    /// document. Fails where none does.
    pub fn extract_content(&self, document: &scraper::Html) -> (outcome: Result<
        String,
        ScraperError,
    >)
        ensures
            match outcome {
                Ok(content) => {
                    &&& first_content(*document, self.content_selectors()) == Some(content@)
                    &&& content@.len() > 0
                },
                Err(error) => {
                    &&& first_content(*document, self.content_selectors()) is None
                    &&& error matches ScraperError::ExtractionError(message)
                    &&& message@ == "No content found with available selectors"@
                },
            },
    {
        let mut i: usize = 0;
        proof {
            assert(self.selectors@.skip(0) =~= self.selectors@);
        }
        while i < self.selectors.len()
            invariant
                i <= self.selectors.len(),
                first_content(*document, self.selectors@) == first_content(
                    *document,
                    self.selectors@.skip(i as int),
                ),
            decreases self.selectors.len() - i,
        {
            let content = self.extract_text_by_selector(document, &self.selectors[i]);
            proof {
                let rest = self.selectors@.skip(i as int);
                assert(rest[0] == self.selectors@[i as int]);
                assert(rest.skip(1) =~= self.selectors@.skip(i + 1));
            }
            if !content.as_str().is_empty() {
                return Ok(self.clean_text(content.as_str()));
            }
            i += 1;
        }
        Err(ScraperError::ExtractionError("No content found with available selectors".to_owned()))
    }

    /// The named values that the fields' patterns find in the document:
    /// for each field, the value of the first of its patterns that
    /// gives one. A field without a value is left out.
    pub fn extract_metadata(&self, document: &scraper::Html) -> (metadata: Metadata)
        ensures
            metadata@ == metadata_of(*document, self.metadata_selectors()),
    {
        let mut metadata = Metadata::new();
        let ghost fields = field_views(self.metadata_selectors@);
        let mut i: usize = 0;
        while i < self.metadata_selectors.len()
            invariant
                i <= self.metadata_selectors.len(),
                fields == field_views(self.metadata_selectors@),
                metadata@ == metadata_of(*document, fields.take(i as int)),
            decreases self.metadata_selectors.len() - i,
        {
            proof {
                assert(fields.take(i + 1).drop_last() =~= fields.take(i as int));
                assert(fields.take(i + 1).last() == fields[i as int]);
            }
            let name = &self.metadata_selectors[i].0;
            let selector = &self.metadata_selectors[i].1;
            let known = metadata.get(name.as_str()).is_some();
            if !known {
                match self.extract_metadata_value(document, selector) {
                    Some(found) => {
                        metadata.insert(name.clone(), found);
                    },
                    None => {},
                }
            }
            i += 1;
        }
        proof {
            assert(fields.take(self.metadata_selectors.len() as int) =~= fields);
        }
        metadata
    }

    /// The value that the selector gives a field of the document, read
    /// off the first element it finds: the attribute `content` where
    /// the element has it, else the element's trimmed text. A value
    /// that is empty is no value.
    pub fn extract_metadata_value(
        &self,
        document: &scraper::Html,
        selector: &scraper::Selector,
    ) -> (value: Option<String>)
        ensures
            match value {
                Some(v) => field_value(*document, *selector) == Some(v@),
                None => field_value(*document, *selector) is None,
            },
    {
        let elements = select(document, selector, "content");
        first_value(&elements)
    }

    /// The text that the selector finds in the document: the texts of
    /// the elements, one per line, trimmed.
    pub fn extract_text_by_selector(
        &self,
        document: &scraper::Html,
        selector: &scraper::Selector,
    ) -> (text: String)
        ensures
            text@ == plain_text(selected_texts(*document, *selector)),
            text@.len() > 0 ==> !white_space(text@[0]),
    {
        let elements = select(document, selector, "content");
        joined_text(&elements)
    }

    /// The text cleaned: blank lines dropped, the white space inside
    /// each line collapsed to single spaces.
    pub fn clean_text(&self, text: &str) -> (out: String)
        ensures
            out@ == cleaned(text@),
            text@.len() > 0 && !white_space(text@[0]) ==> out@.len() > 0,
    {
        let chars = chars_of(text);
        let tidy = clean(&chars);
        string_of(&tidy)
    }
}

} // verus!
