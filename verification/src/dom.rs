//! Parsed documents and what selection patterns find in them.

use crate::text::string_views;
use vstd::prelude::*;

verus! {

/// `scraper::Html`, a parsed document; it is read through `select`
/// alone.
#[verifier::external_type_specification]
#[verifier::external_body]
pub struct ExHtml(scraper::Html);

/// `scraper::Selector`, a compiled selector group; it is used through
/// `select` alone.
#[verifier::external_type_specification]
#[verifier::external_body]
pub struct ExSelector(scraper::Selector);

/// What is read of one element that a pattern matched.
#[derive(Clone, Debug)]
pub struct Element {
    /// The text nodes below the element, in document order.
    pub text: Vec<String>,
    /// The value of the attribute that was asked for, if the element
    /// has it.
    pub attr: Option<String>,
}

/// The text nodes of each element of `elements`.
pub open spec fn element_texts(elements: Seq<Element>) -> Seq<Seq<Seq<char>>> {
    Seq::new(elements.len(), |i: int| string_views(elements[i].text@))
}

/// The attribute value of each element of `elements`.
pub open spec fn element_attrs(elements: Seq<Element>) -> Seq<Option<Seq<char>>> {
    Seq::new(
        elements.len(),
        |i: int|
            match elements[i].attr {
                Some(value) => Some(value@),
                None => None,
            },
    )
}

/// The document that a piece of markup is parsed to.
pub uninterp spec fn parsed_document(markup: Seq<char>) -> scraper::Html;

/// The selector that a pattern is compiled to, or `None` where the
/// pattern is not a selector group.
pub uninterp spec fn parsed_selector(pattern: Seq<char>) -> Option<scraper::Selector>;

/// For each element of the document that the selector matches, in the
/// order in which the document yields them, its text nodes.
pub uninterp spec fn selected_texts(document: scraper::Html, selector: scraper::Selector) -> Seq<
    Seq<Seq<char>>,
>;

/// For each element of the document that the selector matches, in the
/// same order, the value of its attribute `attr`, if it has one.
pub uninterp spec fn selected_attrs(
    document: scraper::Html,
    selector: scraper::Selector,
    attr: Seq<char>,
) -> Seq<Option<Seq<char>>>;

/// `scraper::Html::parse_document` parses markup as a whole document and
/// never fails; the document depends on the markup alone.
#[verifier::external_body]
pub(crate) fn parse_document(markup: &str) -> (document: scraper::Html)
    ensures
        document == parsed_document(markup@),
{
    scraper::Html::parse_document(markup)
}

/// `scraper::Selector::parse` compiles a selector group, or fails; the
/// outcome depends on the pattern alone.
#[verifier::external_body]
pub(crate) fn parse_selector(pattern: &str) -> (selector: Option<scraper::Selector>)
    ensures
        selector == parsed_selector(pattern@),
{
    match scraper::Selector::parse(pattern) {
        Ok(selector) => Some(selector),
        Err(_) => None,
    }
}

/// `scraper::Html::select` yields the matching elements; of each,
/// `ElementRef::text` gives the text nodes below it and `Element::attr`
/// the value of the attribute `attr`. What is found depends on the
/// document, the selector and the attribute's name alone.
#[verifier::external_body]
pub(crate) fn select(
    document: &scraper::Html,
    selector: &scraper::Selector,
    attr: &str,
) -> (elements: Vec<Element>)
    ensures
        element_texts(elements@) == selected_texts(*document, *selector),
        element_attrs(elements@) == selected_attrs(*document, *selector, attr@),
{
    document.select(selector).map(
        |e|
            Element {
                text: e.text().map(|t| t.to_string()).collect(),
                attr: e.value().attr(attr).map(|a| a.to_string()),
            },
    ).collect()
}

} // verus!
