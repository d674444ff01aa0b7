//! Queries on HTML documents, answered by the `scraper` crate.
//!
//! Each query takes the document's source and a CSS selector as plain strings; what `scraper`
//! makes of them (the parsed tree, the elements a selector matches) is named here and not
//! restated. Parsing and matching depend on their arguments alone.

use vstd::prelude::*;
use crate::text::string_views;

verus! {

/// The text nodes, in document order, below the first element of `document` that `selector`
/// matches; `None` where the selector does not parse or matches no element.
pub uninterp spec fn first_match_text_nodes(document: Seq<char>, selector: Seq<char>) -> Option<
    Seq<Seq<char>>,
>;

/// The value of `attribute` on the first element of `document` that `selector` matches;
/// `None` where the selector does not parse, matches no element, or that element lacks the
/// attribute.
pub uninterp spec fn first_match_attribute(
    document: Seq<char>,
    selector: Seq<char>,
    attribute: Seq<char>,
) -> Option<Seq<char>>;

/// For each element of `document` that `selector` matches, in the order in which `scraper`
/// walks the document's nodes, the value of `attribute` on it, if it has one; empty where the
/// selector does not parse.
pub uninterp spec fn all_matches_attribute(
    document: Seq<char>,
    selector: Seq<char>,
    attribute: Seq<char>,
) -> Seq<Option<Seq<char>>>;

/// The view of an optional list of strings.
pub open spec fn optional_string_views(v: Option<Vec<String>>) -> Option<Seq<Seq<char>>> {
    match v {
        Some(v) => Some(string_views(v@)),
        None => None,
    }
}

/// The view of an optional string.
pub open spec fn optional_view(v: Option<String>) -> Option<Seq<char>> {
    match v {
        Some(s) => Some(s@),
        None => None,
    }
}

/// The views of a list of optional strings.
pub open spec fn optional_views(v: Seq<Option<String>>) -> Seq<Option<Seq<char>>> {
    v.map_values(|o: Option<String>| optional_view(o))
}

/// Parses `document` with `scraper::Html::parse_document` and `selector` with
/// `scraper::Selector::parse`, takes the first element that `Html::select` yields and collects
/// the text nodes that `ElementRef::text` yields below it. The contract claims only that the
/// result is `first_match_text_nodes` of the two arguments.
#[verifier::external_body]
pub(crate) fn select_first_text_nodes(document: &str, selector: &str) -> (r: Option<Vec<String>>)
    ensures
        optional_string_views(r) == first_match_text_nodes(document@, selector@),
{
    let html = scraper::Html::parse_document(document);
    let selector = scraper::Selector::parse(selector).ok()?;
    let element = html.select(&selector).next()?;
    Some(element.text().map(String::from).collect())
}

/// Parses `document` and `selector` as above, takes the first element that `Html::select`
/// yields and reads `attribute` on it with `ElementRef::attr`. The contract claims only that
/// the result is `first_match_attribute` of the three arguments.
#[verifier::external_body]
pub(crate) fn select_first_attribute(document: &str, selector: &str, attribute: &str) -> (r:
    Option<String>)
    ensures
        optional_view(r) == first_match_attribute(document@, selector@, attribute@),
{
    let html = scraper::Html::parse_document(document);
    let selector = scraper::Selector::parse(selector).ok()?;
    let element = html.select(&selector).next()?;
    element.attr(attribute).map(String::from)
}

/// Parses `document` and `selector` as above and reads `attribute`, with `ElementRef::attr`,
/// on every element that `Html::select` yields, in the order it yields them. The contract claims only that the
/// result is `all_matches_attribute` of the three arguments.
#[verifier::external_body]
pub(crate) fn select_all_attributes(document: &str, selector: &str, attribute: &str) -> (r: Vec<
    Option<String>,
>)
    ensures
        optional_views(r@) == all_matches_attribute(document@, selector@, attribute@),
{
    let html = scraper::Html::parse_document(document);
    let mut values = Vec::new();
    if let Ok(selector) = scraper::Selector::parse(selector) {
        for element in html.select(&selector) {
            values.push(element.attr(attribute).map(String::from));
        }
    }
    values
}

} // verus!
