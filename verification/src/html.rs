//! What the library has from the HTML parser: the elements of a page that a
//! CSS selector matches, read out as text. Parsing and matching are done by
//! the `scraper` crate and are not verified here; the two functions of this
//! module state that what they return depends on their arguments alone.

use scraper::{Html, Selector};
use vstd::prelude::*;

verus! {

/// The longest text, in characters, that is handed to the parser. The parser
/// holds text in buffers of less than 2^32 bytes and panics beyond. A
/// character takes four bytes at most, so a text within this bound stays
/// under a quarter of that.
pub const MAX_TEXT_LEN: usize = 0x0fff_ffff;

/// For each element of `page` that `selector` matches, the values of its
/// attributes `first` and `second`, each absent where the element has no such
/// attribute. The elements come in the order in which the parser made them:
/// that is the order of the document, but for content that the parser moves
/// out of a table. `None` where `selector` is no selector.
pub uninterp spec fn selected_attributes(
    page: Seq<char>,
    selector: Seq<char>,
    first: Seq<char>,
    second: Seq<char>,
) -> Option<Seq<(Option<Seq<char>>, Option<Seq<char>>)>>;

/// For each element of `page` that `outer` matches: for each element below
/// it that `middle` matches: the inner HTML of each element below that one
/// that `inner` matches. The outer elements come in the order in which the
/// parser made them: that is the order of the document, but for content that
/// the parser moves out of a table. The elements below an element come in
/// the order of the document. `None` where one of the three is no selector.
pub uninterp spec fn selected_inner_html(
    page: Seq<char>,
    outer: Seq<char>,
    middle: Seq<char>,
    inner: Seq<char>,
) -> Option<Seq<Seq<Seq<Seq<char>>>>>;

/// Parses `selector` with `scraper::Selector::parse` and `page` with
/// `scraper::Html::parse_document`, walks the matches of `Html::select`, and
/// reads two attributes of each with `Element::attr`. Returns `None` where
/// the selector does not parse. The four texts are to be no longer than
/// `MAX_TEXT_LEN`, beyond which the parser may panic. The contract claims
/// only that the same four texts always give the same result, which
/// `selected_attributes` names.
#[verifier::external_body]
pub(crate) fn select_attributes(page: &str, selector: &str, first: &str, second: &str) -> (found:
    Option<Vec<(Option<String>, Option<String>)>>)
    requires
        page@.len() <= MAX_TEXT_LEN,
        selector@.len() <= MAX_TEXT_LEN,
        first@.len() <= MAX_TEXT_LEN,
        second@.len() <= MAX_TEXT_LEN,
    ensures
        found.deep_view() == selected_attributes(page@, selector@, first@, second@),
{
    let Ok(selector) = Selector::parse(selector) else {
        return None;
    };
    let document = Html::parse_document(page);
    let pairs = document.select(&selector).map(
        |e| (e.value().attr(first).map(String::from), e.value().attr(second).map(String::from)),
    );
    Some(pairs.collect())
}

/// Parses the three selectors with `scraper::Selector::parse` and `page` with
/// `scraper::Html::parse_document`, walks the matches of `Html::select` and,
/// twice nested, of `ElementRef::select`, and serialises the innermost
/// matches with `ElementRef::inner_html`. Returns `None` where a selector
/// does not parse. The four texts are to be no longer than `MAX_TEXT_LEN`,
/// beyond which the parser may panic. The contract claims only that the same
/// four texts always give the same result, which `selected_inner_html` names.
#[verifier::external_body]
pub(crate) fn select_inner_html(page: &str, outer: &str, middle: &str, inner: &str) -> (found:
    Option<Vec<Vec<Vec<String>>>>)
    requires
        page@.len() <= MAX_TEXT_LEN,
        outer@.len() <= MAX_TEXT_LEN,
        middle@.len() <= MAX_TEXT_LEN,
        inner@.len() <= MAX_TEXT_LEN,
    ensures
        found.deep_view() == selected_inner_html(page@, outer@, middle@, inner@),
{
    let parsed = (Selector::parse(outer), Selector::parse(middle), Selector::parse(inner));
    let (Ok(outer), Ok(middle), Ok(inner)) = parsed else {
        return None;
    };
    let document = Html::parse_document(page);
    let cells = |e: scraper::ElementRef| e.select(&inner).map(|c| c.inner_html()).collect();
    let rows = |e: scraper::ElementRef| e.select(&middle).map(cells).collect();
    Some(document.select(&outer).map(rows).collect())
}

} // verus!
