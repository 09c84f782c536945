//! Selecting from markup. Parsing pages and matching selectors is the work of
//! the `scraper` crate; this module gives what it returns a name, so that the
//! rest of the library can say exactly what it does with it.

use vstd::prelude::*;

verus! {

/// The greatest number of characters of a page that is handed to the parser.
/// The parser keeps text in buffers that hold at most `2^31` bytes once they
/// grow, and a character of the page takes at most four bytes there; the
/// limit leaves those buffers half empty.
pub const MAX_PAGE_CHARS: usize = 0x1000_0000;

/// Whether a page is short enough to be parsed.
pub open spec fn page_fits(document: Seq<char>) -> bool {
    document.len() <= MAX_PAGE_CHARS
}

/// Whether `content` is short enough to be parsed.
pub fn fits_a_page(content: &str) -> (fits: bool)
    ensures
        fits == page_fits(content@),
{
    content.unicode_len() <= MAX_PAGE_CHARS
}

/// Whether `scraper::Selector::parse` accepts `selector` as a selector group.
pub uninterp spec fn selector_parses(selector: Seq<char>) -> bool;

/// For each element of `document` that matches `selector`, in the order in
/// which `scraper::Html::select` yields them, the text nodes below it in the
/// order in which `scraper::ElementRef::text` yields them.
pub uninterp spec fn selected_text(document: Seq<char>, selector: Seq<char>) -> Seq<Seq<Seq<char>>>;

/// For each element of `document` that matches `selector`, in the order in
/// which `scraper::Html::select` yields them, the value that
/// `scraper::node::Element::attr` finds for the attribute `attr`, if any.
pub uninterp spec fn selected_attr(
    document: Seq<char>,
    selector: Seq<char>,
    attr: Seq<char>,
) -> Seq<Option<Seq<char>>>;

/// Calls `scraper::Selector::parse` and says whether it accepted the text.
/// Trusted: the answer depends on the text alone.
#[verifier::external_body]
pub(crate) fn selector_is_valid(selector: &str) -> (ok: bool)
    ensures
        ok == selector_parses(selector@),
{
    scraper::Selector::parse(selector).is_ok()
}

/// Parses `document` with `scraper::Html::parse_document`, walks the matches
/// of `selector` with `scraper::Html::select` and copies out the text nodes
/// of each with `scraper::ElementRef::text`. Trusted: the result depends on
/// the two texts alone. A page beyond the limit is left out, since the
/// parser's buffers cannot hold it.
#[verifier::external_body]
pub(crate) fn select_text(document: &str, selector: &str) -> (found: Vec<Vec<String>>)
    requires
        selector_parses(selector@),
        page_fits(document@),
    ensures
        found.deep_view() == selected_text(document@, selector@),
{
    let selector = scraper::Selector::parse(selector).unwrap();
    let html = scraper::Html::parse_document(document);
    html.select(&selector).map(|el| el.text().map(String::from).collect()).collect()
}

/// Parses `document` with `scraper::Html::parse_document`, walks the matches
/// of `selector` with `scraper::Html::select` and copies out what
/// `scraper::node::Element::attr` finds for `attr` on each. Trusted: the
/// result depends on the three texts alone. A page beyond the limit is left
/// out, since the parser's buffers cannot hold it.
#[verifier::external_body]
pub(crate) fn select_attr(document: &str, selector: &str, attr: &str) -> (found: Vec<
    Option<String>,
>)
    requires
        selector_parses(selector@),
        page_fits(document@),
    ensures
        found.deep_view() == selected_attr(document@, selector@, attr@),
{
    let selector = scraper::Selector::parse(selector).unwrap();
    let html = scraper::Html::parse_document(document);
    html.select(&selector).map(|el| el.value().attr(attr).map(String::from)).collect()
}

} // verus!
