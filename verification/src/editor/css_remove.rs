//! Removing elements, with everything in them, from a document.
use crate::dom::{
    CssSelector, document_markup, parse_and_select, parsed_document, remove_selected,
    selected_flags, without_selected, write_markup,
};
use vstd::prelude::*;

verus! {

/// The document without each element that the selector matches and without everything in
/// such an element, written as scraper writes a document.
pub fn apply(selector: &CssSelector, html: &str) -> (r: String)
    ensures
        r@ == document_markup(without_selected(parsed_document(html@), selected_flags(html@, selector@))),
{
    let (events, flags) = parse_and_select(selector, html);
    let kept = remove_selected(&events, &flags);
    write_markup(&kept)
}

} // verus!
