//! Replacing elements by their content.
use crate::dom::{
    CssSelector, document_markup, flatten_selected, flattened, parse_and_select, parsed_document,
    selected_flags, write_markup,
};
use vstd::prelude::*;

verus! {

/// The document with each element that the selector matches replaced by its children,
/// written as scraper writes a document.
pub fn apply(selector: &CssSelector, html: &str) -> (r: String)
    ensures
        r@ == document_markup(flattened(parsed_document(html@), selected_flags(html@, selector@))),
{
    let (events, flags) = parse_and_select(selector, html);
    let kept = flatten_selected(&events, &flags);
    write_markup(&kept)
}

} // verus!
