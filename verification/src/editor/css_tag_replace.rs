//! Renaming elements.
use crate::dom::{
    CssSelector, document_markup, parse_and_select, parsed_document, rename_selected, renamed,
    selected_flags, write_markup,
};
use crate::editor::SelectedNothing;
use crate::markup::{QName, QNameView, html_ns};
use vstd::prelude::*;

verus! {

/// Gives the elements that `selector` matches the HTML element name `replace`.
pub struct CssTagReplace {
    pub selector: CssSelector,
    pub replace: String,
}

/// The HTML element name `local`, without prefix.
pub open spec fn html_element_name(local: Seq<char>) -> QNameView {
    QNameView { prefix: None, ns: html_ns(), local }
}

impl CssTagReplace {
    /// The document with each element that the selector matches renamed to `replace`, its
    /// attributes and content kept, written as scraper writes a document; `Err` where the
    /// selector matches no element of the document.
    pub fn apply(&self, html: &str) -> (r: Result<String, SelectedNothing>)
        ensures
            r is Err <==> !selected_flags(html@, self.selector@).contains(true),
            r matches Ok(s) ==> s@ == document_markup(
                renamed(
                    parsed_document(html@),
                    selected_flags(html@, self.selector@),
                    html_element_name(self.replace@),
                ),
            ),
    {
        let (events, flags) = parse_and_select(&self.selector, html);
        let mut any = false;
        let mut i: usize = 0;
        while i < flags.len()
            invariant
                i <= flags@.len(),
                any <==> flags@.take(i as int).contains(true),
            decreases flags@.len() - i,
        {
            if flags[i] {
                assert(flags@.take(i + 1)[i as int] == true);
            }
            assert(flags@.take(i + 1) == flags@.take(i as int).push(flags@[i as int]));
            any = any || flags[i];
            i += 1;
        }
        assert(flags@.take(flags@.len() as int) == flags@);
        if !any {
            return Err(SelectedNothing);
        }
        let name = QName {
            prefix: None,
            ns: "http://www.w3.org/1999/xhtml".to_string(),
            local: self.replace.clone(),
        };
        let renamed_events = rename_selected(&events, &flags, &name);
        Ok(write_markup(&renamed_events))
    }
}

} // verus!
