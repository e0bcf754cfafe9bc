//! Selecting elements of a document.
use crate::dom::{CssSelector, selected_elements_markup, selected_markup};
use crate::editor::SelectedNothing;
use crate::text::{join, join_strings};
use vstd::prelude::*;

verus! {

/// The markup of each element that the selector matches, in the order in which scraper's
/// `Html::select` finds them, one per line; `Err` where it matches none.
pub fn apply(selector: &CssSelector, html: &str) -> (r: Result<String, SelectedNothing>)
    ensures
        r is Err <==> selected_markup(html@, selector@).len() == 0,
        r matches Ok(s) ==> s@ == join(selected_markup(html@, selector@), seq!['\n']),
{
    let selected = selected_elements_markup(selector, html);
    if selected.len() == 0 {
        Err(SelectedNothing)
    } else {
        let sep: Vec<char> = vec!['\n'];
        assert(sep@ =~= seq!['\n']);
        Ok(join_strings(&selected, sep.as_slice()))
    }
}

} // verus!
