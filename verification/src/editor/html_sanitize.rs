//! Sanitized HTML.
use vstd::prelude::*;

verus! {

/// What `ammonia::clean` makes of `html`.
pub uninterp spec fn ammonia_cleaned(html: Seq<char>) -> Seq<char>;

/// `ammonia::clean` with its default rules.
#[verifier::external_body]
fn ammonia_clean(html: &str) -> (r: String)
    ensures
        r@ == ammonia_cleaned(html@),
{
    ammonia::clean(html)
}

/// The HTML stripped down to the elements and attributes that ammonia keeps.
pub fn sanitize(html: &str) -> (r: String)
    ensures
        r@ == ammonia_cleaned(html@),
{
    ammonia_clean(html)
}

} // verus!
