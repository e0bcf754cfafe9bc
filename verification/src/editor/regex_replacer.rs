//! Replacing every match of a regular expression.
use vstd::prelude::*;

verus! {

/// Whether the `regex` crate compiles `pattern` (`Regex::new` succeeds).
pub uninterp spec fn regex_compiles(pattern: Seq<char>) -> bool;

/// What the `regex` crate's `Regex::replace_all` makes of `text` with the compiled
/// `pattern` and the replacement `replace` (where `$1` and the like stand for groups).
pub uninterp spec fn regex_replaced(pattern: Seq<char>, text: Seq<char>, replace: Seq<char>) -> Seq<char>;

/// `regex::Regex::new(pattern)`, whether it succeeds.
#[verifier::external_body]
pub(crate) fn regex_compile_ok(pattern: &str) -> (r: bool)
    ensures
        r == regex_compiles(pattern@),
{
    regex::Regex::new(pattern).is_ok()
}

/// `regex::Regex::new(pattern)`, then `replace_all(text, replace)` on it.
#[verifier::external_body]
pub(crate) fn regex_replace_all(pattern: &str, text: &str, replace: &str) -> (r: String)
    requires
        regex_compiles(pattern@),
    ensures
        r@ == regex_replaced(pattern@, text@, replace@),
{
    match regex::Regex::new(pattern) {
        Ok(re) => re.replace_all(text, replace).into_owned(),
        Err(_) => text.to_owned(),
    }
}

/// A regular expression that the `regex` crate refuses.
#[derive(Debug)]
pub struct RegexError {
    pub pattern: String,
}

/// Replaces each match of `pattern` by `replace`.
pub struct RegexReplacer {
    pattern: String,
    replace: String,
}

impl RegexReplacer {
    #[verifier::type_invariant]
    closed spec fn compiles(&self) -> bool {
        regex_compiles(self.pattern@)
    }

    /// The pattern, as it was written.
    pub closed spec fn pattern_view(&self) -> Seq<char> {
        self.pattern@
    }

    /// The replacement, as it was written.
    pub closed spec fn replace_view(&self) -> Seq<char> {
        self.replace@
    }

    /// The replacer of `pattern` by `replace`, where the regex crate compiles `pattern`.
    pub fn new(pattern: &str, replace: &str) -> (r: Result<RegexReplacer, RegexError>)
        ensures
            r is Ok <==> regex_compiles(pattern@),
            r matches Ok(x) ==> x.pattern_view() == pattern@ && x.replace_view() == replace@,
            r matches Err(e) ==> e.pattern@ == pattern@,
    {
        if regex_compile_ok(pattern) {
            Ok(RegexReplacer { pattern: pattern.to_string(), replace: replace.to_string() })
        } else {
            Err(RegexError { pattern: pattern.to_string() })
        }
    }

    /// A copy of the replacer.
    pub fn duplicate(&self) -> (r: RegexReplacer)
        ensures
            r.pattern_view() == self.pattern_view(),
            r.replace_view() == self.replace_view(),
    {
        proof {
            use_type_invariant(self);
        }
        RegexReplacer { pattern: self.pattern.clone(), replace: self.replace.clone() }
    }

    /// `text` with every match replaced.
    pub fn replace_all(&self, text: &str) -> (r: String)
        ensures
            r@ == regex_replaced(self.pattern_view(), text@, self.replace_view()),
    {
        proof {
            use_type_invariant(self);
        }
        regex_replace_all(self.pattern.as_str(), text, self.replace.as_str())
    }
}

/// Whether the compiled `pattern` matches somewhere in `text` (`Regex::is_match`).
pub uninterp spec fn regex_is_match(pattern: Seq<char>, text: Seq<char>) -> bool;

/// `regex::Regex::new(pattern)`, then `is_match(text)` on it.
#[verifier::external_body]
pub(crate) fn regex_matches(pattern: &str, text: &str) -> (r: bool)
    requires
        regex_compiles(pattern@),
    ensures
        r == regex_is_match(pattern@, text@),
{
    regex::Regex::new(pattern).is_ok_and(|re| re.is_match(text))
}

/// The pieces of `text` between the matches of the compiled `pattern` (`Regex::split`):
/// one more than the matches.
pub uninterp spec fn regex_pieces(pattern: Seq<char>, text: Seq<char>) -> Seq<Seq<char>>;

/// The groups of each match of the compiled `pattern` in `text`, from left to right
/// (`Regex::captures_iter`): group 0 the whole match, `None` for a group that takes no
/// part.
pub uninterp spec fn regex_groups(pattern: Seq<char>, text: Seq<char>) -> Seq<Seq<Option<Seq<char>>>>;

/// The plain values of the groups of the matches.
pub open spec fn groups_view(g: Seq<Vec<Option<String>>>) -> Seq<Seq<Option<Seq<char>>>> {
    g.map_values(
        |m: Vec<Option<String>>|
            m@.map_values(
                |o: Option<String>|
                    match o {
                        Some(x) => Some(x@),
                        None => None,
                    },
            ),
    )
}

/// `regex::Regex::new(pattern)`, then `split(text)` and `captures_iter(text)` on it: the
/// pieces between the matches and the groups of each match. `Split` yields the piece before
/// each match and then the rest, so there is one piece more than matches.
#[verifier::external_body]
pub(crate) fn regex_split_captures(pattern: &str, text: &str) -> (r: (Vec<String>, Vec<Vec<Option<String>>>))
    requires
        regex_compiles(pattern@),
    ensures
        r.0@.map_values(|p: String| p@) == regex_pieces(pattern@, text@),
        groups_view(r.1@) == regex_groups(pattern@, text@),
        r.0@.len() == r.1@.len() + 1,
{
    match regex::Regex::new(pattern) {
        Ok(re) => (
            re.split(text).map(str::to_owned).collect(),
            re.captures_iter(text).map(|c| c.iter().map(|g| g.map(|m| m.as_str().to_owned())).collect()).collect(),
        ),
        Err(_) => (vec![text.to_owned()], Vec::new()),
    }
}

/// Whether the regex crate compiles `pattern`.
pub fn regex_is_valid(pattern: &str) -> (r: bool)
    ensures
        r == regex_compiles(pattern@),
{
    regex_compile_ok(pattern)
}

} // verus!
