//! How a site's file is kept: its content is stored trimmed with one final newline, and a
//! write reports whether the site is new, changed or the same.
use crate::text::{trim, trim_str};
use crate::editor::rss::opt;
use vstd::prelude::*;

verus! {

broadcast use vstd::string::group_string_axioms;

/// What storing the content of a site did.
#[derive(Clone, Copy, Debug, PartialEq, Eq)]
pub enum ChangeKind {
    /// There was no content before.
    Init,
    /// The content differs from the one before, or a file of another extension went.
    Changed,
    /// The content is the one before.
    ContentSame,
}

impl ChangeKind {
    /// The name of the kind as it is printed.
    pub fn to_string(&self) -> (r: String)
        ensures
            r@ == match self {
                ChangeKind::Init => "Init"@,
                ChangeKind::Changed => "Changed"@,
                ChangeKind::ContentSame => "ContentSame"@,
            },
    {
        match self {
            ChangeKind::Init => "Init".to_string(),
            ChangeKind::Changed => "Changed".to_string(),
            ChangeKind::ContentSame => "ContentSame".to_string(),
        }
    }

    /// Whether the site is of interest: new or changed.
    pub fn is_of_interest(&self) -> (r: bool)
        ensures
            r == !(*self is ContentSame),
    {
        match self {
            ChangeKind::ContentSame => false,
            _ => true,
        }
    }
}

/// The content as its file holds it.
pub open spec fn stored_form(content: Seq<char>) -> Seq<char> {
    trim(content).push('\n')
}

/// The content as its file holds it: trimmed, with one final newline.
pub fn stored_content(content: &str) -> (r: String)
    ensures
        r@ == stored_form(content@),
{
    let mut t = trim_str(content);
    t.append("\n");
    proof {
        reveal_strlit("\n");
    }
    assert(t@ =~= trim(content@).push('\n'));
    t
}

/// Storing what is stored gives it back: a site whose content did not change is
/// reported the same.
pub proof fn law_store_idempotent(content: Seq<char>)
    ensures
        stored_form(stored_form(content)) == stored_form(content),
        change_kind_of(stored_form(content), stored_form(stored_form(content)), false) == ChangeKind::ContentSame,
{
    crate::text::lemma_trim_trimmed_push(content, '\n');
}

/// The kind of a store of `stored` into a file that held `current` (empty where there was
/// none), where `removed_other` tells whether a file of the same name with another
/// extension was removed.
pub open spec fn change_kind_of(current: Seq<char>, stored: Seq<char>, removed_other: bool) -> ChangeKind {
    if removed_other {
        ChangeKind::Changed
    } else if current.len() == 0 {
        ChangeKind::Init
    } else if current != stored {
        ChangeKind::Changed
    } else {
        ChangeKind::ContentSame
    }
}

/// Whether the file must be written: its content differs.
pub fn needs_write(current: &str, stored: &str) -> (r: bool)
    ensures
        r == (current@ != stored@),
{
    !crate::order::str_eq(current, stored)
}

/// The kind of a store.
pub fn change_kind(current: &str, stored: &str, removed_other: bool) -> (r: ChangeKind)
    ensures
        r == change_kind_of(current@, stored@, removed_other),
{
    if removed_other {
        ChangeKind::Changed
    } else if current.is_empty() {
        ChangeKind::Init
    } else if needs_write(current, stored) {
        ChangeKind::Changed
    } else {
        ChangeKind::ContentSame
    }
}

/// Whether a directory of the working directory can hold site files: hidden ones (their
/// name starts with `.`, such as `.git`) are left alone.
pub fn is_site_folder(name: &str) -> (r: bool)
    ensures
        r == !(name@.len() > 0 && name@[0] == '.'),
{
    let v = crate::text::to_chars(name);
    !(v.len() > 0 && v[0] == '.')
}

/// `std::path::Path::file_stem` of `path`, as a string.
pub uninterp spec fn file_stem_of(path: Seq<char>) -> Option<Seq<char>>;

/// `std::path::Path::extension` of `path`, as a string.
pub uninterp spec fn extension_of(path: Seq<char>) -> Option<Seq<char>>;

/// `std::path::Path::file_stem`: the file name without its extension. (A path made of a
/// `str` has a stem and an extension that are `str`s too.)
#[verifier::external_body]
fn path_file_stem(path: &str) -> (r: Option<String>)
    ensures
        opt(r) == file_stem_of(path@),
{
    std::path::Path::new(path).file_stem().map(|s| s.to_string_lossy().into_owned())
}

/// `std::path::Path::extension`: the part of the file name after its last `.`.
#[verifier::external_body]
fn path_extension(path: &str) -> (r: Option<String>)
    ensures
        opt(r) == extension_of(path@),
{
    std::path::Path::new(path).extension().map(|s| s.to_string_lossy().into_owned())
}

fn same_option(a: &Option<String>, b: &Option<String>) -> (r: bool)
    ensures
        r == (opt(*a) == opt(*b)),
{
    match (a, b) {
        (Some(x), Some(y)) => crate::order::str_eq(x.as_str(), y.as_str()),
        (None, None) => true,
        _ => false,
    }
}

/// `file` is a file of the same name as `path` with another extension.
pub open spec fn other_extension(path: Seq<char>, file: Seq<char>) -> bool {
    file_stem_of(file) == file_stem_of(path) && extension_of(file) != extension_of(path)
}

/// The files beside `path` that have its stem and another extension, in their order: they
/// go when the extension of a site changes (such as from `html` to `md`).
pub fn files_with_other_extension(path: &str, files: &Vec<String>) -> (r: Vec<String>)
    ensures
        r@.map_values(|s: String| s@) == files@.map_values(|s: String| s@).filter(
            |f: Seq<char>| other_extension(path@, f),
        ),
{
    let ghost fv = files@.map_values(|s: String| s@);
    let ghost pred = |f: Seq<char>| other_extension(path@, f);
    let stem = path_file_stem(path);
    let ext = path_extension(path);
    let mut r: Vec<String> = Vec::new();
    let mut i: usize = 0;
    while i < files.len()
        invariant
            i <= files@.len(),
            fv == files@.map_values(|s: String| s@),
            pred == |f: Seq<char>| other_extension(path@, f),
            opt(stem) == file_stem_of(path@),
            opt(ext) == extension_of(path@),
            r@.map_values(|s: String| s@) == fv.take(i as int).filter(pred),
        decreases files@.len() - i,
    {
        proof {
            fv.take(i as int).lemma_filter_push(fv[i as int], pred);
            assert(fv.take(i + 1) == fv.take(i as int).push(fv[i as int]));
            assert(fv[i as int] == files@[i as int]@);
        }
        let fs = path_file_stem(files[i].as_str());
        let fe = path_extension(files[i].as_str());
        let remove = same_option(&fs, &stem) && !same_option(&fe, &ext);
        assert(remove == pred(fv[i as int]));
        if remove {
            let f = files[i].clone();
            let ghost prev = r@;
            r.push(f);
            assert(r@ == prev.push(f));
            assert(r@.map_values(|s: String| s@) =~= prev.map_values(|s: String| s@).push(f@));
        }
        i += 1;
    }
    assert(fv.take(files@.len() as int) == fv);
    r
}

} // verus!
