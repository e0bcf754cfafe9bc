//! The sites that are watched: their URL, options and the file each is kept in.
use crate::editor::{Content, EditFailure, Editor, applied_many, duplicate_editors, same_editors};
use crate::filename::{basename, basename_of};
use crate::order::str_eq;
use crate::weburl::{SiteUrl, UrlView};
use vstd::prelude::*;

verus! {

broadcast use vstd::string::group_string_axioms;

/// How a site is fetched and edited.
pub struct Options {
    pub accept_invalid_certs: bool,
    pub http1_only: bool,
    /// Errors of this site (and of its editors) only warn.
    pub ignore_error: bool,
    /// The file name to keep the site in, in place of the one made of its URL.
    pub filename: Option<String>,
    /// Extra HTTP headers, name and value.
    pub headers: Vec<(String, String)>,
    pub editors: Vec<Editor>,
}

/// A site: a URL with its options.
pub struct Site {
    pub url: SiteUrl,
    pub options: Options,
}

/// Two sets of options are the same.
pub open spec fn same_options(a: Options, b: Options) -> bool {
    &&& a.accept_invalid_certs == b.accept_invalid_certs
    &&& a.http1_only == b.http1_only
    &&& a.ignore_error == b.ignore_error
    &&& crate::editor::rss::opt(a.filename) == crate::editor::rss::opt(b.filename)
    &&& a.headers@.map_values(|h: (String, String)| (h.0@, h.1@)) == b.headers@.map_values(
        |h: (String, String)| (h.0@, h.1@),
    )
    &&& same_editors(a.editors@, b.editors@)
}

impl Options {
    /// A copy of the options.
    pub fn duplicate(&self) -> (r: Options)
        ensures
            same_options(r, *self),
    {
        let mut headers: Vec<(String, String)> = Vec::new();
        let mut i: usize = 0;
        while i < self.headers.len()
            invariant
                i <= self.headers@.len(),
                headers@.map_values(|h: (String, String)| (h.0@, h.1@)) == self.headers@.take(
                    i as int,
                ).map_values(|h: (String, String)| (h.0@, h.1@)),
            decreases self.headers@.len() - i,
        {
            let h = (self.headers[i].0.clone(), self.headers[i].1.clone());
            let ghost prev = headers@;
            headers.push(h);
            assert(headers@ == prev.push(h));
            assert(headers@.map_values(|h: (String, String)| (h.0@, h.1@)) =~= prev.map_values(
                |h: (String, String)| (h.0@, h.1@),
            ).push((h.0@, h.1@)));
            assert(self.headers@.take(i + 1) == self.headers@.take(i as int).push(self.headers@[i as int]));
            assert(headers@.map_values(|h: (String, String)| (h.0@, h.1@)) =~= self.headers@.take(
                i + 1,
            ).map_values(|h: (String, String)| (h.0@, h.1@)));
            i += 1;
        }
        assert(self.headers@.take(self.headers@.len() as int) == self.headers@);
        Options {
            accept_invalid_certs: self.accept_invalid_certs,
            http1_only: self.http1_only,
            ignore_error: self.ignore_error,
            filename: match &self.filename {
                Some(f) => Some(f.clone()),
                None => None,
            },
            headers,
            editors: duplicate_editors(&self.editors),
        }
    }
}

/// The file a site is kept in, without its extension: the configured file name, else the
/// base name made of its URL.
pub open spec fn file_path_of(url: UrlView, filename: Option<Seq<char>>) -> Seq<char> {
    match filename {
        Some(f) => f,
        None => basename_of(url),
    }
}

/// What `PathBuf::set_extension` makes of `path` with `extension`.
pub uninterp spec fn with_extension(path: Seq<char>, extension: Seq<char>) -> Seq<char>;

/// No path separator (`/`, nor `\\` where that separates too) is in `s`.
pub open spec fn no_separator(s: Seq<char>) -> bool {
    !s.contains('/') && !s.contains('\\')
}

/// An extension that a path can take: none, or one without a separator.
pub open spec fn plain_extension(e: Option<Seq<char>>) -> bool {
    match e {
        Some(x) => no_separator(x),
        None => true,
    }
}

/// `std::path::PathBuf::set_extension`: the extension of the file name replaced, or added.
/// It panics on an extension with a path separator, which `requires` leaves out.
#[verifier::external_body]
pub(crate) fn set_extension(path: &str, extension: &str) -> (r: String)
    requires
        no_separator(extension@),
    ensures
        r@ == with_extension(path@, extension@),
{
    let mut p = std::path::PathBuf::from(path);
    p.set_extension(extension);
    p.to_string_lossy().into_owned()
}

/// What hunting a site brings: its content and the file it goes to.
pub struct HuntOutput {
    pub content: String,
    pub filename: String,
}

/// Something that turns what was fetched for it into what is kept.
pub trait Huntable {
    /// What is kept of the fetched content, where it was fetched from `final_url`; its
    /// extension, if any, holds no path separator.
    fn hunt(&self, fetched: Content, final_url: &SiteUrl) -> Result<HuntOutput, EditFailure>
        requires
            plain_extension(fetched@.extension),
    ;
}

impl Site {
    /// The file the site is kept in, without its extension.
    pub fn to_file_path(&self) -> (r: String)
        requires
            self.options.filename is Some || self.url@.host is Some,
        ensures
            r@ == file_path_of(self.url@, crate::editor::rss::opt(self.options.filename)),
    {
        match &self.options.filename {
            Some(f) => f.clone(),
            None => basename(&self.url),
        }
    }

    /// The files of the sites, without extensions.
    pub fn get_all_file_paths(sites: &Vec<Site>) -> (r: Vec<String>)
        requires
            forall|i: int| 0 <= i < sites@.len() ==> has_file_name(#[trigger] sites@[i]),
        ensures
            r@.len() == sites@.len(),
            forall|i: int| 0 <= i < sites@.len() ==> #[trigger] r@[i]@ == site_file(sites@[i]),
    {
        let mut r: Vec<String> = Vec::new();
        let mut i: usize = 0;
        while i < sites.len()
            invariant
                i <= sites@.len(),
                forall|i: int| 0 <= i < sites@.len() ==> has_file_name(#[trigger] sites@[i]),
                r@.len() == i,
                forall|j: int| 0 <= j < i ==> #[trigger] r@[j]@ == site_file(sites@[j]),
            decreases sites@.len() - i,
        {
            let p = sites[i].to_file_path();
            r.push(p);
            i += 1;
        }
        r
    }

    /// `Ok` where no two sites are kept in the same file.
    pub fn validate_no_duplicate(sites: &Vec<Site>) -> (r: Result<(), DuplicateSites>)
        requires
            forall|i: int| 0 <= i < sites@.len() ==> has_file_name(#[trigger] sites@[i]),
        ensures
            r is Ok <==> forall|i: int, j: int|
                0 <= i < j < sites@.len() ==> site_file(#[trigger] sites@[i]) != site_file(#[trigger] sites@[j]),
    {
        let paths = Site::get_all_file_paths(sites);
        let mut i: usize = 0;
        while i < paths.len()
            invariant
                i <= paths@.len(),
                paths@.len() == sites@.len(),
                forall|k: int| 0 <= k < sites@.len() ==> #[trigger] paths@[k]@ == site_file(sites@[k]),
                forall|a: int, b: int| 0 <= a < i && a < b < sites@.len() ==> site_file(#[trigger] sites@[a]) != site_file(#[trigger] sites@[b]),
            decreases paths@.len() - i,
        {
            let mut j: usize = i + 1;
            while j < paths.len()
                invariant
                    i < paths@.len(),
                    i + 1 <= j <= paths@.len(),
                    paths@.len() == sites@.len(),
                    forall|k: int| 0 <= k < sites@.len() ==> #[trigger] paths@[k]@ == site_file(sites@[k]),
                    forall|b: int| i < b < j ==> site_file(sites@[i as int]) != site_file(#[trigger] sites@[b]),
                decreases paths@.len() - j,
            {
                if str_eq(paths[i].as_str(), paths[j].as_str()) {
                    assert(site_file(sites@[i as int]) == site_file(sites@[j as int]));
                    return Err(DuplicateSites);
                }
                j += 1;
            }
            i += 1;
        }
        Ok(())
    }
}

/// Some sites would be kept in the same file.
#[derive(Debug)]
pub struct DuplicateSites;

impl DuplicateSites {
    /// The message that reports duplicates.
    pub const MESSAGE: &'static str = "Some sites are duplicates of each other or result in the same filename.";

    /// The message that reports duplicates.
    pub fn message(&self) -> (r: String)
        ensures
            r@ == Self::MESSAGE@,
    {
        Self::MESSAGE.to_string()
    }
}

/// A site has a file name: a configured one, or a host to make it of.
pub open spec fn has_file_name(s: Site) -> bool {
    s.options.filename is Some || s.url@.host is Some
}

/// The file a site is kept in, without its extension.
pub open spec fn site_file(s: Site) -> Seq<char> {
    file_path_of(s.url@, crate::editor::rss::opt(s.options.filename))
}

/// The extension of the file a content is kept in: its own, else `txt`.
pub open spec fn stored_extension(c: crate::editor::ContentView) -> Seq<char> {
    match c.extension {
        Some(e) => e,
        None => "txt"@,
    }
}

impl Huntable for Site {
    /// The fetched content after the site's editors, kept in the site's file with the
    /// extension the editors give (else `txt`); the failing editor where one fails.
    fn hunt(&self, fetched: Content, final_url: &SiteUrl) -> (r: Result<HuntOutput, EditFailure>)
        ensures
            has_file_name(*self) ==> match (r, applied_many(self.options.editors@, final_url@, fetched@)) {
                (Ok(h), Ok(c)) => h.content@ == c.text && h.filename@ == with_extension(
                    site_file(*self),
                    stored_extension(c),
                ),
                (Err(f), Err(v)) => f.index == v.0 && f.error@ == v.1,
                _ => false,
            },
    {
        let content = match Editor::apply_many(&self.options.editors, final_url, fetched) {
            Ok(c) => c,
            Err(f) => {
                return Err(f);
            },
        };
        let extension: &str = match content.extension {
            Some(e) => e,
            None => "txt",
        };
        let path = if self.options.filename.is_some() || self.url.host_str().is_some() {
            self.to_file_path()
        } else {
            String::new()
        };
        proof {
            crate::editor::lemma_applied_many_plain(self.options.editors@, final_url@, fetched@);
            reveal_strlit("txt");
            assert(!"txt"@.contains('/') && !"txt"@.contains('\\')) by {
                assert("txt"@ =~= seq!['t', 'x', 't']);
            }
        }
        let filename = set_extension(path.as_str(), extension);
        Ok(HuntOutput { content: content.text, filename })
    }
}

} // verus!
