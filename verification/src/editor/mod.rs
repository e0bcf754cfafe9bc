//! Editors: what turns the content of a web page into the form in which it is compared.
pub mod css_flatten;
pub mod css_remove;
pub mod css_selector;
pub mod css_sort;
pub mod css_tag_replace;
pub mod html_markdown;
pub mod html_pretty;
pub mod html_sanitize;
pub mod html_text;
pub mod html_url;
pub mod json_prettify;
pub mod json_select;
pub mod regex_replacer;
pub mod rss;

use crate::dom::{
    CssSelector, DomEvent, document_markup, events_view, flattened, parse_and_select,
    parsed_document, selected_flags, selected_markup, without_selected, write_markup,
};
use crate::editor::css_sort::{CssSort, sorted_trees};
use crate::editor::css_tag_replace::{CssTagReplace, html_element_name};
use crate::dom::renamed;
use crate::editor::html_markdown::markdown_of;
use crate::editor::html_pretty::prettified;
use crate::editor::html_sanitize::ammonia_cleaned;
use crate::editor::html_text::{document_texts, extracted};
use crate::editor::html_url::canonical_run;
use crate::editor::json_prettify::json_pretty;
use crate::editor::regex_replacer::{RegexReplacer, regex_replaced};
use crate::editor::rss::{Rss, rss_generated};
use crate::text::join;
use crate::tree::{
    TreeNode, TreeView, build_trees, push_trees_events, tree_events, trees_events, trees_of,
    trees_view,
};
use crate::weburl::{SiteUrl, UrlView};
use vstd::prelude::*;

verus! {

broadcast use vstd::string::group_string_axioms;

/// A selector matched no element where at least one was needed.
#[derive(Debug)]
pub struct SelectedNothing;

impl SelectedNothing {
    /// The message that reports it.
    pub fn message(&self) -> (r: String)
        ensures
            r@ == "selected nothing"@,
    {
        "selected nothing".to_string()
    }
}

/// The content of a page and the extension of the file it is kept in.
#[derive(Debug)]
pub struct Content {
    pub extension: Option<&'static str>,
    pub text: String,
}

/// The plain value of a content.
pub struct ContentView {
    pub extension: Option<Seq<char>>,
    pub text: Seq<char>,
}

impl View for Content {
    type V = ContentView;

    open spec fn view(&self) -> ContentView {
        ContentView {
            extension: match self.extension {
                Some(e) => Some(e@),
                None => None,
            },
            text: self.text@,
        }
    }
}

/// Why an editor failed.
#[derive(Debug)]
pub enum EditError {
    /// `css_select` matched nothing.
    SelectedNothing,
    /// `css_sort` matched nothing.
    NothingToSort,
    /// `html_markdownify` made no Markdown.
    EmptyMarkdown,
    /// `json_prettify` got no JSON; the message of `serde_json`.
    InvalidJson(String),
    /// One of the selectors that `rss` always uses was refused.
    InvalidBuiltInSelector,
    /// `rss` could not resolve this link.
    InvalidLink(String),
    /// `rss` found no item.
    NoItems,
    /// The rss crate refused the feed; its message.
    InvalidFeed(String),
}

/// The plain value of an edit error.
pub enum EditErrorView {
    SelectedNothing,
    NothingToSort,
    EmptyMarkdown,
    InvalidJson(Seq<char>),
    InvalidBuiltInSelector,
    InvalidLink(Seq<char>),
    NoItems,
    InvalidFeed(Seq<char>),
}

impl View for EditError {
    type V = EditErrorView;

    open spec fn view(&self) -> EditErrorView {
        match self {
            EditError::SelectedNothing => EditErrorView::SelectedNothing,
            EditError::NothingToSort => EditErrorView::NothingToSort,
            EditError::EmptyMarkdown => EditErrorView::EmptyMarkdown,
            EditError::InvalidJson(m) => EditErrorView::InvalidJson(m@),
            EditError::InvalidBuiltInSelector => EditErrorView::InvalidBuiltInSelector,
            EditError::InvalidLink(l) => EditErrorView::InvalidLink(l@),
            EditError::NoItems => EditErrorView::NoItems,
            EditError::InvalidFeed(m) => EditErrorView::InvalidFeed(m@),
        }
    }
}

/// The message that reports an edit error.
pub open spec fn edit_error_text(e: EditErrorView) -> Seq<char> {
    match e {
        EditErrorView::SelectedNothing => "selected nothing"@,
        EditErrorView::NothingToSort => "nothing to sort"@,
        EditErrorView::EmptyMarkdown => "html_markdownify made empty output"@,
        EditErrorView::InvalidJson(m) => m,
        EditErrorView::InvalidBuiltInSelector => "a built-in selector of rss is invalid"@,
        EditErrorView::InvalidLink(l) => "rss can not resolve the link "@ + l,
        EditErrorView::NoItems => "rss item_selector selected nothing"@,
        EditErrorView::InvalidFeed(m) => m,
    }
}

impl EditError {
    /// The message that reports the error.
    pub fn message(&self) -> (r: String)
        ensures
            r@ == edit_error_text(self@),
    {
        match self {
            EditError::SelectedNothing => "selected nothing".to_string(),
            EditError::NothingToSort => "nothing to sort".to_string(),
            EditError::EmptyMarkdown => "html_markdownify made empty output".to_string(),
            EditError::InvalidJson(m) => m.clone(),
            EditError::InvalidBuiltInSelector => "a built-in selector of rss is invalid".to_string(),
            EditError::InvalidLink(l) => {
                let mut m = "rss can not resolve the link ".to_string();
                m.append(l.as_str());
                m
            },
            EditError::NoItems => "rss item_selector selected nothing".to_string(),
            EditError::InvalidFeed(m) => m.clone(),
        }
    }
}

/// An editor: a step of turning the content of a page into what is kept.
pub enum Editor {
    CssFlatten(CssSelector),
    CssRemove(CssSelector),
    CssSelect(CssSelector),
    CssSort(CssSort),
    /// Gives the elements that the selector matches another HTML element name.
    CssTagReplace(CssTagReplace),
    /// Passes the content on; the content is also written to a file in this directory.
    DebugFiles(String),
    HtmlMarkdownify,
    HtmlPrettify,
    HtmlSanitize,
    HtmlTextify,
    HtmlUrlCanonicalize,
    JsonPrettify,
    RegexReplace(RegexReplacer),
    Rss(Rss),
}

/// HTML content with the given text.
pub open spec fn html_content(text: Seq<char>) -> ContentView {
    ContentView { extension: Some("html"@), text }
}

/// What an editor makes of a content of the page at `url`.
pub open spec fn applied(e: Editor, url: UrlView, c: ContentView) -> Result<ContentView, EditErrorView>
    decreases e, 2nat,
{
    let text = c.text;
    match e {
        Editor::CssFlatten(s) => Ok(html_content(document_markup(flattened(parsed_document(text), selected_flags(text, s@))))),
        Editor::CssRemove(s) => Ok(html_content(document_markup(without_selected(parsed_document(text), selected_flags(text, s@))))),
        Editor::CssSelect(s) => if selected_markup(text, s@).len() == 0 {
            Err(EditErrorView::SelectedNothing)
        } else {
            Ok(html_content(join(selected_markup(text, s@), seq!['\n'])))
        },
        Editor::CssSort(cs) => {
            let flags = selected_flags(text, cs.selector@);
            if !flags.contains(true) {
                Err(EditErrorView::NothingToSort)
            } else {
                Ok(html_content(document_markup(trees_events(sorted_trees(
                    trees_of(parsed_document(text), flags),
                    sort_key_fn(cs.sort_by@, url),
                    cs.reverse,
                )))))
            }
        },
        Editor::CssTagReplace(t) => {
            let flags = selected_flags(text, t.selector@);
            if !flags.contains(true) {
                Err(EditErrorView::SelectedNothing)
            } else {
                Ok(html_content(document_markup(renamed(parsed_document(text), flags, html_element_name(t.replace@)))))
            }
        },
        Editor::DebugFiles(_) => Ok(c),
        Editor::HtmlMarkdownify => if markdown_of(text).len() == 0 {
            Err(EditErrorView::EmptyMarkdown)
        } else {
            Ok(ContentView { extension: Some("md"@), text: markdown_of(text) })
        },
        Editor::HtmlPrettify => Ok(html_content(prettified(parsed_document(text)))),
        Editor::HtmlSanitize => Ok(html_content(ammonia_cleaned(text))),
        Editor::HtmlTextify => Ok(ContentView { extension: Some("txt"@), text: extracted(document_texts(text)) }),
        Editor::HtmlUrlCanonicalize => Ok(html_content(canonical_run(url.serialization, parsed_document(text)).0)),
        Editor::JsonPrettify => match json_pretty(text) {
            Ok(t) => Ok(ContentView { extension: Some("json"@), text: t }),
            Err(m) => Err(EditErrorView::InvalidJson(m)),
        },
        Editor::RegexReplace(rr) => Ok(ContentView { extension: c.extension, text: regex_replaced(rr.pattern_view(), text, rr.replace_view()) }),
        Editor::Rss(rss) => match rss_generated(rss, url, text) {
            Ok(t) => Ok(ContentView { extension: Some("xml"@), text: t }),
            Err(e) => Err(e),
        },
    }
}

/// What editors make of a content, one after the other; the first error stops them.
pub open spec fn applied_seq(es: Seq<Editor>, url: UrlView, c: ContentView) -> Result<ContentView, EditErrorView>
    decreases es, 0nat,
{
    if es.len() == 0 {
        Ok(c)
    } else {
        match applied_seq(es.drop_last(), url, c) {
            Ok(before) => applied(es.last(), url, before),
            Err(e) => Err(e),
        }
    }
}

/// The keys by which `css_sort` sorts elements.
pub open spec fn sort_key_fn(es: Seq<Editor>, url: UrlView) -> spec_fn(TreeView) -> Seq<char>
    decreases es, 2nat,
{
    |t: TreeView| sort_key(es, url, t)
}

/// The key by which `css_sort` sorts an element: its markup after the editors, or empty
/// where one of them fails.
pub open spec fn sort_key(es: Seq<Editor>, url: UrlView, t: TreeView) -> Seq<char>
    decreases es, 1nat,
{
    match applied_seq(es, url, html_content(document_markup(tree_events(t)))) {
        Ok(c) => c.text,
        Err(_) => Seq::empty(),
    }
}


/// The document with the elements that the selector of `cs` matches sorted.
pub fn sort_document(cs: &CssSort, url: &SiteUrl, html: &str) -> (r: Result<String, EditError>)
    ensures
        match (r, applied(Editor::CssSort(*cs), url@, html_content(html@))) {
            (Ok(s), Ok(c)) => s@ == c.text,
            (Err(e), Err(v)) => e@ == v,
            _ => false,
        },
{
    let (events, flags) = parse_and_select(&cs.selector, html);
    if !any_flag(&flags) {
        return Err(EditError::NothingToSort);
    }
    let roots = build_trees(&events, &flags);
    let sorted = sort_roots(cs, url, &roots);
    let mut out: Vec<DomEvent> = Vec::new();
    push_trees_events(&sorted, &mut out);
    assert(events_view(out@) =~= trees_events(trees_view(sorted@)));
    Ok(write_markup(&out))
}

/// Whether any flag is set.
pub fn any_flag(flags: &Vec<bool>) -> (r: bool)
    ensures
        r == flags@.contains(true),
{
    let mut i: usize = 0;
    while i < flags.len()
        invariant
            i <= flags@.len(),
            !flags@.take(i as int).contains(true),
        decreases flags@.len() - i,
    {
        if flags[i] {
            assert(flags@[i as int] == true);
            return true;
        }
        assert(flags@.take(i + 1) == flags@.take(i as int).push(flags@[i as int]));
        i += 1;
    }
    assert(flags@.take(flags@.len() as int) == flags@);
    false
}

fn sort_roots(cs: &CssSort, url: &SiteUrl, roots: &Vec<TreeNode>) -> (r: Vec<TreeNode>)
    ensures
        trees_view(r@) == sorted_trees(trees_view(roots@), sort_key_fn(cs.sort_by@, url@), cs.reverse),
    decreases cs.sort_by@, crate::tree::trees_size(roots@) + 1,
{
    let ghost rv = trees_view(roots@);
    let ghost key = sort_key_fn(cs.sort_by@, url@);
    proof {
        crate::tree::lemma_trees_view_len(roots@);
        crate::editor::css_sort::lemma_sorted_trees_len(rv, key, cs.reverse);
    }
    let mut r: Vec<TreeNode> = Vec::new();
    let mut i: usize = 0;
    while i < roots.len()
        invariant
            i <= roots@.len(),
            rv == trees_view(roots@),
            rv.len() == roots@.len(),
            key == sort_key_fn(cs.sort_by@, url@),
            trees_view(r@) == sorted_trees(rv.take(i as int), key, cs.reverse),
        decreases roots@.len() - i,
    {
        proof {
            crate::tree::lemma_trees_view_index(roots@, i as int);
            crate::tree::lemma_trees_size_index(roots@, i as int);
        }
        let t = crate::editor::css_sort::sort_node(cs, url, &roots[i]);
        proof {
            crate::tree::lemma_trees_view_push_pub(r@, t);
            assert(rv.take(i + 1).drop_last() == rv.take(i as int));
            assert(rv.take(i + 1).last() == rv[i as int]);
        }
        r.push(t);
        i += 1;
    }
    assert(rv.take(roots@.len() as int) == rv);
    r
}

impl Editor {
    /// The name of the editor as the configuration writes it.
    pub fn log_name(&self) -> (r: &'static str)
        ensures
            r@ == editor_name(*self),
    {
        match self {
            Editor::CssFlatten(_) => "css_flatten",
            Editor::CssRemove(_) => "css_remove",
            Editor::CssSelect(_) => "css_select",
            Editor::CssSort(_) => "css_sort",
            Editor::CssTagReplace(_) => "css_tag_replace",
            Editor::DebugFiles(_) => "debug_files",
            Editor::HtmlMarkdownify => "html_markdownify",
            Editor::HtmlPrettify => "html_prettify",
            Editor::HtmlSanitize => "html_sanitize",
            Editor::HtmlTextify => "html_textify",
            Editor::HtmlUrlCanonicalize => "html_url_canonicalize",
            Editor::JsonPrettify => "json_prettify",
            Editor::RegexReplace(_) => "regex_replace",
            Editor::Rss(_) => "rss",
        }
    }

    /// What the editor makes of the content of the page at `url`.
    pub fn apply(&self, url: &SiteUrl, input: Content) -> (r: Result<Content, EditError>)
        ensures
            match (r, applied(*self, url@, input@)) {
                (Ok(c), Ok(v)) => c@ == v,
                (Err(e), Err(v)) => e@ == v,
                _ => false,
            },
        decreases self, 0nat,
    {
        let text = input.text.as_str();
        match self {
            Editor::CssFlatten(s) => Ok(Content { extension: Some("html"), text: css_flatten::apply(s, text) }),
            Editor::CssRemove(s) => Ok(Content { extension: Some("html"), text: css_remove::apply(s, text) }),
            Editor::CssSelect(s) => match css_selector::apply(s, text) {
                Ok(t) => Ok(Content { extension: Some("html"), text: t }),
                Err(_) => Err(EditError::SelectedNothing),
            },
            Editor::CssSort(cs) => {
                let (events, flags) = parse_and_select(&cs.selector, text);
                if !any_flag(&flags) {
                    return Err(EditError::NothingToSort);
                }
                let roots = build_trees(&events, &flags);
                proof {
                    assert(decreases_to!(*self => cs.sort_by@));
                }
                let sorted = sort_roots(cs, url, &roots);
                let mut out: Vec<DomEvent> = Vec::new();
                push_trees_events(&sorted, &mut out);
                assert(events_view(out@) =~= trees_events(trees_view(sorted@)));
                Ok(Content { extension: Some("html"), text: write_markup(&out) })
            },
            Editor::CssTagReplace(t) => match t.apply(text) {
                Ok(s) => Ok(Content { extension: Some("html"), text: s }),
                Err(_) => Err(EditError::SelectedNothing),
            },
            Editor::DebugFiles(_) => Ok(input),
            Editor::HtmlMarkdownify => {
                let md = html_markdown::markdownify(text);
                if md.as_str().is_empty() {
                    Err(EditError::EmptyMarkdown)
                } else {
                    Ok(Content { extension: Some("md"), text: md })
                }
            },
            Editor::HtmlPrettify => Ok(Content { extension: Some("html"), text: html_pretty::prettify(text) }),
            Editor::HtmlSanitize => Ok(Content { extension: Some("html"), text: html_sanitize::sanitize(text) }),
            Editor::HtmlTextify => Ok(Content { extension: Some("txt"), text: html_text::extract(text) }),
            Editor::HtmlUrlCanonicalize => Ok(Content { extension: Some("html"), text: html_url::canonicalize(url, text) }),
            Editor::JsonPrettify => match json_prettify::prettify(text) {
                Ok(t) => Ok(Content { extension: Some("json"), text: t }),
                Err(e) => Err(EditError::InvalidJson(e.message)),
            },
            Editor::RegexReplace(rr) => Ok(Content { extension: input.extension, text: rr.replace_all(text) }),
            Editor::Rss(rss) => match rss.generate(url, text) {
                Ok(t) => Ok(Content { extension: Some("xml"), text: t }),
                Err(e) => Err(e),
            },
        }
    }
}

/// Applies editors one after the other; the first error stops them.
pub fn apply_seq(editors: &Vec<Editor>, url: &SiteUrl, input: Content) -> (r: Result<Content, EditError>)
    ensures
        match (r, applied_seq(editors@, url@, input@)) {
            (Ok(c), Ok(v)) => c@ == v,
            (Err(e), Err(v)) => e@ == v,
            _ => false,
        },
    decreases editors@, 0nat,
{
    let ghost iv = input@;
    let mut content = input;
    let mut i: usize = 0;
    while i < editors.len()
        invariant
            i <= editors@.len(),
            iv == input@,
            applied_seq(editors@.take(i as int), url@, iv) == Ok::<ContentView, EditErrorView>(content@),
        decreases editors@.len() - i,
    {
        assert(editors@.take(i + 1).drop_last() == editors@.take(i as int));
        assert(editors@.take(i + 1).last() == editors@[i as int]);
        let ghost cv = content@;
        match editors[i].apply(url, content) {
            Ok(c) => {
                content = c;
            },
            Err(e) => {
                proof {
                    assert(applied(editors@[i as int], url@, cv) == Err::<ContentView, EditErrorView>(e@));
                    assert(applied_seq(editors@.take(i + 1), url@, iv) == applied(editors@[i as int], url@, cv));
                    lemma_applied_seq_err(editors@, url@, iv, (i + 1) as int);
                    assert(applied_seq(editors@, url@, iv) == Err::<ContentView, EditErrorView>(e@));
                }
                return Err(e);
            },
        }
        i += 1;
    }
    assert(editors@.take(editors@.len() as int) == editors@);
    Ok(content)
}

/// Once an editor fails, the rest do not change the error.
pub proof fn lemma_applied_seq_err(es: Seq<Editor>, url: UrlView, c: ContentView, n: int)
    requires
        0 <= n <= es.len(),
        applied_seq(es.take(n), url, c) is Err,
    ensures
        applied_seq(es, url, c) == applied_seq(es.take(n), url, c),
    decreases es.len() - n,
{
    if n < es.len() {
        assert(es.take(n + 1).drop_last() == es.take(n));
        lemma_applied_seq_err(es, url, c, n + 1);
    } else {
        assert(es.take(n) == es);
    }
}

/// Editors are a pipeline: each gets what the one before made. Applying `a` and then `b`
/// is applying `b` to what `a` made, and an error of `a` is the error of all.
pub proof fn law_pipeline(a: Seq<Editor>, b: Seq<Editor>, url: UrlView, c: ContentView)
    ensures
        applied_seq(a + b, url, c) == match applied_seq(a, url, c) {
            Ok(x) => applied_seq(b, url, x),
            Err(e) => Err(e),
        },
    decreases b.len(),
{
    if b.len() == 0 {
        assert(a + b =~= a);
    } else {
        law_pipeline(a, b.drop_last(), url, c);
        assert((a + b).drop_last() =~= a + b.drop_last());
        assert((a + b).last() == b.last());
    }
}

/// `debug_files` passes its input through unchanged.
pub proof fn law_debug_files_passes_through(dir: String, url: UrlView, c: ContentView)
    ensures
        applied(Editor::DebugFiles(dir), url, c) == Ok::<ContentView, EditErrorView>(c),
{
}

/// The editors of a site fail where the pipeline fails, with the same error, and else
/// make the same content.
pub proof fn law_many_is_pipeline(es: Seq<Editor>, url: UrlView, c: ContentView)
    ensures
        match (applied_many(es, url, c), applied_seq(es, url, c)) {
            (Ok(x), Ok(y)) => x == y,
            (Err(f), Err(e)) => f.1 == e && 0 <= f.0 < es.len(),
            _ => false,
        },
    decreases es.len(),
{
    if es.len() > 0 {
        law_many_is_pipeline(es.drop_last(), url, c);
    }
}

/// A selector that matches nothing leaves the document as it is: `css_flatten` and
/// `css_remove` then both give the document as scraper writes it.
pub proof fn law_nothing_selected_changes_nothing(s: CssSelector, url: UrlView, c: ContentView)
    requires
        forall|i: int|
            0 <= i < parsed_document(c.text).len() ==> !#[trigger] selected_flags(c.text, s@)[i],
    ensures
        applied(Editor::CssFlatten(s), url, c) == Ok::<ContentView, EditErrorView>(
            html_content(document_markup(parsed_document(c.text))),
        ),
        applied(Editor::CssRemove(s), url, c) == Ok::<ContentView, EditErrorView>(
            html_content(document_markup(parsed_document(c.text))),
        ),
{
    crate::dom::law_nothing_flattened(parsed_document(c.text), selected_flags(c.text, s@));
    crate::dom::law_nothing_removed(parsed_document(c.text), selected_flags(c.text, s@));
}

/// The name of an editor as the configuration writes it.
pub open spec fn editor_name(e: Editor) -> Seq<char> {
    match e {
        Editor::CssFlatten(_) => "css_flatten"@,
        Editor::CssRemove(_) => "css_remove"@,
        Editor::CssSelect(_) => "css_select"@,
        Editor::CssSort(_) => "css_sort"@,
        Editor::CssTagReplace(_) => "css_tag_replace"@,
        Editor::DebugFiles(_) => "debug_files"@,
        Editor::HtmlMarkdownify => "html_markdownify"@,
        Editor::HtmlPrettify => "html_prettify"@,
        Editor::HtmlSanitize => "html_sanitize"@,
        Editor::HtmlTextify => "html_textify"@,
        Editor::HtmlUrlCanonicalize => "html_url_canonicalize"@,
        Editor::JsonPrettify => "json_prettify"@,
        Editor::RegexReplace(_) => "regex_replace"@,
        Editor::Rss(_) => "rss"@,
    }
}


/// An editor of a list failed: its place in the list, its name and why.
#[derive(Debug)]
pub struct EditFailure {
    pub index: usize,
    pub editor: &'static str,
    pub error: EditError,
}

/// What editors make of a content one after the other, or the place and error of the
/// first that fails.
pub open spec fn applied_many(es: Seq<Editor>, url: UrlView, c: ContentView) -> Result<ContentView, (int, EditErrorView)>
    decreases es.len(),
{
    if es.len() == 0 {
        Ok(c)
    } else {
        match applied_many(es.drop_last(), url, c) {
            Ok(before) => match applied(es.last(), url, before) {
                Ok(after) => Ok(after),
                Err(e) => Err((es.len() - 1, e)),
            },
            Err(f) => Err(f),
        }
    }
}

proof fn lemma_literal_plain(s: &str)
    requires
        s@ == "html"@ || s@ == "md"@ || s@ == "txt"@ || s@ == "json"@ || s@ == "xml"@,
    ensures
        crate::site::no_separator(s@),
{
    reveal_strlit("html");
    reveal_strlit("md");
    reveal_strlit("txt");
    reveal_strlit("json");
    reveal_strlit("xml");
    assert(!s@.contains('/') && !s@.contains('\\')) by {
        if s@.contains('/') || s@.contains('\\') {
            let k = choose|k: int| 0 <= k < s@.len() && (s@[k] == '/' || s@[k] == '\\');
            if s@ == "html"@ {
                assert(s@ =~= seq!['h', 't', 'm', 'l']);
            } else if s@ == "md"@ {
                assert(s@ =~= seq!['m', 'd']);
            } else if s@ == "txt"@ {
                assert(s@ =~= seq!['t', 'x', 't']);
            } else if s@ == "json"@ {
                assert(s@ =~= seq!['j', 's', 'o', 'n']);
            } else {
                assert(s@ =~= seq!['x', 'm', 'l']);
            }
        }
    }
}

/// An editor gives its content either the extension it had or one of its own, and none
/// of these holds a path separator.
pub proof fn lemma_applied_plain(e: Editor, url: UrlView, c: ContentView)
    requires
        crate::site::plain_extension(c.extension),
    ensures
        applied(e, url, c) matches Ok(d) ==> crate::site::plain_extension(d.extension),
{
    lemma_literal_plain("html");
    lemma_literal_plain("md");
    lemma_literal_plain("txt");
    lemma_literal_plain("json");
    lemma_literal_plain("xml");
}

/// The editors of a site keep the extension free of path separators.
pub proof fn lemma_applied_many_plain(es: Seq<Editor>, url: UrlView, c: ContentView)
    requires
        crate::site::plain_extension(c.extension),
    ensures
        applied_many(es, url, c) matches Ok(d) ==> crate::site::plain_extension(d.extension),
    decreases es.len(),
{
    if es.len() > 0 {
        lemma_applied_many_plain(es.drop_last(), url, c);
        if let Ok(before) = applied_many(es.drop_last(), url, c) {
            lemma_applied_plain(es.last(), url, before);
        }
    }
}

/// The editors of a site are a pipeline too: applying `a` and then `b` is applying `b` to
/// what `a` made, a failure of `b` counted from the end of `a`, and a failure of `a` stops
/// all.
pub proof fn law_many_pipeline(a: Seq<Editor>, b: Seq<Editor>, url: UrlView, c: ContentView)
    ensures
        applied_many(a + b, url, c) == match applied_many(a, url, c) {
            Ok(m) => match applied_many(b, url, m) {
                Ok(x) => Ok(x),
                Err(f) => Err((a.len() + f.0, f.1)),
            },
            Err(f) => Err(f),
        },
    decreases b.len(),
{
    if b.len() == 0 {
        assert(a + b =~= a);
    } else {
        law_many_pipeline(a, b.drop_last(), url, c);
        assert((a + b).drop_last() =~= a + b.drop_last());
        assert((a + b).last() == b.last());
    }
}

/// Once an editor fails, the rest do not change the failure.
pub proof fn lemma_applied_many_err(es: Seq<Editor>, url: UrlView, c: ContentView, n: int)
    requires
        0 <= n <= es.len(),
        applied_many(es.take(n), url, c) is Err,
    ensures
        applied_many(es, url, c) == applied_many(es.take(n), url, c),
    decreases es.len() - n,
{
    if n < es.len() {
        assert(es.take(n + 1).drop_last() == es.take(n));
        lemma_applied_many_err(es, url, c, n + 1);
    } else {
        assert(es.take(n) == es);
    }
}

impl Editor {
    /// Applies the editors one after the other; the first that fails stops them, and its
    /// place, name and error are returned.
    pub fn apply_many(editors: &Vec<Editor>, url: &SiteUrl, input: Content) -> (r: Result<Content, EditFailure>)
        ensures
            match (r, applied_many(editors@, url@, input@)) {
                (Ok(c), Ok(v)) => c@ == v,
                (Err(f), Err(v)) => f.index == v.0 && f.error@ == v.1 && f.editor@ == editor_name(editors@[v.0]),
                _ => false,
            },
    {
        let ghost iv = input@;
        let mut content = input;
        let mut i: usize = 0;
        while i < editors.len()
            invariant
                i <= editors@.len(),
                iv == input@,
                applied_many(editors@.take(i as int), url@, iv) == Ok::<ContentView, (int, EditErrorView)>(content@),
            decreases editors@.len() - i,
        {
            assert(editors@.take(i + 1).drop_last() == editors@.take(i as int));
            assert(editors@.take(i + 1).last() == editors@[i as int]);
            let ghost cv = content@;
            match editors[i].apply(url, content) {
                Ok(c) => {
                    content = c;
                },
                Err(e) => {
                    proof {
                        assert(applied_many(editors@.take(i + 1), url@, iv) == Err::<ContentView, (int, EditErrorView)>((i as int, e@)));
                        lemma_applied_many_err(editors@, url@, iv, (i + 1) as int);
                    }
                    return Err(EditFailure { index: i, editor: editors[i].log_name(), error: e });
                },
            }
            i += 1;
        }
        assert(editors@.take(editors@.len() as int) == editors@);
        Ok(content)
    }
}


/// Two optional selectors are the same.
pub open spec fn same_selector(a: Option<CssSelector>, b: Option<CssSelector>) -> bool {
    match (a, b) {
        (Some(x), Some(y)) => x@ == y@,
        (None, None) => true,
        _ => false,
    }
}

/// Two editors do the same: the same kind with the same settings.
pub open spec fn same_editor(a: Editor, b: Editor) -> bool
    decreases a, 1nat,
{
    match (a, b) {
        (Editor::CssFlatten(x), Editor::CssFlatten(y)) => x@ == y@,
        (Editor::CssRemove(x), Editor::CssRemove(y)) => x@ == y@,
        (Editor::CssSelect(x), Editor::CssSelect(y)) => x@ == y@,
        (Editor::CssSort(x), Editor::CssSort(y)) => x.selector@ == y.selector@ && x.reverse == y.reverse
            && same_editors(x.sort_by@, y.sort_by@),
        (Editor::CssTagReplace(x), Editor::CssTagReplace(y)) => x.selector@ == y.selector@ && x.replace@ == y.replace@,
        (Editor::DebugFiles(x), Editor::DebugFiles(y)) => x@ == y@,
        (Editor::HtmlMarkdownify, Editor::HtmlMarkdownify) => true,
        (Editor::HtmlPrettify, Editor::HtmlPrettify) => true,
        (Editor::HtmlSanitize, Editor::HtmlSanitize) => true,
        (Editor::HtmlTextify, Editor::HtmlTextify) => true,
        (Editor::HtmlUrlCanonicalize, Editor::HtmlUrlCanonicalize) => true,
        (Editor::JsonPrettify, Editor::JsonPrettify) => true,
        (Editor::RegexReplace(x), Editor::RegexReplace(y)) => x.pattern_view() == y.pattern_view()
            && x.replace_view() == y.replace_view(),
        (Editor::Rss(x), Editor::Rss(y)) => crate::editor::rss::opt(x.title) == crate::editor::rss::opt(y.title)
            && same_selector(x.item_selector, y.item_selector) && same_selector(x.title_selector, y.title_selector)
            && same_selector(x.link_selector, y.link_selector) && same_editors(x.content_editors@, y.content_editors@),
        _ => false,
    }
}

/// Two lists of editors do the same, one by one.
pub open spec fn same_editors(a: Seq<Editor>, b: Seq<Editor>) -> bool
    decreases a, 0nat,
{
    a.len() == b.len() && forall|i: int| 0 <= i < a.len() ==> same_editor(#[trigger] a[i], b[i])
}

fn duplicate_selector(s: &Option<CssSelector>) -> (r: Option<CssSelector>)
    ensures
        same_selector(r, *s),
{
    match s {
        Some(x) => Some(x.duplicate()),
        None => None,
    }
}

impl Editor {
    /// A copy of the editor.
    pub fn duplicate(&self) -> (r: Editor)
        ensures
            same_editor(r, *self),
        decreases self, 0nat,
    {
        match self {
            Editor::CssFlatten(s) => Editor::CssFlatten(s.duplicate()),
            Editor::CssRemove(s) => Editor::CssRemove(s.duplicate()),
            Editor::CssSelect(s) => Editor::CssSelect(s.duplicate()),
            Editor::CssSort(cs) => {
                proof {
                    assert(decreases_to!(*self => cs.sort_by@));
                }
                Editor::CssSort(CssSort {
                    selector: cs.selector.duplicate(),
                    reverse: cs.reverse,
                    sort_by: duplicate_editors(&cs.sort_by),
                })
            },
            Editor::CssTagReplace(t) => Editor::CssTagReplace(
                CssTagReplace { selector: t.selector.duplicate(), replace: t.replace.clone() },
            ),
            Editor::DebugFiles(p) => Editor::DebugFiles(p.clone()),
            Editor::HtmlMarkdownify => Editor::HtmlMarkdownify,
            Editor::HtmlPrettify => Editor::HtmlPrettify,
            Editor::HtmlSanitize => Editor::HtmlSanitize,
            Editor::HtmlTextify => Editor::HtmlTextify,
            Editor::HtmlUrlCanonicalize => Editor::HtmlUrlCanonicalize,
            Editor::JsonPrettify => Editor::JsonPrettify,
            Editor::RegexReplace(rr) => Editor::RegexReplace(rr.duplicate()),
            Editor::Rss(rss) => {
                proof {
                    assert(decreases_to!(*self => rss.content_editors@));
                }
                Editor::Rss(Rss {
                    title: match &rss.title {
                        Some(t) => Some(t.clone()),
                        None => None,
                    },
                    item_selector: duplicate_selector(&rss.item_selector),
                    title_selector: duplicate_selector(&rss.title_selector),
                    link_selector: duplicate_selector(&rss.link_selector),
                    content_editors: duplicate_editors(&rss.content_editors),
                })
            },
        }
    }
}

/// Copies of the editors.
pub fn duplicate_editors(es: &Vec<Editor>) -> (r: Vec<Editor>)
    ensures
        same_editors(r@, es@),
    decreases es@, 1nat,
{
    let mut r: Vec<Editor> = Vec::new();
    let mut i: usize = 0;
    while i < es.len()
        invariant
            i <= es@.len(),
            r@.len() == i,
            forall|j: int| 0 <= j < i ==> same_editor(#[trigger] r@[j], es@[j]),
        decreases es@.len() - i,
    {
        let d = es[i].duplicate();
        r.push(d);
        i += 1;
    }
    r
}

} // verus!
