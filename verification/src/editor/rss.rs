//! An RSS feed made of the items of a page.
use crate::dom::{CssSelector, selector_parses};
use crate::editor::{
    Content, ContentView, EditError, EditErrorView, Editor, apply_seq, applied_seq, html_content,
};
use crate::text::{join, join_strings, trim, trim_str};
use crate::weburl::{SiteUrl, UrlView, joined_url};
use rss::validation::Validate as _;
use scraper::Html;
use vstd::prelude::*;

verus! {

broadcast use vstd::string::group_string_axioms;

/// Where the title of the page is looked for.
pub const PAGE_TITLE_SELECTOR: &'static str = "title, h1, h2, h3, h4, h5, h6";

/// Where the description of the page is looked for.
pub const DESCRIPTION_SELECTOR: &'static str = "meta[name=description]";

/// Where the date of an item is looked for.
pub const DATETIME_SELECTOR: &'static str = "*[datetime]";

/// The items, where the configuration names no selector.
pub const DEFAULT_ITEM_SELECTOR: &'static str = "article";

/// The title of an item, where the configuration names no selector.
pub const DEFAULT_TITLE_SELECTOR: &'static str = "h2";

/// The link of an item, where the configuration names no selector.
pub const DEFAULT_LINK_SELECTOR: &'static str = "a";

/// The generator named in each feed.
pub const GENERATOR: &'static str = "website-stalker https://github.com/EdJoPaTo/website-stalker";

/// The markup and the `href` of each element that `Html::select` finds for `item_sel`.
pub uninterp spec fn rss_items(html: Seq<char>, item_sel: Seq<char>) -> Seq<(Seq<char>, Option<Seq<char>>)>;

/// For each item, the texts of the first element in it that `sel` matches.
pub uninterp spec fn rss_first_texts(html: Seq<char>, item_sel: Seq<char>, sel: Seq<char>) -> Seq<Option<Seq<Seq<char>>>>;

/// For each item, the value of `attr` of the first element in it that `sel` matches and
/// that has it.
pub uninterp spec fn rss_first_attr(html: Seq<char>, item_sel: Seq<char>, sel: Seq<char>, attr: Seq<char>) -> Seq<Option<Seq<char>>>;

/// The inner markup of the first element of the page that `sel` matches.
pub uninterp spec fn page_first_inner_html(html: Seq<char>, sel: Seq<char>) -> Option<Seq<char>>;

/// The value of `attr` of the first element of the page that `sel` matches and that has
/// it.
pub uninterp spec fn page_first_attr(html: Seq<char>, sel: Seq<char>, attr: Seq<char>) -> Option<Seq<char>>;

/// The RFC 2822 form of an RFC 3339 date, where chrono parses it.
pub uninterp spec fn rfc2822_of(datetime: Seq<char>) -> Option<Seq<char>>;

/// An item of a feed.
pub struct FeedItem {
    pub title: Option<String>,
    pub link: Option<String>,
    pub pub_date: Option<String>,
    pub content: String,
}

/// A feed.
pub struct Feed {
    pub title: Option<String>,
    pub link: String,
    pub description: Option<String>,
    pub generator: String,
    pub items: Vec<FeedItem>,
}

/// The plain value of an item.
pub struct FeedItemView {
    pub title: Option<Seq<char>>,
    pub link: Option<Seq<char>>,
    pub pub_date: Option<Seq<char>>,
    pub content: Seq<char>,
}

/// The plain value of a feed.
pub struct FeedView {
    pub title: Option<Seq<char>>,
    pub link: Seq<char>,
    pub description: Option<Seq<char>>,
    pub generator: Seq<char>,
    pub items: Seq<FeedItemView>,
}

/// The plain value of an optional string.
pub open spec fn opt(o: Option<String>) -> Option<Seq<char>> {
    match o {
        Some(s) => Some(s@),
        None => None,
    }
}

impl View for FeedItem {
    type V = FeedItemView;

    open spec fn view(&self) -> FeedItemView {
        FeedItemView {
            title: opt(self.title),
            link: opt(self.link),
            pub_date: opt(self.pub_date),
            content: self.content@,
        }
    }
}

impl View for Feed {
    type V = FeedView;

    open spec fn view(&self) -> FeedView {
        FeedView {
            title: opt(self.title),
            link: self.link@,
            description: opt(self.description),
            generator: self.generator@,
            items: self.items@.map_values(|i: FeedItem| i@),
        }
    }
}

/// What the rss crate writes of a feed: validated, then written with one tab of indent;
/// or the message of its error.
pub uninterp spec fn feed_written(feed: FeedView) -> Result<Seq<char>, Seq<char>>;

/// scraper's `Html::select` with `item_sel`: each element's `html` and `href`.
#[verifier::external_body]
fn select_items(html: &str, item_sel: &str) -> (r: Vec<(String, Option<String>)>)
    requires
        selector_parses(item_sel@),
    ensures
        r@.map_values(|p: (String, Option<String>)| (p.0@, opt(p.1))) == rss_items(html@, item_sel@),
{
    let doc = Html::parse_document(html);
    let Ok(item) = scraper::Selector::parse(item_sel) else { return Vec::new() };
    doc.select(&item).map(|e| (e.html(), e.value().attr("href").map(String::from))).collect()
}

/// For each item that `Html::select` finds for `item_sel`: the texts (`ElementRef::text`)
/// of the first element in it that `sel` matches.
#[verifier::external_body]
fn select_first_texts(html: &str, item_sel: &str, sel: &str) -> (r: Vec<Option<Vec<String>>>)
    requires
        selector_parses(item_sel@),
        selector_parses(sel@),
    ensures
        r@.map_values(|o: Option<Vec<String>>| match o {
            Some(v) => Some(v@.map_values(|s: String| s@)),
            None => None,
        }) == rss_first_texts(html@, item_sel@, sel@),
        r@.len() == rss_items(html@, item_sel@).len(),
{
    let doc = Html::parse_document(html);
    let (Ok(item), Ok(sel)) = (scraper::Selector::parse(item_sel), scraper::Selector::parse(sel)) else { return Vec::new() };
    doc.select(&item).map(|e| e.select(&sel).next().map(|t| t.text().map(String::from).collect())).collect()
}

/// For each item that `Html::select` finds for `item_sel`: the value of `attr` of the
/// first element in it (not the item itself) that `sel` matches and that has it.
#[verifier::external_body]
fn select_first_attr(html: &str, item_sel: &str, sel: &str, attr: &str) -> (r: Vec<Option<String>>)
    requires
        selector_parses(item_sel@),
        selector_parses(sel@),
    ensures
        r@.map_values(|o: Option<String>| opt(o)) == rss_first_attr(html@, item_sel@, sel@, attr@),
        r@.len() == rss_items(html@, item_sel@).len(),
{
    let doc = Html::parse_document(html);
    let (Ok(item), Ok(sel)) = (scraper::Selector::parse(item_sel), scraper::Selector::parse(sel)) else { return Vec::new() };
    doc.select(&item).map(|e| e.select(&sel).find_map(|x| x.value().attr(attr)).map(String::from)).collect()
}

/// The `inner_html` of the first element of the page that `sel` matches.
#[verifier::external_body]
fn first_inner_html(html: &str, sel: &str) -> (r: Option<String>)
    requires
        selector_parses(sel@),
    ensures
        opt(r) == page_first_inner_html(html@, sel@),
{
    let doc = Html::parse_document(html);
    let Ok(sel) = scraper::Selector::parse(sel) else { return None };
    doc.select(&sel).next().map(|e| e.inner_html())
}

/// The value of `attr` of the first element of the page that `sel` matches and has it.
#[verifier::external_body]
fn first_attr(html: &str, sel: &str, attr: &str) -> (r: Option<String>)
    requires
        selector_parses(sel@),
    ensures
        opt(r) == page_first_attr(html@, sel@, attr@),
{
    let doc = Html::parse_document(html);
    let Ok(sel) = scraper::Selector::parse(sel) else { return None };
    doc.select(&sel).find_map(|e| e.value().attr(attr)).map(String::from)
}

/// chrono's `DateTime::parse_from_rfc3339`, then `to_rfc2822`.
#[verifier::external_body]
fn rfc2822(datetime: &str) -> (r: Option<String>)
    ensures
        opt(r) == rfc2822_of(datetime@),
{
    chrono::DateTime::parse_from_rfc3339(datetime).ok().map(|d| d.to_rfc2822())
}

/// The rss crate's `ChannelBuilder` and `ItemBuilder` with the feed's values (an empty
/// title or description where it has none), `Validate::validate`, then `pretty_write_to`
/// with a tab's indent.
#[verifier::external_body]
fn write_feed(feed: Feed) -> (r: Result<String, String>)
    ensures
        match (r, feed_written(feed@)) {
            (Ok(s), Ok(t)) => s@ == t,
            (Err(s), Err(t)) => s@ == t,
            _ => false,
        },
{
    let items = feed.items.into_iter().map(|i| rss::Item { title: i.title, link: i.link, pub_date: i.pub_date, content: Some(i.content), ..Default::default() }).collect();
    let channel = rss::Channel { title: feed.title.unwrap_or_default(), link: feed.link, description: feed.description.unwrap_or_default(), generator: Some(feed.generator), items, ..Default::default() };
    channel.validate().map_err(|e| e.to_string())?;
    let mut buffer = Vec::new();
    channel.pretty_write_to(&mut buffer, b'\t', 1).map_err(|e| e.to_string())?;
    String::from_utf8(buffer).map_err(|e| e.to_string())
}

/// Makes an RSS feed of the items of a page.
pub struct Rss {
    /// The title of the feed; else the page's.
    pub title: Option<String>,
    pub item_selector: Option<CssSelector>,
    pub title_selector: Option<CssSelector>,
    pub link_selector: Option<CssSelector>,
    /// The editors that make the content of each item of its markup.
    pub content_editors: Vec<Editor>,
}

/// scraper accepts the selectors that every feed uses.
pub open spec fn builtin_selectors_parse() -> bool {
    &&& selector_parses(PAGE_TITLE_SELECTOR@)
    &&& selector_parses(DESCRIPTION_SELECTOR@)
    &&& selector_parses(DATETIME_SELECTOR@)
    &&& selector_parses(DEFAULT_ITEM_SELECTOR@)
    &&& selector_parses(DEFAULT_TITLE_SELECTOR@)
    &&& selector_parses(DEFAULT_LINK_SELECTOR@)
}

/// The selector that is configured, else the default.
pub open spec fn chosen(s: Option<CssSelector>, default: Seq<char>) -> Seq<char> {
    match s {
        Some(x) => x@,
        None => default,
    }
}

/// The texts trimmed, the empty ones dropped.
pub open spec fn nonempty_trimmed(texts: Seq<Seq<char>>) -> Seq<Seq<char>>
    decreases texts.len(),
{
    if texts.len() == 0 {
        Seq::empty()
    } else {
        let rest = nonempty_trimmed(texts.drop_last());
        let t = trim(texts.last());
        if t.len() == 0 {
            rest
        } else {
            rest.push(t)
        }
    }
}

/// The title of an item: its texts trimmed, the empty ones dropped, one per line.
pub open spec fn item_title(texts: Seq<Seq<char>>) -> Seq<char> {
    join(nonempty_trimmed(texts), seq!['\n'])
}

proof fn lemma_nonempty_trimmed_parts(texts: Seq<Seq<char>>)
    ensures
        forall|k: int| 0 <= k < nonempty_trimmed(texts).len() ==> (#[trigger] nonempty_trimmed(texts)[k]).len() > 0,
    decreases texts.len(),
{
    if texts.len() > 0 {
        lemma_nonempty_trimmed_parts(texts.drop_last());
        let rest = nonempty_trimmed(texts.drop_last());
        let t = trim(texts.last());
        if t.len() > 0 {
            assert forall|k: int| 0 <= k < rest.push(t).len() implies (#[trigger] rest.push(t)[k]).len() > 0 by {
                if k < rest.len() {
                    assert(rest.push(t)[k] == rest[k]);
                }
            }
        }
    }
}

proof fn lemma_join_nonempty(parts: Seq<Seq<char>>, sep: Seq<char>)
    requires
        parts.len() > 0,
        parts.last().len() > 0,
    ensures
        join(parts, sep).len() > 0,
{
}

/// The title of an item keeps every text of its title element: appending a text whose
/// trimmed form is empty changes nothing; appending any other adds its trimmed form, on a
/// line of its own after the title so far (where that is not empty). The title of no
/// texts is empty.
pub proof fn law_item_title_keeps_every_text(texts: Seq<Seq<char>>, t: Seq<char>)
    ensures
        item_title(Seq::empty()) == Seq::<char>::empty(),
        item_title(texts.push(t)) == if trim(t).len() == 0 {
            item_title(texts)
        } else if item_title(texts).len() == 0 {
            trim(t)
        } else {
            item_title(texts) + seq!['\n'] + trim(t)
        },
{
    let parts = nonempty_trimmed(texts);
    assert(texts.push(t).drop_last() =~= texts);
    assert(texts.push(t).last() == t);
    lemma_nonempty_trimmed_parts(texts);
    if parts.len() > 0 {
        lemma_join_nonempty(parts, seq!['\n']);
    }
    if trim(t).len() > 0 {
        assert(parts.push(trim(t)).drop_last() =~= parts);
        assert(parts.push(trim(t)).last() == trim(t));
        if parts.len() == 0 {
            assert(parts.push(trim(t)) =~= seq![trim(t)]);
        }
    }
}

/// A link resolved against the page's URL; `Err` with the link where the `url` crate
/// cannot resolve it.
pub open spec fn resolved(base: Seq<char>, href: Option<Seq<char>>) -> Result<Option<Seq<char>>, Seq<char>> {
    match href {
        None => Ok(None),
        Some(h) => match joined_url(base, h) {
            Some(u) => Ok(Some(u.serialization)),
            None => Err(h),
        },
    }
}

/// What the page holds of an item.
pub struct ItemSource {
    pub html: Seq<char>,
    pub href: Option<Seq<char>>,
    pub title_texts: Option<Seq<Seq<char>>>,
    pub link_href: Option<Seq<char>>,
    pub datetime: Option<Seq<char>>,
}

/// The item of the feed made of what the page holds of it: the link of its title
/// selector's element in place of its own, its content by the editors.
pub open spec fn item_result(es: Seq<Editor>, url: UrlView, src: ItemSource) -> Result<FeedItemView, EditErrorView>
    decreases es, 1nat,
{
    match resolved(url.serialization, src.href) {
        Err(h) => Err(EditErrorView::InvalidLink(h)),
        Ok(own) => match resolved(url.serialization, src.link_href) {
            Err(h) => Err(EditErrorView::InvalidLink(h)),
            Ok(inner) => match applied_seq(es, url, html_content(src.html)) {
                Err(e) => Err(e),
                Ok(c) => Ok(
                    FeedItemView {
                        title: match src.title_texts {
                            Some(t) => Some(item_title(t)),
                            None => None,
                        },
                        link: if inner is Some {
                            inner
                        } else {
                            own
                        },
                        pub_date: match src.datetime {
                            Some(d) => rfc2822_of(d),
                            None => None,
                        },
                        content: c.text,
                    },
                ),
            },
        },
    }
}

/// The error of the first failed item, if any.
pub open spec fn first_error(results: Seq<Result<FeedItemView, EditErrorView>>) -> Option<EditErrorView>
    decreases results.len(),
{
    if results.len() == 0 {
        None
    } else {
        match results[0] {
            Err(e) => Some(e),
            Ok(_) => first_error(results.drop_first()),
        }
    }
}

/// The value of an item that did not fail.
pub open spec fn item_value(r: Result<FeedItemView, EditErrorView>) -> FeedItemView {
    match r {
        Ok(v) => v,
        Err(_) => arbitrary(),
    }
}

/// What the page holds of each item.
pub open spec fn item_sources(rss: Rss, html: Seq<char>) -> Seq<ItemSource> {
    let item_sel = chosen(rss.item_selector, DEFAULT_ITEM_SELECTOR@);
    let items = rss_items(html, item_sel);
    let titles = rss_first_texts(html, item_sel, chosen(rss.title_selector, DEFAULT_TITLE_SELECTOR@));
    let links = rss_first_attr(html, item_sel, chosen(rss.link_selector, DEFAULT_LINK_SELECTOR@), "href"@);
    let dates = rss_first_attr(html, item_sel, DATETIME_SELECTOR@, "datetime"@);
    Seq::new(
        items.len(),
        |i: int|
            ItemSource {
                html: items[i].0,
                href: items[i].1,
                title_texts: titles[i],
                link_href: links[i],
                datetime: dates[i],
            },
    )
}

/// The title of the feed: the configured one, else the trimmed inner markup of the page's
/// title or first heading.
pub open spec fn feed_title(rss: Rss, html: Seq<char>) -> Option<Seq<char>> {
    match rss.title {
        Some(t) => Some(t@),
        None => match page_first_inner_html(html, PAGE_TITLE_SELECTOR@) {
            Some(t) => Some(trim(t)),
            None => None,
        },
    }
}

/// The item of the feed made of each item of the page, or why it fails.
pub open spec fn item_results(rss: Rss, url: UrlView, html: Seq<char>) -> Seq<Result<FeedItemView, EditErrorView>>
    decreases rss.content_editors@, 2nat,
{
    let sources = item_sources(rss, html);
    Seq::new(sources.len(), |i: int| item_result(rss.content_editors@, url, sources[i]))
}

/// The feed of a page at `url`, or why there is none.
pub open spec fn rss_generated(rss: Rss, url: UrlView, html: Seq<char>) -> Result<Seq<char>, EditErrorView>
    decreases rss.content_editors@, 3nat,
{
    if !builtin_selectors_parse() {
        Err(EditErrorView::InvalidBuiltInSelector)
    } else {
        let results = item_results(rss, url, html);
        match first_error(results) {
            Some(e) => Err(e),
            None => if results.len() == 0 {
                Err(EditErrorView::NoItems)
            } else {
                let feed = FeedView {
                    title: feed_title(rss, html),
                    link: url.serialization,
                    description: page_first_attr(html, DESCRIPTION_SELECTOR@, "content"@),
                    generator: GENERATOR@,
                    items: results.map_values(|r: Result<FeedItemView, EditErrorView>| item_value(r)),
                };
                match feed_written(feed) {
                    Ok(s) => Ok(s),
                    Err(m) => Err(EditErrorView::InvalidFeed(m)),
                }
            },
        }
    }
}

proof fn lemma_first_error_none(results: Seq<Result<FeedItemView, EditErrorView>>)
    requires
        forall|j: int| 0 <= j < results.len() ==> #[trigger] results[j] is Ok,
    ensures
        first_error(results) is None,
    decreases results.len(),
{
    if results.len() > 0 {
        assert forall|j: int| 0 <= j < results.drop_first().len() implies #[trigger] results.drop_first()[j] is Ok by {
            assert(results.drop_first()[j] == results[j + 1]);
        }
        lemma_first_error_none(results.drop_first());
    }
}

proof fn lemma_first_error_at(results: Seq<Result<FeedItemView, EditErrorView>>, i: int, e: EditErrorView)
    requires
        0 <= i < results.len(),
        forall|j: int| 0 <= j < i ==> #[trigger] results[j] is Ok,
        results[i] == Err::<FeedItemView, EditErrorView>(e),
    ensures
        first_error(results) == Some(e),
    decreases i,
{
    if i > 0 {
        assert forall|j: int| 0 <= j < i - 1 implies #[trigger] results.drop_first()[j] is Ok by {
            assert(results.drop_first()[j] == results[j + 1]);
        }
        assert(results[0] is Ok);
        lemma_first_error_at(results.drop_first(), i - 1, e);
    }
}

fn resolve(url: &SiteUrl, href: &Option<String>) -> (r: Result<Option<String>, String>)
    ensures
        match (r, resolved(url@.serialization, opt(*href))) {
            (Ok(o), Ok(v)) => opt(o) == v,
            (Err(s), Err(v)) => s@ == v,
            _ => false,
        },
{
    match href {
        None => Ok(None),
        Some(h) => match url.join(h.as_str()) {
            Some(u) => Ok(Some(u.as_str().to_string())),
            None => Err(h.clone()),
        },
    }
}

fn title_of(texts: &Vec<String>) -> (r: String)
    ensures
        r@ == item_title(texts@.map_values(|s: String| s@)),
{
    let ghost tv = texts@.map_values(|s: String| s@);
    let mut kept: Vec<String> = Vec::new();
    let mut i: usize = 0;
    while i < texts.len()
        invariant
            i <= texts@.len(),
            tv == texts@.map_values(|s: String| s@),
            kept@.map_values(|s: String| s@) == nonempty_trimmed(tv.take(i as int)),
        decreases texts@.len() - i,
    {
        assert(tv.take(i + 1).drop_last() == tv.take(i as int));
        assert(tv.take(i + 1).last() == texts@[i as int]@);
        let t = trim_str(texts[i].as_str());
        if !t.as_str().is_empty() {
            let ghost prev = kept@;
            kept.push(t);
            assert(kept@ == prev.push(t));
            assert(kept@.map_values(|s: String| s@) =~= prev.map_values(|s: String| s@).push(t@));
        }
        i += 1;
    }
    assert(tv.take(texts@.len() as int) == tv);
    let sep: Vec<char> = vec!['\n'];
    assert(sep@ =~= seq!['\n']);
    join_strings(&kept, sep.as_slice())
}

/// The item of the feed made of what the page holds of it.
fn feed_item(
    es: &Vec<Editor>,
    url: &SiteUrl,
    html: &String,
    href: &Option<String>,
    texts: &Option<Vec<String>>,
    link: &Option<String>,
    date: &Option<String>,
) -> (r: Result<FeedItem, EditError>)
    ensures
        match (
            r,
            item_result(
                es@,
                url@,
                ItemSource {
                    html: html@,
                    href: opt(*href),
                    title_texts: match texts {
                        Some(v) => Some(v@.map_values(|s: String| s@)),
                        None => None,
                    },
                    link_href: opt(*link),
                    datetime: opt(*date),
                },
            ),
        ) {
            (Ok(i), Ok(v)) => i@ == v,
            (Err(e), Err(v)) => e@ == v,
            _ => false,
        },
    decreases es@, 1nat,
{
    let own = match resolve(url, href) {
        Ok(o) => o,
        Err(h) => {
            return Err(EditError::InvalidLink(h));
        },
    };
    let inner = match resolve(url, link) {
        Ok(o) => o,
        Err(h) => {
            return Err(EditError::InvalidLink(h));
        },
    };
    let content = match apply_seq(es, url, Content { extension: Some("html"), text: html.clone() }) {
        Ok(c) => c,
        Err(e) => {
            return Err(e);
        },
    };
    let title = match texts {
        Some(v) => Some(title_of(v)),
        None => None,
    };
    let pub_date = match date {
        Some(d) => rfc2822(d.as_str()),
        None => None,
    };
    let link = match inner {
        Some(l) => Some(l),
        None => own,
    };
    Ok(FeedItem { title, link, pub_date, content: content.text })
}

impl Rss {
    /// The RSS feed of the items of the page at `url`: one item per element that the
    /// item selector matches, titled and linked by the title and link selectors, dated by
    /// its first `datetime`, with its markup made content by the editors; `Err` where a
    /// link cannot be resolved, an editor fails, there is no item or the feed is invalid.
    pub fn generate(&self, url: &SiteUrl, html: &str) -> (r: Result<String, EditError>)
        ensures
            match (r, rss_generated(*self, url@, html@)) {
                (Ok(s), Ok(v)) => s@ == v,
                (Err(e), Err(v)) => e@ == v,
                _ => false,
            },
        decreases self.content_editors@, 3nat,
    {
        let ok = crate::dom::selector_is_valid(PAGE_TITLE_SELECTOR).is_ok()
            && crate::dom::selector_is_valid(DESCRIPTION_SELECTOR).is_ok()
            && crate::dom::selector_is_valid(DATETIME_SELECTOR).is_ok()
            && crate::dom::selector_is_valid(DEFAULT_ITEM_SELECTOR).is_ok()
            && crate::dom::selector_is_valid(DEFAULT_TITLE_SELECTOR).is_ok()
            && crate::dom::selector_is_valid(DEFAULT_LINK_SELECTOR).is_ok();
        if !ok {
            return Err(EditError::InvalidBuiltInSelector);
        }
        let item_sel: &str = match &self.item_selector {
            Some(s) => s.as_str(),
            None => DEFAULT_ITEM_SELECTOR,
        };
        let title_sel: &str = match &self.title_selector {
            Some(s) => s.as_str(),
            None => DEFAULT_TITLE_SELECTOR,
        };
        let link_sel: &str = match &self.link_selector {
            Some(s) => s.as_str(),
            None => DEFAULT_LINK_SELECTOR,
        };
        let items = select_items(html, item_sel);
        let titles = select_first_texts(html, item_sel, title_sel);
        let links = select_first_attr(html, item_sel, link_sel, "href");
        let dates = select_first_attr(html, item_sel, DATETIME_SELECTOR, "datetime");
        let ghost sources = item_sources(*self, html@);
        let ghost results = item_results(*self, url@, html@);
        assert(items@.len() == rss_items(html@, item_sel@).len());
        let mut feed_items: Vec<FeedItem> = Vec::new();
        let mut i: usize = 0;
        while i < items.len()
            invariant
                i <= items@.len(),
                items@.len() == sources.len(),
                titles@.len() == items@.len(),
                links@.len() == items@.len(),
                dates@.len() == items@.len(),
                builtin_selectors_parse(),
                sources == item_sources(*self, html@),
                results == item_results(*self, url@, html@),
                results.len() == sources.len(),
                items@.map_values(|p: (String, Option<String>)| (p.0@, opt(p.1))) == rss_items(
                    html@,
                    chosen(self.item_selector, DEFAULT_ITEM_SELECTOR@),
                ),
                titles@.map_values(|o: Option<Vec<String>>| match o {
                    Some(v) => Some(v@.map_values(|s: String| s@)),
                    None => None,
                }) == rss_first_texts(
                    html@,
                    chosen(self.item_selector, DEFAULT_ITEM_SELECTOR@),
                    chosen(self.title_selector, DEFAULT_TITLE_SELECTOR@),
                ),
                links@.map_values(|o: Option<String>| opt(o)) == rss_first_attr(
                    html@,
                    chosen(self.item_selector, DEFAULT_ITEM_SELECTOR@),
                    chosen(self.link_selector, DEFAULT_LINK_SELECTOR@),
                    "href"@,
                ),
                dates@.map_values(|o: Option<String>| opt(o)) == rss_first_attr(
                    html@,
                    chosen(self.item_selector, DEFAULT_ITEM_SELECTOR@),
                    DATETIME_SELECTOR@,
                    "datetime"@,
                ),
                forall|j: int| 0 <= j < i ==> #[trigger] results[j] is Ok,
                feed_items@.map_values(|f: FeedItem| f@) == results.take(i as int).map_values(
                    |r: Result<FeedItemView, EditErrorView>| item_value(r),
                ),
            decreases items@.len() - i,
        {
            let ghost src = sources[i as int];
            assert(src.html == items@[i as int].0@);
            assert(src.href == opt(items@[i as int].1));
            assert(src.link_href == opt(links@[i as int]));
            assert(src.datetime == opt(dates@[i as int]));
            assert(src.title_texts == match titles@[i as int] {
                Some(v) => Some(v@.map_values(|s: String| s@)),
                None => None,
            });
            assert(src == ItemSource {
                html: items@[i as int].0@,
                href: opt(items@[i as int].1),
                title_texts: match titles@[i as int] {
                    Some(v) => Some(v@.map_values(|s: String| s@)),
                    None => None,
                },
                link_href: opt(links@[i as int]),
                datetime: opt(dates@[i as int]),
            });
            assert(results[i as int] == item_result(self.content_editors@, url@, src));
            match feed_item(
                &self.content_editors,
                url,
                &items[i].0,
                &items[i].1,
                &titles[i],
                &links[i],
                &dates[i],
            ) {
                Ok(item) => {
                    let ghost prev = feed_items@;
                    feed_items.push(item);
                    assert(feed_items@ == prev.push(item));
                    assert(item_value(results[i as int]) == item@);
                    assert(feed_items@.map_values(|f: FeedItem| f@) =~= prev.map_values(|f: FeedItem| f@).push(item@));
                    assert(results.take(i + 1) == results.take(i as int).push(results[i as int]));
                    assert(feed_items@.map_values(|f: FeedItem| f@) =~= results.take(i + 1).map_values(
                        |r: Result<FeedItemView, EditErrorView>| item_value(r),
                    ));
                },
                Err(e) => {
                    proof {
                        lemma_first_error_at(results, i as int, e@);
                    }
                    return Err(e);
                },
            }
            i += 1;
        }
        proof {
            lemma_first_error_none(results);
            assert(results.take(results.len() as int) == results);
        }
        if items.len() == 0 {
            return Err(EditError::NoItems);
        }
        let title = match &self.title {
            Some(t) => Some(t.clone()),
            None => match first_inner_html(html, PAGE_TITLE_SELECTOR) {
                Some(t) => Some(trim_str(t.as_str())),
                None => None,
            },
        };
        let feed = Feed {
            title,
            link: url.as_str().to_string(),
            description: first_attr(html, DESCRIPTION_SELECTOR, "content"),
            generator: GENERATOR.to_string(),
            items: feed_items,
        };
        assert(feed@.items =~= results.map_values(
            |r: Result<FeedItemView, EditErrorView>| item_value(r),
        ));
        assert(feed@.title == feed_title(*self, html@));
        match write_feed(feed) {
            Ok(s) => Ok(s),
            Err(m) => Err(EditError::InvalidFeed(m)),
        }
    }
}

} // verus!
