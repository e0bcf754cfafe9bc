use website_stalker::dom::CssSelector;
use website_stalker::editor::css_sort::CssSort;
use website_stalker::editor::regex_replacer::RegexReplacer;
use website_stalker::editor::rss::Rss;
use website_stalker::editor::{
    html_markdown, html_sanitize, html_text, html_url, json_prettify, Content, EditError, Editor,
};
use website_stalker::weburl::SiteUrl;

fn sel(s: &str) -> CssSelector {
    CssSelector::parse(s).unwrap()
}

fn url(s: &str) -> SiteUrl {
    SiteUrl::parse(s).unwrap()
}

fn sort_case(css_sort: &CssSort, input: &str, expected: &str) {
    const PREFIX: &str = "<html><head></head><body>";
    const SUFFIX: &str = "</body></html>";
    let html = css_sort.apply(&url("https://edjopato.de/"), input).unwrap();
    assert!(html.starts_with(PREFIX));
    assert!(html.ends_with(SUFFIX));
    let end_index = html.len() - SUFFIX.len();
    let html = html.get(PREFIX.len()..end_index).unwrap();
    assert_eq!(html, expected);
}

#[test]
fn simple_example() {
    let sort_by = CssSort { selector: sel("p"), sort_by: Vec::new(), reverse: false };
    sort_case(&sort_by, "<p>A</p><p>C</p><p>B</p>", "<p>A</p><p>B</p><p>C</p>");
}

#[test]
fn reverse() {
    let sort_by = CssSort { selector: sel("p"), sort_by: Vec::new(), reverse: true };
    sort_case(&sort_by, "<p>A</p><p>C</p><p>B</p>", "<p>C</p><p>B</p><p>A</p>");
}

#[test]
fn sort_by() {
    let input = r#"<article><h3>A</h3><a id="Y">Bla</a></article><article><h3>B</h3><a id="X">Bla</a></article>"#;
    let expected = r#"<article><h3>B</h3><a id="X">Bla</a></article><article><h3>A</h3><a id="Y">Bla</a></article>"#;
    let sort_by = CssSort {
        selector: sel("article"),
        sort_by: vec![Editor::CssSelect(sel("a"))],
        reverse: false,
    };
    sort_case(&sort_by, input, expected);
}

#[test]
fn sort_by_same_key_keeps_order() {
    let input = r#"<article><h3>C</h3><a id="X">Bla</a></article><article><h3>A</h3><a id="X">Bla</a></article>"#;
    let expected = r#"<article><h3>C</h3><a id="X">Bla</a></article><article><h3>A</h3><a id="X">Bla</a></article>"#;
    let sort_by = CssSort {
        selector: sel("article"),
        sort_by: vec![Editor::CssSelect(sel("a"))],
        reverse: false,
    };
    sort_case(&sort_by, input, expected);
}

#[test]
fn sorting_toplevel_keeps_children_unsorted() {
    let sort_by = CssSort { selector: sel("div"), sort_by: Vec::new(), reverse: false };
    sort_case(
        &sort_by,
        "<div><p>D</p><p>A</p></div><div><p>C</p><p>B</p></div>",
        "<div><p>C</p><p>B</p></div><div><p>D</p><p>A</p></div>",
    );
}

#[test]
fn sorting_bottomlevel_keeps_parents_unsorted() {
    let sort_by = CssSort { selector: sel("p"), sort_by: Vec::new(), reverse: false };
    sort_case(
        &sort_by,
        "<div><p>D</p><p>A</p></div><div><p>C</p><p>B</p></div>",
        "<div><p>A</p><p>D</p></div><div><p>B</p><p>C</p></div>",
    );
}

#[test]
fn sort_with_other_elements() {
    let sort_by = CssSort { selector: sel("p"), sort_by: Vec::new(), reverse: false };
    sort_case(
        &sort_by,
        "<div>1</div><p>A</p><img><p>B</p>",
        "<p>A</p><p>B</p><div>1</div><img>",
    );
}

#[test]
fn css_sort_without_match_errors() {
    let sort_by = CssSort { selector: sel("span"), sort_by: Vec::new(), reverse: false };
    let result = sort_by.apply(&url("https://edjopato.de/"), "<p>A</p>");
    assert!(matches!(result, Err(EditError::NothingToSort)));
    assert_eq!(result.unwrap_err().message(), "nothing to sort");
}

#[test]
fn angled_url() {
    let html = r#"<a href="https://edjopato.de/">https://edjopato.de/</a>"#;
    assert_eq!(html_markdown::markdownify(html), "<https://edjopato.de/>");
}

#[test]
fn link_label_trim_simple() {
    let html = r#"<a href="/"> bla </a>"#;
    assert_eq!(html_markdown::markdownify(html), "[bla](/)");
}

#[test]
fn link_label_trim_multiline() {
    let html = r#"<a href="/"><div>bla</div><div>blubb</div></a>"#;
    assert_eq!(html_markdown::markdownify(html), "[bla blubb](/)");
}

#[test]
fn trim_lineendings() {
    let html = "<p>whatever  <br>\nis\t<br>\nthis \u{a0}<br>\nmeh</p>";
    assert_eq!(html_markdown::markdownify(html), "whatever\nis\nthis\nmeh");
}

#[test]
fn html_sanitize_simple() {
    let ugly = "<html><body>Just a <div>test</div></body></html>";
    assert_eq!(html_sanitize::sanitize(ugly), "Just a <div>test</div>");
}

#[test]
fn style_gone() {
    let ugly = r#"<html><body><div style="--a: 42;">test</div></body></html>"#;
    assert_eq!(html_sanitize::sanitize(ugly), "<div>test</div>");
}

#[test]
fn class_gone() {
    let ugly = r#"<html><body><div class="a">test</div></body></html>"#;
    assert_eq!(html_sanitize::sanitize(ugly), "<div>test</div>");
}

#[test]
fn link_still_useful() {
    let ugly = r#"<a class="external" href="https://edjopato.de" target="_blank" rel="noopener noreferrer">test</a>"#;
    assert_eq!(
        html_sanitize::sanitize(ugly),
        r#"<a href="https://edjopato.de" rel="noopener noreferrer">test</a>"#
    );
}

#[test]
fn html_text_works() {
    let ugly = r#"<html><body>Just a <div>test</div></body></html>"#;
    assert_eq!(html_text::extract(ugly), "Just a\ntest");
}

#[test]
fn html_text_collapses_empty_lines() {
    let ugly = "<html><body><p>a</p>\n\n\n\n<p>b &lt; c</p></body></html>";
    assert_eq!(html_text::extract(ugly), "a\n\nb &lt; c");
}

#[test]
fn works_with_a_links() {
    let base_url = url("https://edjopato.de/index.html");
    let ugly = r#"<html><body>Just a <a>test</a> <a href="/post/">link</a></body></html>"#;
    assert_eq!(
        html_url::canonicalize(&base_url, ugly),
        r#"<html><head></head><body>Just a <a>test</a> <a href="https://edjopato.de/post/">link</a></body></html>"#
    );
}

#[test]
fn works_with_img() {
    let base_url = url("https://edjopato.de/index.html");
    let ugly = r#"<html><body>Just a <img src="/assets/cheese.svg"> test</body></html>"#;
    assert_eq!(
        html_url::canonicalize(&base_url, ugly),
        r#"<html><head></head><body>Just a <img src="https://edjopato.de/assets/cheese.svg"> test</body></html>"#
    );
}

#[test]
fn works_with_stylesheet() {
    let base_url = url("https://edjopato.de/index.html");
    let ugly = r#"<html><head><link href="/index.css" rel="stylesheet"></head><body>Just a test</body></html>"#;
    assert_eq!(
        html_url::canonicalize(&base_url, ugly),
        r#"<html><head><link href="https://edjopato.de/index.css" rel="stylesheet"></head><body>Just a test</body></html>"#
    );
}

#[test]
fn works_with_script() {
    let base_url = url("https://edjopato.de/index.html");
    let ugly =
        r#"<html><head><script src="/updatebg.js"></script></head><body>Just a test</body></html>"#;
    assert_eq!(
        html_url::canonicalize(&base_url, ugly),
        r#"<html><head><script src="https://edjopato.de/updatebg.js"></script></head><body>Just a test</body></html>"#
    );
}

#[test]
fn works_with_already_absolute_url() {
    let base_url = url("https://edjopato.de/index.html");
    let ugly = r#"<html><body>Just a <a href="https://3t0.de/">test</a></body></html>"#;
    assert_eq!(
        html_url::canonicalize(&base_url, ugly),
        r#"<html><head></head><body>Just a <a href="https://3t0.de/">test</a></body></html>"#
    );
}

#[test]
fn garbage_is_skipped() {
    let base_url = url("https://edjopato.de/index.html");
    let ugly = r#"<html><body>Just a <a href="///">test</a> that <a href="https://edjopato.de">works</a></body></html>"#;
    assert_eq!(
        html_url::canonicalize(&base_url, ugly),
        r#"<html><head></head><body>Just a <a href="///">test</a> that <a href="https://edjopato.de/">works</a></body></html>"#
    );
}

#[test]
fn json_prettify_works() {
    let ugly = r#"{"foo": "bar", "test": 1337 }"#;
    assert_eq!(
        json_prettify::prettify(ugly).unwrap(),
        r#"{
	"foo": "bar",
	"test": 1337
}"#
    );
}

#[test]
fn json_prettify_refuses_garbage() {
    assert!(json_prettify::prettify("{nope").is_err());
}

#[test]
fn replaces() {
    let example = RegexReplacer::new(r"(\w)\w*", "$1").unwrap();
    assert_eq!(example.replace_all("Hello world"), "H w");
}

#[test]
fn replaces_iso() {
    let example = RegexReplacer::new(
        r"\d{4}-\d{2}-\d{2}T\d{2}:\d{2}:\d{2}\+\d{2}:\d{2}",
        "ISO8601",
    )
    .unwrap();
    assert_eq!(example.replace_all("2022-02-14T22:31:00+01:00"), "ISO8601");
}

#[test]
fn regex_refuses_invalid_pattern() {
    assert!(RegexReplacer::new("(", "x").is_err());
}

fn rss_defaults() -> Rss {
    Rss {
        title: None,
        item_selector: None,
        title_selector: None,
        link_selector: None,
        content_editors: vec![],
    }
}

#[test]
fn example_with_defaults_works() {
    let html = r#"<html>
	<head>
        <title>Whatever</title>
	</head>
	<body>
		ignore
		<article>
			<h2>First</h2>
            <a href="a/">Link</a>
            content
		</article>
		<article>
			<h2>Second</h2>
            <a href="b/">Link</a>
            lorem
		</article>
	</body>
</html>"#;
    let result = rss_defaults().generate(&url("https://edjopato.de/posts/"), html).unwrap();
    println!("{result}");
    assert!(result.contains("website-stalker"));
    assert!(result.contains(r#"<rss version="2.0" "#));
    assert!(result.contains("<link>https://edjopato.de/posts/a/</link>"));
    assert!(result.contains("<link>https://edjopato.de/posts/b/</link>"));
    assert!(result.contains("<title>Whatever</title>"));
    assert!(result.contains("<title>First</title>"));
    assert!(result.contains("<title>Second</title>"));
    assert!(!result.contains("ignore"));
}

#[test]
#[should_panic = "item_selector selected nothing"]
fn example_with_no_items_errors() {
    let html = "<html>
	<head>
        <title>Whatever</title>
	</head>
	<body>
		ignore
	</body>
</html>";
    let result = rss_defaults().generate(&url("https://edjopato.de/posts/"), html);
    assert!(matches!(result, Err(EditError::NoItems)));
    result.map_err(|e| e.message()).unwrap();
}

#[test]
fn example_with_item_equals_link() {
    let html = r#"<html>
	<head>
        <title>Whatever</title>
	</head>
	<body>
		ignore
		<article>
        <a href="a/">
			<h2>First</h2>
            content
		</a>
		<a href="b/">
			<h2>Second</h2>
            lorem
		</a>
	</body>
</html>"#;
    let rss = Rss { item_selector: Some(sel("a")), ..rss_defaults() };
    let result = rss.generate(&url("https://edjopato.de/posts/"), html).unwrap();
    assert!(result.contains("website-stalker"));
    assert!(result.contains(r#"<rss version="2.0" "#));
    assert!(result.contains("<link>https://edjopato.de/posts/a/</link>"));
    assert!(result.contains("<link>https://edjopato.de/posts/b/</link>"));
    assert!(result.contains("<title>Whatever</title>"));
    assert!(result.contains("<title>First</title>"));
    assert!(result.contains("<title>Second</title>"));
    assert!(!result.contains("ignore"));
}

#[test]
fn ugly_example_works() {
    let html = r#"<html>
	<head>
        <title>Whatever</title>
	</head>
	<body>
		<div class="entry">
			<h6>First</h6>
            <a href="/buy-now/">Ad</a>
            <a href="a/">Link</a>
            content
		</div>
		<div class="entry">
			<h6>Second</h6>
            <a href="/buy-now/">Ad</a>
            <a href="b/">Link</a>
            lorem
		</div>
	</body>
</html>"#;
    let rss = Rss {
        title: Some("My title".to_owned()),
        item_selector: Some(sel(".entry")),
        title_selector: Some(sel("h6")),
        link_selector: Some(sel("a:last-of-type")),
        content_editors: vec![Editor::HtmlTextify],
    };
    let result = rss.generate(&url("https://edjopato.de/posts/"), html).unwrap();
    assert!(result.contains("website-stalker"));
    assert!(result.contains(r#"<rss version="2.0" "#));
    assert!(result.contains("<link>https://edjopato.de/posts/a/</link>"));
    assert!(result.contains("<link>https://edjopato.de/posts/b/</link>"));
    assert!(result.contains("<title>My title</title>"));
    assert!(result.contains("<title>First</title>"));
    assert!(result.contains("<title>Second</title>"));
    assert!(!result.contains("buy-now"));
    assert!(!result.contains("Whatever"));
}

#[test]
fn editors_apply_one_after_the_other() {
    let editors = vec![
        Editor::CssSelect(sel("p")),
        Editor::HtmlTextify,
        Editor::RegexReplace(RegexReplacer::new("A", "B").unwrap()),
    ];
    let input = Content { extension: None, text: "<html><body><p>A</p></body></html>".to_owned() };
    let result = Editor::apply_many(&editors, &url("https://edjopato.de/"), input).unwrap();
    assert_eq!(result.text, "B");
    assert_eq!(result.extension, Some("txt"));
}

#[test]
fn editors_report_the_failing_one() {
    let editors = vec![Editor::HtmlPrettify, Editor::CssSelect(sel("span"))];
    let input = Content { extension: None, text: "<p>A</p>".to_owned() };
    let failure = Editor::apply_many(&editors, &url("https://edjopato.de/"), input).unwrap_err();
    assert_eq!(failure.index, 1);
    assert_eq!(failure.editor, "css_select");
    assert!(matches!(failure.error, EditError::SelectedNothing));
}

#[test]
fn markdownify_of_nothing_is_an_error() {
    let input = Content { extension: None, text: String::new() };
    let result = Editor::HtmlMarkdownify.apply(&url("https://edjopato.de/"), input);
    assert!(matches!(result, Err(EditError::EmptyMarkdown)));
}
