use website_stalker::dom::{selector_is_valid, CssSelector};
use website_stalker::editor::css_tag_replace::CssTagReplace;
use website_stalker::editor::{css_flatten, css_remove, css_selector};

const EXAMPLE_HTML: &str =
    r#"<html><head></head><body><div class="a"><p>A</p></div><div class="b">B</div></body></html>"#;

fn sel(s: &str) -> CssSelector {
    CssSelector::parse(s).unwrap()
}

fn flatten_case(selector: &str, html: &str, expected: &str) {
    assert_eq!(css_flatten::apply(&sel(selector), html), expected);
}

#[test]
fn css_flatten_nothing_selected_changes_nothing() {
    flatten_case("span", EXAMPLE_HTML, EXAMPLE_HTML);
}

#[test]
fn css_flatten_simple() {
    let expected =
        r#"<html><head></head><body><div class="a">A</div><div class="b">B</div></body></html>"#;
    flatten_case("p", EXAMPLE_HTML, expected);
}

#[test]
fn multiple_selectors() {
    let expected = r#"<html><head></head><body><div class="a">A</div>B</body></html>"#;
    flatten_case(".b, p", EXAMPLE_HTML, expected);
}

#[test]
fn css_flatten_multiple_selectors_inside_each_other_work() {
    let expected = r#"<html><head></head><body>A<div class="b">B</div></body></html>"#;
    flatten_case(".a, p", EXAMPLE_HTML, expected);
    flatten_case("p, .a", EXAMPLE_HTML, expected);
}

#[test]
fn multiple_children() {
    let input =
        "<html><head></head><body><div><p>A</p><p>B</p></div><div><p>C</p></div></body></html>";
    let expected = "<html><head></head><body><p>A</p><p>B</p><p>C</p></body></html>";
    flatten_case("div", input, expected);
}

#[test]
fn selector_selects_multiple_depths() {
    let input = r#"<html><head></head><body><div class="outer">
<div class="a"><div class="a-inner"><p>A</p></div></div>
<div class="b"><p>B</p></div>
</div></body></html>"#
        .replace('\n', "");
    let expected = "<html><head></head><body><p>A</p><p>B</p></body></html>";
    flatten_case("div", &input, expected);
}

#[test]
fn flattens_local_links_away() {
    let input = r##"<html><head></head><body><a href="#heading"><h1>Heading</h1></a><p>This is a <a href="https://edjopato.de">link</a></p></body></html>"##;
    let expected = r#"<html><head></head><body><h1>Heading</h1><p>This is a <a href="https://edjopato.de">link</a></p></body></html>"#;
    flatten_case(r##"a[href^="#"]"##, input, expected);
}

#[test]
fn css_remove_removes_tag() {
    let html = css_remove::apply(&sel("p"), EXAMPLE_HTML);
    assert_eq!(
        html,
        r#"<html><head></head><body><div class="a"></div><div class="b">B</div></body></html>"#
    );
}

#[test]
fn css_remove_nothing_selected_changes_nothing() {
    let html = css_remove::apply(&sel("span"), EXAMPLE_HTML);
    assert_eq!(html, EXAMPLE_HTML);
}

#[test]
fn multiple_selectors_work() {
    let html = css_remove::apply(&sel(".b, p"), EXAMPLE_HTML);
    assert_eq!(
        html,
        r#"<html><head></head><body><div class="a"></div></body></html>"#
    );
}

#[test]
fn css_remove_multiple_selectors_inside_each_other_work() {
    let expected = r#"<html><head></head><body><div class="b">B</div></body></html>"#;
    assert_eq!(css_remove::apply(&sel("p, .a"), EXAMPLE_HTML), expected);
    assert_eq!(css_remove::apply(&sel(".a, p"), EXAMPLE_HTML), expected);
}

#[test]
fn multiple_hits_only_remove_exact() {
    let html = css_remove::apply(
        &sel(".a p"),
        r#"<html><head></head><body><div class="a"><p>TEST</p></div><div class="b"><p>TEST</p></div></body></html>"#,
    );
    assert_eq!(
        html,
        r#"<html><head></head><body><div class="a"></div><div class="b"><p>TEST</p></div></body></html>"#
    );
}

#[test]
fn css_selector_selects_classes_a() {
    let html = css_selector::apply(&sel(".a"), EXAMPLE_HTML).unwrap();
    assert_eq!(html, r#"<div class="a"><p>A</p></div>"#);
}

#[test]
fn css_selector_selects_classes_b() {
    let html = css_selector::apply(&sel(".b"), EXAMPLE_HTML).unwrap();
    assert_eq!(html, r#"<div class="b">B</div>"#);
}

#[test]
fn css_selector_selects_tag() {
    let html = css_selector::apply(&sel("p"), EXAMPLE_HTML).unwrap();
    assert_eq!(html, "<p>A</p>");
}

#[test]
#[should_panic = "selected nothing"]
fn select_not_found() {
    css_selector::apply(&sel("p"), "<html><head></head><body>test</body></html>")
        .map_err(|e| e.message())
        .unwrap();
}

#[test]
fn css_selector_joins_several_with_newlines() {
    let html = css_selector::apply(&sel("div"), EXAMPLE_HTML).unwrap();
    assert_eq!(html, "<div class=\"a\"><p>A</p></div>\n<div class=\"b\">B</div>");
}

fn tag_case(selectors: &str, replace: &str, html: &str, expected: &str) {
    let result = CssTagReplace {
        selector: sel(selectors),
        replace: replace.to_owned(),
    }
    .apply(html)
    .expect("Should select something");
    assert_eq!(result, expected);
}

#[test]
fn only_tag() {
    let html = "<body><h1>Hello</h1>World<h3>Foo</h3>Bar</body>";
    let expected = "<html><head></head><body><h1>Hello</h1>World<h2>Foo</h2>Bar</body></html>";
    tag_case("h3", "h2", html, expected);
}

#[test]
fn keeps_attributes() {
    let html = r#"<body><h2 class="green">Hello</h2>World</body>"#;
    let expected = r#"<html><head></head><body><h1 class="green">Hello</h1>World</body></html>"#;
    tag_case("h2", "h1", html, expected);
}

#[test]
fn more_specific_selector() {
    let html = "<body><header><div>Headline</div></header><main><div>Something</div></main></body>";
    let expected = "<html><head></head><body><header><div>Headline</div></header><main><p>Something</p></main></body></html>";
    tag_case("main div", "p", html, expected);
}

#[test]
fn tag_replace_without_match_is_an_error() {
    let result = CssTagReplace { selector: sel("span"), replace: "p".to_owned() }.apply(EXAMPLE_HTML);
    assert!(result.is_err());
}

#[test]
fn valid() {
    assert!(selector_is_valid("body").is_ok());
}

#[test]
fn invalid() {
    assert!(selector_is_valid(".").is_err());
    let message = selector_is_valid(".").unwrap_err().message();
    assert!(message.starts_with("css selector (.) parse error: "), "{message}");
    assert!(CssSelector::parse("a[").is_err());
}

#[test]
fn markup_escapes_text_but_not_in_style() {
    let html = "<html><head><style>a > b { }</style></head><body>1 &lt; 2</body></html>";
    assert_eq!(css_remove::apply(&sel("span"), html), html);
}
