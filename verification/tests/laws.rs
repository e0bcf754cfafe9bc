use website_stalker::changes::github_commit_prefix;
use website_stalker::editor::css_sort::CssSort;
use website_stalker::editor::css_tag_replace::CssTagReplace;
use website_stalker::http::status_is_error;
use website_stalker::dom::CssSelector;
use website_stalker::editor::regex_replacer::RegexReplacer;
use website_stalker::editor::{apply_seq, Content, Editor};
use website_stalker::git::Repo;
use website_stalker::site_store::stored_content;
use website_stalker::weburl::SiteUrl;

fn url(s: &str) -> SiteUrl {
    SiteUrl::parse(s).unwrap()
}

fn html(text: &str) -> Content {
    Content {
        extension: Some("html"),
        text: text.to_owned(),
    }
}

fn pipeline() -> Vec<Editor> {
    vec![
        Editor::CssSelect(CssSelector::parse("p").unwrap()),
        Editor::RegexReplace(RegexReplacer::new("A", "Z").unwrap()),
        Editor::HtmlTextify,
    ]
}

#[test]
fn pipeline_is_each_editor_after_the_other() {
    let u = url("https://edjopato.de/");
    let input = "<div><p>A</p><span>A</span></div>";
    let all = apply_seq(&pipeline(), &u, html(input)).unwrap();

    let mut first = pipeline();
    let rest = first.split_off(1);
    let middle = apply_seq(&first, &u, html(input)).unwrap();
    let stepwise = apply_seq(&rest, &u, middle).unwrap();
    assert_eq!(all.text, stepwise.text);
    assert_eq!(all.extension, stepwise.extension);
    assert_eq!(all.text, "Z");
}

#[test]
fn pipeline_stops_at_first_error() {
    let u = url("https://edjopato.de/");
    let editors = vec![
        Editor::CssSelect(CssSelector::parse("h1").unwrap()),
        Editor::HtmlTextify,
    ];
    assert!(apply_seq(&editors, &u, html("<p>A</p>")).is_err());
}

#[test]
fn debug_files_passes_through() {
    let u = url("https://edjopato.de/");
    let content = Editor::DebugFiles("/tmp/nowhere".to_owned())
        .apply(&u, Content { extension: Some("json"), text: "{ }".to_owned() })
        .unwrap();
    assert_eq!(content.extension, Some("json"));
    assert_eq!(content.text, "{ }");
}

#[test]
fn nothing_selected_flatten_and_remove_agree() {
    let u = url("https://edjopato.de/");
    let input = "<div><p>A</p></div>";
    let flattened = Editor::CssFlatten(CssSelector::parse("h1").unwrap()).apply(&u, html(input)).unwrap();
    let removed = Editor::CssRemove(CssSelector::parse("h1").unwrap()).apply(&u, html(input)).unwrap();
    assert_eq!(flattened.text, removed.text);
    assert_eq!(flattened.text, "<html><head></head><body><div><p>A</p></div></body></html>");
}

#[test]
fn storing_twice_is_storing_once() {
    for content in ["", "  \n", "hello", "  hello world \n\n", "a\nb"] {
        let once = stored_content(content);
        assert_eq!(stored_content(&once), once);
    }
}

#[test]
fn github_commit_links() {
    assert_eq!(
        github_commit_prefix("https://github.com", "EdJoPaTo/website-stalker-example"),
        "https://github.com/EdJoPaTo/website-stalker-example/commit/"
    );
}

#[test]
fn repository_top_level_query() {
    let command = Repo::toplevel("/tmp/work");
    assert_eq!(command.dir, "/tmp/work");
    assert_eq!(command.args, vec!["rev-parse", "--show-toplevel"]);
}

#[test]
fn css_tag_replace_is_an_editor() {
    let u = url("https://edjopato.de/");
    let editor = Editor::CssTagReplace(CssTagReplace {
        selector: CssSelector::parse("h3").unwrap(),
        replace: "h2".to_owned(),
    });
    assert_eq!(editor.log_name(), "css_tag_replace");
    let out = editor.apply(&u, html("<h3 class=\"green\">Hello</h3>World")).unwrap();
    assert_eq!(out.text, "<html><head></head><body><h2 class=\"green\">Hello</h2>World</body></html>");
    let err = Editor::CssTagReplace(CssTagReplace {
        selector: CssSelector::parse("h4").unwrap(),
        replace: "h2".to_owned(),
    })
    .apply(&u, html("<p>A</p>"))
    .unwrap_err();
    assert_eq!(err.message(), "selected nothing");
}

#[test]
fn unsortable_document_comes_back_unchanged() {
    let u = url("https://edjopato.de/");
    let sort = CssSort { selector: CssSelector::parse("p").unwrap(), reverse: false, sort_by: vec![] };
    let out = sort.apply(&u, "<div><p>B</p></div><div><p>A</p></div>").unwrap();
    assert_eq!(out, "<html><head></head><body><div><p>B</p></div><div><p>A</p></div></body></html>");
}

#[test]
fn status_errors() {
    assert!(!status_is_error(200));
    assert!(!status_is_error(304));
    assert!(status_is_error(404));
    assert!(status_is_error(503));
    assert!(!status_is_error(600));
}
