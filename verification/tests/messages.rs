use website_stalker::changes::{
    commit_message, generate_change_lines, generate_commit_part, generate_text, validate_template,
    FinalMessage, Summary, DEFAULT_TEMPLATE,
};
use website_stalker::weburl::SiteUrl;

fn url(s: &str) -> SiteUrl {
    SiteUrl::parse(s).unwrap()
}

fn example_single() -> FinalMessage {
    FinalMessage::new(&[url("https://edjopato.de/post/")])
}

fn example_different() -> FinalMessage {
    FinalMessage::new(&[url("https://edjopato.de/post/"), url("https://foo.bar/")])
}

fn example_same() -> FinalMessage {
    FinalMessage::new(&[url("https://edjopato.de/"), url("https://edjopato.de/post/")])
}

#[test]
fn commit_message_commit_message_for_no_site() {
    assert_eq!(
        commit_message(&[]),
        "just background magic 🧽🔮🧹\n\ncleanup or updating meta files"
    );
}

#[test]
fn commit_message_commit_message_for_one_site() {
    let urls = [url("https://edjopato.de/post/")];
    assert_eq!(
        commit_message(&urls),
        "🌐👀 edjopato.de

- https://edjopato.de/post/
"
    );
}

#[test]
fn commit_message_commit_message_for_two_same_domain_sites() {
    let urls = [url("https://edjopato.de/"), url("https://edjopato.de/post/")];
    assert_eq!(
        commit_message(&urls),
        "🌐👀 edjopato.de

- https://edjopato.de/
- https://edjopato.de/post/
"
    );
}

#[test]
fn commit_message_commit_message_for_two_different_domain_sites() {
    let urls = [url("https://edjopato.de/post/"), url("https://foo.bar/")];
    assert_eq!(
        commit_message(&urls),
        "🌐👀 stalked 2 website changes

- https://edjopato.de/post/
- https://foo.bar/
"
    );
}

#[test]
fn commit_message_sorts_and_dedups_sites() {
    let urls = [
        url("https://foo.bar/"),
        url("https://edjopato.de/post/"),
        url("https://foo.bar/"),
    ];
    assert_eq!(
        commit_message(&urls),
        "🌐👀 stalked 2 website changes

- https://edjopato.de/post/
- https://foo.bar/
"
    );
}

#[test]
fn commit_message_same_for_any_order() {
    let a = [url("https://foo.bar/"), url("https://edjopato.de/post/")];
    let b = [url("https://edjopato.de/post/"), url("https://foo.bar/"), url("https://foo.bar/")];
    assert_eq!(commit_message(&a), commit_message(&b));
}

#[test]
fn final_message_commit_message_for_no_site() {
    let text = FinalMessage::new(&[]).to_commit();
    assert_eq!(
        text,
        "just background magic 🧽🔮🧹\n\ncleanup or updating meta files"
    );
}

#[test]
fn final_message_commit_message_for_one_site() {
    let text = example_single().to_commit();
    assert_eq!(
        text,
        "🌐👀 edjopato.de

- https://edjopato.de/post/
"
    );
}

#[test]
fn final_message_commit_message_for_two_same_domain_sites() {
    let text = example_same().to_commit();
    assert_eq!(
        text,
        "🌐👀 edjopato.de

- https://edjopato.de/
- https://edjopato.de/post/
"
    );
}

#[test]
fn final_message_commit_message_for_two_different_domain_sites() {
    let text = example_different().to_commit();
    assert_eq!(
        text,
        "🌐👀 stalked 2 website changes

- https://edjopato.de/post/
- https://foo.bar/
"
    );
}

#[test]
fn simple_template_is_valid() {
    validate_template("Hello {{name}}").unwrap();
}

#[test]
fn default_template_is_valid() {
    validate_template(DEFAULT_TEMPLATE).unwrap();
}

#[test]
fn empty_template_is_invalid() {
    assert!(validate_template("").is_err());
}

#[test]
fn unclosed_section_is_invalid() {
    assert!(validate_template("{{#sites}}").is_err());
}

#[test]
fn deprecated_fields_are_noted() {
    let notes = validate_template("{{singledomain}} {{#domains}}{{.}}{{/domains}} {{#sites}}{{.}}{{/sites}}")
        .unwrap();
    assert!(notes.uses_singledomain);
    assert!(notes.uses_domains);
    let notes = validate_template(DEFAULT_TEMPLATE).unwrap();
    assert!(!notes.uses_singledomain);
    assert!(!notes.uses_domains);
}

#[test]
fn notification_message_for_two_same_domain_sites() {
    let text = example_same()
        .into_mustache_data(Some("1234abc".into()))
        .apply_to_template(None)
        .unwrap();
    assert_eq!(
        text,
        "edjopato.de changed

- https://edjopato.de/
- https://edjopato.de/post/

See 1234abc"
    );
}

#[test]
fn notification_message_for_two_different_domain_sites() {
    let text = example_different()
        .into_mustache_data(Some("1234abc".into()))
        .apply_to_template(None)
        .unwrap();
    assert_eq!(
        text,
        "2 websites changed

- https://edjopato.de/post/
- https://foo.bar/

See 1234abc"
    );
}

#[test]
fn notification_message_for_single_site_without_commit() {
    let text = example_single()
        .into_mustache_data(None)
        .apply_to_template(None)
        .unwrap();
    assert_eq!(
        text,
        "edjopato.de changed

- https://edjopato.de/post/"
    );
}

#[test]
fn notification_message_with_own_template() {
    let text = example_single()
        .into_mustache_data(Some("1234abc".into()))
        .apply_to_template(Some("  {{singlehost}} at {{commit}}  "))
        .unwrap();
    assert_eq!(text, "edjopato.de at 1234abc");
}

#[test]
fn mustache_data_fields() {
    let data = example_same().into_mustache_data(None);
    assert_eq!(data.singlehost.as_deref(), Some("edjopato.de"));
    assert_eq!(data.singledomain.as_deref(), Some("edjopato.de"));
    assert_eq!(data.siteamount, 2);
    let data = example_different().into_mustache_data(Some("c".into()));
    assert_eq!(data.singlehost, None);
    assert_eq!(data.commit.as_deref(), Some("c"));
}

#[test]
fn e2e_with_commit() {
    let result = generate_text(
        Some("1234abc".to_owned()),
        None,
        vec![url("https://edjopato.de/")],
    );
    assert_eq!(result, "- https://edjopato.de/\n\n1234abc");
}

#[test]
fn e2e_without_commit() {
    let result = generate_text(None, None, vec![url("https://edjopato.de/")]);
    assert_eq!(result, "- https://edjopato.de/");
}

#[test]
fn e2e_with_commit_template() {
    let result = generate_text(
        Some("1234abc".to_owned()),
        Some("see {commit}".to_owned()),
        vec![url("https://edjopato.de/")],
    );
    assert_eq!(result, "- https://edjopato.de/\n\nsee 1234abc");
}

fn lines_case(changed: &[&str], expected: &str) {
    let changed = changed.iter().map(|u| url(u)).collect::<Vec<_>>();
    let lines = generate_change_lines(&changed);
    assert_eq!(lines, expected);
}

#[test]
fn single() {
    lines_case(&["https://edjopato.de/post/"], "- https://edjopato.de/post/");
}

#[test]
fn multiple_on_single_host() {
    lines_case(
        &["https://edjopato.de/", "https://edjopato.de/post/"],
        "- https://edjopato.de/
- https://edjopato.de/post/",
    );
}

#[test]
fn multiple_per_host() {
    lines_case(
        &[
            "https://edjopato.de/",
            "https://edjopato.de/post/",
            "https://example.com/",
            "https://example.com/path",
        ],
        "- https://edjopato.de/
- https://edjopato.de/post/

- https://example.com/
- https://example.com/path",
    );
}

#[test]
fn different_hosts() {
    lines_case(
        &["https://edjopato.de/post/", "https://example.com/"],
        "- https://edjopato.de/post/
- https://example.com/",
    );
}

#[test]
fn mixed() {
    lines_case(
        &[
            "https://edjopato.de/",
            "https://edjopato.de/post/",
            "https://example.com/",
        ],
        "- https://example.com/

- https://edjopato.de/
- https://edjopato.de/post/",
    );
}

#[test]
fn duplicate_changes_are_listed_once() {
    lines_case(
        &["https://example.com/", "https://edjopato.de/", "https://example.com/"],
        "- https://edjopato.de/
- https://example.com/",
    );
}

fn commit_case(commit: Option<&str>, template: Option<&str>, expected: Option<&str>) {
    let part = generate_commit_part(
        commit.map(ToOwned::to_owned),
        template.map(ToOwned::to_owned),
    );
    assert_eq!(part.as_deref(), expected);
}

#[test]
fn empty_commit_always_empty() {
    commit_case(None, None, None);
    commit_case(None, Some("prefix"), None);
}

#[test]
fn prefix() {
    commit_case(Some("1234abc"), Some("prefix/"), Some("prefix/1234abc"));
}

#[test]
fn replace() {
    commit_case(
        Some("1234abc"),
        Some("some {commit} text"),
        Some("some 1234abc text"),
    );
}

#[test]
fn replace_every_occurrence() {
    commit_case(Some("ab"), Some("{commit}-{commit}"), Some("ab-ab"));
}

#[test]
fn no_template_is_the_commit() {
    commit_case(Some("1234abc"), None, Some("1234abc"));
}

#[test]
fn summary_of_a_run() {
    let s = Summary::new(
        Some("abc".to_owned()),
        vec![url("https://foo.bar/"), url("https://edjopato.de/post/"), url("https://foo.bar/")],
        vec![],
    );
    assert!(s.change);
    assert_eq!(s.changed_amount, 2);
    assert!(!s.any_failed);
    assert_eq!(s.failed_amount, 0);
    assert_eq!(s.changed_sites, vec!["https://edjopato.de/post/", "https://foo.bar/"]);
    assert_eq!(s.changed_hosts, vec!["edjopato.de", "foo.bar"]);
    assert_eq!(s.commit.as_deref(), Some("abc"));
}

#[test]
fn template_error_messages() {
    let err = validate_template("").unwrap_err();
    assert_eq!(err.error.message(), "template produced empty notification text");
    let notes = err.notes.unwrap();
    assert!(!notes.uses_singledomain && !notes.uses_domains);
}

#[test]
fn refused_template_still_notes_deprecated_fields() {
    let err = validate_template("{{singledomain}}").unwrap_err();
    assert_eq!(err.error.message(), "template produced empty notification text");
    let notes = err.notes.unwrap();
    assert!(notes.uses_singledomain);
    assert!(!notes.uses_domains);
}

#[test]
fn template_parse_errors_come_without_notes() {
    let err = validate_template("{{#sites}}").unwrap_err();
    assert!(err.notes.is_none());
}

#[test]
fn partials_are_detected() {
    assert!(website_stalker::changes::is_partial_free(DEFAULT_TEMPLATE));
    assert!(!website_stalker::changes::is_partial_free("a {{> footer}}"));
    assert!(!website_stalker::changes::is_partial_free("{{=<% %>=}}"));
    assert!(website_stalker::changes::is_partial_free("{{#sites}}- {{.}}{{/sites}}"));
}
