use website_stalker::config::{Config, SiteEntry, UrlVariants};
use website_stalker::filename::basename;
use website_stalker::git::{git_output, Repo, GIT_COMMIT_AUTHOR};
use website_stalker::http::{content_extension, parse_header, validate_from, with_from_header, IpVersion};
use website_stalker::site::{Options, Site};
use website_stalker::site_store::{change_kind, needs_write, stored_content, ChangeKind};
use website_stalker::weburl::SiteUrl;

fn url(s: &str) -> SiteUrl {
    SiteUrl::parse(s).unwrap()
}

/// test base name
fn tb(u: &str) -> String {
    basename(&url(u))
}

fn options() -> Options {
    Options {
        accept_invalid_certs: false,
        http1_only: false,
        ignore_error: false,
        filename: None,
        headers: vec![],
        editors: vec![],
    }
}

fn site(u: &str) -> Site {
    Site {
        url: url(u),
        options: options(),
    }
}

#[test]
fn filename_examples() {
    assert_eq!(tb("https://edjopato.de/"), "de-edjopato");
    assert_eq!(tb("https://edjopato.de/post/"), "de-edjopato-post");
}

#[test]
fn query_does_matter() {
    assert_eq!(
        tb("http://edjopato.de/?something=true"),
        "de-edjopato-something-true",
    );
}

#[test]
fn filename_scheme_doesnt_matter() {
    assert_eq!(tb("http://edjopato.de/"), tb("https://edjopato.de/"));
}

#[test]
fn filename_fragment_doesnt_matter() {
    assert_eq!(
        tb("http://edjopato.de/"),
        tb("https://edjopato.de/#whatever"),
    );
}

#[test]
fn filename_ending_slash_doesnt_matter() {
    assert_eq!(tb("https://edjopato.de/"), tb("https://edjopato.de"));
    assert_eq!(
        tb("https://edjopato.de/post/"),
        tb("https://edjopato.de/post"),
    );
}

#[test]
fn extension_is_still_in_basename() {
    assert_eq!(tb("http://edjopato.de/robot.txt"), "de-edjopato-robot-txt");
    assert_eq!(
        tb("http://edjopato.de/robot.html"),
        "de-edjopato-robot-html",
    );
}

#[test]
fn filename_domain_prefix_www_doesnt_matter() {
    assert_eq!(tb("https://edjopato.de/"), tb("https://www.edjopato.de/"));
}

#[test]
fn works_with_ipv4() {
    assert_eq!(tb("http://127.0.0.1/test/"), "127-0-0-1-test");
}

#[test]
fn works_with_ipv6() {
    assert_eq!(tb("http://[::1]/test/"), "1-test");
}

#[test]
fn basename_runs_of_other_characters_become_one_dash() {
    assert_eq!(tb("https://edjopato.de/a--b__c/?x=%20y"), "de-edjopato-a-b-c-x-20y");
}

#[test]
fn from_is_email() {
    validate_from("foo@bar.de").unwrap();
}

#[test]
#[should_panic = "doesnt look like an email address"]
fn from_is_no_email() {
    validate_from("bla.de").map_err(|e| e.message("bla.de")).unwrap();
}

#[test]
#[should_panic = "ASCII char"]
fn from_is_no_ascii() {
    validate_from("föo@bär.de").map_err(|e| e.message("föo@bär.de")).unwrap();
}

#[test]
fn from_with_control_character_is_no_header_value() {
    let err = validate_from("foo@bar.de\n").unwrap_err();
    assert_eq!(err.message("foo@bar.de\n"), "failed to parse header value");
}

#[test]
fn ip_version_names() {
    assert_eq!(IpVersion::IPv4.to_string(), "IPv4");
    assert_eq!(IpVersion::IPv6.to_string(), "IPv6");
    assert_eq!(IpVersion::Unknown.to_string(), "None");
}

#[test]
fn header_is_split_at_colon_space() {
    let (name, value) = parse_header("Cookie: a=b: c").unwrap();
    assert_eq!(name, "Cookie");
    assert_eq!(value, "a=b: c");
}

#[test]
fn header_without_separator_is_refused() {
    assert!(parse_header("Cookie=a").is_err());
}

#[test]
fn header_with_invalid_name_is_refused() {
    assert!(parse_header("Bad Name: a").is_err());
}

#[test]
fn from_header_is_added() {
    let headers = vec![("Accept".to_owned(), "text/html".to_owned())];
    let result = with_from_header(&headers, "foo@bar.de");
    assert_eq!(
        result,
        vec![
            ("Accept".to_owned(), "text/html".to_owned()),
            ("from".to_owned(), "foo@bar.de".to_owned()),
        ]
    );
}

#[test]
fn content_type_gives_extension() {
    assert_eq!(content_extension(Some("text/html; charset=utf-8")), Some("html"));
    assert_eq!(content_extension(Some("application/json")), Some("json"));
    assert_eq!(content_extension(None), None);
}

#[test]
fn site_file_path_from_url_or_filename() {
    assert_eq!(site("https://edjopato.de/post/").to_file_path(), "de-edjopato-post");
    let mut s = site("https://edjopato.de/post/");
    s.options.filename = Some("custom".to_owned());
    assert_eq!(s.to_file_path(), "custom");
}

#[test]
#[should_panic = "duplicates"]
fn site_validate_finds_duplicates() {
    let sites = vec![
        site("https://edjopato.de/post/"),
        site("https://edjopato.de/robots.txt"),
        site("https://edjopato.de/post"),
    ];
    Site::validate_no_duplicate(&sites).map_err(|e| e.message()).unwrap();
}

#[test]
fn distinct_sites_are_no_duplicates() {
    let sites = vec![site("https://edjopato.de/post/"), site("https://edjopato.de/robots.txt")];
    Site::validate_no_duplicate(&sites).unwrap();
}

#[test]
#[should_panic = "site list is empty"]
fn config_validate_fails_on_empty_sites_list() {
    let config = Config {
        from: "dummy".to_owned(),
        sites: vec![],
    };
    config.validate_sites().map_err(|e| e.message()).unwrap();
}

#[test]
#[should_panic = "site entry has no urls"]
fn validate_fails_on_sites_list_with_empty_many() {
    let config = Config {
        from: "dummy".to_owned(),
        sites: vec![SiteEntry {
            url: UrlVariants::Many(vec![]),
            options: options(),
        }],
    };
    config.validate_sites().map_err(|e| e.message()).unwrap();
}

#[test]
fn config_sites_one_per_url() {
    let config = Config {
        from: "foo@bar.de".to_owned(),
        sites: vec![
            SiteEntry {
                url: UrlVariants::Single(url("https://edjopato.de/")),
                options: options(),
            },
            SiteEntry {
                url: UrlVariants::Many(vec![url("https://foo.bar/"), url("https://foo.bar/a")]),
                options: options(),
            },
        ],
    };
    let sites = config.get_sites();
    assert_eq!(sites.len(), 3);
    assert_eq!(sites[2].url.as_str(), "https://foo.bar/a");
    let old = config
        .validate(&vec!["TELEGRAM_BOT_TOKEN".to_owned(), "HOME".to_owned()])
        .unwrap();
    assert_eq!(old, vec!["TELEGRAM_BOT_TOKEN".to_owned()]);
}

#[test]
fn config_with_bad_from_is_refused() {
    let config = Config {
        from: "dummy".to_owned(),
        sites: vec![SiteEntry {
            url: UrlVariants::Single(url("https://edjopato.de/")),
            options: options(),
        }],
    };
    let err = config.validate(&vec![]).unwrap_err();
    assert_eq!(
        err.message(),
        "from (dummy) is invalid"
    );
    assert_eq!(
        err.cause().as_deref(),
        Some("doesnt look like an email address: dummy")
    );
}

#[test]
fn config_with_duplicates_is_refused() {
    let config = Config {
        from: "foo@bar.de".to_owned(),
        sites: vec![SiteEntry {
            url: UrlVariants::Many(vec![url("https://foo.bar/a"), url("https://foo.bar/a/")]),
            options: options(),
        }],
    };
    assert!(config.validate_sites().is_err());
}

#[test]
fn stored_content_ends_with_one_newline() {
    assert_eq!(stored_content("  hello\n\n"), "hello\n");
    assert!(!needs_write("hello\n", &stored_content("hello")));
    assert!(needs_write("hallo\n", &stored_content("hello")));
}

#[test]
fn change_kinds() {
    assert_eq!(change_kind("", "a\n", false).to_string(), "Init");
    assert_eq!(change_kind("b\n", "a\n", false).to_string(), "Changed");
    assert_eq!(change_kind("a\n", "a\n", false).to_string(), "ContentSame");
    assert_eq!(change_kind("a\n", "a\n", true).to_string(), "Changed");
    assert!(!ChangeKind::ContentSame.is_of_interest());
    assert!(ChangeKind::Changed.is_of_interest());
    assert!(ChangeKind::Init.is_of_interest());
}

#[test]
fn git_commands() {
    let init = Repo::init("/tmp/repo");
    assert_eq!(init.dir, "/tmp/repo");
    assert_eq!(init.args, vec!["init"]);
    let repo = Repo::at("/tmp/repo");
    assert_eq!(repo.add_all().args, vec!["add", "-A"]);
    assert_eq!(
        repo.commit("  message\n\n").args,
        vec!["commit", "--author", GIT_COMMIT_AUTHOR, "--no-gpg-sign", "--message", "message"]
    );
    assert_eq!(repo.last_commit_id().args, vec!["rev-parse", "HEAD"]);
    assert_eq!(repo.status().args, vec!["status", "--short"]);
    assert!(!Repo::is_something_modified("  \n"));
    assert!(Repo::is_something_modified("?? bla.txt\n"));
    assert_eq!(git_output("abc123\n"), "abc123");
}

#[test]
fn mod_validate_finds_duplicates() {
    let sites = vec![
        site("https://edjopato.de/post/"),
        site("https://edjopato.de/robots.txt"),
        site("https://edjopato.de/post"),
    ];
    let result = Site::validate_no_duplicate(&sites);
    assert!(result.is_err());
}

#[test]
fn hostless_url_with_filename_is_valid() {
    let mut options = options();
    options.filename = Some("note".to_owned());
    let config = Config {
        from: "foo@bar.de".to_owned(),
        sites: vec![SiteEntry {
            url: UrlVariants::Single(url("data:text/plain,hello")),
            options,
        }],
    };
    config.validate(&vec![]).unwrap();
    assert_eq!(config.get_sites()[0].to_file_path(), "note");
}
