use website_stalker::run::{
    check_repository, group_by_host, removes_gone_files, run_commit, select_sites,
    superfluous_files, CommitPlan, FilterError, OutcomeReport, RepoNote, RunError, RunProgress,
    SiteOutcome,
};
use website_stalker::site::{Options, Site};
use website_stalker::site_store::{files_with_other_extension, is_site_folder, ChangeKind};
use website_stalker::weburl::SiteUrl;

fn url(s: &str) -> SiteUrl {
    SiteUrl::parse(s).unwrap()
}

fn site(u: &str) -> Site {
    Site {
        url: url(u),
        options: Options {
            accept_invalid_certs: false,
            http1_only: false,
            ignore_error: false,
            filename: None,
            headers: vec![],
            editors: vec![],
        },
    }
}

fn urls_of(sites: &[Site]) -> Vec<String> {
    sites.iter().map(|s| s.url.as_str().to_owned()).collect()
}

#[test]
fn no_filter_keeps_all_sites() {
    let sites = vec![site("https://edjopato.de/"), site("https://foo.bar/")];
    let kept = select_sites(sites, None).unwrap();
    assert_eq!(urls_of(&kept), vec!["https://edjopato.de/", "https://foo.bar/"]);
}

#[test]
fn filter_is_case_insensitive() {
    let sites = vec![site("https://edjopato.de/"), site("https://foo.bar/"), site("https://EdJoPaTo.de/post/")];
    let kept = select_sites(sites, Some("EDJOPATO")).unwrap();
    assert_eq!(urls_of(&kept), vec!["https://edjopato.de/", "https://edjopato.de/post/"]);
}

#[test]
fn filter_that_matches_nothing_errors() {
    let sites = vec![site("https://edjopato.de/")];
    assert_eq!(select_sites(sites, Some("apple")).err(), Some(FilterError::FilteredEverythingOut));
}

#[test]
fn invalid_filter_errors() {
    let sites = vec![site("https://edjopato.de/")];
    assert_eq!(select_sites(sites, Some("(")).err(), Some(FilterError::InvalidFilter));
}

#[test]
fn gone_files_only_removed_when_all_sites_run() {
    assert!(removes_gone_files(3, 3));
    assert!(!removes_gone_files(2, 3));
}

#[test]
fn sites_grouped_by_host_in_order() {
    let sites = vec![
        site("https://foo.bar/a"),
        site("https://edjopato.de/"),
        site("https://foo.bar/b"),
        site("https://edjopato.de/post/"),
        site("https://example.com/"),
    ];
    let groups = group_by_host(sites);
    let summary = groups
        .iter()
        .map(|(host, sites)| (host.clone(), urls_of(sites)))
        .collect::<Vec<_>>();
    assert_eq!(
        summary,
        vec![
            ("foo.bar".to_owned(), vec!["https://foo.bar/a".to_owned(), "https://foo.bar/b".to_owned()]),
            (
                "edjopato.de".to_owned(),
                vec!["https://edjopato.de/".to_owned(), "https://edjopato.de/post/".to_owned()]
            ),
            ("example.com".to_owned(), vec!["https://example.com/".to_owned()]),
        ]
    );
}

#[test]
fn repository_state_decides_the_run() {
    assert_eq!(check_repository(Some(false), true), Ok(RepoNote::Fine));
    assert_eq!(check_repository(Some(true), false), Ok(RepoNote::Unclean));
    assert_eq!(check_repository(Some(true), true), Err(RunError::UncleanRepository));
    assert_eq!(check_repository(None, false), Ok(RepoNote::NoRepository));
    assert_eq!(check_repository(None, true), Err(RunError::NoRepository));
}

#[test]
fn commit_only_with_changes_and_flag() {
    assert_eq!(run_commit(false, true), CommitPlan::Nothing);
    assert_eq!(run_commit(true, true), CommitPlan::AddAndCommit);
    assert_eq!(run_commit(true, false), CommitPlan::WarnNoCommitFlag);
}

#[test]
fn progress_adds_up_outcomes() {
    let mut p = RunProgress::new();
    assert_eq!(
        p.record(SiteOutcome::Stored { url: url("https://a.de/"), kind: ChangeKind::Init }),
        OutcomeReport::Progress
    );
    assert_eq!(
        p.record(SiteOutcome::Stored { url: url("https://b.de/"), kind: ChangeKind::ContentSame }),
        OutcomeReport::Progress
    );
    assert_eq!(
        p.record(SiteOutcome::Failed { url: url("https://c.de/"), ignore_error: true }),
        OutcomeReport::Warning
    );
    assert!(!p.error_occurred);
    assert_eq!(
        p.record(SiteOutcome::Failed { url: url("https://d.de/"), ignore_error: false }),
        OutcomeReport::Error
    );
    assert!(p.error_occurred);
    assert_eq!(p.amount_done, 4);
    assert_eq!(urls_of_urls(&p.urls_of_interest), vec!["https://a.de/"]);
}

fn urls_of_urls(urls: &[SiteUrl]) -> Vec<String> {
    urls.iter().map(|u| u.as_str().to_owned()).collect()
}

#[test]
fn superfluous_files_are_those_not_expected() {
    let found = vec![
        "edjopato/de-edjopato.html".to_owned(),
        "edjopato/de-edjopato-post.md".to_owned(),
        "old/gone.txt".to_owned(),
    ];
    let expected = vec!["edjopato/de-edjopato".to_owned(), "edjopato/de-edjopato-post".to_owned()];
    assert_eq!(superfluous_files(&found, &expected), vec!["old/gone.txt".to_owned()]);
}

#[test]
fn other_extensions_of_the_same_file() {
    let files = vec![
        "dir/site.html".to_owned(),
        "dir/site.md".to_owned(),
        "dir/other.md".to_owned(),
        "dir/site".to_owned(),
    ];
    assert_eq!(
        files_with_other_extension("dir/site.md", &files),
        vec!["dir/site.html".to_owned(), "dir/site".to_owned()]
    );
}

#[test]
fn hidden_folders_hold_no_sites() {
    assert!(!is_site_folder(".git"));
    assert!(is_site_folder("edjopato"));
    assert!(is_site_folder(""));
}
