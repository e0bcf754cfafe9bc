//! The configuration: the FROM address and the watched sites.
use crate::http::{FromError, from_check, from_error_text, validate_from};
use crate::order::str_eq;
use crate::site::{DuplicateSites, Options, Site, has_file_name, same_options, site_file};
use crate::weburl::{SiteUrl, UrlView};
use vstd::prelude::*;

verus! {

broadcast use vstd::string::group_string_axioms;

/// One URL or several.
pub enum UrlVariants {
    Single(SiteUrl),
    Many(Vec<SiteUrl>),
}

/// The URLs of a site entry.
pub open spec fn variant_urls(u: UrlVariants) -> Seq<UrlView> {
    match u {
        UrlVariants::Single(s) => seq![s@],
        UrlVariants::Many(m) => m@.map_values(|s: SiteUrl| s@),
    }
}

impl UrlVariants {
    /// Whether there is no URL.
    pub fn is_empty(&self) -> (r: bool)
        ensures
            r == (variant_urls(*self).len() == 0),
    {
        match self {
            UrlVariants::Single(_) => false,
            UrlVariants::Many(many) => many.len() == 0,
        }
    }
}

/// URLs that share options.
pub struct SiteEntry {
    pub url: UrlVariants,
    pub options: Options,
}

/// The configuration.
pub struct Config {
    /// The address sent as the FROM header.
    pub from: String,
    pub sites: Vec<SiteEntry>,
}

/// The URLs of the entries, entry by entry, each with the index of its entry.
pub open spec fn entries_urls(entries: Seq<SiteEntry>) -> Seq<(UrlView, int)>
    decreases entries.len(),
{
    if entries.len() == 0 {
        Seq::empty()
    } else {
        let last = entries.len() - 1;
        entries_urls(entries.drop_last()) + variant_urls(entries.last().url).map_values(
            |u: UrlView| (u, last),
        )
    }
}

/// A name of an environment variable of the former notification setup.
pub open spec fn is_old_var(n: Seq<char>) -> bool {
    n == "EMAIL_FROM"@
        || n == "EMAIL_PASSWORD"@
        || n == "EMAIL_PORT"@
        || n == "EMAIL_SERVER"@
        || n == "EMAIL_SUBJECT"@
        || n == "EMAIL_TO"@
        || n == "EMAIL_USERNAME"@
        || n == "MATRIX_ACCESS_TOKEN"@
        || n == "MATRIX_HOMESERVER"@
        || n == "MATRIX_ROOM_ID"@
        || n == "PLING_COMMAND_ARGS"@
        || n == "PLING_COMMAND_PROGRAM"@
        || n == "PLING_DESKTOP_ENABLED"@
        || n == "PLING_DESKTOP_SUMMARY"@
        || n == "SLACK_HOOK"@
        || n == "TELEGRAM_BOT_TOKEN"@
        || n == "TELEGRAM_DISABLE_NOTIFICATION"@
        || n == "TELEGRAM_DISABLE_WEB_PAGE_PREVIEW"@
        || n == "TELEGRAM_TARGET_CHAT"@
        || n == "WEBHOOK_URL"@
}

/// The names of the former notification setup among `names`, in order.
pub open spec fn old_vars(names: Seq<Seq<char>>) -> Seq<Seq<char>> {
    names.filter(|n: Seq<char>| is_old_var(n))
}

fn is_old_var_name(n: &str) -> (r: bool)
    ensures
        r == is_old_var(n@),
{
    str_eq(n, "EMAIL_FROM")
        || str_eq(n, "EMAIL_PASSWORD")
        || str_eq(n, "EMAIL_PORT")
        || str_eq(n, "EMAIL_SERVER")
        || str_eq(n, "EMAIL_SUBJECT")
        || str_eq(n, "EMAIL_TO")
        || str_eq(n, "EMAIL_USERNAME")
        || str_eq(n, "MATRIX_ACCESS_TOKEN")
        || str_eq(n, "MATRIX_HOMESERVER")
        || str_eq(n, "MATRIX_ROOM_ID")
        || str_eq(n, "PLING_COMMAND_ARGS")
        || str_eq(n, "PLING_COMMAND_PROGRAM")
        || str_eq(n, "PLING_DESKTOP_ENABLED")
        || str_eq(n, "PLING_DESKTOP_SUMMARY")
        || str_eq(n, "SLACK_HOOK")
        || str_eq(n, "TELEGRAM_BOT_TOKEN")
        || str_eq(n, "TELEGRAM_DISABLE_NOTIFICATION")
        || str_eq(n, "TELEGRAM_DISABLE_WEB_PAGE_PREVIEW")
        || str_eq(n, "TELEGRAM_TARGET_CHAT")
        || str_eq(n, "WEBHOOK_URL")
}

/// The names of the former notification setup among `names`, to warn about.
pub fn old_notification_vars(names: &Vec<String>) -> (r: Vec<String>)
    ensures
        r@.map_values(|k: String| k@) == old_vars(names@.map_values(|k: String| k@)),
{
    let ghost nv = names@.map_values(|k: String| k@);
    let mut r: Vec<String> = Vec::new();
    let mut i: usize = 0;
    while i < names.len()
        invariant
            i <= names@.len(),
            nv == names@.map_values(|k: String| k@),
            r@.map_values(|k: String| k@) == old_vars(nv.take(i as int)),
        decreases names@.len() - i,
    {
        proof {
            nv.take(i as int).lemma_filter_push(nv[i as int], |n: Seq<char>| is_old_var(n));
            assert(nv.take(i + 1) == nv.take(i as int).push(nv[i as int]));
        }
        if is_old_var_name(names[i].as_str()) {
            let k = names[i].clone();
            let ghost prev = r@;
            r.push(k);
            assert(r@ == prev.push(k));
            assert(r@.map_values(|k: String| k@) =~= prev.map_values(|k: String| k@).push(k@));
        }
        i += 1;
    }
    assert(nv.take(names@.len() as int) == nv);
    r
}

/// The file of the `k`-th URL of the entries, without extension.
pub open spec fn entry_file(entries: Seq<SiteEntry>, k: int) -> Seq<char> {
    crate::site::file_path_of(
        entries_urls(entries)[k].0,
        crate::editor::rss::opt(entries[entries_urls(entries)[k].1].options.filename),
    )
}

/// No two URLs of the entries are kept in the same file.
pub open spec fn no_duplicate_files(entries: Seq<SiteEntry>) -> bool {
    forall|i: int, j: int|
        0 <= i < j < entries_urls(entries).len() ==> entry_file(entries, i) != entry_file(entries, j)
}

/// The sites are fine: there is one, each entry has a URL, and no two are kept in the
/// same file.
pub open spec fn sites_ok(entries: Seq<SiteEntry>) -> bool {
    &&& entries.len() > 0
    &&& forall|i: int| 0 <= i < entries.len() ==> variant_urls(#[trigger] entries[i].url).len() > 0
    &&& no_duplicate_files(entries)
}

/// Every URL of the entries has a file name: one configured for its entry, or a host to
/// make it of.
pub open spec fn urls_have_file_names(entries: Seq<SiteEntry>) -> bool {
    forall|k: int|
        0 <= k < entries_urls(entries).len() ==> (#[trigger] entries_urls(entries)[k]).0.host is Some
            || entries[entries_urls(entries)[k].1].options.filename is Some
}

/// The site is the `k`-th URL of the entries with a copy of its entry's options.
pub open spec fn site_of_entry(s: Site, entries: Seq<SiteEntry>, k: int) -> bool {
    &&& s.url@ == entries_urls(entries)[k].0
    &&& same_options(s.options, entries[entries_urls(entries)[k].1].options)
}

/// Why a configuration is refused.
#[derive(Debug)]
pub enum ConfigError {
    /// The FROM address is refused.
    From { from: String, error: FromError },
    /// There is no site.
    NoSites,
    /// An entry has no URL.
    EntryWithoutUrls,
    /// Two sites would be kept in the same file.
    Duplicates,
}

/// The outcome of the checks of the sites: there is one, each entry has a URL, and no two
/// are kept in the same file; the first that fails.
pub open spec fn sites_check(entries: Seq<SiteEntry>) -> Result<(), ConfigError> {
    if entries.len() == 0 {
        Err(ConfigError::NoSites)
    } else if exists|i: int| 0 <= i < entries.len() && variant_urls(#[trigger] entries[i].url).len() == 0 {
        Err(ConfigError::EntryWithoutUrls)
    } else if !no_duplicate_files(entries) {
        Err(ConfigError::Duplicates)
    } else {
        Ok(())
    }
}


impl ConfigError {
    /// What caused a refusal of the FROM address: why the address is refused.
    pub fn cause(&self) -> (r: Option<String>)
        ensures
            match self {
                ConfigError::From { from, error } => r matches Some(c) && c@ == from_error_text(*error, from@),
                _ => r is None,
            },
    {
        match self {
            ConfigError::From { from, error } => Some(error.message(from.as_str())),
            _ => None,
        }
    }

    /// The message that reports the refusal.
    pub fn message(&self) -> (r: String)
        ensures
            r@ == match self {
                ConfigError::From { from, .. } => "from ("@ + from@ + ") is invalid"@,
                ConfigError::NoSites => "site list is empty"@,
                ConfigError::EntryWithoutUrls => "site entry has no urls"@,
                ConfigError::Duplicates => DuplicateSites::MESSAGE@,
            },
    {
        match self {
            ConfigError::From { from, error: _ } => {
                let mut m = "from (".to_string();
                m.append(from.as_str());
                m.append(") is invalid");
                m
            },
            ConfigError::NoSites => "site list is empty".to_string(),
            ConfigError::EntryWithoutUrls => "site entry has no urls".to_string(),
            ConfigError::Duplicates => DuplicateSites::MESSAGE.to_string(),
        }
    }
}

impl Config {
    /// The sites: one per URL, entry by entry, each with a copy of its entry's options.
    #[verifier::spinoff_prover]
    pub fn get_sites(&self) -> (r: Vec<Site>)
        ensures
            r@.len() == entries_urls(self.sites@).len(),
            forall|k: int| 0 <= k < r@.len() ==> site_of_entry(#[trigger] r@[k], self.sites@, k),
    {
        let mut result: Vec<Site> = Vec::new();
        let mut e: usize = 0;
        while e < self.sites.len()
            invariant
                e <= self.sites@.len(),
                result@.len() == entries_urls(self.sites@.take(e as int)).len(),
                forall|k: int|
                    0 <= k < result@.len() ==> #[trigger] result@[k].url@ == entries_urls(
                        self.sites@.take(e as int),
                    )[k].0 && same_options(
                        result@[k].options,
                        self.sites@[entries_urls(self.sites@.take(e as int))[k].1].options,
                    ),
                forall|k: int|
                    0 <= k < entries_urls(self.sites@.take(e as int)).len() ==> 0 <= #[trigger] entries_urls(
                        self.sites@.take(e as int),
                    )[k].1 < e,
            decreases self.sites@.len() - e,
        {
            let ghost before = entries_urls(self.sites@.take(e as int));
            let ghost urls = variant_urls(self.sites@[e as int].url);
            assert(self.sites@.take(e + 1).drop_last() == self.sites@.take(e as int));
            assert(self.sites@.take(e + 1).last() == self.sites@[e as int]);
            let ghost after = entries_urls(self.sites@.take(e + 1));
            assert(after == before + urls.map_values(|u: UrlView| (u, e as int)));
            let entry = &self.sites[e];
            let start = result.len();
            match &entry.url {
                UrlVariants::Single(url) => {
                    let site = Site { url: url.duplicate(), options: entry.options.duplicate() };
                    result.push(site);
                },
                UrlVariants::Many(many) => {
                    let mut j: usize = 0;
                    while j < many.len()
                        invariant
                            j <= many@.len(),
                            start == before.len(),
                            result@.len() == start + j,
                            urls == many@.map_values(|s: SiteUrl| s@),
                            e < self.sites@.len(),
                            entry == self.sites@[e as int],
                            forall|k: int|
                                0 <= k < start ==> #[trigger] result@[k].url@ == before[k].0 && same_options(
                                    result@[k].options,
                                    self.sites@[before[k].1].options,
                                ),
                            forall|k: int|
                                start <= k < start + j ==> #[trigger] result@[k].url@ == urls[k - start]
                                    && same_options(result@[k].options, entry.options),
                        decreases many@.len() - j,
                    {
                        let site = Site { url: many[j].duplicate(), options: entry.options.duplicate() };
                        result.push(site);
                        j += 1;
                    }
                },
            }
            assert forall|k: int| 0 <= k < after.len() implies 0 <= #[trigger] after[k].1 < e + 1 by {
                if k >= before.len() {
                    assert(after[k] == (urls[k - before.len()], e as int));
                }
            }
            assert forall|k: int| 0 <= k < result@.len() implies #[trigger] result@[k].url@ == after[k].0
                && same_options(result@[k].options, self.sites@[after[k].1].options) by {
                if k >= before.len() {
                    assert(after[k] == (urls[k - before.len()], e as int));
                } else {
                    assert(after[k] == before[k]);
                }
            }
            e += 1;
        }
        assert(self.sites@.take(e as int) == self.sites@);
        assert(entries_urls(self.sites@.take(e as int)) == entries_urls(self.sites@));
        assert forall|k: int| 0 <= k < result@.len() implies site_of_entry(#[trigger] result@[k], self.sites@, k) by {
            assert(entries_urls(self.sites@.take(e as int))[k] == entries_urls(self.sites@)[k]);
        }
        result
    }

    /// Checks the sites: there is one, each entry has a URL, and no two are kept in the
    /// same file.
    pub fn validate_sites(&self) -> (r: Result<(), ConfigError>)
        requires
            urls_have_file_names(self.sites@),
        ensures
            r is Ok <==> sites_ok(self.sites@),
            r == sites_check(self.sites@),
    {
        if self.sites.len() == 0 {
            return Err(ConfigError::NoSites);
        }
        let mut i: usize = 0;
        while i < self.sites.len()
            invariant
                i <= self.sites@.len(),
                forall|k: int| 0 <= k < i ==> variant_urls(#[trigger] self.sites@[k].url).len() > 0,
            decreases self.sites@.len() - i,
        {
            if self.sites[i].url.is_empty() {
                return Err(ConfigError::EntryWithoutUrls);
            }
            i += 1;
        }
        let sites = self.get_sites();
        assert forall|k: int| 0 <= k < sites@.len() implies has_file_name(#[trigger] sites@[k]) by {
            assert(site_of_entry(sites@[k], self.sites@, k));
        }
        assert forall|k: int| 0 <= k < sites@.len() implies #[trigger] site_file(sites@[k]) == entry_file(self.sites@, k) by {
            assert(site_of_entry(sites@[k], self.sites@, k));
        }
        match Site::validate_no_duplicate(&sites) {
            Ok(()) => {
                assert forall|i: int, j: int|
                    0 <= i < j < entries_urls(self.sites@).len() implies entry_file(self.sites@, i) != entry_file(self.sites@, j) by {
                    assert(site_file(sites@[i]) == entry_file(self.sites@, i));
                    assert(site_file(sites@[j]) == entry_file(self.sites@, j));
                }
                Ok(())
            },
            Err(_) => {
                let ghost (a, b) = choose|a: int, b: int|
                    0 <= a < b < sites@.len() && site_file(#[trigger] sites@[a]) == site_file(#[trigger] sites@[b]);
                assert(site_file(sites@[a]) == entry_file(self.sites@, a));
                assert(site_file(sites@[b]) == entry_file(self.sites@, b));
                Err(ConfigError::Duplicates)
            },
        }
    }

    /// Checks the configuration: the FROM address, then the sites. Also hands back the
    /// names among `env_keys` of the former notification setup, to warn about.
    pub fn validate(&self, env_keys: &Vec<String>) -> (r: Result<Vec<String>, ConfigError>)
        requires
            urls_have_file_names(self.sites@),
        ensures
            r is Ok <==> from_check(self.from@) is Ok && sites_ok(self.sites@),
            from_check(self.from@) matches Err(e) ==> r matches Err(ConfigError::From { from, error }) && from@
                == self.from@ && error == e,
            from_check(self.from@) is Ok ==> (r matches Err(e) ==> sites_check(self.sites@) == Err::<(), ConfigError>(e)),
            r matches Ok(v) ==> v@.map_values(|k: String| k@) == old_vars(env_keys@.map_values(|k: String| k@)),
    {
        match validate_from(self.from.as_str()) {
            Err(e) => {
                return Err(ConfigError::From { from: self.from.clone(), error: e });
            },
            Ok(()) => {},
        }
        match self.validate_sites() {
            Err(e) => {
                return Err(e);
            },
            Ok(()) => {},
        }
        Ok(old_notification_vars(env_keys))
    }
}

} // verus!
