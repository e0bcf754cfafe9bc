//! The decisions of a run: which sites, grouped how, what their outcomes add up to, and
//! what happens with git at its end. Fetching, writing files and calling git are the
//! caller's.
use crate::editor::regex_replacer::{regex_compiles, regex_is_match, regex_is_valid, regex_matches};
use crate::site::{Site, set_extension, with_extension};
use crate::site_store::ChangeKind;
use crate::order::str_eq;
use crate::weburl::{SiteUrl, UrlView};
use vstd::prelude::*;

verus! {

broadcast use vstd::string::group_string_axioms;

/// Why the sites of a run cannot be chosen.
#[derive(Debug, PartialEq, Eq)]
pub enum FilterError {
    /// The filter is no regular expression.
    InvalidFilter,
    /// The filter matches no site.
    FilteredEverythingOut,
}

/// The case-insensitive form of a site filter.
pub open spec fn filter_pattern(filter: Seq<char>) -> Seq<char> {
    "(?i)"@ + filter
}

/// The sites whose URL the case-insensitive filter matches, in order.
pub open spec fn filtered(sites: Seq<Site>, filter: Seq<char>) -> Seq<Site> {
    sites.filter(|s: Site| regex_is_match(filter_pattern(filter), s.url@.serialization))
}

/// The sites of the run: all, or those whose URL the filter matches (case-insensitive);
/// `Err` where that leaves none or the filter is no regular expression.
pub fn select_sites(sites: Vec<Site>, filter: Option<&str>) -> (r: Result<Vec<Site>, FilterError>)
    ensures
        match filter {
            None => r matches Ok(v) && v@ == sites@,
            Some(f) => if !regex_compiles(filter_pattern(f@)) {
                r == Err::<Vec<Site>, FilterError>(FilterError::InvalidFilter)
            } else if filtered(sites@, f@).len() == 0 {
                r == Err::<Vec<Site>, FilterError>(FilterError::FilteredEverythingOut)
            } else {
                r matches Ok(v) && v@ == filtered(sites@, f@)
            },
        },
{
    let f = match filter {
        None => {
            return Ok(sites);
        },
        Some(f) => f,
    };
    let mut pattern = "(?i)".to_string();
    pattern.append(f);
    if !regex_is_valid(pattern.as_str()) {
        return Err(FilterError::InvalidFilter);
    }
    let ghost all = sites@;
    let ghost pred = |s: Site| regex_is_match(filter_pattern(f@), s.url@.serialization);
    let mut rev = crate::editor::css_sort::into_reversed(sites);
    let ghost rv = rev@;
    let mut kept: Vec<Site> = Vec::new();
    while rev.len() > 0
        invariant
            rev@.len() <= rv.len(),
            rev@ == rv.take(rev@.len() as int),
            rv.len() == all.len(),
            forall|j: int| 0 <= j < rv.len() ==> #[trigger] rv[j] == all[all.len() - 1 - j],
            pattern@ == filter_pattern(f@),
            regex_compiles(pattern@),
            pred == |s: Site| regex_is_match(filter_pattern(f@), s.url@.serialization),
            kept@ == all.take(all.len() - rev@.len()).filter(pred),
        decreases rev@.len(),
    {
        let ghost before = rev@;
        let s = rev.pop().unwrap();
        assert(before == rev@.push(s));
        assert(rev@ =~= rv.take(rev@.len() as int));
        let ghost k = all.len() - 1 - rev@.len();
        assert(s == rv[rev@.len() as int]);
        assert(s == all[k]);
        proof {
            all.take(k).lemma_filter_push(s, pred);
            assert(all.take(k + 1) == all.take(k).push(s));
        }
        if regex_matches(pattern.as_str(), s.url.as_str()) {
            kept.push(s);
        }
    }
    assert(all.take(all.len() as int) == all);
    if kept.len() == 0 {
        Err(FilterError::FilteredEverythingOut)
    } else {
        Ok(kept)
    }
}

/// Whether the files of sites that are no longer configured are removed: only when the
/// run covers all sites.
pub fn removes_gone_files(selected: usize, total: usize) -> (r: bool)
    ensures
        r == (selected == total),
{
    selected == total
}

/// The host of a site's URL.
pub open spec fn site_host(s: Site) -> Seq<char> {
    s.url@.host.unwrap()
}

/// The distinct hosts of the sites, in the order in which they first come.
pub open spec fn hosts_in_order(sites: Seq<Site>) -> Seq<Seq<char>>
    decreases sites.len(),
{
    if sites.len() == 0 {
        Seq::empty()
    } else {
        let before = hosts_in_order(sites.drop_last());
        if before.contains(site_host(sites.last())) {
            before
        } else {
            before.push(site_host(sites.last()))
        }
    }
}

/// The sites on host `h`, in their order.
pub open spec fn sites_on(sites: Seq<Site>, h: Seq<char>) -> Seq<Site> {
    sites.filter(|s: Site| site_host(s) == h)
}

/// The sites grouped by host: one group per host, hosts in the order in which they first
/// come, each group with the sites of its host in their order. The sites of a group are
/// requested one after the other.
pub fn group_by_host(sites: Vec<Site>) -> (r: Vec<(String, Vec<Site>)>)
    requires
        forall|i: int| 0 <= i < sites@.len() ==> (#[trigger] sites@[i]).url@.host is Some,
    ensures
        r@.len() == hosts_in_order(sites@).len(),
        forall|k: int|
            0 <= k < r@.len() ==> (#[trigger] r@[k]).0@ == hosts_in_order(sites@)[k] && r@[k].1@
                == sites_on(sites@, hosts_in_order(sites@)[k]),
{
    let ghost all = sites@;
    let mut rev = crate::editor::css_sort::into_reversed(sites);
    let ghost rv = rev@;
    let mut r: Vec<(String, Vec<Site>)> = Vec::new();
    while rev.len() > 0
        invariant
            rev@.len() <= rv.len(),
            rev@ == rv.take(rev@.len() as int),
            rv.len() == all.len(),
            forall|j: int| 0 <= j < rv.len() ==> #[trigger] rv[j] == all[all.len() - 1 - j],
            forall|i: int| 0 <= i < all.len() ==> (#[trigger] all[i]).url@.host is Some,
            r@.len() == hosts_in_order(all.take(all.len() - rev@.len())).len(),
            forall|k: int|
                0 <= k < r@.len() ==> (#[trigger] r@[k]).0@ == hosts_in_order(
                    all.take(all.len() - rev@.len()),
                )[k] && r@[k].1@ == sites_on(all.take(all.len() - rev@.len()), r@[k].0@),
        decreases rev@.len(),
    {
        let ghost before = rev@;
        let s = rev.pop().unwrap();
        assert(before == rev@.push(s));
        assert(rev@ =~= rv.take(rev@.len() as int));
        let ghost n = all.len() - 1 - rev@.len();
        assert(s == rv[rev@.len() as int]);
        assert(s == all[n]);
        let ghost prefix = all.take(n);
        assert(all.take(n + 1) == prefix.push(s));
        assert(prefix.push(s).drop_last() == prefix);
        assert(prefix.push(s).last() == s);
        let ghost hp = hosts_in_order(prefix);
        proof {
            lemma_hosts_distinct(prefix);
        }
        let h = match s.url.host_str() {
            Some(h) => h.to_string(),
            None => String::new(),
        };
        assert(h@ == site_host(s));
        let mut k: usize = 0;
        while k < r.len() && !str_eq(r[k].0.as_str(), h.as_str())
            invariant
                k <= r@.len(),
                r@.len() == hp.len(),
                forall|j: int| 0 <= j < r@.len() ==> (#[trigger] r@[j]).0@ == hp[j],
                forall|j: int| 0 <= j < k ==> hp[j] != h@,
            decreases r@.len() - k,
        {
            assert(r@[k as int].0@ == hp[k as int]);
            k += 1;
        }
        let ghost rb = r@;
        assert forall|g: int| 0 <= g < rb.len() && g != k implies sites_on(prefix.push(s), #[trigger] rb[g].0@) == sites_on(prefix, rb[g].0@) by {
            prefix.lemma_filter_push(s, |x: Site| site_host(x) == rb[g].0@);
            assert(rb[g].0@ == hp[g]);
            if g > k {
                assert(hp[k as int] == rb[k as int].0@);
            }
        }
        if k < r.len() {
            assert(hp[k as int] == h@);
            assert(hp.contains(site_host(s)));
            assert(hosts_in_order(prefix.push(s)) == hp);
            proof {
                prefix.lemma_filter_push(s, |x: Site| site_host(x) == rb[k as int].0@);
            }
            let mut entry = r.remove(k);
            entry.1.push(s);
            r.insert(k, entry);
            assert forall|j: int| 0 <= j < r@.len() implies (#[trigger] r@[j]).0@ == hosts_in_order(prefix.push(s))[j]
                && r@[j].1@ == sites_on(prefix.push(s), r@[j].0@) by {
                if j != k {
                    assert(r@[j] == rb[j]);
                }
            }
        } else {
            assert(!hp.contains(site_host(s))) by {
                if hp.contains(site_host(s)) {
                    let j = choose|j: int| 0 <= j < hp.len() && hp[j] == site_host(s);
                    assert(hp[j] == h@);
                }
            }
            assert(hosts_in_order(prefix.push(s)) == hp.push(h@));
            let ghost newh = h@;
            proof {
                prefix.lemma_filter_push(s, |x: Site| site_host(x) == newh);
                assert forall|i: int| 0 <= i < prefix.len() implies site_host(#[trigger] prefix[i]) != newh by {
                    if site_host(prefix[i]) == newh {
                        lemma_host_listed(prefix, i);
                    }
                }
                lemma_filter_none(prefix, |x: Site| site_host(x) == newh);
            }
            let mut g: Vec<Site> = Vec::new();
            g.push(s);
            r.push((h, g));
            assert forall|j: int| 0 <= j < r@.len() implies (#[trigger] r@[j]).0@ == hosts_in_order(prefix.push(s))[j]
                && r@[j].1@ == sites_on(prefix.push(s), r@[j].0@) by {
                if j < rb.len() {
                    assert(r@[j] == rb[j]);
                } else {
                    assert(r@[j].1@ =~= sites_on(prefix.push(s), newh));
                }
            }
        }
    }
    assert(all.take(all.len() as int) == all);
    r
}

/// The hosts listed are distinct.
proof fn lemma_hosts_distinct(sites: Seq<Site>)
    ensures
        forall|i: int, j: int|
            0 <= i < j < hosts_in_order(sites).len() ==> #[trigger] hosts_in_order(sites)[i] != #[trigger] hosts_in_order(sites)[j],
    decreases sites.len(),
{
    if sites.len() > 0 {
        lemma_hosts_distinct(sites.drop_last());
        let before = hosts_in_order(sites.drop_last());
        if !before.contains(site_host(sites.last())) {
            let after = before.push(site_host(sites.last()));
            assert forall|i: int, j: int| 0 <= i < j < after.len() implies #[trigger] after[i] != #[trigger] after[j] by {
                if j == before.len() {
                    assert(after[i] == before[i]);
                    if after[i] == after[j] {
                        assert(before.contains(site_host(sites.last())));
                    }
                } else {
                    assert(after[i] == before[i] && after[j] == before[j]);
                }
            }
        }
    }
}

/// A host of the sites is listed.
proof fn lemma_host_listed(sites: Seq<Site>, i: int)
    requires
        0 <= i < sites.len(),
    ensures
        hosts_in_order(sites).contains(site_host(sites[i])),
    decreases sites.len(),
{
    let before = hosts_in_order(sites.drop_last());
    if i < sites.len() - 1 {
        lemma_host_listed(sites.drop_last(), i);
        assert(sites.drop_last()[i] == sites[i]);
        if !before.contains(site_host(sites.last())) {
            let j = choose|j: int| 0 <= j < before.len() && before[j] == site_host(sites[i]);
            assert(before.push(site_host(sites.last()))[j] == site_host(sites[i]));
        }
    } else {
        if !before.contains(site_host(sites.last())) {
            assert(before.push(site_host(sites.last()))[before.len() as int] == site_host(sites[i]));
        }
    }
}

/// Filtering by a predicate that no element meets leaves nothing.
proof fn lemma_filter_none(s: Seq<Site>, p: spec_fn(Site) -> bool)
    requires
        forall|i: int| 0 <= i < s.len() ==> !p(#[trigger] s[i]),
    ensures
        s.filter(p) == Seq::<Site>::empty(),
    decreases s.len(),
{
    reveal(Seq::filter);
    if s.len() > 0 {
        assert forall|i: int| 0 <= i < s.drop_last().len() implies !p(#[trigger] s.drop_last()[i]) by {
            assert(s.drop_last()[i] == s[i]);
        }
        lemma_filter_none(s.drop_last(), p);
        assert(!p(s[s.len() - 1]));
    }
}

/// What the state of the git repository means for a run.
#[derive(Debug, PartialEq, Eq)]
pub enum RepoNote {
    /// Nothing to say.
    Fine,
    /// The repository has changes already; warn.
    Unclean,
    /// There is no repository; warn that no git actions happen.
    NoRepository,
}

/// Why a run cannot start.
#[derive(Debug, PartialEq, Eq)]
pub enum RunError {
    /// Committing needs a clean repository.
    UncleanRepository,
    /// Committing needs a repository.
    NoRepository,
}

/// What the state of the repository (if there is one, whether it has changes) means for a
/// run that commits or not.
pub fn check_repository(repository: Option<bool>, do_commit: bool) -> (r: Result<RepoNote, RunError>)
    ensures
        r == match repository {
            Some(modified) => if modified {
                if do_commit {
                    Err(RunError::UncleanRepository)
                } else {
                    Ok(RepoNote::Unclean)
                }
            } else {
                Ok(RepoNote::Fine)
            },
            None => if do_commit {
                Err(RunError::NoRepository)
            } else {
                Ok(RepoNote::NoRepository)
            },
        },
{
    match repository {
        Some(modified) => if modified {
            if do_commit {
                Err(RunError::UncleanRepository)
            } else {
                Ok(RepoNote::Unclean)
            }
        } else {
            Ok(RepoNote::Fine)
        },
        None => if do_commit {
            Err(RunError::NoRepository)
        } else {
            Ok(RepoNote::NoRepository)
        },
    }
}

/// What happens with git at the end of a run.
#[derive(Debug, PartialEq, Eq)]
pub enum CommitPlan {
    /// Nothing changed in the repository.
    Nothing,
    /// Changes stay uncommitted; warn that `--commit` is missing.
    WarnNoCommitFlag,
    /// Stage everything, commit, and read the commit id.
    AddAndCommit,
}

/// What happens with git at the end of a run, by whether the repository has changes and
/// whether the run commits.
pub fn run_commit(modified: bool, do_commit: bool) -> (r: CommitPlan)
    ensures
        r == if !modified {
            CommitPlan::Nothing
        } else if do_commit {
            CommitPlan::AddAndCommit
        } else {
            CommitPlan::WarnNoCommitFlag
        },
{
    if modified {
        if do_commit {
            CommitPlan::AddAndCommit
        } else {
            CommitPlan::WarnNoCommitFlag
        }
    } else {
        CommitPlan::Nothing
    }
}

/// How a site of a run ended.
pub enum SiteOutcome {
    /// The site was fetched, edited and stored.
    Stored { url: SiteUrl, kind: ChangeKind },
    /// The site failed; where errors of it are ignored, only a warning is due.
    Failed { url: SiteUrl, ignore_error: bool },
}

/// What is reported of a site's outcome.
#[derive(Debug, PartialEq, Eq)]
pub enum OutcomeReport {
    /// A progress line.
    Progress,
    /// A warning.
    Warning,
    /// An error.
    Error,
}

/// The state of a run while the outcomes of its sites come in.
pub struct RunProgress {
    pub amount_done: usize,
    pub urls_of_interest: Vec<SiteUrl>,
    pub error_occurred: bool,
}

impl RunProgress {
    /// No outcome yet.
    pub fn new() -> (r: RunProgress)
        ensures
            r.amount_done == 0,
            r.urls_of_interest@.len() == 0,
            !r.error_occurred,
    {
        RunProgress { amount_done: 0, urls_of_interest: Vec::new(), error_occurred: false }
    }

    /// Takes in the outcome of a site: a new or changed site is of interest; a failure is
    /// an error unless its errors are ignored.
    pub fn record(&mut self, outcome: SiteOutcome) -> (r: OutcomeReport)
        requires
            old(self).amount_done < usize::MAX,
        ensures
            final(self).amount_done == old(self).amount_done + 1,
            match outcome {
                SiteOutcome::Stored { url, kind } => {
                    &&& r == OutcomeReport::Progress
                    &&& final(self).error_occurred == old(self).error_occurred
                    &&& if kind is ContentSame {
                        final(self).urls_of_interest@ == old(self).urls_of_interest@
                    } else {
                        final(self).urls_of_interest@ == old(self).urls_of_interest@.push(url)
                    }
                },
                SiteOutcome::Failed { url, ignore_error } => {
                    &&& r == if ignore_error {
                        OutcomeReport::Warning
                    } else {
                        OutcomeReport::Error
                    }
                    &&& final(self).urls_of_interest@ == old(self).urls_of_interest@
                    &&& final(self).error_occurred == (old(self).error_occurred || !ignore_error)
                },
            },
    {
        self.amount_done = self.amount_done + 1;
        match outcome {
            SiteOutcome::Stored { url, kind } => {
                if kind.is_of_interest() {
                    self.urls_of_interest.push(url);
                }
                OutcomeReport::Progress
            },
            SiteOutcome::Failed { url: _, ignore_error } => {
                if ignore_error {
                    OutcomeReport::Warning
                } else {
                    self.error_occurred = true;
                    OutcomeReport::Error
                }
            },
        }
    }
}

/// The files found that no site is kept in: those whose path without extension is none of
/// the expected ones, in the order found.
pub open spec fn superfluous(found: Seq<Seq<char>>, expected: Seq<Seq<char>>) -> Seq<Seq<char>> {
    found.filter(|f: Seq<char>| !expected.contains(with_extension(f, Seq::empty())))
}

/// The files found that no site is kept in.
pub fn superfluous_files(found: &Vec<String>, expected: &Vec<String>) -> (r: Vec<String>)
    ensures
        r@.map_values(|s: String| s@) == superfluous(
            found@.map_values(|s: String| s@),
            expected@.map_values(|s: String| s@),
        ),
{
    let ghost fv = found@.map_values(|s: String| s@);
    let ghost ev = expected@.map_values(|s: String| s@);
    let ghost pred = |f: Seq<char>| !ev.contains(with_extension(f, Seq::empty()));
    let mut r: Vec<String> = Vec::new();
    let mut i: usize = 0;
    while i < found.len()
        invariant
            i <= found@.len(),
            fv == found@.map_values(|s: String| s@),
            ev == expected@.map_values(|s: String| s@),
            pred == |f: Seq<char>| !ev.contains(with_extension(f, Seq::empty())),
            r@.map_values(|s: String| s@) == fv.take(i as int).filter(pred),
        decreases found@.len() - i,
    {
        proof {
            fv.take(i as int).lemma_filter_push(fv[i as int], pred);
            assert(fv.take(i + 1) == fv.take(i as int).push(fv[i as int]));
        }
        proof {
            reveal_strlit("");
            assert(""@ =~= Seq::<char>::empty());
        }
        let stem = set_extension(found[i].as_str(), "");
        proof {
            reveal_strlit("");
            assert(""@ =~= Seq::<char>::empty());
            assert(fv[i as int] == found@[i as int]@);
        }
        let mut wanted = false;
        let mut j: usize = 0;
        while j < expected.len()
            invariant
                j <= expected@.len(),
                ev == expected@.map_values(|s: String| s@),
                wanted == exists|k: int| 0 <= k < j && #[trigger] ev[k] == stem@,
            decreases expected@.len() - j,
        {
            if str_eq(expected[j].as_str(), stem.as_str()) {
                assert(ev[j as int] == stem@);
                wanted = true;
            }
            j += 1;
        }
        assert(wanted == ev.contains(stem@));
        assert(pred(fv[i as int]) == !wanted);
        if !wanted {
            let f = found[i].clone();
            let ghost prev = r@;
            r.push(f);
            assert(r@ == prev.push(f));
            assert(r@.map_values(|s: String| s@) =~= prev.map_values(|s: String| s@).push(f@));
        }
        i += 1;
    }
    assert(fv.take(found@.len() as int) == fv);
    r
}

} // verus!
