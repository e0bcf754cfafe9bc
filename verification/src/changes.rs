//! The texts made of a run's changed sites: commit messages, notification lines and the
//! data that notification templates see.
use vstd::prelude::*;

use crate::order::{sort_dedup, sorted_unique, str_eq, views};
use crate::text::{contains_chars, decimal, decimal_string, from_chars, replace_chars, to_chars, trim, trim_str, contains_seq, replace_all};
use crate::weburl::{SiteUrl, UrlView};

verus! {

/// The view of an optional string.
pub open spec fn opt_view(o: Option<String>) -> Option<Seq<char>> {
    match o {
        Some(s) => Some(s@),
        None => None,
    }
}

/// The views of a list of URLs.
pub open spec fn url_views(urls: Seq<SiteUrl>) -> Seq<UrlView> {
    urls.map_values(|u: SiteUrl| u@)
}

/// The serializations of the URLs.
pub open spec fn serializations(urls: Seq<UrlView>) -> Seq<Seq<char>> {
    urls.map_values(|u: UrlView| u.serialization)
}

/// The hosts that the URLs have.
pub open spec fn hosts_of(urls: Seq<UrlView>) -> Seq<Seq<char>> {
    urls.filter(|u: UrlView| u.host is Some).map_values(|u: UrlView| u.host.unwrap())
}

/// `i` is the first position of a URL with serialization `s`.
pub open spec fn is_first_with(urls: Seq<UrlView>, s: Seq<char>, i: int) -> bool {
    &&& 0 <= i < urls.len()
    &&& urls[i].serialization == s
    &&& forall|j: int| 0 <= j < i ==> urls[j].serialization != s
}

/// The host of the site `s`, taken from the first URL with that serialization (equal
/// URLs of the `url` crate have equal hosts).
pub open spec fn host_of_site(urls: Seq<UrlView>, s: Seq<char>) -> Option<Seq<char>> {
    urls[choose|i: int| is_first_with(urls, s, i)].host
}

/// The distinct sites in order.
pub open spec fn unique_sites(urls: Seq<UrlView>) -> Seq<Seq<char>> {
    sorted_unique(serializations(urls))
}

/// The hosts of the given sites, in their order, those without host left out.
pub open spec fn site_hosts(urls: Seq<UrlView>, sites: Seq<Seq<char>>) -> Seq<Seq<char>> {
    sites.filter(|s: Seq<char>| host_of_site(urls, s) is Some).map_values(
        |s: Seq<char>| host_of_site(urls, s).unwrap(),
    )
}

/// `Vec::dedup`: runs of equal neighbours reduced to one.
pub open spec fn dedup_consecutive(s: Seq<Seq<char>>) -> Seq<Seq<char>>
    decreases s.len(),
{
    if s.len() <= 1 {
        s
    } else if s.last() == s[s.len() - 2] {
        dedup_consecutive(s.drop_last())
    } else {
        dedup_consecutive(s.drop_last()).push(s.last())
    }
}

/// The first line of a commit message and the empty line after it.
pub open spec fn commit_head(hosts: Seq<Seq<char>>, site_count: nat) -> Seq<char> {
    if hosts.len() == 0 {
        "just background magic 🧽🔮🧹\n\ncleanup or updating meta files"@
    } else if hosts.len() == 1 {
        "🌐👀 "@ + hosts[0] + "\n\n"@
    } else {
        "🌐👀 stalked "@ + decimal(site_count) + " website changes\n\n"@
    }
}

/// One line `- {site}` per site.
pub open spec fn site_lines(sites: Seq<Seq<char>>) -> Seq<char>
    decreases sites.len(),
{
    if sites.len() == 0 {
        Seq::empty()
    } else {
        site_lines(sites.drop_last()) + "- "@ + sites.last() + "\n"@
    }
}

/// A commit message for the changed sites with the given hosts.
pub open spec fn commit_text(hosts: Seq<Seq<char>>, sites: Seq<Seq<char>>) -> Seq<char> {
    commit_head(hosts, sites.len()) + site_lines(sites)
}

proof fn lemma_views_push(v: Seq<String>, s: String)
    ensures
        views(v.push(s)) == views(v).push(s@),
{
    assert(views(v.push(s)) =~= views(v).push(s@));
}

/// The serializations of the URLs.
fn serialization_list(urls: &[SiteUrl]) -> (r: Vec<String>)
    ensures
        views(r@) == serializations(url_views(urls@)),
{
    let mut r: Vec<String> = Vec::new();
    let mut i: usize = 0;
    while i < urls.len()
        invariant
            i <= urls@.len(),
            views(r@) == serializations(url_views(urls@.take(i as int))),
        decreases urls@.len() - i,
    {
        let s = urls[i].as_str().to_owned();
        proof {
            lemma_views_push(r@, s);
            assert(serializations(url_views(urls@.take(i + 1))) =~= serializations(
                url_views(urls@.take(i as int)),
            ).push(urls@[i as int]@.serialization));
        }
        r.push(s);
        i += 1;
    }
    assert(urls@.take(urls@.len() as int) == urls@);
    r
}

/// The hosts of the URLs, in their order.
fn host_list(urls: &[SiteUrl]) -> (r: Vec<String>)
    ensures
        views(r@) == hosts_of(url_views(urls@)),
{
    let mut r: Vec<String> = Vec::new();
    let mut i: usize = 0;
    while i < urls.len()
        invariant
            i <= urls@.len(),
            views(r@) == hosts_of(url_views(urls@.take(i as int))),
        decreases urls@.len() - i,
    {
        let ghost pre = url_views(urls@.take(i as int));
        assert(url_views(urls@.take(i + 1)) =~= pre.push(urls@[i as int]@));
        proof {
            pre.lemma_filter_push(urls@[i as int]@, |u: UrlView| u.host is Some);
        }
        if let Some(h) = urls[i].host_str() {
            let s = h.to_owned();
            proof {
                lemma_views_push(r@, s);
            }
            r.push(s);
        }
        i += 1;
    }
    assert(urls@.take(urls@.len() as int) == urls@);
    r
}

/// The host of the first URL whose serialization is `s`, which one URL has.
fn find_host(urls: &[SiteUrl], s: &str) -> (r: Option<String>)
    requires
        serializations(url_views(urls@)).contains(s@),
    ensures
        opt_view(r) == host_of_site(url_views(urls@), s@),
{
    let ghost uv = url_views(urls@);
    let mut i: usize = 0;
    while i < urls.len()
        invariant
            i <= urls@.len(),
            uv == url_views(urls@),
            serializations(uv).contains(s@),
            forall|j: int| 0 <= j < i ==> uv[j].serialization != s@,
        decreases urls@.len() - i,
    {
        if str_eq(urls[i].as_str(), s) {
            proof {
                assert(is_first_with(uv, s@, i as int));
                let k = choose|k: int| is_first_with(uv, s@, k);
                assert(k == i) by {
                    if k < i {
                    } else if k > i {
                        assert(uv[i as int].serialization == s@);
                    }
                }
            }
            return match urls[i].host_str() {
                Some(h) => Some(h.to_owned()),
                None => None,
            };
        }
        i += 1;
    }
    proof {
        let k = choose|k: int| 0 <= k < serializations(uv).len() && serializations(uv)[k] == s@;
        assert(uv[k].serialization == s@);
    }
    None
}

/// Appends `- {site}\n` for each site.
fn append_site_lines(text: &mut String, sites: &Vec<String>)
    ensures
        final(text)@ == old(text)@ + site_lines(views(sites@)),
{
    let mut i: usize = 0;
    while i < sites.len()
        invariant
            i <= sites@.len(),
            text@ == old(text)@ + site_lines(views(sites@).take(i as int)),
        decreases sites@.len() - i,
    {
        text.append("- ");
        text.append(sites[i].as_str());
        text.append("\n");
        assert(views(sites@).take(i + 1).drop_last() == views(sites@).take(i as int));
        assert(text@ =~= old(text)@ + site_lines(views(sites@).take(i + 1)));
        i += 1;
    }
    assert(views(sites@).take(sites@.len() as int) == views(sites@));
}

/// A commit message with the given hosts and sites.
fn make_commit_text(hosts: &Vec<String>, sites: &Vec<String>) -> (r: String)
    ensures
        r@ == commit_text(views(hosts@), views(sites@)),
{
    let mut text = if hosts.len() == 0 {
        String::from_str("just background magic 🧽🔮🧹\n\ncleanup or updating meta files")
    } else if hosts.len() == 1 {
        let mut t = String::from_str("🌐👀 ");
        t.append(hosts[0].as_str());
        t.append("\n\n");
        t
    } else {
        let mut t = String::from_str("🌐👀 stalked ");
        let n = decimal_string(sites.len());
        t.append(n.as_str());
        t.append(" website changes\n\n");
        t
    };
    assert(text@ == commit_head(views(hosts@), views(sites@).len()));
    append_site_lines(&mut text, sites);
    text
}

/// The changed sites of a run and their hosts, in order and each once.
pub struct FinalMessage {
    domains: Vec<String>,
    hosts: Vec<String>,
    sites: Vec<String>,
}

/// The view of a `FinalMessage`.
pub struct FinalMessageView {
    /// The former name of `hosts`, kept for old templates.
    pub domains: Seq<Seq<char>>,
    pub hosts: Seq<Seq<char>>,
    pub sites: Seq<Seq<char>>,
}

impl View for FinalMessage {
    type V = FinalMessageView;

    closed spec fn view(&self) -> FinalMessageView {
        FinalMessageView {
            domains: views(self.domains@),
            hosts: views(self.hosts@),
            sites: views(self.sites@),
        }
    }
}

/// The data that a notification template sees.
pub struct MustacheData {
    pub commit: Option<String>,
    /// The former name of `singlehost`, kept for old templates.
    pub singledomain: Option<String>,
    pub singlehost: Option<String>,
    pub siteamount: usize,
    pub msg: FinalMessage,
}

impl FinalMessage {
    /// The hosts and sites of the changed URLs, each in order and once.
    pub fn new(changed_urls: &[SiteUrl]) -> (m: FinalMessage)
        ensures
            m@.hosts == sorted_unique(hosts_of(url_views(changed_urls@))),
            m@.domains == m@.hosts,
            m@.sites == sorted_unique(serializations(url_views(changed_urls@))),
    {
        let hosts = sort_dedup(host_list(changed_urls));
        let sites = sort_dedup(serialization_list(changed_urls));
        let domains = hosts.clone();
        assert(views(domains@) =~= views(hosts@));
        FinalMessage { domains, hosts, sites }
    }

    /// A message from the given lists, which are taken as they are.
    pub fn from_parts(hosts: Vec<String>, sites: Vec<String>) -> (m: FinalMessage)
        ensures
            m@.hosts == views(hosts@),
            m@.domains == views(hosts@),
            m@.sites == views(sites@),
    {
        let domains = hosts.clone();
        assert(views(domains@) =~= views(hosts@));
        FinalMessage { domains, hosts, sites }
    }

    /// The commit message: the single host or the number of sites, then one line per site.
    pub fn to_commit(&self) -> (r: String)
        ensures
            r@ == commit_text(self@.hosts, self@.sites),
    {
        make_commit_text(&self.hosts, &self.sites)
    }

    /// The template data, with the commit that recorded the change if there is one.
    pub fn into_mustache_data(self, commit: Option<String>) -> (d: MustacheData)
        ensures
            d.commit == commit,
            d.msg@ == self@,
            opt_view(d.singlehost) == (if self@.hosts.len() == 1 {
                Some(self@.hosts[0])
            } else {
                None
            }),
            opt_view(d.singledomain) == opt_view(d.singlehost),
            d.siteamount == self@.sites.len(),
    {
        let singlehost = if self.hosts.len() == 1 {
            Some(self.hosts[0].clone())
        } else {
            None
        };
        let singledomain = match &singlehost {
            Some(h) => Some(h.clone()),
            None => None,
        };
        let siteamount = self.sites.len();
        MustacheData { commit, singledomain, singlehost, siteamount, msg: self }
    }
}


/// `Vec::dedup` on strings.
pub fn dedup_strings(v: Vec<String>) -> (r: Vec<String>)
    ensures
        views(r@) == dedup_consecutive(views(v@)),
{
    let mut r: Vec<String> = Vec::new();
    let mut i: usize = 0;
    while i < v.len()
        invariant
            i <= v@.len(),
            views(r@) == dedup_consecutive(views(v@.take(i as int))),
            i > 0 ==> r@.len() > 0 && r@.last()@ == v@[i - 1]@,
            i == 0 ==> r@.len() == 0,
        decreases v@.len() - i,
    {
        let ghost pre = views(v@.take(i as int));
        assert(views(v@.take(i + 1)) =~= pre.push(v@[i as int]@));
        assert(pre.push(v@[i as int]@).drop_last() == pre);
        if i > 0 && str_eq(v[i - 1].as_str(), v[i].as_str()) {
            assert(pre.push(v@[i as int]@)[i - 1] == v@[i - 1]@);
        } else {
            let s = v[i].clone();
            proof {
                lemma_views_push(r@, s);
                if i > 0 {
                    assert(pre.push(v@[i as int]@)[i - 1] == v@[i - 1]@);
                }
            }
            r.push(s);
        }
        i += 1;
    }
    assert(v@.take(v@.len() as int) == v@);
    r
}

/// The distinct sites of the URLs in order.
fn unique_site_list(urls: &[SiteUrl]) -> (r: Vec<String>)
    ensures
        views(r@) == unique_sites(url_views(urls@)),
        forall|x: Seq<char>| views(r@).contains(x) <==> serializations(url_views(urls@)).contains(
            x,
        ),
{
    sort_dedup(serialization_list(urls))
}

/// The hosts of the given sites in their order, each taken from the first URL of the site.
fn site_host_list(urls: &[SiteUrl], sites: &Vec<String>) -> (r: Vec<String>)
    requires
        forall|x: Seq<char>| views(sites@).contains(x) ==> serializations(url_views(urls@)).contains(
            x,
        ),
    ensures
        views(r@) == site_hosts(url_views(urls@), views(sites@)),
{
    let ghost uv = url_views(urls@);
    let mut r: Vec<String> = Vec::new();
    let mut i: usize = 0;
    while i < sites.len()
        invariant
            i <= sites@.len(),
            uv == url_views(urls@),
            forall|x: Seq<char>| views(sites@).contains(x) ==> serializations(uv).contains(x),
            views(r@) == site_hosts(uv, views(sites@).take(i as int)),
        decreases sites@.len() - i,
    {
        let ghost pre = views(sites@).take(i as int);
        assert(views(sites@).take(i + 1) =~= pre.push(sites@[i as int]@));
        assert(views(sites@)[i as int] == sites@[i as int]@);
        proof {
            pre.lemma_filter_push(sites@[i as int]@, |s: Seq<char>| host_of_site(uv, s) is Some);
        }
        match find_host(urls, sites[i].as_str()) {
            Some(h) => {
                proof {
                    lemma_views_push(r@, h);
                }
                r.push(h);
            },
            None => {},
        }
        i += 1;
    }
    assert(views(sites@).take(sites@.len() as int) == views(sites@));
    r
}

/// The commit message for the changed URLs: the host when all sites have the same one
/// (`🌐👀 {host}`), else their number, then a line `- {site}` per distinct site in order.
pub fn commit_message(changed_urls: &[SiteUrl]) -> (r: String)
    ensures
        r@ == commit_text(
            dedup_consecutive(
                site_hosts(url_views(changed_urls@), unique_sites(url_views(changed_urls@))),
            ),
            unique_sites(url_views(changed_urls@)),
        ),
{
    let sites = unique_site_list(changed_urls);
    let hosts = dedup_strings(site_host_list(changed_urls, &sites));
    make_commit_text(&hosts, &sites)
}

/// The distinct sites among `sites` whose host is `h`, in their order.
pub open spec fn group_of(urls: Seq<UrlView>, sites: Seq<Seq<char>>, h: Seq<char>) -> Seq<
    Seq<char>,
>
    decreases sites.len(),
{
    if sites.len() == 0 {
        Seq::empty()
    } else if host_of_site(urls, sites.last()) == Some(h) {
        group_of(urls, sites.drop_last(), h).push(sites.last())
    } else {
        group_of(urls, sites.drop_last(), h)
    }
}

/// A line for each host that has a single changed site.
pub open spec fn single_lines(urls: Seq<UrlView>, sites: Seq<Seq<char>>, hosts: Seq<Seq<char>>) -> Seq<char>
    decreases hosts.len(),
{
    if hosts.len() == 0 {
        Seq::empty()
    } else {
        let g = group_of(urls, sites, hosts.last());
        single_lines(urls, sites, hosts.drop_last()) + if g.len() == 1 {
            "- "@ + g[0] + "\n"@
        } else {
            Seq::empty()
        }
    }
}

/// A block of lines, after an empty line, for each host with several changed sites.
pub open spec fn multi_blocks(urls: Seq<UrlView>, sites: Seq<Seq<char>>, hosts: Seq<Seq<char>>) -> Seq<char>
    decreases hosts.len(),
{
    if hosts.len() == 0 {
        Seq::empty()
    } else {
        let g = group_of(urls, sites, hosts.last());
        multi_blocks(urls, sites, hosts.drop_last()) + if g.len() > 1 {
            "\n"@ + site_lines(g)
        } else {
            Seq::empty()
        }
    }
}

/// The change lines of a notification: first the sites that are alone on their host,
/// then, after an empty line each, the sites of each host with several, hosts in order.
pub open spec fn change_lines(urls: Seq<UrlView>) -> Seq<char> {
    let sites = unique_sites(urls);
    let hosts = sorted_unique(site_hosts(urls, sites));
    trim(single_lines(urls, sites, hosts) + multi_blocks(urls, sites, hosts))
}

/// The sites of `sites` (with hosts `site_host_opts`) whose host is `h`.
fn group_list(
    urls: &[SiteUrl],
    sites: &Vec<String>,
    site_host_opts: &Vec<Option<String>>,
    h: &str,
) -> (r: Vec<String>)
    requires
        site_host_opts@.len() == sites@.len(),
        forall|k: int|
            0 <= k < sites@.len() ==> opt_view(#[trigger] site_host_opts@[k]) == host_of_site(
                url_views(urls@),
                sites@[k]@,
            ),
    ensures
        views(r@) == group_of(url_views(urls@), views(sites@), h@),
{
    let mut r: Vec<String> = Vec::new();
    let mut i: usize = 0;
    while i < sites.len()
        invariant
            i <= sites@.len(),
            site_host_opts@.len() == sites@.len(),
            forall|k: int|
                0 <= k < sites@.len() ==> opt_view(#[trigger] site_host_opts@[k]) == host_of_site(
                    url_views(urls@),
                    sites@[k]@,
                ),
            views(r@) == group_of(url_views(urls@), views(sites@).take(i as int), h@),
        decreases sites@.len() - i,
    {
        let ghost pre = views(sites@).take(i as int);
        assert(views(sites@).take(i + 1).drop_last() == pre);
        assert(views(sites@).take(i + 1).last() == sites@[i as int]@);
        let matches = match &site_host_opts[i] {
            Some(x) => str_eq(x.as_str(), h),
            None => false,
        };
        assert(opt_view(site_host_opts@[i as int]) == host_of_site(url_views(urls@), sites@[i as int]@));
        if matches {
            let s = sites[i].clone();
            proof {
                lemma_views_push(r@, s);
            }
            r.push(s);
        }
        i += 1;
    }
    assert(views(sites@).take(sites@.len() as int) == views(sites@));
    r
}

/// The hosts of the given sites, `None` where a site has none.
fn site_host_options(urls: &[SiteUrl], sites: &Vec<String>) -> (r: Vec<Option<String>>)
    requires
        forall|x: Seq<char>| views(sites@).contains(x) ==> serializations(url_views(urls@)).contains(
            x,
        ),
    ensures
        r@.len() == sites@.len(),
        forall|k: int|
            0 <= k < sites@.len() ==> opt_view(#[trigger] r@[k]) == host_of_site(
                url_views(urls@),
                sites@[k]@,
            ),
{
    let mut r: Vec<Option<String>> = Vec::new();
    let mut i: usize = 0;
    while i < sites.len()
        invariant
            i <= sites@.len(),
            forall|x: Seq<char>| views(sites@).contains(x) ==> serializations(url_views(urls@)).contains(x),
            r@.len() == i,
            forall|k: int|
                0 <= k < i ==> opt_view(#[trigger] r@[k]) == host_of_site(
                    url_views(urls@),
                    sites@[k]@,
                ),
        decreases sites@.len() - i,
    {
        assert(views(sites@)[i as int] == sites@[i as int]@);
        assert(views(sites@).contains(sites@[i as int]@));
        let h = find_host(urls, sites[i].as_str());
        r.push(h);
        i += 1;
    }
    r
}

/// The lines of a notification for the changed URLs (at least one).
pub fn generate_change_lines(changed: &[SiteUrl]) -> (r: String)
    ensures
        r@ == change_lines(url_views(changed@)),
{
    let ghost uv = url_views(changed@);
    let sites = unique_site_list(changed);
    let host_opts = site_host_options(changed, &sites);
    let hosts = sort_dedup(site_host_list(changed, &sites));
    let ghost sv = views(sites@);
    let ghost hv = views(hosts@);
    let mut singles = String::new();
    let mut multis = String::new();
    let mut i: usize = 0;
    while i < hosts.len()
        invariant
            i <= hosts@.len(),
            sv == views(sites@),
            hv == views(hosts@),
            host_opts@.len() == sites@.len(),
            forall|k: int|
                0 <= k < sites@.len() ==> opt_view(#[trigger] host_opts@[k]) == host_of_site(
                    url_views(changed@),
                    sites@[k]@,
                ),
            singles@ == single_lines(uv, sv, hv.take(i as int)),
            multis@ == multi_blocks(uv, sv, hv.take(i as int)),
            uv == url_views(changed@),
        decreases hosts@.len() - i,
    {
        let group = group_list(changed, &sites, &host_opts, hosts[i].as_str());
        assert(hv.take(i + 1).drop_last() == hv.take(i as int));
        assert(hv.take(i + 1).last() == hosts@[i as int]@);
        if group.len() == 1 {
            singles.append("- ");
            singles.append(group[0].as_str());
            singles.append("\n");
        } else if group.len() > 1 {
            multis.append("\n");
            append_site_lines(&mut multis, &group);
        }
        assert(singles@ =~= single_lines(uv, sv, hv.take(i + 1)));
        assert(multis@ =~= multi_blocks(uv, sv, hv.take(i + 1)));
        i += 1;
    }
    assert(hv.take(hosts@.len() as int) == hv);
    singles.append(multis.as_str());
    trim_str(singles.as_str())
}

/// URLs with the same serialization have the same host, as the `url` crate makes them.
pub open spec fn hosts_consistent(urls: Seq<UrlView>) -> bool {
    forall|i: int, j: int|
        #![trigger urls[i], urls[j]]
        0 <= i < urls.len() && 0 <= j < urls.len() && urls[i].serialization == urls[j].serialization
            ==> urls[i].host == urls[j].host
}

/// URLs as the `url` crate makes them: each has its documented properties.
pub open spec fn urls_valid(urls: Seq<UrlView>) -> bool {
    forall|i: int| 0 <= i < urls.len() ==> crate::weburl::url_facts(#[trigger] urls[i])
}

/// URLs as the `url` crate makes them have equal hosts where their serializations agree.
proof fn lemma_valid_hosts_consistent(urls: Seq<UrlView>)
    requires
        urls_valid(urls),
    ensures
        hosts_consistent(urls),
{
    assert forall|i: int, j: int|
        #![trigger urls[i], urls[j]]
        0 <= i < urls.len() && 0 <= j < urls.len() && urls[i].serialization == urls[j].serialization
            implies urls[i].host == urls[j].host by {
        assert(crate::weburl::url_facts(urls[i]));
        assert(crate::weburl::url_facts(urls[j]));
    }
}

/// Where a URL has serialization `s`, there is a first one.
proof fn lemma_first_exists(urls: Seq<UrlView>, s: Seq<char>, k: int)
    requires
        0 <= k < urls.len(),
        urls[k].serialization == s,
    ensures
        exists|i: int| is_first_with(urls, s, i),
    decreases k,
{
    if exists|j: int| 0 <= j < k && urls[j].serialization == s {
        let j = choose|j: int| 0 <= j < k && urls[j].serialization == s;
        lemma_first_exists(urls, s, j);
    } else {
        assert(is_first_with(urls, s, k));
    }
}

/// The host of a site is the host of any URL of it.
proof fn lemma_host_of_site_at(urls: Seq<UrlView>, s: Seq<char>, k: int)
    requires
        0 <= k < urls.len(),
        urls[k].serialization == s,
        hosts_consistent(urls),
    ensures
        host_of_site(urls, s) == urls[k].host,
{
    lemma_first_exists(urls, s, k);
    let c = choose|i: int| is_first_with(urls, s, i);
    assert(urls[c].serialization == urls[k].serialization);
}

/// Where two lists of URLs give each site the same host, they give the same hosts and
/// the same groups.
proof fn lemma_sites_agree(a: Seq<UrlView>, b: Seq<UrlView>, sites: Seq<Seq<char>>)
    requires
        forall|k: int| 0 <= k < sites.len() ==> host_of_site(a, #[trigger] sites[k]) == host_of_site(b, sites[k]),
    ensures
        site_hosts(a, sites) == site_hosts(b, sites),
        forall|h: Seq<char>| #[trigger] group_of(a, sites, h) == group_of(b, sites, h),
    decreases sites.len(),
{
    if sites.len() > 0 {
        let init = sites.drop_last();
        let last = sites.last();
        assert forall|k: int| 0 <= k < init.len() implies host_of_site(a, #[trigger] init[k]) == host_of_site(b, init[k]) by {
            assert(init[k] == sites[k]);
        }
        lemma_sites_agree(a, b, init);
        assert(host_of_site(a, sites[sites.len() - 1]) == host_of_site(b, sites[sites.len() - 1]));
        let pa = |s: Seq<char>| host_of_site(a, s) is Some;
        let pb = |s: Seq<char>| host_of_site(b, s) is Some;
        let fa = |s: Seq<char>| host_of_site(a, s).unwrap();
        let fb = |s: Seq<char>| host_of_site(b, s).unwrap();
        init.lemma_filter_push(last, pa);
        init.lemma_filter_push(last, pb);
        assert(init.push(last) =~= sites);
        if pa(last) {
            assert(init.filter(pa).push(last).map_values(fa) =~= init.filter(pa).map_values(fa).push(fa(last)));
            assert(init.filter(pb).push(last).map_values(fb) =~= init.filter(pb).map_values(fb).push(fb(last)));
        }
        assert forall|h: Seq<char>| #[trigger] group_of(a, sites, h) == group_of(b, sites, h) by {
            assert(group_of(a, init, h) == group_of(b, init, h));
        }
    }
}

proof fn lemma_single_lines_agree(a: Seq<UrlView>, b: Seq<UrlView>, sites: Seq<Seq<char>>, hosts: Seq<Seq<char>>)
    requires
        forall|h: Seq<char>| #[trigger] group_of(a, sites, h) == group_of(b, sites, h),
    ensures
        single_lines(a, sites, hosts) == single_lines(b, sites, hosts),
        multi_blocks(a, sites, hosts) == multi_blocks(b, sites, hosts),
    decreases hosts.len(),
{
    if hosts.len() > 0 {
        lemma_single_lines_agree(a, b, sites, hosts.drop_last());
        assert(group_of(a, sites, hosts.last()) == group_of(b, sites, hosts.last()));
    }
}

/// A host is among the hosts of the URLs where one of them has it.
proof fn lemma_hosts_of_contains(urls: Seq<UrlView>, h: Seq<char>)
    ensures
        hosts_of(urls).contains(h) <==> exists|i: int| 0 <= i < urls.len() && #[trigger] urls[i].host == Some(h),
    decreases urls.len(),
{
    if urls.len() == 0 {
        let p = |u: UrlView| u.host is Some;
        assert(urls.filter(p) =~= Seq::<UrlView>::empty()) by {
            reveal(Seq::filter);
        }
    } else {
        let init = urls.drop_last();
        let last = urls.last();
        let p = |u: UrlView| u.host is Some;
        let f = |u: UrlView| u.host.unwrap();
        lemma_hosts_of_contains(init, h);
        init.lemma_filter_push(last, p);
        assert(init.push(last) =~= urls);
        let hi = hosts_of(init);
        if p(last) {
            assert(init.filter(p).push(last).map_values(f) =~= init.filter(p).map_values(f).push(f(last)));
            assert(hosts_of(urls) == hi.push(f(last)));
            assert(hosts_of(urls).contains(h) <==> (hi.contains(h) || f(last) == h)) by {
                if hosts_of(urls).contains(h) {
                    let k = choose|k: int| 0 <= k < hosts_of(urls).len() && hosts_of(urls)[k] == h;
                    if k < hi.len() {
                        assert(hi[k] == h);
                    }
                }
                if hi.contains(h) {
                    let k = choose|k: int| 0 <= k < hi.len() && hi[k] == h;
                    assert(hosts_of(urls)[k] == h);
                }
                if f(last) == h {
                    assert(hosts_of(urls)[hi.len() as int] == h);
                }
            }
        } else {
            assert(hosts_of(urls) == hi);
        }
        if exists|i: int| 0 <= i < urls.len() && #[trigger] urls[i].host == Some(h) {
            let i = choose|i: int| 0 <= i < urls.len() && #[trigger] urls[i].host == Some(h);
            if i < init.len() {
                assert(init[i].host == Some(h));
            } else {
                assert(last.host == Some(h));
            }
        }
        if hosts_of(urls).contains(h) {
            if hi.contains(h) {
                let i = choose|i: int| 0 <= i < init.len() && #[trigger] init[i].host == Some(h);
                assert(urls[i].host == Some(h));
            } else {
                assert(urls[urls.len() - 1].host == Some(h));
            }
        }
    }
}

/// A site is among the serializations of the URLs where one of them has it.
proof fn lemma_serializations_contains(urls: Seq<UrlView>, s: Seq<char>)
    ensures
        serializations(urls).contains(s) <==> exists|i: int| 0 <= i < urls.len() && #[trigger] urls[i].serialization == s,
{
    if serializations(urls).contains(s) {
        let k = choose|k: int| 0 <= k < serializations(urls).len() && serializations(urls)[k] == s;
        assert(urls[k].serialization == s);
    }
    if exists|i: int| 0 <= i < urls.len() && #[trigger] urls[i].serialization == s {
        let i = choose|i: int| 0 <= i < urls.len() && #[trigger] urls[i].serialization == s;
        assert(serializations(urls)[i] == s);
    }
}

/// The commit message, the hosts and sites of the final message, and the change lines
/// of a notification depend only on which sites changed: not on the order in which the
/// changes come, nor on repeats.
pub proof fn law_texts_ignore_order_and_repeats(a: Seq<UrlView>, b: Seq<UrlView>)
    requires
        urls_valid(a),
        urls_valid(b),
        forall|s: Seq<char>| serializations(a).contains(s) <==> serializations(b).contains(s),
    ensures
        unique_sites(a) == unique_sites(b),
        sorted_unique(hosts_of(a)) == sorted_unique(hosts_of(b)),
        commit_text(dedup_consecutive(site_hosts(a, unique_sites(a))), unique_sites(a)) == commit_text(
            dedup_consecutive(site_hosts(b, unique_sites(b))),
            unique_sites(b),
        ),
        change_lines(a) == change_lines(b),
{
    let ab = a + b;
    assert(urls_valid(ab)) by {
        assert forall|i: int| 0 <= i < ab.len() implies crate::weburl::url_facts(#[trigger] ab[i]) by {
            if i < a.len() {
                assert(ab[i] == a[i]);
            } else {
                assert(ab[i] == b[i - a.len()]);
            }
        }
    }
    lemma_valid_hosts_consistent(ab);
    crate::order::law_sorted_unique_same_elements(serializations(a), serializations(b));
    let sites = unique_sites(a);
    crate::order::lemma_sorted_unique(serializations(a));
    assert forall|k: int| 0 <= k < sites.len() implies host_of_site(a, #[trigger] sites[k]) == host_of_site(b, sites[k]) by {
        let s = sites[k];
        assert(sites.contains(s));
        lemma_serializations_contains(a, s);
        lemma_serializations_contains(b, s);
        let i = choose|i: int| 0 <= i < a.len() && #[trigger] a[i].serialization == s;
        let j = choose|j: int| 0 <= j < b.len() && #[trigger] b[j].serialization == s;
        assert forall|x: int, y: int|
            #![trigger a[x], a[y]]
            0 <= x < a.len() && 0 <= y < a.len() && a[x].serialization == a[y].serialization implies a[x].host == a[y].host by {
            assert(ab[x] == a[x] && ab[y] == a[y]);
        }
        assert forall|x: int, y: int|
            #![trigger b[x], b[y]]
            0 <= x < b.len() && 0 <= y < b.len() && b[x].serialization == b[y].serialization implies b[x].host == b[y].host by {
            assert(ab[a.len() + x] == b[x] && ab[a.len() + y] == b[y]);
        }
        lemma_host_of_site_at(a, s, i);
        lemma_host_of_site_at(b, s, j);
        assert(ab[i] == a[i] && ab[a.len() + j] == b[j]);
    }
    lemma_sites_agree(a, b, sites);
    let hosts = sorted_unique(site_hosts(a, sites));
    lemma_single_lines_agree(a, b, sites, hosts);
    assert forall|h: Seq<char>| hosts_of(a).contains(h) <==> hosts_of(b).contains(h) by {
        lemma_hosts_of_contains(a, h);
        lemma_hosts_of_contains(b, h);
        if hosts_of(a).contains(h) {
            let i = choose|i: int| 0 <= i < a.len() && #[trigger] a[i].host == Some(h);
            lemma_serializations_contains(a, a[i].serialization);
            lemma_serializations_contains(b, a[i].serialization);
            let j = choose|j: int| 0 <= j < b.len() && #[trigger] b[j].serialization == a[i].serialization;
            assert(ab[i] == a[i] && ab[a.len() + j] == b[j]);
            assert(b[j].host == Some(h));
        }
        if hosts_of(b).contains(h) {
            let j = choose|j: int| 0 <= j < b.len() && #[trigger] b[j].host == Some(h);
            lemma_serializations_contains(b, b[j].serialization);
            lemma_serializations_contains(a, b[j].serialization);
            let i = choose|i: int| 0 <= i < a.len() && #[trigger] a[i].serialization == b[j].serialization;
            assert(ab[i] == a[i] && ab[a.len() + j] == b[j]);
            assert(a[i].host == Some(h));
        }
    }
    crate::order::law_sorted_unique_same_elements(hosts_of(a), hosts_of(b));
}

/// Every element of `s` is `x`.
pub open spec fn all_are(s: Seq<Seq<char>>, x: Seq<char>) -> bool {
    forall|i: int| 0 <= i < s.len() ==> #[trigger] s[i] == x
}

proof fn lemma_dedup_shape(l: Seq<Seq<char>>)
    ensures
        dedup_consecutive(l).len() == 0 <==> l.len() == 0,
        l.len() > 0 ==> dedup_consecutive(l)[0] == l[0],
        l.len() > 0 ==> dedup_consecutive(l).last() == l.last(),
        l.len() > 0 ==> (dedup_consecutive(l).len() == 1 <==> all_are(l, l[0])),
    decreases l.len(),
{
    if l.len() >= 2 {
        let init = l.drop_last();
        lemma_dedup_shape(init);
        assert(init[0] == l[0]);
        if l.last() == l[l.len() - 2] {
            assert(init.last() == l[l.len() - 2]);
            if all_are(init, l[0]) {
                assert(l[l.len() - 2] == init[l.len() - 2]);
                assert forall|i: int| 0 <= i < l.len() implies #[trigger] l[i] == l[0] by {
                    if i < l.len() - 1 {
                        assert(l[i] == init[i]);
                    }
                }
            }
            if all_are(l, l[0]) {
                assert forall|i: int| 0 <= i < init.len() implies #[trigger] init[i] == l[0] by {
                    assert(init[i] == l[i]);
                }
            }
        } else {
            assert(!all_are(l, l[0])) by {
                if all_are(l, l[0]) {
                    assert(l[l.len() - 2] == l[0]);
                    assert(l[l.len() - 1] == l[0]);
                }
            }
        }
    } else if l.len() == 1 {
        assert(all_are(l, l[0]));
    }
}

proof fn lemma_sorted_unique_shape(h: Seq<Seq<char>>)
    ensures
        sorted_unique(h).len() == 0 <==> h.len() == 0,
        h.len() > 0 ==> (sorted_unique(h).len() == 1 <==> all_are(h, h[0])),
        sorted_unique(h).len() == 1 ==> sorted_unique(h)[0] == h[0],
{
    let u = sorted_unique(h);
    crate::order::lemma_sorted_unique(h);
    if h.len() > 0 {
        assert(h.contains(h[0]));
        assert(u.contains(h[0]));
    }
    if u.len() > 0 {
        assert(u.contains(u[0]));
        assert(h.contains(u[0]));
    }
    if u.len() == 1 {
        let x = u[0];
        assert forall|i: int| 0 <= i < h.len() implies #[trigger] h[i] == x by {
            assert(h.contains(h[i]));
            assert(u.contains(h[i]));
        }
    }
    if h.len() > 0 && all_are(h, h[0]) {
        if u.len() >= 2 {
            assert(u.contains(u[0]) && u.contains(u[1]));
            assert(h.contains(u[0]) && h.contains(u[1]));
            assert(u[0] == h[0] && u[1] == h[0]);
            assert(crate::order::lex_lt(u[0], u[1]));
            crate::order::lemma_lex_irreflexive(u[0]);
        }
    }
}

/// Membership in `s.filter(p).map_values(f)`.
proof fn lemma_filter_map_contains(
    s: Seq<Seq<char>>,
    p: spec_fn(Seq<char>) -> bool,
    f: spec_fn(Seq<char>) -> Seq<char>,
    x: Seq<char>,
)
    ensures
        s.filter(p).map_values(f).contains(x) <==> exists|k: int| 0 <= k < s.len() && p(#[trigger] s[k]) && f(s[k]) == x,
    decreases s.len(),
{
    if s.len() == 0 {
        assert(s.filter(p) =~= Seq::<Seq<char>>::empty()) by {
            reveal(Seq::filter);
        }
    } else {
        let init = s.drop_last();
        let last = s.last();
        lemma_filter_map_contains(init, p, f, x);
        init.lemma_filter_push(last, p);
        assert(init.push(last) =~= s);
        let m = init.filter(p).map_values(f);
        if p(last) {
            assert(init.filter(p).push(last).map_values(f) =~= m.push(f(last)));
        }
        if s.filter(p).map_values(f).contains(x) {
            let j = choose|j: int| 0 <= j < s.filter(p).map_values(f).len() && s.filter(p).map_values(f)[j] == x;
            if j < m.len() {
                assert(m[j] == x);
                let k = choose|k: int| 0 <= k < init.len() && p(#[trigger] init[k]) && f(init[k]) == x;
                assert(s[k] == init[k]);
            } else {
                assert(p(s[s.len() - 1]) && f(s[s.len() - 1]) == x);
            }
        }
        if exists|k: int| 0 <= k < s.len() && p(#[trigger] s[k]) && f(s[k]) == x {
            let k = choose|k: int| 0 <= k < s.len() && p(#[trigger] s[k]) && f(s[k]) == x;
            if k < init.len() {
                assert(init[k] == s[k]);
                assert(m.contains(x));
                let j = choose|j: int| 0 <= j < m.len() && m[j] == x;
                assert(s.filter(p).map_values(f)[j] == x);
            } else {
                assert(s.filter(p).map_values(f)[m.len() as int] == x);
            }
        }
    }
}

/// The hosts of the distinct sites are the hosts of the URLs.
proof fn lemma_site_hosts_are_hosts(urls: Seq<UrlView>, h: Seq<char>)
    requires
        hosts_consistent(urls),
    ensures
        site_hosts(urls, unique_sites(urls)).contains(h) <==> hosts_of(urls).contains(h),
{
    let sites = unique_sites(urls);
    let p = |s: Seq<char>| host_of_site(urls, s) is Some;
    let f = |s: Seq<char>| host_of_site(urls, s).unwrap();
    crate::order::lemma_sorted_unique(serializations(urls));
    lemma_filter_map_contains(sites, p, f, h);
    lemma_hosts_of_contains(urls, h);
    if site_hosts(urls, sites).contains(h) {
        let k = choose|k: int| 0 <= k < sites.len() && p(#[trigger] sites[k]) && f(sites[k]) == h;
        assert(sites.contains(sites[k]));
        lemma_serializations_contains(urls, sites[k]);
        let i = choose|i: int| 0 <= i < urls.len() && #[trigger] urls[i].serialization == sites[k];
        lemma_host_of_site_at(urls, sites[k], i);
        assert(urls[i].host == Some(h));
    }
    if hosts_of(urls).contains(h) {
        let i = choose|i: int| 0 <= i < urls.len() && #[trigger] urls[i].host == Some(h);
        let s = urls[i].serialization;
        lemma_serializations_contains(urls, s);
        assert(sites.contains(s));
        let k = choose|k: int| 0 <= k < sites.len() && sites[k] == s;
        lemma_host_of_site_at(urls, s, i);
        assert(p(sites[k]) && f(sites[k]) == h);
    }
}

/// The commit message of the changed URLs is the commit text of their final message.
pub proof fn law_commit_message_is_final_message(urls: Seq<UrlView>)
    requires
        urls_valid(urls),
    ensures
        commit_text(dedup_consecutive(site_hosts(urls, unique_sites(urls))), unique_sites(urls))
            == commit_text(sorted_unique(hosts_of(urls)), sorted_unique(serializations(urls))),
{
    lemma_valid_hosts_consistent(urls);
    let sh = site_hosts(urls, unique_sites(urls));
    let ho = hosts_of(urls);
    let d = dedup_consecutive(sh);
    let u = sorted_unique(ho);
    lemma_dedup_shape(sh);
    lemma_sorted_unique_shape(ho);
    assert forall|x: Seq<char>| sh.contains(x) <==> ho.contains(x) by {
        lemma_site_hosts_are_hosts(urls, x);
    }
    if sh.len() > 0 {
        assert(sh.contains(sh[0]));
        assert(ho.contains(sh[0]));
    }
    if ho.len() > 0 {
        assert(ho.contains(ho[0]));
        assert(sh.contains(ho[0]));
    }
    if sh.len() > 0 && all_are(sh, sh[0]) {
        assert(ho.contains(ho[0]));
        assert(sh.contains(ho[0]));
        assert(ho[0] == sh[0]);
        assert forall|i: int| 0 <= i < ho.len() implies #[trigger] ho[i] == ho[0] by {
            assert(ho.contains(ho[i]));
            assert(sh.contains(ho[i]));
        }
    }
    if ho.len() > 0 && all_are(ho, ho[0]) {
        assert(sh.contains(sh[0]));
        assert(ho.contains(sh[0]));
        assert forall|i: int| 0 <= i < sh.len() implies #[trigger] sh[i] == sh[0] by {
            assert(sh.contains(sh[i]));
            assert(ho.contains(sh[i]));
        }
    }
    assert(commit_head(d, unique_sites(urls).len()) == commit_head(u, unique_sites(urls).len()));
}

/// The commit template of a run in GitHub Actions: the commit pages of the repository,
/// `{server}/{repository}/commit/`.
pub fn github_commit_prefix(server: &str, repository: &str) -> (r: String)
    ensures
        r@ == server@ + "/"@ + repository@ + "/commit/"@,
{
    let mut r = server.to_string();
    r.append("/");
    r.append(repository);
    r.append("/commit/");
    r
}

/// The commit part of a notification: the commit itself, or the template with the
/// commit in place of `{commit}` (or after the template when it has no `{commit}`).
pub open spec fn commit_part(commit: Option<Seq<char>>, template: Option<Seq<char>>) -> Option<
    Seq<char>,
> {
    match template {
        Some(t) => match commit {
            Some(c) => Some(
                if contains_seq(t, "{commit}"@) {
                    replace_all(t, "{commit}"@, c)
                } else {
                    t + c
                },
            ),
            None => None,
        },
        None => commit,
    }
}

/// The commit part of a notification.
pub fn generate_commit_part(commit: Option<String>, template: Option<String>) -> (r: Option<String>)
    ensures
        opt_view(r) == commit_part(opt_view(commit), opt_view(template)),
{
    match template {
        Some(t) => match commit {
            Some(c) => {
                let tc = to_chars(t.as_str());
                let pat = to_chars("{commit}");
                proof {
                    reveal_strlit("{commit}");
                }
                if contains_chars(tc.as_slice(), pat.as_slice()) {
                    let cc = to_chars(c.as_str());
                    let r = replace_chars(tc.as_slice(), pat.as_slice(), cc.as_slice());
                    Some(from_chars(r.as_slice()))
                } else {
                    let mut r = t;
                    r.append(c.as_str());
                    Some(r)
                }
            },
            None => None,
        },
        None => commit,
    }
}

/// The text of a notification: the change lines, then the commit part after an empty line.
pub open spec fn notification_text(
    commit: Option<Seq<char>>,
    template: Option<Seq<char>>,
    urls: Seq<UrlView>,
) -> Seq<char> {
    match commit_part(commit, template) {
        Some(c) => change_lines(urls) + "\n\n"@ + c,
        None => change_lines(urls),
    }
}

/// The text of a notification about the changed URLs, which are at least one.
pub fn generate_text(
    commit: Option<String>,
    commit_template: Option<String>,
    changed: Vec<SiteUrl>,
) -> (r: String)
    requires
        changed@.len() > 0,
    ensures
        r@ == notification_text(opt_view(commit), opt_view(commit_template), url_views(changed@)),
{
    let mut lines = generate_change_lines(changed.as_slice());
    match generate_commit_part(commit, commit_template) {
        Some(c) => {
            lines.append("\n\n");
            lines.append(c.as_str());
            lines
        },
        None => lines,
    }
}

/// What a run reports at its end.
pub struct Summary {
    pub change: bool,
    pub changed_amount: usize,
    pub any_failed: bool,
    pub failed_amount: usize,
    pub commit: Option<String>,
    pub changed_hosts: Vec<String>,
    pub changed_sites: Vec<String>,
    pub failed_sites: Vec<String>,
}

impl Summary {
    /// The summary of a run: changed and failed sites each in order and once, the hosts
    /// of the changed sites in their order without repeats of neighbours.
    pub fn new(commit: Option<String>, changed: Vec<SiteUrl>, failed: Vec<SiteUrl>) -> (s: Summary)
        ensures
            views(s.changed_sites@) == unique_sites(url_views(changed@)),
            views(s.failed_sites@) == unique_sites(url_views(failed@)),
            views(s.changed_hosts@) == dedup_consecutive(
                site_hosts(url_views(changed@), unique_sites(url_views(changed@))),
            ),
            s.change == (s.changed_sites@.len() > 0),
            s.changed_amount == s.changed_sites@.len(),
            s.any_failed == (s.failed_sites@.len() > 0),
            s.failed_amount == s.failed_sites@.len(),
            s.commit == commit,
    {
        let changed_sites = unique_site_list(changed.as_slice());
        let failed_sites = unique_site_list(failed.as_slice());
        let changed_hosts = dedup_strings(site_host_list(changed.as_slice(), &changed_sites));
        Summary {
            change: changed_sites.len() > 0,
            changed_amount: changed_sites.len(),
            any_failed: failed_sites.len() > 0,
            failed_amount: failed_sites.len(),
            commit,
            changed_hosts,
            changed_sites,
            failed_sites,
        }
    }
}


/// The plain value of template data.
pub struct MustacheDataView {
    pub commit: Option<Seq<char>>,
    pub singledomain: Option<Seq<char>>,
    pub singlehost: Option<Seq<char>>,
    pub siteamount: nat,
    pub msg: FinalMessageView,
}

impl View for MustacheData {
    type V = MustacheDataView;

    open spec fn view(&self) -> MustacheDataView {
        MustacheDataView {
            commit: opt_view(self.commit),
            singledomain: opt_view(self.singledomain),
            singlehost: opt_view(self.singlehost),
            siteamount: self.siteamount as nat,
            msg: self.msg@,
        }
    }
}

/// The template has no tag that reads a partial from disk, nor one that changes the tag
/// delimiters (after which a partial could be written otherwise): no `{{>` and no `{{=`.
pub open spec fn partial_free(t: Seq<char>) -> bool
    decreases t.len(),
{
    if t.len() < 3 {
        true
    } else {
        !(t[0] == '{' && t[1] == '{' && (t[2] == '>' || t[2] == '=')) && partial_free(t.drop_first())
    }
}

/// Whether the template is free of partials.
pub fn is_partial_free(template: &str) -> (r: bool)
    ensures
        r == partial_free(template@),
{
    let t = to_chars(template);
    let mut i: usize = 0;
    assert(t@.skip(0) == t@);
    while t.len() - i > 2
        invariant
            i <= t@.len(),
            t@ == template@,
            partial_free(t@) == partial_free(t@.skip(i as int)),
        decreases t@.len() - i,
    {
        let ghost rest = t@.skip(i as int);
        assert(rest[0] == t@[i as int] && rest[1] == t@[i + 1] && rest[2] == t@[i + 2]);
        assert(rest.drop_first() == t@.skip(i + 1));
        if t[i] == '{' && t[i + 1] == '{' && (t[i + 2] == '>' || t[i + 2] == '=') {
            return false;
        }
        i += 1;
    }
    true
}

/// What mustache renders of `template` (compiled by `mustache::compile_str`) with the
/// data, or the message of its error, for a template without partials.
pub uninterp spec fn mustache_rendered(template: Seq<char>, data: MustacheDataView) -> Result<Seq<char>, Seq<char>>;

/// `mustache::compile_str`, then `render_data_to_string` with the data built by
/// `MapBuilder::insert` of each field as serde serializes it (the amount as its
/// decimal string, `None` as null, lists as lists). `compile_str` reads each partial of
/// the template from a file of the working directory, so of a template with partials
/// nothing is stated: its result depends on what is on disk.
#[verifier::external_body]
fn render_mustache(template: &str, d: &MustacheData) -> (r: Result<String, String>)
    ensures
        partial_free(template@) ==> match (r, mustache_rendered(template@, d@)) {
            (Ok(s), Ok(t)) => s@ == t,
            (Err(s), Err(t)) => s@ == t,
            _ => false,
        },
{
    let t = mustache::compile_str(template).map_err(|e| e.to_string())?;
    let b = mustache::MapBuilder::new().insert_str("siteamount", d.siteamount.to_string());
    let b = b.insert("commit", &d.commit).and_then(|b| b.insert("singledomain", &d.singledomain)).and_then(|b| b.insert("singlehost", &d.singlehost)).map_err(|e| e.to_string())?;
    let b = b.insert("domains", &d.msg.domains).and_then(|b| b.insert("hosts", &d.msg.hosts)).and_then(|b| b.insert("sites", &d.msg.sites)).map_err(|e| e.to_string())?;
    t.render_data_to_string(&b.build()).map_err(|e| e.to_string())
}

/// The notification template used where none is configured.
pub const DEFAULT_TEMPLATE: &'static str = "
{{#singlehost}}
{{.}} changed
{{/singlehost}}
{{^singlehost}}
{{siteamount}} websites changed
{{/singlehost}}

{{#sites}}
- {{.}}
{{/sites}}

{{#commit}}
See {{.}}
{{/commit}}
";

/// A notification template that mustache refuses or cannot render.
#[derive(Debug)]
pub enum TemplateError {
    /// The message of mustache.
    Mustache(String),
    /// One of the examples renders to nothing.
    EmptyNotification,
}

impl TemplateError {
    /// The message that reports the error.
    pub fn message(&self) -> (r: String)
        ensures
            r@ == match self@ {
                TemplateErrorView::Mustache(m) => m,
                TemplateErrorView::EmptyNotification => "template produced empty notification text"@,
            },
    {
        match self {
            TemplateError::Mustache(m) => m.clone(),
            TemplateError::EmptyNotification => "template produced empty notification text".to_string(),
        }
    }
}

/// The plain value of a template error.
pub enum TemplateErrorView {
    Mustache(Seq<char>),
    EmptyNotification,
}

impl View for TemplateError {
    type V = TemplateErrorView;

    open spec fn view(&self) -> TemplateErrorView {
        match self {
            TemplateError::Mustache(m) => TemplateErrorView::Mustache(m@),
            TemplateError::EmptyNotification => TemplateErrorView::EmptyNotification,
        }
    }
}

/// The notification text of the data: the template rendered and trimmed.
pub open spec fn notification_of(template: Option<Seq<char>>, data: MustacheDataView) -> Result<Seq<char>, TemplateErrorView> {
    let t = match template {
        Some(t) => t,
        None => DEFAULT_TEMPLATE@,
    };
    match mustache_rendered(t, data) {
        Ok(r) => Ok(trim(r)),
        Err(m) => Err(TemplateErrorView::Mustache(m)),
    }
}

impl MustacheData {
    /// The notification text: the template (else the default one) rendered with this
    /// data, trimmed. Stated for templates without partials.
    pub fn apply_to_template(&self, template: Option<&str>) -> (r: Result<String, TemplateError>)
        ensures
            partial_free(
                match template {
                    Some(t) => t@,
                    None => DEFAULT_TEMPLATE@,
                },
            ) ==> match (r, notification_of(
                match template {
                    Some(t) => Some(t@),
                    None => None,
                },
                self@,
            )) {
                (Ok(s), Ok(v)) => s@ == v,
                (Err(e), Err(v)) => e@ == v,
                _ => false,
            },
    {
        let t = match template {
            Some(t) => t,
            None => DEFAULT_TEMPLATE,
        };
        match render_mustache(t, self) {
            Ok(s) => Ok(trim_str(s.as_str())),
            Err(m) => Err(TemplateError::Mustache(m)),
        }
    }
}

/// What a template check notes: whether the template still uses the former names.
#[derive(Debug)]
pub struct TemplateNotes {
    /// It shows `singledomain` (now `singlehost`).
    pub uses_singledomain: bool,
    /// It shows `domains` (now `hosts`).
    pub uses_domains: bool,
}

/// The text that stands for a former field in the checks.
pub const DEPRECATED_TEXT: &'static str = "do not use deprecated field";

/// Data with only the former field `singledomain` set.
pub open spec fn singledomain_probe() -> MustacheDataView {
    MustacheDataView {
        commit: None,
        singledomain: Some(DEPRECATED_TEXT@),
        singlehost: None,
        siteamount: 42,
        msg: FinalMessageView { domains: Seq::empty(), hosts: Seq::empty(), sites: Seq::empty() },
    }
}

/// Data with only the former field `domains` set.
pub open spec fn domains_probe() -> MustacheDataView {
    MustacheDataView {
        commit: None,
        singledomain: None,
        singlehost: None,
        siteamount: 42,
        msg: FinalMessageView { domains: seq![DEPRECATED_TEXT@], hosts: Seq::empty(), sites: Seq::empty() },
    }
}

/// Template data of a message with these hosts and sites.
pub open spec fn example_data(hosts: Seq<Seq<char>>, sites: Seq<Seq<char>>, commit: Option<Seq<char>>) -> MustacheDataView {
    MustacheDataView {
        commit,
        singledomain: if hosts.len() == 1 { Some(hosts[0]) } else { None },
        singlehost: if hosts.len() == 1 { Some(hosts[0]) } else { None },
        siteamount: sites.len(),
        msg: FinalMessageView { domains: hosts, hosts, sites },
    }
}

/// The example messages that a template must render to some text: one site; two sites
/// on different hosts; two sites on one host; each with and without a commit.
pub open spec fn template_examples() -> Seq<MustacheDataView> {
    let single_h = seq!["edjopato.de"@];
    let single_s = seq!["https://edjopato.de/post/"@];
    let diff_h = seq!["edjopato.de"@, "foo.bar"@];
    let diff_s = seq!["https://edjopato.de/post/"@, "https://foo.bar/"@];
    let same_s = seq!["https://edjopato.de/"@, "https://edjopato.de/post/"@];
    seq![
        example_data(single_h, single_s, Some("666"@)),
        example_data(single_h, single_s, None),
        example_data(diff_h, diff_s, Some("666"@)),
        example_data(diff_h, diff_s, None),
        example_data(single_h, same_s, Some("666"@)),
        example_data(single_h, same_s, None),
    ]
}

/// The first error of rendering the examples, if any; else whether one renders to
/// nothing.
pub open spec fn examples_check(template: Seq<char>, examples: Seq<MustacheDataView>) -> Result<bool, TemplateErrorView>
    decreases examples.len(),
{
    if examples.len() == 0 {
        Ok(false)
    } else {
        match notification_of(Some(template), examples[0]) {
            Err(e) => Err(e),
            Ok(text) => match examples_check(template, examples.drop_first()) {
                Err(e) => Err(e),
                Ok(any_empty) => Ok(any_empty || text.len() == 0),
            },
        }
    }
}

/// What the check notes of a template: whether it shows `singledomain` and whether it
/// shows `domains`, where it renders both probes.
pub open spec fn template_notes(template: Seq<char>) -> Option<(bool, bool)> {
    match (mustache_rendered(template, singledomain_probe()), mustache_rendered(template, domains_probe())) {
        (Ok(a), Ok(b)) => Some((contains_seq(a, DEPRECATED_TEXT@), contains_seq(b, DEPRECATED_TEXT@))),
        _ => None,
    }
}

/// A refused template, with what the check noted before the refusal (where it got that
/// far).
#[derive(Debug)]
pub struct TemplateFailure {
    pub notes: Option<TemplateNotes>,
    pub error: TemplateError,
}

/// The result of checking a template.
pub open spec fn template_check(template: Seq<char>) -> Result<(bool, bool), TemplateErrorView> {
    match mustache_rendered(template, singledomain_probe()) {
        Err(m) => Err(TemplateErrorView::Mustache(m)),
        Ok(a) => match mustache_rendered(template, domains_probe()) {
            Err(m) => Err(TemplateErrorView::Mustache(m)),
            Ok(b) => match examples_check(template, template_examples()) {
                Err(e) => Err(e),
                Ok(any_empty) => if any_empty {
                    Err(TemplateErrorView::EmptyNotification)
                } else {
                    Ok((contains_seq(a, DEPRECATED_TEXT@), contains_seq(b, DEPRECATED_TEXT@)))
                },
            },
        },
    }
}

fn strings(a: &str, b: &str, two: bool) -> (r: Vec<String>)
    ensures
        views(r@) == if two { seq![a@, b@] } else { seq![a@] },
{
    let mut v: Vec<String> = Vec::new();
    v.push(a.to_string());
    if two {
        v.push(b.to_string());
    }
    assert(views(v@) =~= if two { seq![a@, b@] } else { seq![a@] });
    v
}

fn example(hosts: Vec<String>, sites: Vec<String>, commit: bool) -> (r: MustacheData)
    ensures
        r@ == example_data(views(hosts@), views(sites@), if commit { Some("666"@) } else { None }),
{
    let m = FinalMessage::from_parts(hosts, sites);
    let c = if commit { Some("666".to_string()) } else { None };
    m.into_mustache_data(c)
}

fn examples() -> (r: Vec<MustacheData>)
    ensures
        r@.map_values(|d: MustacheData| d@) == template_examples(),
{
    let mut v: Vec<MustacheData> = Vec::new();
    let mut k: usize = 0;
    while k < 6
        invariant
            k <= 6,
            v@.map_values(|d: MustacheData| d@) == template_examples().take(k as int),
        decreases 6 - k,
    {
        let commit = k % 2 == 0;
        let hosts = strings("edjopato.de", "foo.bar", k / 2 == 1);
        let sites = if k / 2 == 0 {
            strings("https://edjopato.de/post/", "", false)
        } else if k / 2 == 1 {
            strings("https://edjopato.de/post/", "https://foo.bar/", true)
        } else {
            strings("https://edjopato.de/", "https://edjopato.de/post/", true)
        };
        let d = example(hosts, sites, commit);
        let ghost prev = v@;
        v.push(d);
        assert(v@ == prev.push(d));
        assert(v@.map_values(|d: MustacheData| d@) =~= prev.map_values(|d: MustacheData| d@).push(d@));
        assert(template_examples().take(k + 1) =~= template_examples().take(k as int).push(template_examples()[k as int]));
        k += 1;
    }
    assert(template_examples().take(6) =~= template_examples());
    v
}

/// Checks a notification template: mustache must render it, and it must render each
/// example message to some text. Notes whether it still uses `singledomain` or `domains`,
/// also where it is refused after the notes are taken. Stated for templates without
/// partials.
pub fn validate_template(template: &str) -> (r: Result<TemplateNotes, TemplateFailure>)
    ensures
        partial_free(template@) ==> match (r, template_check(template@)) {
            (Ok(n), Ok(v)) => n.uses_singledomain == v.0 && n.uses_domains == v.1,
            (Err(f), Err(v)) => f.error@ == v && match (f.notes, template_notes(template@)) {
                (Some(n), Some(v)) => n.uses_singledomain == v.0 && n.uses_domains == v.1,
                (None, None) => true,
                _ => false,
            },
            _ => false,
        },
{
    let pf = is_partial_free(template);
    let no_hosts: Vec<String> = Vec::new();
    let no_sites: Vec<String> = Vec::new();
    assert(views(no_hosts@) =~= Seq::<Seq<char>>::empty());
    assert(views(no_sites@) =~= Seq::<Seq<char>>::empty());
    let empty = FinalMessage::from_parts(no_hosts, no_sites);
    let probe1 = MustacheData {
        commit: None,
        singledomain: Some(DEPRECATED_TEXT.to_string()),
        singlehost: None,
        siteamount: 42,
        msg: empty,
    };
    assert(probe1@ == singledomain_probe());
    let a = match render_mustache(template, &probe1) {
        Ok(s) => s,
        Err(m) => {
            return Err(TemplateFailure { notes: None, error: TemplateError::Mustache(m) });
        },
    };
    let domains = strings(DEPRECATED_TEXT, "", false);
    let no_hosts2: Vec<String> = Vec::new();
    let no_sites2: Vec<String> = Vec::new();
    assert(views(no_hosts2@) =~= Seq::<Seq<char>>::empty());
    assert(views(no_sites2@) =~= Seq::<Seq<char>>::empty());
    let probe2 = MustacheData {
        commit: None,
        singledomain: None,
        singlehost: None,
        siteamount: 42,
        msg: FinalMessage { domains, hosts: no_hosts2, sites: no_sites2 },
    };
    assert(probe2@ == domains_probe());
    let b = match render_mustache(template, &probe2) {
        Ok(s) => s,
        Err(m) => {
            return Err(TemplateFailure { notes: None, error: TemplateError::Mustache(m) });
        },
    };
    let marker = to_chars(DEPRECATED_TEXT);
    let ac = to_chars(a.as_str());
    let bc = to_chars(b.as_str());
    let uses_singledomain = contains_chars(ac.as_slice(), marker.as_slice());
    let uses_domains = contains_chars(bc.as_slice(), marker.as_slice());
    let ex = examples();
    let ghost exv = ex@.map_values(|d: MustacheData| d@);
    let mut any_empty = false;
    let mut i: usize = 0;
    assert(exv.skip(0) == exv);
    while i < ex.len()
        invariant
            i <= ex@.len(),
            pf == partial_free(template@),
            pf ==> mustache_rendered(template@, singledomain_probe()) == Ok::<Seq<char>, Seq<char>>(a@),
            pf ==> mustache_rendered(template@, domains_probe()) == Ok::<Seq<char>, Seq<char>>(b@),
            uses_singledomain == contains_seq(a@, DEPRECATED_TEXT@),
            uses_domains == contains_seq(b@, DEPRECATED_TEXT@),
            exv == ex@.map_values(|d: MustacheData| d@),
            exv == template_examples(),
            pf ==> examples_check(template@, exv) == match examples_check(template@, exv.skip(i as int)) {
                Err(e) => Err(e),
                Ok(rest) => Ok::<bool, TemplateErrorView>(rest || any_empty),
            },
        decreases ex@.len() - i,
    {
        assert(exv.skip(i as int).drop_first() == exv.skip(i + 1));
        assert(exv.skip(i as int)[0] == ex@[i as int]@);
        match ex[i].apply_to_template(Some(template)) {
            Ok(text) => {
                if text.as_str().is_empty() {
                    any_empty = true;
                }
            },
            Err(e) => {
                return Err(TemplateFailure { notes: Some(TemplateNotes { uses_singledomain, uses_domains }), error: e });
            },
        }
        i += 1;
    }
    assert(exv.skip(ex@.len() as int) =~= Seq::<MustacheDataView>::empty());
    let notes = TemplateNotes { uses_singledomain, uses_domains };
    if any_empty {
        return Err(TemplateFailure { notes: Some(notes), error: TemplateError::EmptyNotification });
    }
    Ok(notes)
}

/// The `key=value` output of a run for GitHub Actions, where there is a value.
pub fn gha_output_option(key: &str, text: Option<&str>) -> (r: Option<(String, String)>)
    ensures
        match text {
            Some(t) => r matches Some(p) && p.0@ == key@ && p.1@ == t@,
            None => r is None,
        },
{
    match text {
        Some(t) => Some((key.to_string(), t.to_string())),
        None => None,
    }
}

} // verus!
