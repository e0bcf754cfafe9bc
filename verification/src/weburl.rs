//! Absolute URLs as the `url` crate parses them, held as plain strings.
use vstd::prelude::*;

verus! {

/// What the logic of this library reads of a parsed URL.
pub struct UrlView {
    /// The whole URL as `url::Url::as_str` gives it.
    pub serialization: Seq<char>,
    /// `url::Url::host_str`.
    pub host: Option<Seq<char>>,
    /// `url::Url::domain`.
    pub domain: Option<Seq<char>>,
    /// `url::Url::path`.
    pub path: Seq<char>,
    /// `url::Url::query`.
    pub query: Option<Seq<char>>,
}

/// Every character is ASCII.
pub open spec fn all_ascii(s: Seq<char>) -> bool {
    forall|i: int| 0 <= i < s.len() ==> (#[trigger] s[i] as u32) < 128
}

/// The host of the URL whose serialization is `serialization`. The `url` crate keeps a URL
/// as its serialization with the positions of its parts, and parsing that serialization
/// again gives the same URL (its `PartialEq` compares serializations alone): the host
/// depends on the serialization alone.
pub uninterp spec fn host_of_serialization(serialization: Seq<char>) -> Option<Seq<char>>;

/// What the `url` crate documents of every URL it hands out: host, path and query are
/// percent-encoded or punycode ASCII, a domain is the host, and the host follows from the
/// serialization.
pub open spec fn url_facts(v: UrlView) -> bool {
    &&& v.host == host_of_serialization(v.serialization)
    &&& v.host matches Some(h) ==> all_ascii(h)
    &&& all_ascii(v.path)
    &&& v.query matches Some(q) ==> all_ascii(q)
    &&& v.domain matches Some(d) ==> v.host == Some(d)
}

/// The URL that `url::Url::parse` makes of `input`, if it accepts it.
pub uninterp spec fn parsed_url(input: Seq<char>) -> Option<UrlView>;

/// The URL that `url::Url::join` makes of `input` relative to the URL `base`, if it
/// accepts it.
pub uninterp spec fn joined_url(base: Seq<char>, input: Seq<char>) -> Option<UrlView>;

/// The `url` crate's URL type, carried along so that joins start from it.
#[verifier::external_type_specification]
#[verifier::external_body]
pub struct ExUrlCrateUrl(url::Url);

/// An absolute URL.
pub struct SiteUrl {
    inner: url::Url,
    serialization: String,
    host: Option<String>,
    domain: Option<String>,
    path: String,
    query: Option<String>,
}

impl View for SiteUrl {
    type V = UrlView;

    closed spec fn view(&self) -> UrlView {
        UrlView {
            serialization: self.serialization@,
            host: match self.host {
                Some(h) => Some(h@),
                None => None,
            },
            domain: match self.domain {
                Some(d) => Some(d@),
                None => None,
            },
            path: self.path@,
            query: match self.query {
                Some(q) => Some(q@),
                None => None,
            },
        }
    }
}

/// Calls `url::Url::parse` and takes the parts that this library reads.
/// Trusted: that the result is the parse of `input` and that the parts have the
/// properties the `url` crate documents for them.
#[verifier::external_body]
fn parse_with_url_crate(input: &str) -> (r: Option<SiteUrl>)
    ensures
        match r {
            Some(u) => parsed_url(input@) == Some(u@) && url_facts(u@) && u@.host == host_of_serialization(
                u@.serialization,
            ),
            None => parsed_url(input@) is None,
        },
{
    match url::Url::parse(input) {
        Ok(u) => Some(SiteUrl {
            serialization: u.as_str().to_owned(),
            host: u.host_str().map(String::from),
            domain: u.domain().map(String::from),
            path: u.path().to_owned(),
            query: u.query().map(String::from),
            inner: u,
        }),
        Err(_) => None,
    }
}

/// Calls `url::Url::join` on the URL that `base` holds.
/// Trusted: that the result is the join of `input` onto `base` and that its parts have
/// the properties the `url` crate documents for them.
#[verifier::external_body]
fn join_with_url_crate(base: &SiteUrl, input: &str) -> (r: Option<SiteUrl>)
    ensures
        match r {
            Some(u) => joined_url(base@.serialization, input@) == Some(u@) && url_facts(u@)
                && u@.host == host_of_serialization(u@.serialization),
            None => joined_url(base@.serialization, input@) is None,
        },
{
    match base.inner.join(input) {
        Ok(u) => Some(SiteUrl {
            serialization: u.as_str().to_owned(),
            host: u.host_str().map(String::from),
            domain: u.domain().map(String::from),
            path: u.path().to_owned(),
            query: u.query().map(String::from),
            inner: u,
        }),
        Err(_) => None,
    }
}

/// Calls `url::Url::clone`. Trusted: nothing; the value is only carried along.
#[verifier::external_body]
fn clone_url_crate_url(u: &url::Url) -> url::Url {
    u.clone()
}

impl SiteUrl {
    /// Every `SiteUrl` has the documented properties of the `url` crate's URLs.
    #[verifier::type_invariant]
    pub closed spec fn facts_hold(&self) -> bool {
        url_facts(self@)
    }

    /// A copy of this URL.
    pub fn duplicate(&self) -> (r: SiteUrl)
        ensures
            r@ == self@,
    {
        proof {
            use_type_invariant(self);
        }
        SiteUrl {
            inner: clone_url_crate_url(&self.inner),
            serialization: self.serialization.clone(),
            host: self.host.clone(),
            domain: self.domain.clone(),
            path: self.path.clone(),
            query: self.query.clone(),
        }
    }

    /// Parses an absolute URL.
    pub fn parse(input: &str) -> (r: Option<SiteUrl>)
        ensures
            r is Some <==> parsed_url(input@) is Some,
            r matches Some(u) ==> parsed_url(input@) == Some(u@) && url_facts(u@),
    {
        parse_with_url_crate(input)
    }

    /// Resolves `input` relative to this URL, as links in a page at this URL are.
    pub fn join(&self, input: &str) -> (r: Option<SiteUrl>)
        ensures
            r is Some <==> joined_url(self@.serialization, input@) is Some,
            r matches Some(u) ==> joined_url(self@.serialization, input@) == Some(u@) && url_facts(
                u@,
            ),
    {
        join_with_url_crate(self, input)
    }

    /// The whole URL.
    pub fn as_str(&self) -> (r: &str)
        ensures
            r@ == self@.serialization,
    {
        self.serialization.as_str()
    }

    /// The host: a domain or an IP address.
    pub fn host_str(&self) -> (r: Option<&str>)
        ensures
            r matches Some(h) ==> self@.host == Some(h@),
            r is None <==> self@.host is None,
    {
        match &self.host {
            Some(h) => Some(h.as_str()),
            None => None,
        }
    }

    /// The host when it is a domain name.
    pub fn domain(&self) -> (r: Option<&str>)
        ensures
            r matches Some(d) ==> self@.domain == Some(d@),
            r is None <==> self@.domain is None,
    {
        match &self.domain {
            Some(d) => Some(d.as_str()),
            None => None,
        }
    }

    /// The path.
    pub fn path(&self) -> (r: &str)
        ensures
            r@ == self@.path,
    {
        self.path.as_str()
    }

    /// The query, without its `?`.
    pub fn query(&self) -> (r: Option<&str>)
        ensures
            r matches Some(q) ==> self@.query == Some(q@),
            r is None <==> self@.query is None,
    {
        match &self.query {
            Some(q) => Some(q.as_str()),
            None => None,
        }
    }
}

} // verus!
