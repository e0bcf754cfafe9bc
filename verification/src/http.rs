//! What the web requests need checked or reported.
use crate::text::contains_seq;
use std::str::FromStr as _;
use vstd::prelude::*;

verus! {

broadcast use vstd::string::group_string_axioms;

/// The IP version over which a response came.
#[derive(Clone, Copy, Debug, PartialEq, Eq)]
pub enum IpVersion {
    IPv4,
    IPv6,
    /// No remote address is known (printed as `None`).
    Unknown,
}

impl IpVersion {
    /// The name of the version as it is printed.
    pub fn to_string(&self) -> (r: String)
        ensures
            r@ == match self {
                IpVersion::IPv4 => "IPv4"@,
                IpVersion::IPv6 => "IPv6"@,
                IpVersion::Unknown => "None"@,
            },
    {
        match self {
            IpVersion::IPv4 => "IPv4".to_string(),
            IpVersion::IPv6 => "IPv6".to_string(),
            IpVersion::Unknown => "None".to_string(),
        }
    }
}

/// A character that an HTTP header value may hold (as a byte of its UTF-8 encoding, each
/// character from 128 on is only such bytes): not a control character but a tab.
pub open spec fn header_value_char(c: char) -> bool {
    (c as u32 >= 32 && c as u32 != 127) || c == '\t'
}

/// A character of a header value that reads as a string: visible ASCII or a tab.
pub open spec fn visible_ascii_char(c: char) -> bool {
    (c as u32 >= 32 && (c as u32) < 127) || c == '\t'
}

/// `http`'s `HeaderValue::from_str` accepts `s`: each byte is at least 32 and not 127, or
/// a tab.
#[verifier::external_body]
fn header_value_accepts(s: &str) -> (r: bool)
    ensures
        r == forall|i: int| 0 <= i < s@.len() ==> header_value_char(#[trigger] s@[i]),
{
    reqwest::header::HeaderValue::from_str(s).is_ok()
}

/// `http`'s `HeaderValue::to_str` succeeds on the value made of `s`: each byte is
/// visible ASCII or a tab.
#[verifier::external_body]
fn header_value_reads_as_str(s: &str) -> (r: bool)
    requires
        forall|i: int| 0 <= i < s@.len() ==> header_value_char(#[trigger] s@[i]),
    ensures
        r == forall|i: int| 0 <= i < s@.len() ==> visible_ascii_char(#[trigger] s@[i]),
{
    match reqwest::header::HeaderValue::from_str(s) {
        Ok(v) => v.to_str().is_ok(),
        Err(_) => false,
    }
}

/// Why a FROM address is refused.
#[derive(Debug, Clone, Copy, PartialEq, Eq)]
pub enum FromError {
    /// It cannot be an HTTP header value.
    InvalidHeaderValue,
    /// It holds other characters than visible ASCII.
    NotAscii,
    /// It lacks an `@` or a `.`.
    NotAnEmail,
}

/// The message that reports the refusal of the FROM address `from`.
pub open spec fn from_error_text(e: FromError, from: Seq<char>) -> Seq<char> {
    match e {
        FromError::InvalidHeaderValue => "failed to parse header value"@,
        FromError::NotAscii => "from contains non ASCII characters failed to convert header to a str"@,
        FromError::NotAnEmail => "doesnt look like an email address: "@ + from,
    }
}

impl FromError {
    /// The message that reports the refusal of the FROM address `from`.
    pub fn message(&self, from: &str) -> (r: String)
        ensures
            r@ == from_error_text(*self, from@),
    {
        match self {
            FromError::InvalidHeaderValue => "failed to parse header value".to_string(),
            FromError::NotAscii => "from contains non ASCII characters failed to convert header to a str".to_string(),
            FromError::NotAnEmail => {
                let mut m = "doesnt look like an email address: ".to_string();
                m.append(from);
                m
            },
        }
    }
}

/// The check of a FROM address: a valid header value, visible ASCII, with an `@` and a
/// `.`.
pub open spec fn from_check(from: Seq<char>) -> Result<(), FromError> {
    if !(forall|i: int| 0 <= i < from.len() ==> header_value_char(#[trigger] from[i])) {
        Err(FromError::InvalidHeaderValue)
    } else if !(forall|i: int| 0 <= i < from.len() ==> visible_ascii_char(#[trigger] from[i])) {
        Err(FromError::NotAscii)
    } else if !contains_seq(from, seq!['@']) || !contains_seq(from, seq!['.']) {
        Err(FromError::NotAnEmail)
    } else {
        Ok(())
    }
}

/// Checks the address sent as the FROM header.
pub fn validate_from(from: &str) -> (r: Result<(), FromError>)
    ensures
        r == from_check(from@),
{
    if !header_value_accepts(from) {
        return Err(FromError::InvalidHeaderValue);
    }
    if !header_value_reads_as_str(from) {
        return Err(FromError::NotAscii);
    }
    let v = crate::text::to_chars(from);
    let at: Vec<char> = vec!['@'];
    let dot: Vec<char> = vec!['.'];
    assert(at@ =~= seq!['@']);
    assert(dot@ =~= seq!['.']);
    if !crate::text::contains_chars(v.as_slice(), at.as_slice())
        || !crate::text::contains_chars(v.as_slice(), dot.as_slice()) {
        return Err(FromError::NotAnEmail);
    }
    Ok(())
}

/// Whether a response with this status is refused: a client error (4xx) or a server error
/// (5xx).
pub fn status_is_error(status: u16) -> (r: bool)
    ensures
        r == (400 <= status && status < 600),
{
    400 <= status && status < 600
}

/// The User-Agent of the requests.
pub const USER_AGENT: &'static str = "website-stalker/0.26.1 https://github.com/EdJoPaTo/website-stalker";

/// Whether `http`'s `HeaderName::from_str` accepts `name`.
pub uninterp spec fn header_name_parses(name: Seq<char>) -> bool;

/// `http`'s `HeaderName::from_str`, whether it succeeds.
#[verifier::external_body]
fn header_name_accepts(name: &str) -> (r: bool)
    ensures
        r == header_name_parses(name@),
{
    reqwest::header::HeaderName::from_str(name).is_ok()
}

/// The index of the first `: ` in `s` from `i` on, or the length of `s`.
pub open spec fn separator_from(s: Seq<char>, i: nat) -> nat
    decreases s.len() - i,
{
    if i + 1 >= s.len() {
        s.len()
    } else if s[i as int] == ':' && s[(i + 1) as int] == ' ' {
        i
    } else {
        separator_from(s, i + 1)
    }
}

/// Why a configured header is refused.
#[derive(Debug, PartialEq, Eq)]
pub enum HeaderError {
    /// It has no `: ` between name and value.
    NoSeparator,
    /// The name is no HTTP header name.
    InvalidName,
    /// The value is no HTTP header value.
    InvalidValue,
}

/// A configured header `Name: value` split at its first `: ` and checked.
pub open spec fn header_parts(entry: Seq<char>) -> Result<(Seq<char>, Seq<char>), HeaderError> {
    let k = separator_from(entry, 0);
    if k >= entry.len() {
        Err(HeaderError::NoSeparator)
    } else {
        let name = entry.take(k as int);
        let value = entry.skip((k + 2) as int);
        if !header_name_parses(name) {
            Err(HeaderError::InvalidName)
        } else if !(forall|i: int| 0 <= i < value.len() ==> header_value_char(#[trigger] value[i])) {
            Err(HeaderError::InvalidValue)
        } else {
            Ok((name, value))
        }
    }
}

/// Splits a configured header `Name: value` at its first `: ` and checks both parts.
pub fn parse_header(entry: &str) -> (r: Result<(String, String), HeaderError>)
    ensures
        match (r, header_parts(entry@)) {
            (Ok(p), Ok(v)) => p.0@ == v.0 && p.1@ == v.1,
            (Err(e), Err(v)) => e == v,
            _ => false,
        },
{
    let v = crate::text::to_chars(entry);
    let mut k: usize = 0;
    while k < v.len() && k + 1 < v.len() && !(v[k] == ':' && v[k + 1] == ' ')
        invariant
            k <= v@.len(),
            separator_from(v@, 0) == separator_from(v@, k as nat),
        decreases v@.len() - k,
    {
        k += 1;
    }
    if k >= v.len() || k + 1 >= v.len() {
        return Err(HeaderError::NoSeparator);
    }
    let name = crate::text::from_chars(crate::text::slice_chars(v.as_slice(), 0, k).as_slice());
    let value = crate::text::from_chars(crate::text::slice_chars(v.as_slice(), k + 2, v.len()).as_slice());
    assert(v@.subrange(0, k as int) == v@.take(k as int));
    assert(v@.subrange(k + 2, v@.len() as int) == v@.skip(k + 2));
    if !header_name_accepts(name.as_str()) {
        return Err(HeaderError::InvalidName);
    }
    if !header_value_accepts(value.as_str()) {
        return Err(HeaderError::InvalidValue);
    }
    Ok((name, value))
}

/// `c` in ASCII lower case.
pub open spec fn ascii_lower(c: char) -> char {
    if 'A' <= c && c <= 'Z' {
        ((c as u32) + 32) as char
    } else {
        c
    }
}

/// Whether a header name is `from`, in any case.
pub open spec fn is_from_name(name: Seq<char>) -> bool {
    name.len() == 4 && ascii_lower(name[0]) == 'f' && ascii_lower(name[1]) == 'r' && ascii_lower(name[2]) == 'o'
        && ascii_lower(name[3]) == 'm'
}

fn lower(c: char) -> (r: char)
    ensures
        r == ascii_lower(c),
{
    if 'A' <= c && c <= 'Z' {
        ((c as u8) + 32) as char
    } else {
        c
    }
}

/// The headers of a request: the site's, and `From` with the configured address where the
/// site sets none.
pub fn with_from_header(headers: &Vec<(String, String)>, from: &str) -> (r: Vec<(String, String)>)
    ensures
        (exists|i: int| 0 <= i < headers@.len() && is_from_name(#[trigger] headers@[i].0@)) ==> r@.map_values(
            |h: (String, String)| (h.0@, h.1@),
        ) == headers@.map_values(|h: (String, String)| (h.0@, h.1@)),
        !(exists|i: int| 0 <= i < headers@.len() && is_from_name(#[trigger] headers@[i].0@)) ==> r@.map_values(
            |h: (String, String)| (h.0@, h.1@),
        ) == headers@.map_values(|h: (String, String)| (h.0@, h.1@)).push(("from"@, from@)),
{
    let mut r: Vec<(String, String)> = Vec::new();
    let mut found = false;
    let mut i: usize = 0;
    while i < headers.len()
        invariant
            i <= headers@.len(),
            found == exists|j: int| 0 <= j < i && is_from_name(#[trigger] headers@[j].0@),
            r@.map_values(|h: (String, String)| (h.0@, h.1@)) == headers@.take(i as int).map_values(
                |h: (String, String)| (h.0@, h.1@),
            ),
        decreases headers@.len() - i,
    {
        let n = crate::text::to_chars(headers[i].0.as_str());
        let is_from = n.len() == 4 && lower(n[0]) == 'f' && lower(n[1]) == 'r' && lower(n[2]) == 'o'
            && lower(n[3]) == 'm';
        assert(is_from == is_from_name(headers@[i as int].0@));
        found = found || is_from;
        let h = (headers[i].0.clone(), headers[i].1.clone());
        let ghost prev = r@;
        r.push(h);
        assert(r@ == prev.push(h));
        assert(r@.map_values(|h: (String, String)| (h.0@, h.1@)) =~= prev.map_values(
            |h: (String, String)| (h.0@, h.1@),
        ).push((h.0@, h.1@)));
        assert(headers@.take(i + 1) == headers@.take(i as int).push(headers@[i as int]));
        assert(r@.map_values(|h: (String, String)| (h.0@, h.1@)) =~= headers@.take(i + 1).map_values(
            |h: (String, String)| (h.0@, h.1@),
        ));
        i += 1;
    }
    assert(headers@.take(headers@.len() as int) == headers@);
    if !found {
        let h = ("from".to_string(), from.to_string());
        let ghost prev = r@;
        r.push(h);
        assert(r@ == prev.push(h));
        assert(r@.map_values(|h: (String, String)| (h.0@, h.1@)) =~= prev.map_values(
            |h: (String, String)| (h.0@, h.1@),
        ).push((h.0@, h.1@)));
    }
    r
}

/// The extension that `mime2ext` gives for a MIME type, if any.
pub uninterp spec fn mime_extension(mime: Seq<char>) -> Option<Seq<char>>;

/// `mime2ext::mime2ext`.
#[verifier::external_body]
fn mime2ext_of(mime: &str) -> (r: Option<&'static str>)
    ensures
        match r {
            Some(e) => mime_extension(mime@) == Some(e@),
            None => mime_extension(mime@) is None,
        },
{
    mime2ext::mime2ext(mime)
}

/// The extension of the file a response is kept in, by its Content-Type (where it reads as
/// a string).
pub fn content_extension(content_type: Option<&str>) -> (r: Option<&'static str>)
    ensures
        match content_type {
            Some(t) => match r {
                Some(e) => mime_extension(t@) == Some(e@),
                None => mime_extension(t@) is None,
            },
            None => r is None,
        },
{
    match content_type {
        Some(t) => mime2ext_of(t),
        None => None,
    }
}

} // verus!
