//! The file name under which a site is stored, derived from its URL.
use vstd::prelude::*;

use crate::text::{append_chars, from_chars, join, join_chars, to_chars, slice_chars};
use crate::weburl::{SiteUrl, UrlView};

verus! {

/// An ASCII letter or digit: the characters that `[a-zA-Z\d]` keeps. (On the ASCII text
/// of a URL's host, path and query, `\d` only meets ASCII digits.)
pub open spec fn is_ascii_alnum(c: char) -> bool {
    ('a' <= c && c <= 'z') || ('A' <= c && c <= 'Z') || ('0' <= c && c <= '9')
}

/// Every maximal run of characters other than ASCII letters and digits replaced by one
/// `-`, as `Regex::new(r"[^a-zA-Z\d]+").replace_all(s, "-")` does.
pub open spec fn dash_runs(s: Seq<char>) -> Seq<char>
    decreases s.len(),
{
    if s.len() == 0 {
        Seq::empty()
    } else if is_ascii_alnum(s[0]) {
        seq![s[0]] + dash_runs(s.drop_first())
    } else if s.len() > 1 && !is_ascii_alnum(s[1]) {
        dash_runs(s.drop_first())
    } else {
        seq!['-'] + dash_runs(s.drop_first())
    }
}

/// `s` without the `-` at its start.
pub open spec fn trim_dash_start(s: Seq<char>) -> Seq<char>
    decreases s.len(),
{
    if s.len() > 0 && s[0] == '-' {
        trim_dash_start(s.drop_first())
    } else {
        s
    }
}

/// `s` without the `-` at its end.
pub open spec fn trim_dash_end(s: Seq<char>) -> Seq<char>
    decreases s.len(),
{
    if s.len() > 0 && s.last() == '-' {
        trim_dash_end(s.drop_last())
    } else {
        s
    }
}

/// `str::trim_matches('-')`.
pub open spec fn trim_dashes(s: Seq<char>) -> Seq<char> {
    trim_dash_end(trim_dash_start(s))
}

/// `str::trim_start_matches("www.")`: every leading `www.` removed.
pub open spec fn strip_www(s: Seq<char>) -> Seq<char>
    decreases s.len(),
{
    if s.len() >= 4 && s.take(4) == seq!['w', 'w', 'w', '.'] {
        strip_www(s.skip(4))
    } else {
        s
    }
}

/// The pieces of `s` after the partial piece `cur`, split at each `sep`.
pub open spec fn split_after(s: Seq<char>, sep: char, cur: Seq<char>) -> Seq<Seq<char>>
    decreases s.len(),
{
    if s.len() == 0 {
        seq![cur]
    } else if s[0] == sep {
        seq![cur] + split_after(s.drop_first(), sep, Seq::empty())
    } else {
        split_after(s.drop_first(), sep, cur.push(s[0]))
    }
}

/// `str::split(sep)`: the pieces between the separators, empty ones included.
pub open spec fn split_on(s: Seq<char>, sep: char) -> Seq<Seq<char>> {
    split_after(s, sep, Seq::empty())
}

/// The domain's labels in reverse order joined by `-`, without leading `www.`
/// (`de-edjopato` for `www.edjopato.de`); the host as it is when it is no domain.
pub open spec fn host_part(u: UrlView) -> Seq<char> {
    match u.domain {
        Some(d) => join(split_on(strip_www(d), '.').reverse(), seq!['-']),
        None => u.host.unwrap(),
    }
}

/// The base name of the file of the site at `u`: host part, path and query, with every
/// run of other characters than ASCII letters and digits made one `-` and no `-` at
/// either end.
pub open spec fn basename_of(u: UrlView) -> Seq<char> {
    let query = match u.query {
        Some(q) => q,
        None => Seq::empty(),
    };
    trim_dashes(dash_runs(host_part(u) + seq!['-'] + u.path + seq!['-'] + query))
}

/// The base name reads only host, domain, path and query: the scheme and the fragment do
/// not matter.
pub proof fn law_basename_ignores_scheme_and_fragment(u: UrlView, v: UrlView)
    requires
        u.host == v.host,
        u.domain == v.domain,
        u.path == v.path,
        u.query == v.query,
    ensures
        basename_of(u) == basename_of(v),
{
}

/// A leading `www.` of the domain does not matter.
pub proof fn law_basename_ignores_www(u: UrlView, v: UrlView, d: Seq<char>)
    requires
        u.domain == Some(seq!['w', 'w', 'w', '.'] + d),
        v.domain == Some(d),
        u.path == v.path,
        u.query == v.query,
    ensures
        basename_of(u) == basename_of(v),
{
    let w = seq!['w', 'w', 'w', '.'] + d;
    assert(w.take(4) =~= seq!['w', 'w', 'w', '.']);
    assert(w.skip(4) =~= d);
    assert(strip_www(w) == strip_www(d));
}

/// A character other than a letter or digit just before a run of such characters is
/// part of that run.
proof fn lemma_dash_runs_absorb(x: Seq<char>, c: char, z: Seq<char>)
    requires
        !is_ascii_alnum(c),
        z.len() > 0,
        !is_ascii_alnum(z[0]),
    ensures
        dash_runs(x + seq![c] + z) == dash_runs(x + z),
    decreases x.len(),
{
    let s = x + seq![c] + z;
    let t = x + z;
    if x.len() == 0 {
        assert(s.drop_first() =~= z);
        assert(t =~= z);
        assert(s[1] == z[0]);
    } else {
        assert(s[0] == x[0]);
        assert(t[0] == x[0]);
        lemma_dash_runs_absorb(x.drop_first(), c, z);
        assert(s.drop_first() =~= x.drop_first() + seq![c] + z);
        assert(t.drop_first() =~= x.drop_first() + z);
        if x.len() == 1 {
            assert(s[1] == c);
            assert(t[1] == z[0]);
            assert(x.drop_first() + seq![c] + z =~= seq![c] + z);
            assert(x.drop_first() + z =~= z);
            lemma_dash_runs_absorb(Seq::empty(), c, z);
            assert(Seq::<char>::empty() + seq![c] + z =~= seq![c] + z);
            assert(Seq::<char>::empty() + z =~= z);
        } else {
            assert(s[1] == x[1]);
            assert(t[1] == x[1]);
        }
    }
}

/// A `/` at the end of the path does not matter.
pub proof fn law_basename_ignores_ending_slash(u: UrlView, v: UrlView)
    requires
        u.host == v.host,
        u.domain == v.domain,
        u.path == v.path.push('/'),
        u.query == v.query,
    ensures
        basename_of(u) == basename_of(v),
{
    let query = match u.query {
        Some(q) => q,
        None => Seq::empty(),
    };
    let x = host_part(v) + seq!['-'] + v.path;
    let z = seq!['-'] + query;
    lemma_dash_runs_absorb(x, '/', z);
    assert(host_part(u) + seq!['-'] + u.path + seq!['-'] + query =~= x + seq!['/'] + z);
    assert(host_part(v) + seq!['-'] + v.path + seq!['-'] + query =~= x + z);
}

/// A letter `a`–`z` or `A`–`Z`, or a digit `0`–`9`.
pub open spec fn letter_or_digit(c: char) -> bool {
    ('a' <= c && c <= 'z') || ('A' <= c && c <= 'Z') || ('0' <= c && c <= '9')
}

/// Letters of either case and digits are kept in a base name as they are: a text made
/// of them alone comes back unchanged, and a run of any other characters becomes one
/// `-` between them.
pub proof fn law_dash_runs_keeps_letters_and_digits(s: Seq<char>, t: Seq<char>, sep: Seq<char>)
    requires
        forall|i: int| 0 <= i < s.len() ==> letter_or_digit(#[trigger] s[i]),
        forall|i: int| 0 <= i < t.len() ==> letter_or_digit(#[trigger] t[i]),
        sep.len() > 0,
        forall|i: int| 0 <= i < sep.len() ==> !letter_or_digit(#[trigger] sep[i]),
    ensures
        dash_runs(s) == s,
        dash_runs(s + sep + t) == s + seq!['-'] + t,
    decreases s.len(),
{
    lemma_dash_runs_alnum(t);
    lemma_dash_runs_sep(sep, t);
    if s.len() == 0 {
        assert(s + sep + t =~= sep + t);
        assert(s + seq!['-'] + t =~= seq!['-'] + t);
    } else {
        let rest = s.drop_first();
        assert forall|i: int| 0 <= i < rest.len() implies letter_or_digit(#[trigger] rest[i]) by {
            assert(rest[i] == s[i + 1]);
        }
        law_dash_runs_keeps_letters_and_digits(rest, t, sep);
        assert(letter_or_digit(s[0]));
        assert(s =~= seq![s[0]] + rest);
        assert((s + sep + t).drop_first() =~= rest + sep + t);
        assert((s + sep + t)[0] == s[0]);
        assert(s + seq!['-'] + t =~= seq![s[0]] + (rest + seq!['-'] + t));
    }
}

proof fn lemma_dash_runs_alnum(t: Seq<char>)
    requires
        forall|i: int| 0 <= i < t.len() ==> letter_or_digit(#[trigger] t[i]),
    ensures
        dash_runs(t) == t,
    decreases t.len(),
{
    if t.len() > 0 {
        let rest = t.drop_first();
        assert forall|i: int| 0 <= i < rest.len() implies letter_or_digit(#[trigger] rest[i]) by {
            assert(rest[i] == t[i + 1]);
        }
        lemma_dash_runs_alnum(rest);
        assert(letter_or_digit(t[0]));
        assert(t =~= seq![t[0]] + rest);
    }
}

proof fn lemma_dash_runs_sep(sep: Seq<char>, t: Seq<char>)
    requires
        sep.len() > 0,
        forall|i: int| 0 <= i < sep.len() ==> !letter_or_digit(#[trigger] sep[i]),
        forall|i: int| 0 <= i < t.len() ==> letter_or_digit(#[trigger] t[i]),
    ensures
        dash_runs(sep + t) == seq!['-'] + t,
    decreases sep.len(),
{
    lemma_dash_runs_alnum(t);
    let u = sep + t;
    assert(u[0] == sep[0]);
    assert(!letter_or_digit(sep[0]));
    assert(u.drop_first() =~= sep.drop_first() + t);
    if sep.len() > 1 {
        assert(u[1] == sep[1]);
        let rest = sep.drop_first();
        assert forall|i: int| 0 <= i < rest.len() implies !letter_or_digit(#[trigger] rest[i]) by {
            assert(rest[i] == sep[i + 1]);
        }
        lemma_dash_runs_sep(rest, t);
    } else {
        assert(sep.drop_first() + t =~= t);
        if t.len() > 0 {
            assert(u[1] == t[0]);
        }
    }
}

/// Whether `c` is an ASCII letter or digit.
pub fn is_ascii_alnum_char(c: char) -> (b: bool)
    ensures
        b == is_ascii_alnum(c),
{
    ('a' <= c && c <= 'z') || ('A' <= c && c <= 'Z') || ('0' <= c && c <= '9')
}

/// Replaces every run of other characters than ASCII letters and digits by one `-`.
pub fn dash_runs_chars(v: &[char]) -> (r: Vec<char>)
    ensures
        r@ == dash_runs(v@),
{
    let mut r: Vec<char> = Vec::new();
    let mut i: usize = 0;
    assert(v@.skip(0) == v@);
    while i < v.len()
        invariant
            i <= v@.len(),
            r@ + dash_runs(v@.skip(i as int)) == dash_runs(v@),
        decreases v@.len() - i,
    {
        let ghost rest = v@.skip(i as int);
        assert(rest.drop_first() == v@.skip(i + 1));
        let c = v[i];
        if is_ascii_alnum_char(c) {
            r.push(c);
            assert(r@ + dash_runs(v@.skip(i + 1)) == dash_runs(v@)) by {
                assert(dash_runs(rest) == seq![c] + dash_runs(rest.drop_first()));
                assert(r@ + dash_runs(v@.skip(i + 1)) =~= (r@.drop_last() + seq![c]) + dash_runs(
                    v@.skip(i + 1),
                ));
            }
        } else if i + 1 < v.len() && !is_ascii_alnum_char(v[i + 1]) {
            assert(rest[1] == v@[i + 1]);
        } else {
            r.push('-');
            assert(r@ + dash_runs(v@.skip(i + 1)) == dash_runs(v@)) by {
                assert(dash_runs(rest) == seq!['-'] + dash_runs(rest.drop_first()));
                assert(r@ + dash_runs(v@.skip(i + 1)) =~= (r@.drop_last() + seq!['-'])
                    + dash_runs(v@.skip(i + 1)));
            }
        }
        i += 1;
    }
    assert(v@.skip(v@.len() as int) =~= Seq::<char>::empty());
    r
}

/// `str::trim_matches('-')`.
pub fn trim_dashes_chars(v: &[char]) -> (r: Vec<char>)
    ensures
        r@ == trim_dashes(v@),
{
    let mut i: usize = 0;
    assert(v@.skip(0) == v@);
    while i < v.len() && v[i] == '-'
        invariant
            i <= v@.len(),
            trim_dash_start(v@) == trim_dash_start(v@.skip(i as int)),
        decreases v@.len() - i,
    {
        assert(v@.skip(i as int).drop_first() == v@.skip(i + 1));
        i += 1;
    }
    let mut j: usize = v.len();
    assert(v@.skip(i as int).take(v@.len() - i) == v@.skip(i as int));
    while j > i && v[j - 1] == '-'
        invariant
            i <= j <= v@.len(),
            trim_dash_start(v@) == v@.skip(i as int),
            trim_dashes(v@) == trim_dash_end(v@.subrange(i as int, j as int)),
        decreases j,
    {
        assert(v@.subrange(i as int, j as int).drop_last() == v@.subrange(i as int, j - 1));
        j -= 1;
    }
    slice_chars(v, i, j)
}

/// `str::trim_start_matches("www.")`.
fn strip_www_chars(v: &[char]) -> (r: Vec<char>)
    ensures
        r@ == strip_www(v@),
{
    let mut i: usize = 0;
    assert(v@.skip(0) == v@);
    while v.len() >= 4 && i <= v.len() - 4 && v[i] == 'w' && v[i + 1] == 'w' && v[i + 2] == 'w' && v[i + 3] == '.'
        invariant
            i <= v@.len(),
            strip_www(v@) == strip_www(v@.skip(i as int)),
        decreases v@.len() - i,
    {
        assert(v@.skip(i as int).take(4) =~= seq!['w', 'w', 'w', '.']);
        assert(v@.skip(i as int).skip(4) == v@.skip(i + 4));
        i += 4;
    }
    if v.len() >= 4 && i <= v.len() - 4 {
        assert(v@.skip(i as int).take(4) != seq!['w', 'w', 'w', '.']) by {
            if v@.skip(i as int).take(4) == seq!['w', 'w', 'w', '.'] {
                assert(v@.skip(i as int).take(4)[0] == v@[i as int]);
                assert(v@.skip(i as int).take(4)[1] == v@[i + 1]);
                assert(v@.skip(i as int).take(4)[2] == v@[i + 2]);
                assert(v@.skip(i as int).take(4)[3] == v@[i + 3]);
            }
        }
    }
    slice_chars(v, i, v.len())
}

/// `str::split(sep)`.
pub fn split_on_char(v: &[char], sep: char) -> (r: Vec<Vec<char>>)
    ensures
        r@.map_values(|p: Vec<char>| p@) == split_on(v@, sep),
{
    let mut out: Vec<Vec<char>> = Vec::new();
    let mut cur: Vec<char> = Vec::new();
    let mut i: usize = 0;
    assert(v@.skip(0) == v@);
    while i < v.len()
        invariant
            i <= v@.len(),
            out@.map_values(|p: Vec<char>| p@) + split_after(v@.skip(i as int), sep, cur@)
                == split_on(v@, sep),
        decreases v@.len() - i,
    {
        assert(v@.skip(i as int).drop_first() == v@.skip(i + 1));
        if v[i] == sep {
            let ghost before = out@.map_values(|p: Vec<char>| p@);
            out.push(cur);
            assert(out@.map_values(|p: Vec<char>| p@) == before.push(cur@));
            cur = Vec::new();
        } else {
            cur.push(v[i]);
        }
        i += 1;
    }
    let ghost before = out@.map_values(|p: Vec<char>| p@);
    out.push(cur);
    assert(out@.map_values(|p: Vec<char>| p@) == before.push(cur@));
    out
}

/// The pieces in reverse order.
fn reversed(v: Vec<Vec<char>>) -> (r: Vec<Vec<char>>)
    ensures
        r@.map_values(|p: Vec<char>| p@) == v@.map_values(|p: Vec<char>| p@).reverse(),
{
    let ghost orig = v@.map_values(|p: Vec<char>| p@);
    let mut v = v;
    let mut r: Vec<Vec<char>> = Vec::new();
    while v.len() > 0
        invariant
            v@.len() <= orig.len(),
            forall|k: int| 0 <= k < v@.len() ==> #[trigger] v@[k]@ == orig[k],
            r@.len() == orig.len() - v@.len(),
            forall|k: int| 0 <= k < r@.len() ==> #[trigger] r@[k]@ == orig[orig.len() - 1 - k],
        decreases v@.len(),
    {
        let p = v.pop().unwrap();
        r.push(p);
    }
    assert(r@.map_values(|p: Vec<char>| p@) =~= orig.reverse());
    r
}

/// The host part of the file name of the site at `url`.
fn host_part_chars(url: &SiteUrl) -> (r: Vec<char>)
    requires
        url@.host is Some,
    ensures
        r@ == host_part(url@),
{
    match url.domain() {
        Some(d) => {
            let d = to_chars(d);
            let stripped = strip_www_chars(d.as_slice());
            let pieces = split_on_char(stripped.as_slice(), '.');
            let pieces = reversed(pieces);
            let sep = vec!['-'];
            assert(sep@ == seq!['-']);
            join_chars(&pieces, sep.as_slice())
        },
        None => to_chars(url.host_str().unwrap()),
    }
}

/// The base name (without extension) of the file that stores the site at `url`.
///
/// The scheme and the fragment do not take part, and neither does a leading `www.`.
pub fn basename(url: &SiteUrl) -> (r: String)
    requires
        url@.host is Some,
    ensures
        r@ == basename_of(url@),
{
    proof {
        use_type_invariant(url);
    }
    let mut raw = host_part_chars(url);
    raw.push('-');
    append_chars(&mut raw, to_chars(url.path()).as_slice());
    raw.push('-');
    if let Some(q) = url.query() {
        append_chars(&mut raw, to_chars(q).as_slice());
    }
    let ghost query = match url@.query {
        Some(q) => q,
        None => Seq::<char>::empty(),
    };
    assert(raw@ =~= host_part(url@) + seq!['-'] + url@.path + seq!['-'] + query);
    let collapsed = dash_runs_chars(raw.as_slice());
    let trimmed = trim_dashes_chars(collapsed.as_slice());
    from_chars(trimmed.as_slice())
}

} // verus!
