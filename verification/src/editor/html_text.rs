//! The text of HTML.
use crate::markup::{text_markup, text_node_text};
use crate::text::{
    append_chars, from_chars, join, join_chars, lines, lines_of, to_chars, trim, trim_chars,
};
use kuchiki::iter::NodeIterator;
use kuchiki::traits::TendrilSink;
use vstd::prelude::*;

verus! {

broadcast use vstd::string::group_string_axioms;

/// The text nodes of the document that kuchiki parses of `html`, in document order.
pub uninterp spec fn document_texts(html: Seq<char>) -> Seq<Seq<char>>;

/// `kuchiki::parse_html().one(html)`, then the contents of its descendant text nodes in
/// order.
#[verifier::external_body]
fn kuchiki_texts(html: &str) -> (r: Vec<String>)
    ensures
        r@.map_values(|t: String| t@) == document_texts(html@),
{
    let doc = kuchiki::parse_html().one(html);
    doc.descendants().text_nodes().map(|t| t.borrow().clone()).collect()
}

/// Each text escaped as html5ever writes text outside any element, on a line of its own.
pub open spec fn text_lines(texts: Seq<Seq<char>>) -> Seq<char>
    decreases texts.len(),
{
    if texts.len() == 0 {
        Seq::empty()
    } else {
        text_lines(texts.drop_last()) + text_node_text(None, texts.last()) + seq!['\n']
    }
}

/// `n` newlines.
pub open spec fn newlines(n: nat) -> Seq<char> {
    Seq::new(n, |i: int| '\n')
}

/// `s` after `run` pending newlines, with each run of three or more newlines made two.
pub open spec fn collapse_after(s: Seq<char>, run: nat) -> Seq<char>
    decreases s.len(),
{
    let kept: nat = if run >= 3 { 2 } else { run };
    if s.len() == 0 {
        newlines(kept)
    } else if s[0] == '\n' {
        collapse_after(s.drop_first(), run + 1)
    } else {
        newlines(kept) + seq![s[0]] + collapse_after(s.drop_first(), 0)
    }
}

/// `s` with each run of three or more newlines made two (`\n{3,}` replaced by `\n\n`).
pub open spec fn collapse_newlines(s: Seq<char>) -> Seq<char> {
    collapse_after(s, 0)
}

/// The trimmed lines of `s`.
pub open spec fn trimmed_lines(ls: Seq<Seq<char>>) -> Seq<Seq<char>> {
    ls.map_values(|l: Seq<char>| trim(l))
}

/// Every line of the extracted text is trimmed on both sides: it neither starts nor ends
/// with white space, and it is its line of the document with only white space taken off
/// either end.
pub proof fn law_lines_trimmed_both_sides(ls: Seq<Seq<char>>, i: int)
    requires
        0 <= i < ls.len(),
    ensures
        trimmed_lines(ls).len() == ls.len(),
        trimmed_lines(ls)[i].len() == 0 || (!crate::text::is_white_space(trimmed_lines(ls)[i][0])
            && !crate::text::is_white_space(trimmed_lines(ls)[i].last())),
        exists|a: int, b: int|
            0 <= a <= b <= ls[i].len() && ls[i].subrange(a, b) == trimmed_lines(ls)[i] && (forall|k: int|
                0 <= k < a ==> crate::text::is_white_space(#[trigger] ls[i][k])) && (forall|k: int|
                b <= k < ls[i].len() ==> crate::text::is_white_space(#[trigger] ls[i][k])),
{
    crate::text::lemma_trim_is_inner_part(ls[i]);
}

/// No three newlines stand one after the other in `s`.
pub open spec fn no_three_newlines(s: Seq<char>) -> bool {
    forall|i: int|
        0 <= i && i + 2 < s.len() ==> !(#[trigger] s[i] == '\n' && s[i + 1] == '\n' && s[i + 2] == '\n')
}

proof fn lemma_newlines_then(n: nat, t: Seq<char>, run: nat)
    ensures
        collapse_after(newlines(n) + t, run) == collapse_after(t, run + n),
    decreases n,
{
    if n > 0 {
        let s = newlines(n) + t;
        assert(s[0] == '\n');
        assert(s.drop_first() =~= newlines((n - 1) as nat) + t);
        lemma_newlines_then((n - 1) as nat, t, run + 1);
    } else {
        assert(newlines(n) + t =~= t);
    }
}

proof fn lemma_collapse_no_three(s: Seq<char>, run: nat)
    ensures
        no_three_newlines(collapse_after(s, run)),
    decreases s.len(),
{
    let kept: nat = if run >= 3 { 2 } else { run };
    if s.len() == 0 {
    } else if s[0] == '\n' {
        lemma_collapse_no_three(s.drop_first(), run + 1);
    } else {
        let rest = collapse_after(s.drop_first(), 0);
        lemma_collapse_no_three(s.drop_first(), 0);
        let r = newlines(kept) + seq![s[0]] + rest;
        assert(r[kept as int] == s[0]);
        assert forall|i: int|
            0 <= i && i + 2 < r.len() implies !(#[trigger] r[i] == '\n' && r[i + 1] == '\n' && r[i + 2]
                == '\n') by {
            if i > kept {
                assert(r[i] == rest[i - kept - 1]);
                assert(r[i + 1] == rest[i - kept]);
                assert(r[i + 2] == rest[i - kept + 1]);
            }
        }
    }
}

proof fn lemma_collapse_plain(s: Seq<char>, run: nat)
    requires
        run <= 2,
        no_three_newlines(newlines(run) + s),
    ensures
        collapse_after(s, run) == newlines(run) + s,
    decreases s.len(),
{
    let w = newlines(run) + s;
    if s.len() == 0 {
        assert(w =~= newlines(run));
    } else if s[0] == '\n' {
        if run == 2 {
            assert(w[0] == '\n' && w[1] == '\n' && w[2] == '\n');
        }
        assert(newlines(run + 1) + s.drop_first() =~= w);
        lemma_collapse_plain(s.drop_first(), run + 1);
    } else {
        let rest = s.drop_first();
        assert forall|i: int|
            0 <= i && i + 2 < rest.len() implies !(#[trigger] rest[i] == '\n' && rest[i + 1] == '\n'
                && rest[i + 2] == '\n') by {
            assert(rest[i] == w[i + run + 1]);
            assert(rest[i + 1] == w[i + run + 2]);
            assert(rest[i + 2] == w[i + run + 3]);
        }
        assert(newlines(0) + rest =~= rest);
        lemma_collapse_plain(rest, 0);
        assert(newlines(run) + seq![s[0]] + rest =~= w);
    }
}

/// Collapsing newlines shortens only runs of them: in what comes out no three newlines
/// stand together; a run of `n` newlines before another character, or at the end, comes
/// out as `n` newlines, or two where `n` is three or more; and a text with no three
/// newlines together comes out as it is.
pub proof fn law_newline_runs_made_two(s: Seq<char>, n: nat, c: char, q: Seq<char>)
    requires
        c != '\n',
    ensures
        no_three_newlines(collapse_newlines(s)),
        no_three_newlines(s) ==> collapse_newlines(s) == s,
        collapse_after(newlines(n) + seq![c] + q, 0) == newlines(if n >= 3 { 2 } else { n }) + seq![c]
            + collapse_after(q, 0),
        collapse_newlines(newlines(n)) == newlines(if n >= 3 { 2 } else { n }),
{
    lemma_collapse_no_three(s, 0);
    if no_three_newlines(s) {
        assert(newlines(0) + s =~= s);
        lemma_collapse_plain(s, 0);
    }
    let t = seq![c] + q;
    assert(newlines(n) + seq![c] + q =~= newlines(n) + t);
    lemma_newlines_then(n, t, 0);
    assert(t[0] == c);
    assert(t.drop_first() =~= q);
    lemma_newlines_then(n, Seq::empty(), 0);
    assert(newlines(n) + Seq::<char>::empty() =~= newlines(n));
}

/// The text of a document: each text node on its own lines, every line trimmed, runs of
/// more than one empty line made one.
pub open spec fn extracted(texts: Seq<Seq<char>>) -> Seq<char> {
    collapse_newlines(join(trimmed_lines(lines(text_lines(texts))), seq!['\n']))
}

fn push_newlines(out: &mut Vec<char>, n: usize)
    ensures
        final(out)@ == old(out)@ + newlines(n as nat),
{
    let mut i: usize = 0;
    while i < n
        invariant
            i <= n,
            out@ == old(out)@ + newlines(i as nat),
        decreases n - i,
    {
        out.push('\n');
        assert(newlines((i + 1) as nat) =~= newlines(i as nat).push('\n'));
        i += 1;
    }
}

fn collapse(v: &[char]) -> (r: Vec<char>)
    ensures
        r@ == collapse_newlines(v@),
{
    let mut out: Vec<char> = Vec::new();
    let mut run: usize = 0;
    let mut i: usize = 0;
    assert(v@.skip(0) == v@);
    while i < v.len()
        invariant
            i <= v@.len(),
            run <= i,
            out@ + collapse_after(v@.skip(i as int), run as nat) == collapse_newlines(v@),
        decreases v@.len() - i,
    {
        assert(v@.skip(i as int).drop_first() == v@.skip(i + 1));
        if v[i] == '\n' {
            run += 1;
        } else {
            let kept: usize = if run >= 3 { 2 } else { run };
            let ghost before = out@;
            push_newlines(&mut out, kept);
            out.push(v[i]);
            assert(out@ == before + newlines(kept as nat) + seq![v@[i as int]]);
            assert(out@ + collapse_after(v@.skip(i + 1), 0) =~= before + (newlines(kept as nat)
                + seq![v@[i as int]] + collapse_after(v@.skip(i + 1), 0)));
            run = 0;
        }
        i += 1;
    }
    let kept: usize = if run >= 3 { 2 } else { run };
    push_newlines(&mut out, kept);
    out
}

/// The text of the document that kuchiki parses of `html`: each text node escaped as
/// html5ever writes text outside any element and followed by a newline, every line
/// trimmed, and each run of three or more newlines made two.
pub fn extract(html: &str) -> (r: String)
    ensures
        r@ == extracted(document_texts(html@)),
{
    let texts = kuchiki_texts(html);
    let ghost tv = texts@.map_values(|t: String| t@);
    let mut raw: Vec<char> = Vec::new();
    let mut i: usize = 0;
    while i < texts.len()
        invariant
            i <= texts@.len(),
            tv == texts@.map_values(|t: String| t@),
            raw@ == text_lines(tv.take(i as int)),
        decreases texts@.len() - i,
    {
        assert(tv.take(i + 1).drop_last() == tv.take(i as int));
        assert(tv.take(i + 1).last() == texts@[i as int]@);
        let s = text_markup(None, texts[i].as_str());
        let cs = to_chars(s.as_str());
        append_chars(&mut raw, cs.as_slice());
        raw.push('\n');
        i += 1;
    }
    assert(tv.take(texts@.len() as int) == tv);
    let ls = lines_of(raw.as_slice());
    let ghost lv = ls@.map_values(|l: Vec<char>| l@);
    let mut trimmed: Vec<Vec<char>> = Vec::new();
    let mut j: usize = 0;
    while j < ls.len()
        invariant
            j <= ls@.len(),
            lv == ls@.map_values(|l: Vec<char>| l@),
            trimmed@.map_values(|l: Vec<char>| l@) == trimmed_lines(lv).take(j as int),
        decreases ls@.len() - j,
    {
        let t = trim_chars(ls[j].as_slice());
        let ghost prev = trimmed@;
        trimmed.push(t);
        assert(trimmed@ == prev.push(t));
        assert(trimmed@.map_values(|l: Vec<char>| l@) =~= prev.map_values(|l: Vec<char>| l@).push(
            t@,
        ));
        assert(lv[j as int] == ls@[j as int]@);
        assert(trimmed_lines(lv)[j as int] == trim(lv[j as int]));
        assert(trimmed_lines(lv).take(j + 1) =~= trimmed_lines(lv).take(j as int).push(
            trimmed_lines(lv)[j as int],
        ));
        j += 1;
    }
    assert(trimmed_lines(lv).take(ls@.len() as int) == trimmed_lines(lv));
    let sep: Vec<char> = vec!['\n'];
    assert(sep@ =~= seq!['\n']);
    let joined = join_chars(&trimmed, sep.as_slice());
    let collapsed = collapse(joined.as_slice());
    from_chars(collapsed.as_slice())
}

} // verus!
