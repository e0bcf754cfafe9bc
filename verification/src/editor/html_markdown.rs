//! HTML as Markdown, with simple links.
use crate::editor::regex_replacer::{
    groups_view, regex_compile_ok, regex_compiles, regex_groups, regex_pieces, regex_replace_all,
    regex_replaced, regex_split_captures,
};
use crate::order::str_eq;
use crate::text::{
    from_chars, join, join_chars, lines, lines_of, to_chars, trim, trim_end, trim_end_chars, trim_str,
};
use vstd::prelude::*;

verus! {

broadcast use vstd::string::group_string_axioms;

/// What `html2md::parse_html` makes of `html`.
pub uninterp spec fn html2md_markdown(html: Seq<char>) -> Seq<char>;

/// `html2md::parse_html`.
#[verifier::external_body]
fn html_to_markdown(html: &str) -> (r: String)
    ensures
        r@ == html2md_markdown(html@),
{
    html2md::parse_html(html)
}

/// The pattern of a Markdown link `[label](url)`.
pub const LINK_PATTERN: &'static str = r"\[([^\]]+)\]\(([^)]+)\)";

/// The pattern of a run of white space.
pub const WHITE_SPACE_PATTERN: &'static str = r"\s+";

/// `s` with each run of white space made one space, by the regex crate.
pub open spec fn squashed(s: Seq<char>) -> Seq<char> {
    if regex_compiles(WHITE_SPACE_PATTERN@) {
        regex_replaced(WHITE_SPACE_PATTERN@, s, " "@)
    } else {
        s
    }
}

/// The text of group `i` of a match, empty where it takes no part.
pub open spec fn group_text(g: Seq<Option<Seq<char>>>, i: int) -> Seq<char> {
    if 0 <= i < g.len() {
        match g[i] {
            Some(x) => x,
            None => Seq::empty(),
        }
    } else {
        Seq::empty()
    }
}

/// A link as it is written back: `<url>` where the label is the URL, else
/// `[label](url)`; the label trimmed with its white space runs made one space, the URL
/// trimmed.
pub open spec fn link_text(label: Seq<char>, url: Seq<char>) -> Seq<char> {
    let l = squashed(trim(label));
    let u = trim(url);
    if l == u {
        seq!['<'] + u + seq!['>']
    } else {
        seq!['['] + l + seq![']', '('] + u + seq![')']
    }
}

/// The pieces between the links with each link written back after the piece before it.
pub open spec fn assembled(pieces: Seq<Seq<char>>, groups: Seq<Seq<Option<Seq<char>>>>) -> Seq<char>
    decreases groups.len(),
{
    if groups.len() == 0 {
        if pieces.len() > 0 {
            pieces[0]
        } else {
            Seq::empty()
        }
    } else {
        assembled(pieces.drop_last(), groups.drop_last()) + link_text(
            group_text(groups.last(), 1),
            group_text(groups.last(), 2),
        ) + pieces.last()
    }
}

/// The sum of the lengths of the texts.
pub open spec fn total_len(ps: Seq<Seq<char>>) -> int
    decreases ps.len(),
{
    if ps.len() == 0 {
        0
    } else {
        total_len(ps.drop_last()) + ps.last().len()
    }
}

proof fn lemma_total_len_prefix(ps: Seq<Seq<char>>, k: int)
    requires
        0 <= k <= ps.len(),
    ensures
        0 <= total_len(ps.take(k)) <= total_len(ps),
        k < ps.len() ==> total_len(ps.take(k + 1)) == total_len(ps.take(k)) + ps[k].len(),
        k < ps.len() ==> total_len(ps.take(k)) + ps[k].len() <= total_len(ps),
    decreases ps.len(),
{
    if k < ps.len() {
        assert(ps.take(k + 1).drop_last() =~= ps.take(k));
        assert(ps.take(k + 1).last() == ps[k]);
    }
    if ps.len() > 0 {
        if k < ps.len() {
            lemma_total_len_prefix(ps.drop_last(), if k < ps.len() - 1 { k } else { k });
            if k < ps.len() - 1 {
                assert(ps.drop_last().take(k) == ps.take(k));
                assert(ps.drop_last().take(k + 1) == ps.take(k + 1));
                assert(ps.drop_last()[k] == ps[k]);
            } else {
                assert(ps.drop_last().take(k) =~= ps.take(k));
                assert(ps.take(k) =~= ps.drop_last());
            }
        } else {
            assert(ps.take(k) =~= ps);
            lemma_total_len_nonneg(ps);
        }
    } else {
        assert(ps.take(k) =~= ps);
    }
}

proof fn lemma_total_len_nonneg(ps: Seq<Seq<char>>)
    ensures
        total_len(ps) >= 0,
    decreases ps.len(),
{
    if ps.len() > 0 {
        lemma_total_len_nonneg(ps.drop_last());
    }
}

/// The links of the matches, written back.
pub open spec fn links_of(groups: Seq<Seq<Option<Seq<char>>>>) -> Seq<Seq<char>> {
    groups.map_values(|g: Seq<Option<Seq<char>>>| link_text(group_text(g, 1), group_text(g, 2)))
}

/// Simplifying the links rewrites only the links: the result is as long as all pieces
/// between the matches and all links written back; each piece stands in it, unchanged, at
/// the place where the pieces and links before it end, and so does each link. So no text
/// between, before or after the links is lost, and a text without links comes back as it
/// is.
pub proof fn law_links_keep_pieces(pieces: Seq<Seq<char>>, groups: Seq<Seq<Option<Seq<char>>>>)
    requires
        pieces.len() == groups.len() + 1,
    ensures
        assembled(pieces, groups).len() == total_len(pieces) + total_len(links_of(groups)),
        forall|k: int|
            0 <= k < pieces.len() ==> assembled(pieces, groups).subrange(
                total_len(pieces.take(k)) + total_len(links_of(groups).take(k)),
                total_len(pieces.take(k)) + total_len(links_of(groups).take(k)) + pieces[k].len(),
            ) == #[trigger] pieces[k],
        forall|k: int|
            0 <= k < groups.len() ==> assembled(pieces, groups).subrange(
                total_len(pieces.take(k + 1)) + total_len(links_of(groups).take(k)),
                total_len(pieces.take(k + 1)) + total_len(links_of(groups).take(k)) + links_of(groups)[k].len(),
            ) == #[trigger] links_of(groups)[k],
        groups.len() == 0 ==> assembled(pieces, groups) == pieces[0],
    decreases groups.len(),
{
    let out = assembled(pieces, groups);
    let links = links_of(groups);
    if groups.len() == 0 {
        assert(pieces.drop_last() =~= Seq::<Seq<char>>::empty());
        assert(pieces.take(0) =~= Seq::<Seq<char>>::empty());
        assert(links.take(0) =~= Seq::<Seq<char>>::empty());
        assert(out.subrange(0, pieces[0].len() as int) =~= pieces[0]);
    } else {
        let p1 = pieces.drop_last();
        let g1 = groups.drop_last();
        let l1 = links_of(g1);
        law_links_keep_pieces(p1, g1);
        let before = assembled(p1, g1);
        let link = links[groups.len() - 1];
        let last = pieces.last();
        assert(links =~= l1.push(link));
        assert(links.drop_last() =~= l1);
        assert(links.last() == link);
        assert(out == before + link + last);
        assert(pieces =~= p1.push(last));
        assert(total_len(pieces) == total_len(p1) + last.len());
        assert(total_len(links) == total_len(l1) + link.len());
        assert forall|k: int|
            0 <= k < pieces.len() implies out.subrange(
                total_len(pieces.take(k)) + total_len(links.take(k)),
                total_len(pieces.take(k)) + total_len(links.take(k)) + pieces[k].len(),
            ) == #[trigger] pieces[k] by {
            if k < p1.len() {
                assert(pieces.take(k) == p1.take(k));
                assert(links.take(k) == l1.take(k));
                assert(p1[k] == pieces[k]);
                let o = total_len(p1.take(k)) + total_len(l1.take(k));
                lemma_total_len_prefix(p1, k);
                lemma_total_len_prefix(l1, k);
                assert(before.subrange(o, o + p1[k].len()) == p1[k]);
                assert(out.subrange(o, o + pieces[k].len()) =~= before.subrange(o, o + p1[k].len()));
            } else {
                assert(pieces.take(k) =~= p1);
                assert(links.take(k) =~= links);
                assert(out.subrange((before.len() + link.len()) as int, out.len() as int) =~= last);
            }
        }
        assert forall|k: int|
            0 <= k < groups.len() implies out.subrange(
                total_len(pieces.take(k + 1)) + total_len(links.take(k)),
                total_len(pieces.take(k + 1)) + total_len(links.take(k)) + links[k].len(),
            ) == #[trigger] links[k] by {
            if k < g1.len() {
                assert(pieces.take(k + 1) == p1.take(k + 1));
                assert(links.take(k) == l1.take(k));
                assert(l1[k] == links[k]);
                let o = total_len(p1.take(k + 1)) + total_len(l1.take(k));
                lemma_total_len_prefix(p1, k + 1);
                lemma_total_len_prefix(l1, k);
                assert(before.subrange(o, o + l1[k].len()) == l1[k]);
                assert(out.subrange(o, o + links[k].len()) =~= before.subrange(o, o + l1[k].len()));
            } else {
                assert(pieces.take(k + 1) =~= p1);
                assert(links.take(k) =~= l1);
                assert(out.subrange(before.len() as int, (before.len() + link.len()) as int) =~= link);
            }
        }
    }
}

/// `s` with each link that the regex crate finds written back simpler.
pub open spec fn simplify_links(s: Seq<char>) -> Seq<char> {
    if regex_compiles(LINK_PATTERN@) {
        assembled(regex_pieces(LINK_PATTERN@, s), regex_groups(LINK_PATTERN@, s))
    } else {
        s
    }
}

/// The lines of Markdown without white space at their ends.
pub open spec fn trimmed_end_lines(ls: Seq<Seq<char>>) -> Seq<Seq<char>> {
    ls.map_values(|l: Seq<char>| trim_end(l))
}

/// The Markdown that html2md makes of `html`, each line without white space at its end,
/// with the links simplified.
pub open spec fn markdown_of(html: Seq<char>) -> Seq<char> {
    simplify_links(join(trimmed_end_lines(lines(html2md_markdown(html))), seq!['\n']))
}

fn squash(s: &str) -> (r: String)
    ensures
        r@ == squashed(s@),
{
    if regex_compile_ok(WHITE_SPACE_PATTERN) {
        regex_replace_all(WHITE_SPACE_PATTERN, s, " ")
    } else {
        s.to_string()
    }
}

fn group_string(g: &Vec<Option<String>>, i: usize) -> (r: String)
    ensures
        r@ == group_text(g@.map_values(
            |o: Option<String>|
                match o {
                    Some(x) => Some(x@),
                    None => None,
                },
        ), i as int),
{
    if i < g.len() {
        match &g[i] {
            Some(x) => x.clone(),
            None => String::new(),
        }
    } else {
        String::new()
    }
}

fn link_string(label: &str, url: &str) -> (r: String)
    ensures
        r@ == link_text(label@, url@),
{
    let t = trim_str(label);
    let l = squash(t.as_str());
    let u = trim_str(url);
    proof {
        reveal_strlit("<");
        reveal_strlit(">");
        reveal_strlit("[");
        reveal_strlit("](");
        reveal_strlit(")");
        assert("<"@ =~= seq!['<']);
        assert(">"@ =~= seq!['>']);
        assert("["@ =~= seq!['[']);
        assert("]("@ =~= seq![']', '(']);
        assert(")"@ =~= seq![')']);
    }
    if str_eq(l.as_str(), u.as_str()) {
        let mut r = "<".to_string();
        r.append(u.as_str());
        r.append(">");
        r
    } else {
        let mut r = "[".to_string();
        r.append(l.as_str());
        r.append("](");
        r.append(u.as_str());
        r.append(")");
        r
    }
}

fn simplify(s: &str) -> (r: String)
    ensures
        r@ == simplify_links(s@),
{
    if !regex_compile_ok(LINK_PATTERN) {
        return s.to_string();
    }
    let (pieces, groups) = regex_split_captures(LINK_PATTERN, s);
    let ghost pv = pieces@.map_values(|p: String| p@);
    let ghost gv = groups_view(groups@);
    let mut out = pieces[0].clone();
    let mut i: usize = 0;
    assert(pv.take(1) =~= seq![pv[0]]);
    while i < groups.len()
        invariant
            i <= groups@.len(),
            pieces@.len() == groups@.len() + 1,
            pv == pieces@.map_values(|p: String| p@),
            gv == groups_view(groups@),
            out@ == assembled(pv.take(i + 1), gv.take(i as int)),
        decreases groups@.len() - i,
    {
        let label = group_string(&groups[i], 1);
        let url = group_string(&groups[i], 2);
        assert(gv[i as int] == groups@[i as int]@.map_values(
            |o: Option<String>|
                match o {
                    Some(x) => Some(x@),
                    None => None,
                },
        ));
        let link = link_string(label.as_str(), url.as_str());
        out.append(link.as_str());
        out.append(pieces[i + 1].as_str());
        assert(pv.take(i + 2).drop_last() == pv.take(i + 1));
        assert(gv.take(i + 1).drop_last() == gv.take(i as int));
        assert(gv.take(i + 1).last() == gv[i as int]);
        assert(pv.take(i + 2).last() == pieces@[i + 1]@);
        i += 1;
    }
    assert(pv.take(groups@.len() + 1 as int) == pv);
    assert(gv.take(groups@.len() as int) == gv);
    out
}

/// The HTML as Markdown by html2md, each line without white space at its end, and each
/// link `[label](url)` written `<url>` where its trimmed label is its trimmed URL, else
/// with its label trimmed and its white space runs made one space.
pub fn markdownify(html: &str) -> (r: String)
    ensures
        r@ == markdown_of(html@),
{
    let md = html_to_markdown(html);
    let cs = to_chars(md.as_str());
    let ls = lines_of(cs.as_slice());
    let ghost lv = ls@.map_values(|l: Vec<char>| l@);
    let mut trimmed: Vec<Vec<char>> = Vec::new();
    let mut j: usize = 0;
    while j < ls.len()
        invariant
            j <= ls@.len(),
            lv == ls@.map_values(|l: Vec<char>| l@),
            trimmed@.map_values(|l: Vec<char>| l@) == trimmed_end_lines(lv).take(j as int),
        decreases ls@.len() - j,
    {
        let t = trim_end_chars(ls[j].as_slice());
        let ghost prev = trimmed@;
        trimmed.push(t);
        assert(trimmed@ == prev.push(t));
        assert(trimmed@.map_values(|l: Vec<char>| l@) =~= prev.map_values(|l: Vec<char>| l@).push(
            t@,
        ));
        assert(lv[j as int] == ls@[j as int]@);
        assert(trimmed_end_lines(lv).take(j + 1) =~= trimmed_end_lines(lv).take(j as int).push(
            trimmed_end_lines(lv)[j as int],
        ));
        j += 1;
    }
    assert(trimmed_end_lines(lv).take(ls@.len() as int) == trimmed_end_lines(lv));
    let sep: Vec<char> = vec!['\n'];
    assert(sep@ =~= seq!['\n']);
    let joined = join_chars(&trimmed, sep.as_slice());
    let text = from_chars(joined.as_slice());
    simplify(text.as_str())
}

} // verus!
