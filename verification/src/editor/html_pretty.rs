//! Pretty HTML: one tag, text or comment per line, indented by tabs, with sorted classes,
//! formatted and sorted style statements and sorted attributes.
use crate::dom::{
    EventView, FrameView, NodeData, DomEvent, NodeView, copy_qname, document_events,
    events_view, ignoring, parsed_document,
};
use crate::filename::{split_on, split_on_char};
use crate::markup::{
    Attribute, AttributeView, QName, attrs_view, comment_markup, comment_text, doctype_markup,
    doctype_text, end_tag_markup, end_tag_text, is_void, start_tag_markup, start_tag_text,
};
use crate::order::str_eq;
use crate::sorting::{attribute_lt, sort_attributes, sort_by, sort_strings, string_lt, string_views};
use crate::text::{
    first_index, first_index_from,
    append_chars, from_chars, is_white_space, is_white_space_char, join, join_chars, lines,
    lines_of, slice_chars, to_chars, trim, trim_chars, trim_end, trim_end_chars, trim_start,
    trim_start_index,
};
use vstd::prelude::*;

verus! {

broadcast use vstd::string::group_string_axioms;

// ---------------------------------------------------------------------------------------
// Style statements and class lists.

/// One CSS statement (without its `;`) as `key: value;`, or the trimmed text and `;` when
/// it has no `:`.
pub open spec fn css_statement(content: Seq<char>) -> Seq<char> {
    let c = trim(content);
    let k = first_index(c, ':');
    if k < c.len() {
        trim_end(c.take(k)) + seq![':', ' '] + trim_start(c.skip(k + 1)) + seq![';']
    } else {
        c + seq![';']
    }
}

/// The non-empty trimmed pieces, each formatted as a statement.
pub open spec fn statements_of(pieces: Seq<Seq<char>>) -> Seq<Seq<char>>
    decreases pieces.len(),
{
    if pieces.len() == 0 {
        Seq::empty()
    } else {
        let rest = statements_of(pieces.drop_last());
        let t = trim(pieces.last());
        if t.len() == 0 {
            rest
        } else {
            rest.push(css_statement(t))
        }
    }
}

/// The statements of a `style` value: split at `;`, trimmed, the empty ones dropped.
pub open spec fn style_statements(value: Seq<char>) -> Seq<Seq<char>> {
    statements_of(split_on(value, ';'))
}

/// The words of `s` after the partial word `cur` (`str::split_whitespace`).
pub open spec fn words_after(s: Seq<char>, cur: Seq<char>) -> Seq<Seq<char>>
    decreases s.len(),
{
    if s.len() == 0 {
        if cur.len() == 0 {
            Seq::empty()
        } else {
            seq![cur]
        }
    } else if is_white_space(s[0]) {
        (if cur.len() == 0 {
            Seq::empty()
        } else {
            seq![cur]
        }) + words_after(s.drop_first(), Seq::empty())
    } else {
        words_after(s.drop_first(), cur.push(s[0]))
    }
}

/// The pieces of `s` between runs of white space.
pub open spec fn words(s: Seq<char>) -> Seq<Seq<char>> {
    words_after(s, Seq::empty())
}

/// An attribute as the pretty output holds it: a `class` with its classes sorted, a
/// `style` with its statements formatted and sorted, either dropped when it is empty; any
/// other attribute as it is.
pub open spec fn tidy_attribute(a: AttributeView) -> Option<AttributeView> {
    if a.name.local == "class"@ {
        let classes = words(a.value);
        if classes.len() == 0 {
            None
        } else {
            Some(AttributeView { name: a.name, value: join(sort_by(string_lt(), classes), seq![' ']) })
        }
    } else if a.name.local == "style"@ {
        let statements = style_statements(a.value);
        if statements.len() == 0 {
            None
        } else {
            Some(
                AttributeView {
                    name: a.name,
                    value: join(sort_by(string_lt(), statements), seq![' ']),
                },
            )
        }
    } else {
        Some(a)
    }
}

/// The tidied attributes that are kept, in order.
pub open spec fn tidy_attributes(attrs: Seq<AttributeView>) -> Seq<AttributeView>
    decreases attrs.len(),
{
    if attrs.len() == 0 {
        Seq::empty()
    } else {
        let rest = tidy_attributes(attrs.drop_last());
        match tidy_attribute(attrs.last()) {
            Some(a) => rest.push(a),
            None => rest,
        }
    }
}

/// The attributes of an element in the pretty output: tidied and sorted.
pub open spec fn pretty_attributes(attrs: Seq<AttributeView>) -> Seq<AttributeView> {
    sort_by(attribute_lt(), tidy_attributes(attrs))
}

fn css_statement_chars(content: &[char]) -> (r: Vec<char>)
    ensures
        r@ == css_statement(content@),
{
    let c = trim_chars(content);
    let k = first_index_from(c.as_slice(), ':', 0);
    assert(c@.skip(0) == c@);
    if k < c.len() {
        let key = slice_chars(c.as_slice(), 0, k);
        let mut r = trim_end_chars(key.as_slice());
        let value = slice_chars(c.as_slice(), k + 1, c.len());
        let start = trim_start_index(value.as_slice());
        let value = slice_chars(value.as_slice(), start, value.len());
        r.push(':');
        r.push(' ');
        append_chars(&mut r, value.as_slice());
        r.push(';');
        assert(c@.subrange(0, k as int) == c@.take(k as int));
        assert(c@.subrange(k + 1, c@.len() as int) == c@.skip(k + 1));
        r
    } else {
        let mut r = c;
        r.push(';');
        r
    }
}

/// Formats one CSS statement given without its `;`: `key: value;`, the key without white
/// space at its end and the value without white space at its start.
pub fn format_css_statement(content: &str) -> (r: String)
    ensures
        r@ == css_statement(content@),
{
    let v = to_chars(content);
    let r = css_statement_chars(v.as_slice());
    from_chars(r.as_slice())
}

spec fn char_views(v: Seq<Vec<char>>) -> Seq<Seq<char>> {
    v.map_values(|l: Vec<char>| l@)
}

fn words_of(v: &[char]) -> (r: Vec<Vec<char>>)
    ensures
        char_views(r@) == words(v@),
{
    let mut out: Vec<Vec<char>> = Vec::new();
    let mut cur: Vec<char> = Vec::new();
    let mut i: usize = 0;
    assert(v@.skip(0) == v@);
    while i < v.len()
        invariant
            i <= v@.len(),
            char_views(out@) + words_after(v@.skip(i as int), cur@) == words(v@),
        decreases v@.len() - i,
    {
        assert(v@.skip(i as int).drop_first() == v@.skip(i + 1));
        if is_white_space_char(v[i]) {
            if cur.len() > 0 {
                let ghost before = char_views(out@);
                out.push(cur);
                assert(char_views(out@) == before.push(cur@));
                assert(before.push(cur@) + words_after(v@.skip(i + 1), Seq::empty()) =~= before + (
                seq![cur@] + words_after(v@.skip(i + 1), Seq::empty())));
            } else {
                assert(Seq::<Seq<char>>::empty() + words_after(v@.skip(i + 1), Seq::empty())
                    =~= words_after(v@.skip(i + 1), Seq::empty()));
            }
            cur = Vec::new();
        } else {
            cur.push(v[i]);
        }
        i += 1;
    }
    if cur.len() > 0 {
        let ghost before = char_views(out@);
        out.push(cur);
        assert(char_views(out@) == before.push(cur@));
        assert(char_views(out@) =~= before + seq![cur@]);
    } else {
        assert(char_views(out@) + Seq::<Seq<char>>::empty() =~= char_views(out@));
    }
    out
}

fn strings_of(v: Vec<Vec<char>>) -> (r: Vec<String>)
    ensures
        string_views(r@) == char_views(v@),
{
    let mut r: Vec<String> = Vec::new();
    let mut i: usize = 0;
    while i < v.len()
        invariant
            i <= v@.len(),
            string_views(r@) == char_views(v@).take(i as int),
        decreases v@.len() - i,
    {
        let s = from_chars(v[i].as_slice());
        let ghost before = r@;
        r.push(s);
        assert(r@ == before.push(s));
        assert(string_views(r@) =~= string_views(before).push(s@));
        assert(char_views(v@).take(i + 1) =~= char_views(v@).take(i as int).push(v@[i as int]@));
        i += 1;
    }
    assert(char_views(v@).take(v@.len() as int) == char_views(v@));
    r
}

fn joined(parts: &Vec<String>) -> (r: Vec<char>)
    ensures
        r@ == join(string_views(parts@), seq![' ']),
{
    let mut cs: Vec<Vec<char>> = Vec::new();
    let mut i: usize = 0;
    while i < parts.len()
        invariant
            i <= parts@.len(),
            char_views(cs@) == string_views(parts@).take(i as int),
        decreases parts@.len() - i,
    {
        let c = to_chars(parts[i].as_str());
        let ghost before = cs@;
        cs.push(c);
        assert(cs@ == before.push(c));
        assert(char_views(cs@) =~= char_views(before).push(c@));
        assert(string_views(parts@).take(i + 1) =~= string_views(parts@).take(i as int).push(
            parts@[i as int]@,
        ));
        i += 1;
    }
    assert(string_views(parts@).take(parts@.len() as int) == string_views(parts@));
    let sep: Vec<char> = vec![' '];
    assert(sep@ =~= seq![' ']);
    join_chars(&cs, sep.as_slice())
}

fn style_statements_of(v: &[char]) -> (r: Vec<Vec<char>>)
    ensures
        char_views(r@) == style_statements(v@),
{
    let pieces = split_on_char(v, ';');
    let ghost ps = char_views(pieces@);
    assert(ps == split_on(v@, ';'));
    let mut r: Vec<Vec<char>> = Vec::new();
    let mut i: usize = 0;
    while i < pieces.len()
        invariant
            i <= pieces@.len(),
            ps == char_views(pieces@),
            char_views(r@) == statements_of(ps.take(i as int)),
        decreases pieces@.len() - i,
    {
        assert(ps.take(i + 1).drop_last() == ps.take(i as int));
        assert(ps.take(i + 1).last() == pieces@[i as int]@);
        let t = trim_chars(pieces[i].as_slice());
        if t.len() > 0 {
            let s = css_statement_chars(t.as_slice());
            let ghost before = r@;
            r.push(s);
            assert(r@ == before.push(s));
            assert(char_views(r@) =~= char_views(before).push(s@));
        }
        i += 1;
    }
    assert(ps.take(pieces@.len() as int) == ps);
    r
}

fn tidy_attribute_of(a: &Attribute) -> (r: Option<Attribute>)
    ensures
        match r {
            Some(x) => tidy_attribute(a@) == Some(x@),
            None => tidy_attribute(a@) is None,
        },
{
    let value = to_chars(a.value.as_str());
    let is_class = str_eq(a.name.local.as_str(), "class");
    let is_style = str_eq(a.name.local.as_str(), "style");
    if is_class || is_style {
        let parts = if is_class {
            words_of(value.as_slice())
        } else {
            style_statements_of(value.as_slice())
        };
        if parts.len() == 0 {
            None
        } else {
            let sorted = sort_strings(strings_of(parts));
            let v = joined(&sorted);
            Some(Attribute { name: copy_qname(&a.name), value: from_chars(v.as_slice()) })
        }
    } else {
        Some(Attribute { name: copy_qname(&a.name), value: a.value.clone() })
    }
}

/// The attributes of an element as the pretty output writes them.
pub fn pretty_attributes_of(attrs: &Vec<Attribute>) -> (r: Vec<Attribute>)
    ensures
        attrs_view(r@) == pretty_attributes(attrs_view(attrs@)),
{
    let ghost vs = attrs_view(attrs@);
    let mut kept: Vec<Attribute> = Vec::new();
    let mut i: usize = 0;
    while i < attrs.len()
        invariant
            i <= attrs@.len(),
            vs == attrs_view(attrs@),
            attrs_view(kept@) == tidy_attributes(vs.take(i as int)),
        decreases attrs@.len() - i,
    {
        assert(vs.take(i + 1).drop_last() == vs.take(i as int));
        assert(vs.take(i + 1).last() == attrs@[i as int]@);
        match tidy_attribute_of(&attrs[i]) {
            Some(a) => {
                let ghost before = kept@;
                kept.push(a);
                assert(kept@ == before.push(a));
                assert(attrs_view(kept@) =~= attrs_view(before).push(a@));
            },
            None => {},
        }
        i += 1;
    }
    assert(vs.take(attrs@.len() as int) == vs);
    sort_attributes(kept)
}

// ---------------------------------------------------------------------------------------
// The pretty walk.

/// `n` tabs.
pub open spec fn tabs(n: nat) -> Seq<char> {
    Seq::new(n, |i: int| '\t')
}

/// What the pretty serializer writes for one step, with the depth and the open nodes
/// after it.
pub open spec fn pretty_step(depth: nat, stack: Seq<FrameView>, e: EventView) -> (Seq<char>, nat, Seq<FrameView>) {
    match e {
        EventView::Open(node) => match node {
            NodeView::Element(name, attrs) => (
                tabs(depth) + (if ignoring(stack) {
                    Seq::empty()
                } else {
                    start_tag_text(name, pretty_attributes(attrs))
                }) + seq!['\n'],
                depth + 1,
                stack.push(FrameView::Element(name, ignoring(stack) || is_void(name))),
            ),
            NodeView::Text(t) => (
                if trim(t).len() == 0 {
                    Seq::empty()
                } else {
                    tabs(depth) + trim(t) + seq!['\n']
                },
                depth,
                stack.push(FrameView::Leaf),
            ),
            NodeView::Comment(t) => (tabs(depth) + comment_text(t) + seq!['\n'], depth, stack.push(FrameView::Leaf)),
            NodeView::Doctype(n) => (tabs(depth) + doctype_text(n) + seq!['\n'], depth, stack.push(FrameView::Leaf)),
            NodeView::Other => (Seq::empty(), depth, stack.push(FrameView::Leaf)),
        },
        EventView::Close => if stack.len() == 0 {
            (Seq::empty(), depth, stack)
        } else {
            match stack.last() {
                FrameView::Element(name, ignore) => {
                    let d: nat = if depth > 0 { (depth - 1) as nat } else { 0 };
                    (
                        tabs(d) + (if ignore {
                            Seq::empty()
                        } else {
                            end_tag_text(name)
                        }) + seq!['\n'],
                        d,
                        stack.drop_last(),
                    )
                },
                FrameView::Leaf => (Seq::empty(), depth, stack.drop_last()),
            }
        },
    }
}

/// What the pretty serializer writes for the walk, with the depth and the open nodes at
/// its end.
pub open spec fn pretty_run(events: Seq<EventView>) -> (Seq<char>, nat, Seq<FrameView>)
    decreases events.len(),
{
    if events.len() == 0 {
        (Seq::empty(), 0, Seq::empty())
    } else {
        let before = pretty_run(events.drop_last());
        let step = pretty_step(before.1, before.2, events.last());
        (before.0 + step.0, step.1, step.2)
    }
}

/// The lines without white space at their end, the empty ones dropped.
pub open spec fn kept_lines(ls: Seq<Seq<char>>) -> Seq<Seq<char>>
    decreases ls.len(),
{
    if ls.len() == 0 {
        Seq::empty()
    } else {
        let rest = kept_lines(ls.drop_last());
        let t = trim_end(ls.last());
        if t.len() == 0 {
            rest
        } else {
            rest.push(t)
        }
    }
}

/// The pretty HTML of a walk.
pub open spec fn prettified(events: Seq<EventView>) -> Seq<char> {
    join(kept_lines(lines(pretty_run(events).0)), seq!['\n'])
}

/// A node entered and not yet left, while pretty markup is written.
enum PrettyFrame {
    Element(QName, bool),
    Leaf,
}

impl View for PrettyFrame {
    type V = FrameView;

    closed spec fn view(&self) -> FrameView {
        match self {
            PrettyFrame::Element(n, ignore) => FrameView::Element(n@, *ignore),
            PrettyFrame::Leaf => FrameView::Leaf,
        }
    }
}

spec fn pretty_frames(stack: Seq<PrettyFrame>) -> Seq<FrameView> {
    stack.map_values(|f: PrettyFrame| f@)
}

fn innermost_element(stack: &Vec<PrettyFrame>) -> (r: bool)
    ensures
        r == ignoring(pretty_frames(stack@)),
{
    let mut j = stack.len();
    assert(stack@.take(j as int) =~= stack@);
    while j > 0
        invariant
            j <= stack@.len(),
            ignoring(pretty_frames(stack@)) == ignoring(pretty_frames(stack@.take(j as int))),
        decreases j,
    {
        assert(pretty_frames(stack@.take(j as int)).drop_last() == pretty_frames(stack@.take(j - 1)));
        assert(pretty_frames(stack@.take(j as int)).last() == stack@[j - 1]@);
        match &stack[j - 1] {
            PrettyFrame::Element(_, ignore) => {
                return *ignore;
            },
            PrettyFrame::Leaf => {},
        }
        j -= 1;
    }
    assert(pretty_frames(stack@.take(0)) =~= Seq::<FrameView>::empty());
    false
}

fn push_tabs(out: &mut Vec<char>, n: usize)
    ensures
        final(out)@ == old(out)@ + tabs(n as nat),
{
    let mut i: usize = 0;
    while i < n
        invariant
            i <= n,
            out@ == old(out)@ + tabs(i as nat),
        decreases n - i,
    {
        out.push('\t');
        assert(tabs((i + 1) as nat) =~= tabs(i as nat).push('\t'));
        i += 1;
    }
}

fn push_str(out: &mut Vec<char>, s: &str)
    ensures
        final(out)@ == old(out)@ + s@,
{
    let cs = to_chars(s);
    append_chars(out, cs.as_slice());
}

/// What the pretty serializer writes for the walk.
#[verifier::rlimit(40)]
#[verifier::spinoff_prover]
fn pretty_raw(events: &Vec<DomEvent>) -> (r: Vec<char>)
    ensures
        r@ == pretty_run(events_view(events@)).0,
{
    let ghost evs = events_view(events@);
    let mut out: Vec<char> = Vec::new();
    let mut depth: usize = 0;
    let mut stack: Vec<PrettyFrame> = Vec::new();
    let mut i: usize = 0;
    while i < events.len()
        invariant
            i <= events@.len(),
            evs == events_view(events@),
            out@ == pretty_run(evs.take(i as int)).0,
            depth == pretty_run(evs.take(i as int)).1,
            pretty_frames(stack@) == pretty_run(evs.take(i as int)).2,
            depth <= i,
        decreases events@.len() - i,
    {
        assert(evs.take(i + 1).drop_last() == evs.take(i as int));
        assert(evs.take(i + 1).last() == events@[i as int]@);
        let ghost st = pretty_frames(stack@);
        match &events[i] {
            DomEvent::Open(node) => {
                let ignore = innermost_element(&stack);
                match node {
                    NodeData::Element(name, attrs) => {
                        push_tabs(&mut out, depth);
                        if !ignore {
                            let tidy = pretty_attributes_of(attrs);
                            let s = start_tag_markup(name, &tidy);
                            push_str(&mut out, s.as_str());
                        }
                        out.push('\n');
                        depth += 1;
                        let end = end_tag_markup(name);
                        let void = end.as_str().is_empty();
                        assert(void == is_void(name@)) by {
                            if !is_void(name@) {
                                reveal_strlit("</");
                                assert(end_tag_text(name@).len() > 0);
                            }
                        }
                        stack.push(PrettyFrame::Element(copy_qname(name), ignore || void));
                    },
                    NodeData::Text(t) => {
                        let tc = to_chars(t.as_str());
                        let tt = trim_chars(tc.as_slice());
                        if tt.len() > 0 {
                            push_tabs(&mut out, depth);
                            append_chars(&mut out, tt.as_slice());
                            out.push('\n');
                        }
                        stack.push(PrettyFrame::Leaf);
                    },
                    NodeData::Comment(t) => {
                        push_tabs(&mut out, depth);
                        let s = comment_markup(t.as_str());
                        push_str(&mut out, s.as_str());
                        out.push('\n');
                        stack.push(PrettyFrame::Leaf);
                    },
                    NodeData::Doctype(n) => {
                        push_tabs(&mut out, depth);
                        let s = doctype_markup(n.as_str());
                        push_str(&mut out, s.as_str());
                        out.push('\n');
                        stack.push(PrettyFrame::Leaf);
                    },
                    NodeData::Other => {
                        stack.push(PrettyFrame::Leaf);
                    },
                }
                assert(pretty_frames(stack@) == st.push(stack@.last()@));
            },
            DomEvent::Close => {
                if stack.len() > 0 {
                    let top = stack.pop().unwrap();
                    assert(pretty_frames(stack@) == st.drop_last());
                    match top {
                        PrettyFrame::Element(name, ignore) => {
                            if depth > 0 {
                                depth -= 1;
                            }
                            push_tabs(&mut out, depth);
                            if !ignore {
                                let s = end_tag_markup(&name);
                                push_str(&mut out, s.as_str());
                            }
                            out.push('\n');
                        },
                        PrettyFrame::Leaf => {},
                    }
                }
            },
        }
        i += 1;
    }
    assert(evs.take(events@.len() as int) == evs);
    out
}

/// The lines of `raw` without white space at their end, the empty ones dropped, joined by
/// `\n`.
fn tidy_lines(raw: &[char]) -> (r: Vec<char>)
    ensures
        r@ == join(kept_lines(lines(raw@)), seq!['\n']),
{
    let ls = lines_of(raw);
    let ghost lv = char_views(ls@);
    assert(lv == lines(raw@));
    let mut kept: Vec<Vec<char>> = Vec::new();
    let mut i: usize = 0;
    while i < ls.len()
        invariant
            i <= ls@.len(),
            lv == char_views(ls@),
            char_views(kept@) == kept_lines(lv.take(i as int)),
        decreases ls@.len() - i,
    {
        assert(lv.take(i + 1).drop_last() == lv.take(i as int));
        assert(lv.take(i + 1).last() == ls@[i as int]@);
        let t = trim_end_chars(ls[i].as_slice());
        if t.len() > 0 {
            let ghost before = kept@;
            kept.push(t);
            assert(kept@ == before.push(t));
            assert(char_views(kept@) =~= char_views(before).push(t@));
        }
        i += 1;
    }
    assert(lv.take(ls@.len() as int) == lv);
    let sep: Vec<char> = vec!['\n'];
    assert(sep@ =~= seq!['\n']);
    join_chars(&kept, sep.as_slice())
}

/// The document that scraper parses of `html`, written one tag, text or comment per line,
/// indented by one tab per level, the text trimmed, the classes sorted, the style
/// statements formatted and sorted and the attributes sorted; no empty lines and no white
/// space at their ends.
pub fn prettify(html: &str) -> (r: String)
    ensures
        r@ == prettified(parsed_document(html@)),
{
    let events = document_events(html);
    let raw = pretty_raw(&events);
    let tidy = tidy_lines(raw.as_slice());
    from_chars(tidy.as_slice())
}

} // verus!
