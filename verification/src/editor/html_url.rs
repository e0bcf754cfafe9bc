//! Links made absolute.
use crate::dom::{
    DomEvent, EventView, FrameView, NodeData, NodeView, copy_qname, document_events, events_view,
    ignoring, parsed_document,
};
use crate::markup::{
    Attribute, AttributeView, QName, attrs_view, comment_markup, comment_text, doctype_markup,
    doctype_text, end_tag_markup, end_tag_text, is_void, start_tag_markup, start_tag_text,
};
use crate::order::str_eq;
use crate::weburl::{SiteUrl, joined_url};
use vstd::prelude::*;

verus! {

broadcast use vstd::string::group_string_axioms;

/// An attribute with a `href` or `src` value resolved against `base`, where the `url`
/// crate can; any other attribute as it is.
pub open spec fn canonical_attribute(base: Seq<char>, a: AttributeView) -> AttributeView {
    if a.name.local == "href"@ || a.name.local == "src"@ {
        match joined_url(base, a.value) {
            Some(u) => AttributeView { name: a.name, value: u.serialization },
            None => a,
        }
    } else {
        a
    }
}

/// What is written for one step, and the open nodes after it: tags as the serializer
/// writes them with the links resolved, text as it is.
pub open spec fn canonical_step(base: Seq<char>, stack: Seq<FrameView>, e: EventView) -> (Seq<char>, Seq<FrameView>) {
    match e {
        EventView::Open(node) => match node {
            NodeView::Element(name, attrs) => (
                if ignoring(stack) {
                    Seq::empty()
                } else {
                    start_tag_text(name, attrs.map_values(|a: AttributeView| canonical_attribute(base, a)))
                },
                stack.push(FrameView::Element(name, ignoring(stack) || is_void(name))),
            ),
            NodeView::Text(t) => (t, stack.push(FrameView::Leaf)),
            NodeView::Comment(t) => (comment_text(t), stack.push(FrameView::Leaf)),
            NodeView::Doctype(n) => (doctype_text(n), stack.push(FrameView::Leaf)),
            NodeView::Other => (Seq::empty(), stack.push(FrameView::Leaf)),
        },
        EventView::Close => if stack.len() == 0 {
            (Seq::empty(), stack)
        } else {
            (
                match stack.last() {
                    FrameView::Element(name, ignore) => if ignore {
                        Seq::empty()
                    } else {
                        end_tag_text(name)
                    },
                    FrameView::Leaf => Seq::empty(),
                },
                stack.drop_last(),
            )
        },
    }
}

/// What is written for the walk, and the nodes left open.
pub open spec fn canonical_run(base: Seq<char>, events: Seq<EventView>) -> (Seq<char>, Seq<FrameView>)
    decreases events.len(),
{
    if events.len() == 0 {
        (Seq::empty(), Seq::empty())
    } else {
        let before = canonical_run(base, events.drop_last());
        let step = canonical_step(base, before.1, events.last());
        (before.0 + step.0, step.1)
    }
}

/// The walk has no `href` or `src` attribute, and no text that escaping would change.
pub open spec fn plain_walk(events: Seq<EventView>) -> bool {
    forall|i: int|
        0 <= i < events.len() ==> match #[trigger] events[i] {
            EventView::Open(NodeView::Element(_, attrs)) => forall|k: int|
                0 <= k < attrs.len() ==> (#[trigger] attrs[k]).name.local != "href"@ && attrs[k].name.local != "src"@,
            EventView::Open(NodeView::Text(t)) => crate::markup::escaped(t, false) == t,
            _ => true,
        }
}

/// Canonicalizing changes only the values of `href` and `src` attributes: a walk without
/// them (and with no text that escaping changes) is written as scraper writes the
/// document, doctype, comments, tags and texts alike, with the same nodes left open.
pub proof fn law_canonical_changes_only_links(base: Seq<char>, events: Seq<EventView>)
    requires
        plain_walk(events),
    ensures
        canonical_run(base, events) == crate::dom::markup_run(events),
    decreases events.len(),
{
    if events.len() > 0 {
        let init = events.drop_last();
        assert(plain_walk(init)) by {
            assert forall|i: int| 0 <= i < init.len() implies match #[trigger] init[i] {
                EventView::Open(NodeView::Element(_, attrs)) => forall|k: int|
                    0 <= k < attrs.len() ==> (#[trigger] attrs[k]).name.local != "href"@ && attrs[k].name.local
                        != "src"@,
                EventView::Open(NodeView::Text(t)) => crate::markup::escaped(t, false) == t,
                _ => true,
            } by {
                assert(init[i] == events[i]);
            }
        }
        law_canonical_changes_only_links(base, init);
        let e = events.last();
        assert(e == events[events.len() - 1]);
        match e {
            EventView::Open(NodeView::Element(name, attrs)) => {
                assert(attrs.map_values(|a: AttributeView| canonical_attribute(base, a)) =~= attrs);
            },
            _ => {},
        }
    }
}

enum UrlFrame {
    Element(QName, bool),
    Leaf,
}

impl View for UrlFrame {
    type V = FrameView;

    closed spec fn view(&self) -> FrameView {
        match self {
            UrlFrame::Element(n, ignore) => FrameView::Element(n@, *ignore),
            UrlFrame::Leaf => FrameView::Leaf,
        }
    }
}

spec fn url_frames(stack: Seq<UrlFrame>) -> Seq<FrameView> {
    stack.map_values(|f: UrlFrame| f@)
}

fn ignoring_now(stack: &Vec<UrlFrame>) -> (r: bool)
    ensures
        r == ignoring(url_frames(stack@)),
{
    let mut j = stack.len();
    assert(stack@.take(j as int) =~= stack@);
    while j > 0
        invariant
            j <= stack@.len(),
            ignoring(url_frames(stack@)) == ignoring(url_frames(stack@.take(j as int))),
        decreases j,
    {
        assert(url_frames(stack@.take(j as int)).drop_last() == url_frames(stack@.take(j - 1)));
        assert(url_frames(stack@.take(j as int)).last() == stack@[j - 1]@);
        match &stack[j - 1] {
            UrlFrame::Element(_, ignore) => {
                return *ignore;
            },
            UrlFrame::Leaf => {},
        }
        j -= 1;
    }
    assert(url_frames(stack@.take(0)) =~= Seq::<FrameView>::empty());
    false
}

fn canonical_attributes(url: &SiteUrl, attrs: &Vec<Attribute>) -> (r: Vec<Attribute>)
    ensures
        attrs_view(r@) == attrs_view(attrs@).map_values(
            |a: AttributeView| canonical_attribute(url@.serialization, a),
        ),
{
    let ghost target = attrs_view(attrs@).map_values(
        |a: AttributeView| canonical_attribute(url@.serialization, a),
    );
    let mut r: Vec<Attribute> = Vec::new();
    let mut i: usize = 0;
    while i < attrs.len()
        invariant
            i <= attrs@.len(),
            target == attrs_view(attrs@).map_values(
                |a: AttributeView| canonical_attribute(url@.serialization, a),
            ),
            attrs_view(r@) == target.take(i as int),
        decreases attrs@.len() - i,
    {
        let a = &attrs[i];
        let is_link = str_eq(a.name.local.as_str(), "href") || str_eq(a.name.local.as_str(), "src");
        let value = if is_link {
            match url.join(a.value.as_str()) {
                Some(u) => u.as_str().to_string(),
                None => a.value.clone(),
            }
        } else {
            a.value.clone()
        };
        let x = Attribute { name: copy_qname(&a.name), value };
        assert(x@ == target[i as int]);
        let ghost prev = r@;
        r.push(x);
        assert(r@ == prev.push(x));
        assert(attrs_view(r@) =~= attrs_view(prev).push(x@));
        assert(target.take(i + 1) =~= target.take(i as int).push(target[i as int]));
        i += 1;
    }
    assert(target.take(attrs@.len() as int) == target);
    r
}

/// The document that scraper parses of `html`, written as scraper writes it but with each
/// `href` and `src` attribute resolved against `url` (kept as it is where the `url` crate
/// cannot resolve it) and the text written as it is.
pub fn canonicalize(url: &SiteUrl, html: &str) -> (r: String)
    ensures
        r@ == canonical_run(url@.serialization, parsed_document(html@)).0,
{
    let events = document_events(html);
    let ghost evs = events_view(events@);
    let ghost base = url@.serialization;
    let mut out = String::new();
    let mut stack: Vec<UrlFrame> = Vec::new();
    let mut i: usize = 0;
    while i < events.len()
        invariant
            i <= events@.len(),
            evs == events_view(events@),
            base == url@.serialization,
            out@ == canonical_run(base, evs.take(i as int)).0,
            url_frames(stack@) == canonical_run(base, evs.take(i as int)).1,
        decreases events@.len() - i,
    {
        assert(evs.take(i + 1).drop_last() == evs.take(i as int));
        assert(evs.take(i + 1).last() == events@[i as int]@);
        let ghost st = url_frames(stack@);
        match &events[i] {
            DomEvent::Open(node) => {
                let ignore = ignoring_now(&stack);
                match node {
                    NodeData::Element(name, attrs) => {
                        if !ignore {
                            let resolved = canonical_attributes(url, attrs);
                            let s = start_tag_markup(name, &resolved);
                            out.append(s.as_str());
                        }
                        let end = end_tag_markup(name);
                        let void = end.as_str().is_empty();
                        assert(void == is_void(name@)) by {
                            if !is_void(name@) {
                                reveal_strlit("</");
                                assert(end_tag_text(name@).len() > 0);
                            }
                        }
                        stack.push(UrlFrame::Element(copy_qname(name), ignore || void));
                    },
                    NodeData::Text(t) => {
                        out.append(t.as_str());
                        stack.push(UrlFrame::Leaf);
                    },
                    NodeData::Comment(t) => {
                        let s = comment_markup(t.as_str());
                        out.append(s.as_str());
                        stack.push(UrlFrame::Leaf);
                    },
                    NodeData::Doctype(n) => {
                        let s = doctype_markup(n.as_str());
                        out.append(s.as_str());
                        stack.push(UrlFrame::Leaf);
                    },
                    NodeData::Other => {
                        stack.push(UrlFrame::Leaf);
                    },
                }
                assert(url_frames(stack@) == st.push(stack@.last()@));
            },
            DomEvent::Close => {
                if stack.len() > 0 {
                    let top = stack.pop().unwrap();
                    assert(url_frames(stack@) == st.drop_last());
                    match top {
                        UrlFrame::Element(name, ignore) => {
                            if !ignore {
                                let s = end_tag_markup(&name);
                                out.append(s.as_str());
                            }
                        },
                        UrlFrame::Leaf => {},
                    }
                }
            },
        }
        i += 1;
    }
    assert(evs.take(events@.len() as int) == evs);
    out
}

} // verus!
