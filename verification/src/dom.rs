//! An HTML document as the walk through its tree: each node is opened, its children are
//! walked, and it is closed again. Parsing and CSS selector matching are scraper's; what
//! the editors do to the walk, and how the walk is written back as markup, is here.
use crate::markup::{
    Attribute, AttributeView, QName, QNameView, attrs_view, comment_markup, comment_text,
    doctype_markup, doctype_text, end_tag_markup, end_tag_text, is_void, start_tag_markup,
    start_tag_text, text_markup, text_node_text,
};
use ego_tree::iter::Edge;
use scraper::Node;
use vstd::prelude::*;

verus! {

/// What a node of the document holds.
pub enum NodeData {
    /// An element with its name and attributes.
    Element(QName, Vec<Attribute>),
    Text(String),
    Comment(String),
    /// A doctype with its name.
    Doctype(String),
    /// The document itself, a fragment or a processing instruction: nothing of them is
    /// written out.
    Other,
}

/// One step of the walk through the document tree.
pub enum DomEvent {
    /// A node is entered.
    Open(NodeData),
    /// The node entered last and not yet left is left.
    Close,
}

/// The plain value of a node.
pub enum NodeView {
    Element(QNameView, Seq<AttributeView>),
    Text(Seq<char>),
    Comment(Seq<char>),
    Doctype(Seq<char>),
    Other,
}

/// The plain value of a step of the walk.
pub enum EventView {
    Open(NodeView),
    Close,
}

impl View for NodeData {
    type V = NodeView;

    open spec fn view(&self) -> NodeView {
        match self {
            NodeData::Element(n, a) => NodeView::Element(n@, attrs_view(a@)),
            NodeData::Text(t) => NodeView::Text(t@),
            NodeData::Comment(t) => NodeView::Comment(t@),
            NodeData::Doctype(n) => NodeView::Doctype(n@),
            NodeData::Other => NodeView::Other,
        }
    }
}

impl View for DomEvent {
    type V = EventView;

    open spec fn view(&self) -> EventView {
        match self {
            DomEvent::Open(n) => EventView::Open(n@),
            DomEvent::Close => EventView::Close,
        }
    }
}

/// The plain values of a walk.
pub open spec fn events_view(events: Seq<DomEvent>) -> Seq<EventView> {
    events.map_values(|e: DomEvent| e@)
}

/// The walk through the tree that scraper's `Html::parse_document` builds of `html`.
pub uninterp spec fn parsed_document(html: Seq<char>) -> Seq<EventView>;

/// Whether scraper's `Selector::parse` accepts `selector`.
pub uninterp spec fn selector_parses(selector: Seq<char>) -> bool;

/// scraper's parse error of `selector`, as `{:?}` writes it.
pub uninterp spec fn selector_error_debug(selector: Seq<char>) -> Seq<char>;

/// For each step of the walk of `parsed_document(html)`, whether it enters an element
/// that the selector matches.
pub uninterp spec fn selected_flags(html: Seq<char>, selector: Seq<char>) -> Seq<bool>;

/// The markup (`ElementRef::html`) of each element that scraper's `Html::select` hands
/// out for the selector, in its order.
pub uninterp spec fn selected_markup(html: Seq<char>, selector: Seq<char>) -> Seq<Seq<char>>;

/// html5ever's qualified name of an element or attribute.
#[verifier::external_type_specification]
#[verifier::external_body]
pub struct ExQualName(html5ever::QualName);

/// The prefix, namespace and local name that a `QualName` holds.
pub uninterp spec fn qual_name_view(q: html5ever::QualName) -> QNameView;

/// A node as scraper holds it, its names still html5ever's.
pub enum RawNode {
    Element(html5ever::QualName, Vec<(html5ever::QualName, String)>),
    Text(String),
    Comment(String),
    Doctype(String),
    Other,
}

/// A step of the walk as scraper's tree gives it.
pub enum RawEvent {
    Open(RawNode),
    Close,
}

/// The plain value of a raw step.
pub open spec fn raw_event_view(e: RawEvent) -> EventView {
    match e {
        RawEvent::Open(n) => EventView::Open(
            match n {
                RawNode::Element(name, attrs) => NodeView::Element(
                    qual_name_view(name),
                    attrs@.map_values(
                        |a: (html5ever::QualName, String)|
                            AttributeView { name: qual_name_view(a.0), value: a.1@ },
                    ),
                ),
                RawNode::Text(t) => NodeView::Text(t@),
                RawNode::Comment(t) => NodeView::Comment(t@),
                RawNode::Doctype(t) => NodeView::Doctype(t@),
                RawNode::Other => NodeView::Other,
            },
        ),
        RawEvent::Close => EventView::Close,
    }
}

/// scraper's `Html::parse_document`, then ego_tree's `traverse` from the root: each edge
/// with a copy of its node's data.
#[verifier::external_body]
fn parse_walk(html: &str) -> (r: Vec<RawEvent>)
    ensures
        r@.map_values(|e: RawEvent| raw_event_view(e)) == parsed_document(html@),
{
    let doc = scraper::Html::parse_document(html);
    doc.tree.root().traverse().map(|edge| match edge {
        Edge::Close(_) => RawEvent::Close,
        Edge::Open(n) => RawEvent::Open(match n.value() {
            Node::Element(e) => RawNode::Element(e.name.clone(), e.attrs.iter().map(|(k, v)| (k.clone(), v.to_string())).collect()),
            Node::Text(t) => RawNode::Text(t.to_string()),
            Node::Comment(c) => RawNode::Comment(c.to_string()),
            Node::Doctype(d) => RawNode::Doctype(d.name().to_string()),
            _ => RawNode::Other,
        }),
    }).collect()
}

/// The prefix, namespace and local name of an html5ever `QualName` as strings.
#[verifier::external_body]
fn qual_name_parts(q: &html5ever::QualName) -> (r: QName)
    ensures
        r@ == qual_name_view(*q),
{
    QName { prefix: q.prefix.as_ref().map(|p| p.to_string()), ns: q.ns.to_string(), local: q.local.to_string() }
}

fn convert_event(e: &RawEvent) -> (r: DomEvent)
    ensures
        r@ == raw_event_view(*e),
{
    match e {
        RawEvent::Close => DomEvent::Close,
        RawEvent::Open(RawNode::Element(name, attrs)) => {
            let mut converted: Vec<Attribute> = Vec::new();
            let mut i: usize = 0;
            while i < attrs.len()
                invariant
                    i <= attrs@.len(),
                    attrs_view(converted@) == attrs@.take(i as int).map_values(
                        |a: (html5ever::QualName, String)|
                            AttributeView { name: qual_name_view(a.0), value: a.1@ },
                    ),
                decreases attrs@.len() - i,
            {
                let a = Attribute { name: qual_name_parts(&attrs[i].0), value: attrs[i].1.clone() };
                let ghost prev = converted@;
                converted.push(a);
                assert(converted@ == prev.push(a));
                assert(attrs_view(converted@) =~= attrs_view(prev).push(a@));
                assert(attrs@.take(i + 1) == attrs@.take(i as int).push(attrs@[i as int]));
                assert(attrs_view(converted@) =~= attrs@.take(i + 1).map_values(
                    |a: (html5ever::QualName, String)|
                        AttributeView { name: qual_name_view(a.0), value: a.1@ },
                ));
                i += 1;
            }
            assert(attrs@.take(attrs@.len() as int) == attrs@);
            DomEvent::Open(NodeData::Element(qual_name_parts(name), converted))
        },
        RawEvent::Open(RawNode::Text(t)) => DomEvent::Open(NodeData::Text(t.clone())),
        RawEvent::Open(RawNode::Comment(t)) => DomEvent::Open(NodeData::Comment(t.clone())),
        RawEvent::Open(RawNode::Doctype(t)) => DomEvent::Open(NodeData::Doctype(t.clone())),
        RawEvent::Open(RawNode::Other) => DomEvent::Open(NodeData::Other),
    }
}

/// The walk through the document that scraper parses of `html`.
pub fn document_events(html: &str) -> (r: Vec<DomEvent>)
    ensures
        events_view(r@) == parsed_document(html@),
{
    let raw = parse_walk(html);
    let ghost rv = raw@.map_values(|e: RawEvent| raw_event_view(e));
    let mut r: Vec<DomEvent> = Vec::new();
    let mut i: usize = 0;
    while i < raw.len()
        invariant
            i <= raw@.len(),
            rv == raw@.map_values(|e: RawEvent| raw_event_view(e)),
            events_view(r@) == rv.take(i as int),
        decreases raw@.len() - i,
    {
        let e = convert_event(&raw[i]);
        let ghost prev = r@;
        r.push(e);
        assert(r@ == prev.push(e));
        assert(events_view(r@) =~= events_view(prev).push(e@));
        assert(rv[i as int] == raw_event_view(raw@[i as int]));
        assert(rv.take(i + 1) =~= rv.take(i as int).push(rv[i as int]));
        i += 1;
    }
    assert(rv.take(raw@.len() as int) == rv);
    r
}

/// scraper's `Selector::parse`: `None` where it succeeds, else its error as `{:?}` writes
/// it.
#[verifier::external_body]
fn selector_parse_error(selector: &str) -> (r: Option<String>)
    ensures
        r is None <==> selector_parses(selector@),
        r matches Some(m) ==> m@ == selector_error_debug(selector@),
{
    scraper::Selector::parse(selector).err().map(|e| format!("{e:?}"))
}

/// scraper's `Selector::matches` on each element of the walk of the parsed document (the
/// same walk as `document_events`): one flag per step, true only where an element is
/// entered.
#[verifier::external_body]
fn selection_flags(html: &str, selector: &str) -> (r: Vec<bool>)
    requires
        selector_parses(selector@),
    ensures
        r@ == selected_flags(html@, selector@),
        r@.len() == parsed_document(html@).len(),
        forall|i: int|
            0 <= i < r@.len() && #[trigger] r@[i] ==> parsed_document(html@)[i] matches EventView::Open(
                NodeView::Element(_, _),
            ),
{
    let doc = scraper::Html::parse_document(html);
    let Ok(selector) = scraper::Selector::parse(selector) else { return Vec::new() };
    doc.tree.root().traverse().map(|edge| match edge {
        Edge::Open(n) => scraper::ElementRef::wrap(n).is_some_and(|e| selector.matches(&e)),
        Edge::Close(_) => false,
    }).collect()
}

/// scraper's `Html::select` on the parsed document, each element written with
/// `ElementRef::html`.
#[verifier::external_body]
fn select_markup(html: &str, selector: &str) -> (r: Vec<String>)
    requires
        selector_parses(selector@),
    ensures
        r@.map_values(|s: String| s@) == selected_markup(html@, selector@),
{
    let doc = scraper::Html::parse_document(html);
    let Ok(selector) = scraper::Selector::parse(selector) else { return Vec::new() };
    doc.select(&selector).map(|e| e.html()).collect()
}

/// A CSS selector that scraper accepts.
pub struct CssSelector {
    source: String,
}

/// A CSS selector that scraper refuses, with scraper's error.
#[derive(Debug)]
pub struct SelectorError {
    pub selector: String,
    pub error: String,
}

impl SelectorError {
    /// The message that reports the refusal.
    pub fn message(&self) -> (r: String)
        ensures
            r@ == "css selector ("@ + self.selector@ + ") parse error: "@ + self.error@,
    {
        let mut m = "css selector (".to_string();
        m.append(self.selector.as_str());
        m.append(") parse error: ");
        m.append(self.error.as_str());
        m
    }
}

impl View for CssSelector {
    type V = Seq<char>;

    closed spec fn view(&self) -> Seq<char> {
        self.source@
    }
}

impl CssSelector {
    #[verifier::type_invariant]
    closed spec fn parses(&self) -> bool {
        selector_parses(self.source@)
    }

    /// The selector written as `source`, where scraper accepts it.
    pub fn parse(source: &str) -> (r: Result<CssSelector, SelectorError>)
        ensures
            r is Ok <==> selector_parses(source@),
            r matches Ok(s) ==> s@ == source@,
            r matches Err(e) ==> e.selector@ == source@ && e.error@ == selector_error_debug(source@),
    {
        match selector_parse_error(source) {
            None => Ok(CssSelector { source: source.to_string() }),
            Some(error) => Err(SelectorError { selector: source.to_string(), error }),
        }
    }

    /// A copy of the selector.
    pub fn duplicate(&self) -> (r: CssSelector)
        ensures
            r@ == self@,
    {
        proof {
            use_type_invariant(self);
        }
        CssSelector { source: self.source.clone() }
    }

    /// The selector as it was written; scraper accepts it.
    pub fn as_str(&self) -> (r: &str)
        ensures
            r@ == self@,
            selector_parses(r@),
    {
        proof {
            use_type_invariant(self);
        }
        self.source.as_str()
    }
}

/// Checks a CSS selector: `Ok` where scraper accepts it.
pub fn selector_is_valid(selector: &str) -> (r: Result<(), SelectorError>)
    ensures
        r is Ok <==> selector_parses(selector@),
        r matches Err(e) ==> e.selector@ == selector@ && e.error@ == selector_error_debug(selector@),
{
    match CssSelector::parse(selector) {
        Ok(_) => Ok(()),
        Err(e) => Err(e),
    }
}

// ---------------------------------------------------------------------------------------
// Writing a walk back as markup, as `Html::html` does.

/// What is known of a node that is entered and not yet left.
pub enum FrameView {
    /// An element, and whether the serializer writes nothing of it and of the elements in
    /// it (it is inside a void element).
    Element(QNameView, bool),
    /// Any other node.
    Leaf,
}

/// The innermost open element, with its flag, if any.
pub open spec fn nearest_element(stack: Seq<FrameView>) -> Option<(QNameView, bool)>
    decreases stack.len(),
{
    if stack.len() == 0 {
        None
    } else {
        match stack.last() {
            FrameView::Element(n, ignore) => Some((n, ignore)),
            FrameView::Leaf => nearest_element(stack.drop_last()),
        }
    }
}

/// Whether the serializer writes no tags at this point of the walk.
pub open spec fn ignoring(stack: Seq<FrameView>) -> bool {
    match nearest_element(stack) {
        Some(p) => p.1,
        None => false,
    }
}

/// The name of the innermost open element, if any.
pub open spec fn parent_name(stack: Seq<FrameView>) -> Option<QNameView> {
    match nearest_element(stack) {
        Some(p) => Some(p.0),
        None => None,
    }
}

/// What the serializer writes for one step, and the open nodes after it.
pub open spec fn markup_step(stack: Seq<FrameView>, e: EventView) -> (Seq<char>, Seq<FrameView>) {
    match e {
        EventView::Open(node) => match node {
            NodeView::Element(name, attrs) => (
                if ignoring(stack) {
                    Seq::empty()
                } else {
                    start_tag_text(name, attrs)
                },
                stack.push(FrameView::Element(name, ignoring(stack) || is_void(name))),
            ),
            NodeView::Text(t) => (text_node_text(parent_name(stack), t), stack.push(FrameView::Leaf)),
            NodeView::Comment(t) => (comment_text(t), stack.push(FrameView::Leaf)),
            NodeView::Doctype(n) => (doctype_text(n), stack.push(FrameView::Leaf)),
            NodeView::Other => (Seq::empty(), stack.push(FrameView::Leaf)),
        },
        EventView::Close => if stack.len() == 0 {
            (Seq::empty(), stack)
        } else {
            (
                match stack.last() {
                    FrameView::Element(name, ignore) => if ignore {
                        Seq::empty()
                    } else {
                        end_tag_text(name)
                    },
                    FrameView::Leaf => Seq::empty(),
                },
                stack.drop_last(),
            )
        },
    }
}

/// The markup written for the walk, and the nodes left open at its end.
pub open spec fn markup_run(events: Seq<EventView>) -> (Seq<char>, Seq<FrameView>)
    decreases events.len(),
{
    if events.len() == 0 {
        (Seq::empty(), Seq::empty())
    } else {
        let before = markup_run(events.drop_last());
        let step = markup_step(before.1, events.last());
        (before.0 + step.0, step.1)
    }
}

/// The markup of a walk, as scraper's `Html::html` writes the document.
pub open spec fn document_markup(events: Seq<EventView>) -> Seq<char> {
    markup_run(events).0
}

/// A node entered and not yet left, while markup is written.
enum Frame {
    Element(QName, bool),
    Leaf,
}

impl View for Frame {
    type V = FrameView;

    closed spec fn view(&self) -> FrameView {
        match self {
            Frame::Element(n, ignore) => FrameView::Element(n@, *ignore),
            Frame::Leaf => FrameView::Leaf,
        }
    }
}

spec fn frames_view(stack: Seq<Frame>) -> Seq<FrameView> {
    stack.map_values(|f: Frame| f@)
}

/// The index of the innermost open element.
fn nearest_element_index(stack: &Vec<Frame>) -> (r: Option<usize>)
    ensures
        match r {
            Some(i) => i < stack@.len() && stack@[i as int] is Element && nearest_element(
                frames_view(stack@),
            ) == Some(
                match stack@[i as int] {
                    Frame::Element(n, ignore) => (n@, ignore),
                    Frame::Leaf => arbitrary(),
                },
            ),
            None => nearest_element(frames_view(stack@)) is None,
        },
{
    let mut j = stack.len();
    assert(stack@.take(j as int) =~= stack@);
    while j > 0
        invariant
            j <= stack@.len(),
            nearest_element(frames_view(stack@)) == nearest_element(frames_view(stack@.take(j as int))),
        decreases j,
    {
        assert(frames_view(stack@.take(j as int)).drop_last() == frames_view(stack@.take(j - 1)));
        assert(frames_view(stack@.take(j as int)).last() == stack@[j - 1]@);
        match &stack[j - 1] {
            Frame::Element(_, _) => {
                return Some(j - 1);
            },
            Frame::Leaf => {},
        }
        j -= 1;
    }
    assert(frames_view(stack@.take(0)) =~= Seq::<FrameView>::empty());
    None
}

/// Copies a qualified name.
pub fn copy_qname(n: &QName) -> (r: QName)
    ensures
        r@ == n@,
{
    QName {
        prefix: match &n.prefix {
            Some(p) => Some(p.clone()),
            None => None,
        },
        ns: n.ns.clone(),
        local: n.local.clone(),
    }
}

/// Writes a walk as markup, as scraper's `Html::html` writes a document.
pub fn write_markup(events: &Vec<DomEvent>) -> (r: String)
    ensures
        r@ == document_markup(events_view(events@)),
{
    let ghost evs = events_view(events@);
    let mut out = String::new();
    let mut stack: Vec<Frame> = Vec::new();
    let mut i: usize = 0;
    while i < events.len()
        invariant
            i <= events@.len(),
            evs == events_view(events@),
            out@ == markup_run(evs.take(i as int)).0,
            frames_view(stack@) == markup_run(evs.take(i as int)).1,
        decreases events@.len() - i,
    {
        assert(evs.take(i + 1).drop_last() == evs.take(i as int));
        assert(evs.take(i + 1).last() == events@[i as int]@);
        let ghost st = frames_view(stack@);
        match &events[i] {
            DomEvent::Open(node) => {
                let near = nearest_element_index(&stack);
                let (ignore, parent): (bool, Option<&QName>) = match near {
                    Some(k) => match &stack[k] {
                        Frame::Element(n, ig) => (*ig, Some(n)),
                        Frame::Leaf => (false, None),
                    },
                    None => (false, None),
                };
                assert(ignore == ignoring(st));
                assert(match parent { Some(p) => Some(p@), None => None } == parent_name(st));
                match node {
                    NodeData::Element(name, attrs) => {
                        if !ignore {
                            let s = start_tag_markup(name, attrs);
                            out.append(s.as_str());
                        }
                        let end = end_tag_markup(name);
                        let void = end.as_str().is_empty();
                        assert(void == is_void(name@)) by {
                            if !is_void(name@) {
                                reveal_strlit("</");
                                assert(end_tag_text(name@).len() > 0);
                            }
                        }
                        stack.push(Frame::Element(copy_qname(name), ignore || void));
                    },
                    NodeData::Text(t) => {
                        let s = text_markup(parent, t.as_str());
                        out.append(s.as_str());
                        stack.push(Frame::Leaf);
                    },
                    NodeData::Comment(t) => {
                        let s = comment_markup(t.as_str());
                        out.append(s.as_str());
                        stack.push(Frame::Leaf);
                    },
                    NodeData::Doctype(n) => {
                        let s = doctype_markup(n.as_str());
                        out.append(s.as_str());
                        stack.push(Frame::Leaf);
                    },
                    NodeData::Other => {
                        stack.push(Frame::Leaf);
                    },
                }
                assert(frames_view(stack@) == st.push(stack@.last()@));
            },
            DomEvent::Close => {
                if stack.len() > 0 {
                    let top = stack.pop().unwrap();
                    assert(frames_view(stack@) == st.drop_last());
                    match top {
                        Frame::Element(name, ignore) => {
                            if !ignore {
                                let s = end_tag_markup(&name);
                                out.append(s.as_str());
                            }
                        },
                        Frame::Leaf => {},
                    }
                }
            },
        }
        i += 1;
    }
    assert(evs.take(events@.len() as int) == evs);
    out
}

} // verus!

verus! {

// ---------------------------------------------------------------------------------------
// Walks of parsed documents and what the editors do to them.

/// A copy of an attribute.
pub fn copy_attribute(a: &Attribute) -> (r: Attribute)
    ensures
        r@ == a@,
{
    Attribute { name: copy_qname(&a.name), value: a.value.clone() }
}

/// A copy of a list of attributes.
pub fn copy_attributes(attrs: &Vec<Attribute>) -> (r: Vec<Attribute>)
    ensures
        attrs_view(r@) == attrs_view(attrs@),
{
    let mut r: Vec<Attribute> = Vec::new();
    let mut i: usize = 0;
    while i < attrs.len()
        invariant
            i <= attrs@.len(),
            attrs_view(r@) == attrs_view(attrs@.take(i as int)),
        decreases attrs@.len() - i,
    {
        let a = copy_attribute(&attrs[i]);
        let ghost prev = r@;
        r.push(a);
        assert(r@ == prev.push(a));
        assert(attrs_view(r@) =~= attrs_view(prev).push(a@));
        assert(attrs@.take(i + 1) == attrs@.take(i as int).push(attrs@[i as int]));
        assert(attrs_view(attrs@.take(i + 1)) =~= attrs_view(attrs@.take(i as int)).push(attrs@[i as int]@));
        i += 1;
    }
    assert(attrs@.take(attrs@.len() as int) == attrs@);
    r
}

/// A copy of a step of a walk.
pub fn copy_event(e: &DomEvent) -> (r: DomEvent)
    ensures
        r@ == e@,
{
    match e {
        DomEvent::Close => DomEvent::Close,
        DomEvent::Open(n) => DomEvent::Open(
            match n {
                NodeData::Element(name, attrs) => NodeData::Element(copy_qname(name), copy_attributes(attrs)),
                NodeData::Text(t) => NodeData::Text(t.clone()),
                NodeData::Comment(t) => NodeData::Comment(t.clone()),
                NodeData::Doctype(t) => NodeData::Doctype(t.clone()),
                NodeData::Other => NodeData::Other,
            },
        ),
    }
}

/// The walk of the document that scraper parses of `html`, with one flag per step: whether
/// it enters an element that the selector matches.
pub fn parse_and_select(selector: &CssSelector, html: &str) -> (r: (Vec<DomEvent>, Vec<bool>))
    ensures
        events_view(r.0@) == parsed_document(html@),
        r.1@ == selected_flags(html@, selector@),
        r.1@.len() == r.0@.len(),
        forall|i: int|
            0 <= i < r.1@.len() && #[trigger] r.1@[i] ==> r.0@[i]@ matches EventView::Open(
                NodeView::Element(_, _),
            ),
{
    proof {
        use_type_invariant(selector);
    }
    let events = document_events(html);
    let flags = selection_flags(html, selector.source.as_str());
    assert forall|i: int| 0 <= i < flags@.len() && #[trigger] flags@[i] implies events@[i]@ matches EventView::Open(
        NodeView::Element(_, _),
    ) by {
        assert(events_view(events@)[i] == events@[i]@);
    }
    (events, flags)
}

/// The markup of each element that scraper's `Html::select` finds for the selector, in its
/// order.
pub fn selected_elements_markup(selector: &CssSelector, html: &str) -> (r: Vec<String>)
    ensures
        r@.map_values(|s: String| s@) == selected_markup(html@, selector@),
{
    proof {
        use_type_invariant(selector);
    }
    select_markup(html, selector.source.as_str())
}

/// The walk without the selected subtrees, and how deep the walk is inside a dropped
/// subtree at its end.
pub open spec fn removal_run(events: Seq<EventView>, flags: Seq<bool>) -> (Seq<EventView>, nat)
    decreases events.len(),
{
    if events.len() == 0 {
        (Seq::empty(), 0)
    } else {
        let before = removal_run(events.drop_last(), flags);
        let e = events.last();
        if before.1 > 0 {
            if e is Open {
                (before.0, before.1 + 1)
            } else {
                (before.0, (before.1 - 1) as nat)
            }
        } else if e is Open && flags[events.len() - 1] {
            (before.0, 1)
        } else {
            (before.0.push(e), 0)
        }
    }
}

/// The walk without each node whose step is flagged, and without everything inside it.
pub open spec fn without_selected(events: Seq<EventView>, flags: Seq<bool>) -> Seq<EventView> {
    removal_run(events, flags).0
}

proof fn lemma_removal_run_unflagged(events: Seq<EventView>, flags: Seq<bool>)
    requires
        forall|i: int| 0 <= i < events.len() ==> !#[trigger] flags[i],
    ensures
        removal_run(events, flags) == (events, 0nat),
    decreases events.len(),
{
    if events.len() > 0 {
        lemma_removal_run_unflagged(events.drop_last(), flags);
        assert(!flags[events.len() - 1]);
        assert(events.drop_last().push(events.last()) =~= events);
    }
}

/// Where nothing is flagged, removing the flagged nodes keeps the whole walk.
pub proof fn law_nothing_removed(events: Seq<EventView>, flags: Seq<bool>)
    requires
        forall|i: int| 0 <= i < events.len() ==> !#[trigger] flags[i],
    ensures
        without_selected(events, flags) == events,
{
    lemma_removal_run_unflagged(events, flags);
}

/// Drops each flagged node with everything in it (ego_tree's `detach` on each).
pub fn remove_selected(events: &Vec<DomEvent>, flags: &Vec<bool>) -> (r: Vec<DomEvent>)
    requires
        flags@.len() == events@.len(),
    ensures
        events_view(r@) == without_selected(events_view(events@), flags@),
{
    let ghost evs = events_view(events@);
    let mut out: Vec<DomEvent> = Vec::new();
    let mut skip: usize = 0;
    let mut i: usize = 0;
    while i < events.len()
        invariant
            i <= events@.len(),
            flags@.len() == events@.len(),
            evs == events_view(events@),
            events_view(out@) == removal_run(evs.take(i as int), flags@).0,
            skip == removal_run(evs.take(i as int), flags@).1,
            skip <= i,
        decreases events@.len() - i,
    {
        assert(evs.take(i + 1).drop_last() == evs.take(i as int));
        assert(evs.take(i + 1).last() == events@[i as int]@);
        let is_open = match &events[i] {
            DomEvent::Open(_) => true,
            DomEvent::Close => false,
        };
        if skip > 0 {
            if is_open {
                skip += 1;
            } else {
                skip -= 1;
            }
        } else if is_open && flags[i] {
            skip = 1;
        } else {
            let e = copy_event(&events[i]);
            out.push(e);
            assert(events_view(out@) =~= removal_run(evs.take(i as int), flags@).0.push(e@));
        }
        i += 1;
    }
    assert(evs.take(events@.len() as int) == evs);
    out
}

/// The walk without the flagged nodes themselves, their content in their place, and for
/// each node still open at the end whether it was dropped.
pub open spec fn flatten_run(events: Seq<EventView>, flags: Seq<bool>) -> (Seq<EventView>, Seq<bool>)
    decreases events.len(),
{
    if events.len() == 0 {
        (Seq::empty(), Seq::empty())
    } else {
        let before = flatten_run(events.drop_last(), flags);
        let e = events.last();
        if e is Open {
            let f = flags[events.len() - 1];
            (
                if f {
                    before.0
                } else {
                    before.0.push(e)
                },
                before.1.push(f),
            )
        } else if before.1.len() == 0 {
            (before.0.push(e), before.1)
        } else {
            (
                if before.1.last() {
                    before.0
                } else {
                    before.0.push(e)
                },
                before.1.drop_last(),
            )
        }
    }
}

/// The walk with each flagged node replaced by its children.
pub open spec fn flattened(events: Seq<EventView>, flags: Seq<bool>) -> Seq<EventView> {
    flatten_run(events, flags).0
}

proof fn lemma_flatten_run_unflagged(events: Seq<EventView>, flags: Seq<bool>)
    requires
        forall|i: int| 0 <= i < events.len() ==> !#[trigger] flags[i],
    ensures
        flatten_run(events, flags).0 == events,
        forall|j: int|
            0 <= j < flatten_run(events, flags).1.len() ==> !#[trigger] flatten_run(events, flags).1[j],
    decreases events.len(),
{
    if events.len() > 0 {
        lemma_flatten_run_unflagged(events.drop_last(), flags);
        assert(!flags[events.len() - 1]);
        assert(events.drop_last().push(events.last()) =~= events);
        let before = flatten_run(events.drop_last(), flags);
        if !(events.last() is Open) && before.1.len() > 0 {
            assert(!before.1[before.1.len() - 1]);
        }
    }
}

/// Where nothing is flagged, flattening the flagged nodes keeps the whole walk.
pub proof fn law_nothing_flattened(events: Seq<EventView>, flags: Seq<bool>)
    requires
        forall|i: int| 0 <= i < events.len() ==> !#[trigger] flags[i],
    ensures
        flattened(events, flags) == events,
{
    lemma_flatten_run_unflagged(events, flags);
}

/// Replaces each flagged node by its children (ego_tree's `insert_id_before` of each child,
/// then `detach`).
pub fn flatten_selected(events: &Vec<DomEvent>, flags: &Vec<bool>) -> (r: Vec<DomEvent>)
    requires
        flags@.len() == events@.len(),
    ensures
        events_view(r@) == flattened(events_view(events@), flags@),
{
    let ghost evs = events_view(events@);
    let mut out: Vec<DomEvent> = Vec::new();
    let mut open: Vec<bool> = Vec::new();
    let mut i: usize = 0;
    while i < events.len()
        invariant
            i <= events@.len(),
            flags@.len() == events@.len(),
            evs == events_view(events@),
            events_view(out@) == flatten_run(evs.take(i as int), flags@).0,
            open@ == flatten_run(evs.take(i as int), flags@).1,
        decreases events@.len() - i,
    {
        assert(evs.take(i + 1).drop_last() == evs.take(i as int));
        assert(evs.take(i + 1).last() == events@[i as int]@);
        let is_open = match &events[i] {
            DomEvent::Open(_) => true,
            DomEvent::Close => false,
        };
        let keep = if is_open {
            open.push(flags[i]);
            !flags[i]
        } else if open.len() == 0 {
            true
        } else {
            let dropped = open.pop().unwrap();
            !dropped
        };
        if keep {
            let e = copy_event(&events[i]);
            out.push(e);
            assert(events_view(out@) =~= flatten_run(evs.take(i as int), flags@).0.push(e@));
        }
        i += 1;
    }
    assert(evs.take(events@.len() as int) == evs);
    out
}

/// A step with the element it enters renamed.
pub open spec fn renamed_event(e: EventView, name: QNameView) -> EventView {
    match e {
        EventView::Open(NodeView::Element(_, attrs)) => EventView::Open(NodeView::Element(name, attrs)),
        _ => e,
    }
}

/// The walk with each flagged element renamed, its attributes and content kept.
pub open spec fn renamed(events: Seq<EventView>, flags: Seq<bool>, name: QNameView) -> Seq<EventView> {
    Seq::new(
        events.len(),
        |i: int|
            if flags[i] {
                renamed_event(events[i], name)
            } else {
                events[i]
            },
    )
}

/// Where nothing is flagged, renaming the flagged elements keeps the whole walk.
pub proof fn law_nothing_renamed(events: Seq<EventView>, flags: Seq<bool>, name: QNameView)
    requires
        forall|i: int| 0 <= i < events.len() ==> !#[trigger] flags[i],
    ensures
        renamed(events, flags, name) == events,
{
    assert(renamed(events, flags, name) =~= events);
}

/// Gives each flagged element the name `name`.
pub fn rename_selected(events: &Vec<DomEvent>, flags: &Vec<bool>, name: &QName) -> (r: Vec<DomEvent>)
    requires
        flags@.len() == events@.len(),
    ensures
        events_view(r@) == renamed(events_view(events@), flags@, name@),
{
    let ghost evs = events_view(events@);
    let mut out: Vec<DomEvent> = Vec::new();
    let mut i: usize = 0;
    while i < events.len()
        invariant
            i <= events@.len(),
            flags@.len() == events@.len(),
            evs == events_view(events@),
            events_view(out@) == renamed(evs, flags@, name@).take(i as int),
        decreases events@.len() - i,
    {
        let e = if flags[i] {
            match &events[i] {
                DomEvent::Open(NodeData::Element(_, attrs)) => DomEvent::Open(
                    NodeData::Element(copy_qname(name), copy_attributes(attrs)),
                ),
                _ => copy_event(&events[i]),
            }
        } else {
            copy_event(&events[i])
        };
        assert(e@ == renamed(evs, flags@, name@)[i as int]);
        let ghost prev = out@;
        out.push(e);
        assert(out@ == prev.push(e));
        assert(events_view(out@) =~= events_view(prev).push(e@));
        assert(events_view(out@) =~= renamed(evs, flags@, name@).take(i + 1));
        i += 1;
    }
    assert(renamed(evs, flags@, name@).take(events@.len() as int) == renamed(evs, flags@, name@));
    out
}

} // verus!
