//! A document as a tree, built from its walk, and the walk of a tree.
use crate::dom::{
    DomEvent, EventView, NodeData, NodeView, copy_attributes, copy_event, copy_qname, events_view,
};
use vstd::prelude::*;

verus! {

/// A node with the flag of its selection and its children.
pub struct TreeNode {
    pub data: NodeData,
    pub selected: bool,
    pub children: Vec<TreeNode>,
}

/// The plain value of a tree.
pub struct TreeView {
    pub data: NodeView,
    pub selected: bool,
    pub children: Seq<TreeView>,
}

/// The plain value of a tree.
pub open spec fn tree_view(t: TreeNode) -> TreeView
    decreases t, 1nat,
{
    TreeView { data: t.data@, selected: t.selected, children: trees_view(t.children@) }
}

/// The plain values of trees.
pub open spec fn trees_view(ts: Seq<TreeNode>) -> Seq<TreeView>
    decreases ts, 0nat,
{
    if ts.len() == 0 {
        Seq::empty()
    } else {
        trees_view(ts.drop_last()).push(tree_view(ts.last()))
    }
}

/// The walk through a tree.
pub open spec fn tree_events(t: TreeView) -> Seq<EventView>
    decreases t, 1nat,
{
    seq![EventView::Open(t.data)] + trees_events(t.children) + seq![EventView::Close]
}

/// The walk through trees, one after the other.
pub open spec fn trees_events(ts: Seq<TreeView>) -> Seq<EventView>
    decreases ts, 0nat,
{
    if ts.len() == 0 {
        Seq::empty()
    } else {
        trees_events(ts.drop_last()) + tree_events(ts.last())
    }
}

/// A node entered and not yet left while a tree is built: its data, flag and the
/// children built so far.
pub struct OpenNode {
    pub data: NodeView,
    pub selected: bool,
    pub children: Seq<TreeView>,
}

/// The trees built so far after a node is finished.
pub open spec fn attach(roots: Seq<TreeView>, stack: Seq<OpenNode>, node: TreeView) -> (Seq<TreeView>, Seq<OpenNode>) {
    if stack.len() == 0 {
        (roots.push(node), stack)
    } else {
        let top = stack.last();
        (roots, stack.drop_last().push(OpenNode { children: top.children.push(node), ..top }))
    }
}

/// One step of building: an entered node is opened, a left node finished.
pub open spec fn build_step(roots: Seq<TreeView>, stack: Seq<OpenNode>, e: EventView, flag: bool) -> (Seq<TreeView>, Seq<OpenNode>) {
    match e {
        EventView::Open(n) => (roots, stack.push(OpenNode { data: n, selected: flag, children: Seq::empty() })),
        EventView::Close => if stack.len() == 0 {
            (roots, stack)
        } else {
            let top = stack.last();
            attach(roots, stack.drop_last(), TreeView { data: top.data, selected: top.selected, children: top.children })
        },
    }
}

/// The finished trees and the open nodes after the walk.
pub open spec fn build_run(events: Seq<EventView>, flags: Seq<bool>) -> (Seq<TreeView>, Seq<OpenNode>)
    decreases events.len(),
{
    if events.len() == 0 {
        (Seq::empty(), Seq::empty())
    } else {
        let before = build_run(events.drop_last(), flags);
        build_step(before.0, before.1, events.last(), flags[events.len() - 1])
    }
}

/// The trees with the nodes still open finished, innermost first.
pub open spec fn finish(roots: Seq<TreeView>, stack: Seq<OpenNode>) -> Seq<TreeView>
    decreases stack.len(),
{
    if stack.len() == 0 {
        roots
    } else {
        let top = stack.last();
        let next = attach(roots, stack.drop_last(), TreeView { data: top.data, selected: top.selected, children: top.children });
        finish(next.0, next.1)
    }
}

/// The trees of a walk, each node with the flag of the step that enters it.
pub open spec fn trees_of(events: Seq<EventView>, flags: Seq<bool>) -> Seq<TreeView> {
    let built = build_run(events, flags);
    finish(built.0, built.1)
}

/// A node being built.
struct Building {
    data: NodeData,
    selected: bool,
    children: Vec<TreeNode>,
}

spec fn building_view(b: Building) -> OpenNode {
    OpenNode { data: b.data@, selected: b.selected, children: trees_view(b.children@) }
}

spec fn stack_view(s: Seq<Building>) -> Seq<OpenNode> {
    s.map_values(|b: Building| building_view(b))
}

proof fn lemma_trees_view_push(ts: Seq<TreeNode>, t: TreeNode)
    ensures
        trees_view(ts.push(t)) == trees_view(ts).push(tree_view(t)),
{
    assert(ts.push(t).drop_last() =~= ts);
}

/// The number of nodes of a tree.
pub open spec fn tree_size(t: TreeNode) -> nat
    decreases t, 1nat,
{
    1 + trees_size(t.children@)
}

/// The number of nodes of trees.
pub open spec fn trees_size(ts: Seq<TreeNode>) -> nat
    decreases ts, 0nat,
{
    if ts.len() == 0 {
        0
    } else {
        trees_size(ts.drop_last()) + tree_size(ts.last())
    }
}

/// Each child of a node is smaller than the node.
pub proof fn lemma_child_smaller(t: TreeNode, i: int)
    requires
        0 <= i < t.children@.len(),
    ensures
        tree_size(t.children@[i]) < tree_size(t),
{
    lemma_trees_size_index(t.children@, i);
}

/// Each of the trees is no larger than all of them.
pub proof fn lemma_trees_size_index(ts: Seq<TreeNode>, i: int)
    requires
        0 <= i < ts.len(),
    ensures
        tree_size(ts[i]) <= trees_size(ts),
    decreases ts.len(),
{
    if i < ts.len() - 1 {
        lemma_trees_size_index(ts.drop_last(), i);
    }
}

/// The plain values of trees are as many as the trees.
pub proof fn lemma_trees_view_len(ts: Seq<TreeNode>)
    ensures
        trees_view(ts).len() == ts.len(),
    decreases ts.len(),
{
    if ts.len() > 0 {
        lemma_trees_view_len(ts.drop_last());
    }
}

/// The plain value of each tree.
pub proof fn lemma_trees_view_index(ts: Seq<TreeNode>, i: int)
    requires
        0 <= i < ts.len(),
    ensures
        trees_view(ts).len() == ts.len(),
        trees_view(ts)[i] == tree_view(ts[i]),
    decreases ts.len(),
{
    lemma_trees_view_len(ts);
    if i < ts.len() - 1 {
        lemma_trees_view_index(ts.drop_last(), i);
    }
}

/// The plain values of trees grow by the plain value of a pushed tree.
pub proof fn lemma_trees_view_push_pub(ts: Seq<TreeNode>, t: TreeNode)
    ensures
        trees_view(ts.push(t)) == trees_view(ts).push(tree_view(t)),
{
    lemma_trees_view_push(ts, t);
}

fn attach_node(roots: &mut Vec<TreeNode>, stack: &mut Vec<Building>, node: TreeNode)
    ensures
        (trees_view(final(roots)@), stack_view(final(stack)@)) == attach(
            trees_view(old(roots)@),
            stack_view(old(stack)@),
            tree_view(node),
        ),
        final(stack)@.len() == old(stack)@.len(),
{
    let ghost nv = tree_view(node);
    if stack.len() == 0 {
        proof {
            lemma_trees_view_push(roots@, node);
        }
        roots.push(node);
    } else {
        let mut top = stack.pop().unwrap();
        let ghost old_top = top;
        proof {
            lemma_trees_view_push(top.children@, node);
        }
        top.children.push(node);
        assert(building_view(top) == OpenNode { children: building_view(old_top).children.push(nv), ..building_view(old_top) });
        let ghost mid = stack@;
        stack.push(top);
        assert(stack_view(stack@) =~= stack_view(mid).push(building_view(top)));
        assert(stack_view(old(stack)@).drop_last() =~= stack_view(mid));
    }
}

/// Builds the trees of a walk.
pub fn build_trees(events: &Vec<DomEvent>, flags: &Vec<bool>) -> (r: Vec<TreeNode>)
    requires
        flags@.len() == events@.len(),
    ensures
        trees_view(r@) == trees_of(events_view(events@), flags@),
{
    let ghost evs = events_view(events@);
    let mut roots: Vec<TreeNode> = Vec::new();
    let mut stack: Vec<Building> = Vec::new();
    let mut i: usize = 0;
    while i < events.len()
        invariant
            i <= events@.len(),
            flags@.len() == events@.len(),
            evs == events_view(events@),
            (trees_view(roots@), stack_view(stack@)) == build_run(evs.take(i as int), flags@),
        decreases events@.len() - i,
    {
        assert(evs.take(i + 1).drop_last() == evs.take(i as int));
        assert(evs.take(i + 1).last() == events@[i as int]@);
        match copy_event(&events[i]) {
            DomEvent::Open(data) => {
                let b = Building { data, selected: flags[i], children: Vec::new() };
                let ghost before = stack@;
                stack.push(b);
                assert(trees_view(b.children@) =~= Seq::<TreeView>::empty());
                assert(stack_view(stack@) =~= stack_view(before).push(building_view(b)));
            },
            DomEvent::Close => {
                if stack.len() > 0 {
                    let ghost before = stack@;
                    let top = stack.pop().unwrap();
                    assert(stack_view(stack@) =~= stack_view(before).drop_last());
                    let node = TreeNode { data: top.data, selected: top.selected, children: top.children };
                    attach_node(&mut roots, &mut stack, node);
                }
            },
        }
        i += 1;
    }
    assert(evs.take(events@.len() as int) == evs);
    while stack.len() > 0
        invariant
            finish(trees_view(roots@), stack_view(stack@)) == trees_of(evs, flags@),
        decreases stack@.len(),
    {
        let ghost before = stack@;
        let top = stack.pop().unwrap();
        assert(stack_view(stack@) =~= stack_view(before).drop_last());
        let node = TreeNode { data: top.data, selected: top.selected, children: top.children };
        attach_node(&mut roots, &mut stack, node);
    }
    roots
}

/// Appends the walk through a tree.
pub fn push_tree_events(t: &TreeNode, out: &mut Vec<DomEvent>)
    ensures
        events_view(final(out)@) == events_view(old(out)@) + tree_events(tree_view(*t)),
    decreases t,
{
    let ghost start = events_view(out@);
    let d = copy_node(&t.data);
    let ghost p0 = out@;
    out.push(DomEvent::Open(d));
    assert(out@ == p0.push(DomEvent::Open(d)));
    assert(events_view(out@) =~= start + seq![EventView::Open(t.data@)]);
    push_trees_events(&t.children, out);
    let ghost p1 = out@;
    out.push(DomEvent::Close);
    assert(out@ == p1.push(DomEvent::Close));
    assert(events_view(out@) =~= events_view(p1) + seq![EventView::Close]);
    assert(tree_view(*t).children == trees_view(t.children@));
    assert(events_view(out@) =~= start + tree_events(tree_view(*t)));
}

/// Appends the walks through trees.
pub fn push_trees_events(ts: &Vec<TreeNode>, out: &mut Vec<DomEvent>)
    ensures
        events_view(final(out)@) == events_view(old(out)@) + trees_events(trees_view(ts@)),
    decreases ts,
{
    let mut i: usize = 0;
    while i < ts.len()
        invariant
            i <= ts@.len(),
            events_view(out@) == events_view(old(out)@) + trees_events(trees_view(ts@.take(i as int))),
        decreases ts@.len() - i,
    {
        assert(ts@.take(i + 1) == ts@.take(i as int).push(ts@[i as int]));
        proof {
            lemma_trees_view_push(ts@.take(i as int), ts@[i as int]);
            let tv = trees_view(ts@.take(i + 1));
            assert(tv.drop_last() =~= trees_view(ts@.take(i as int)));
        }
        push_tree_events(&ts[i], out);
        i += 1;
    }
    assert(ts@.take(ts@.len() as int) == ts@);
}

/// A copy of a node's data.
pub fn copy_node(n: &NodeData) -> (r: NodeData)
    ensures
        r@ == n@,
{
    match n {
        NodeData::Element(name, attrs) => NodeData::Element(copy_qname(name), copy_attributes(attrs)),
        NodeData::Text(t) => NodeData::Text(t.clone()),
        NodeData::Comment(t) => NodeData::Comment(t.clone()),
        NodeData::Doctype(t) => NodeData::Doctype(t.clone()),
        NodeData::Other => NodeData::Other,
    }
}

} // verus!
