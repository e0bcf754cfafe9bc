//! Sorting the elements that a selector matches, among their siblings.
use crate::dom::{
    CssSelector, DomEvent, document_markup, events_view, parse_and_select, parsed_document,
    selected_flags, write_markup,
};
use crate::editor::{
    Content, ContentView, EditError, Editor, applied, applied_seq, html_content, sort_document,
    sort_key, sort_key_fn,
};
use crate::order::{lex_lt, str_lt};
use crate::sorting::{insert_by, lemma_insert_at, sort_by};
use crate::tree::{
    TreeNode, TreeView, build_trees, push_tree_events, push_trees_events, tree_events,
    tree_view, trees_events, trees_of, trees_view,
};
use crate::weburl::{SiteUrl, UrlView};
use vstd::prelude::*;

verus! {

broadcast use vstd::string::group_string_axioms;

/// Sorts the elements that `selector` matches among their siblings, by their markup after
/// the `sort_by` editors, in reverse where `reverse`.
pub struct CssSort {
    pub selector: CssSelector,
    pub reverse: bool,
    pub sort_by: Vec<Editor>,
}

/// A child with its sort key.
pub struct Keyed {
    pub tree: TreeView,
    pub key: Seq<char>,
}

/// `a` stays in front of `b` unless `b`'s key comes strictly before `a`'s: sorting by it
/// keeps the order of equal keys.
pub open spec fn key_le() -> spec_fn(Keyed, Keyed) -> bool {
    |a: Keyed, b: Keyed| !lex_lt(b.key, a.key)
}

/// The selected children.
pub open spec fn selected_of(items: Seq<Keyed>) -> Seq<Keyed> {
    items.filter(|k: Keyed| k.tree.selected)
}

/// The other children.
pub open spec fn unselected_of(items: Seq<Keyed>) -> Seq<Keyed> {
    items.filter(|k: Keyed| !k.tree.selected)
}

/// Keys are ordered totally, ties allowed.
proof fn lemma_key_le_total_preorder()
    ensures
        crate::sorting::is_total_preorder(key_le()),
{
    assert forall|a: Keyed, b: Keyed| #![trigger key_le()(a, b)] key_le()(a, b) || key_le()(b, a) by {
        crate::order::lemma_lex_asymmetric(a.key, b.key);
    }
    assert forall|a: Keyed, b: Keyed, c: Keyed| #![trigger key_le()(a, b), key_le()(b, c)] key_le()(a, b) && key_le()(b, c) implies key_le()(a, c) by {
        if lex_lt(c.key, a.key) {
            crate::order::lemma_lex_total(c.key, b.key);
            if lex_lt(b.key, c.key) {
                crate::order::lemma_lex_transitive(b.key, c.key, a.key);
            }
        }
    }
}

/// The selected children of a parent are sorted by their keys: none is lost or added, no
/// key comes strictly before the key of one in front of it, and with `reverse` no key
/// comes strictly after it.
pub proof fn law_selected_sorted_by_key(items: Seq<Keyed>)
    ensures
        sort_by(key_le(), selected_of(items)).to_multiset() == selected_of(items).to_multiset(),
        forall|i: int, j: int|
            0 <= i < j < selected_of(items).len() ==> !lex_lt(
                #[trigger] sort_by(key_le(), selected_of(items))[j].key,
                #[trigger] sort_by(key_le(), selected_of(items))[i].key,
            ),
        forall|i: int, j: int|
            0 <= i < j < selected_of(items).len() ==> !lex_lt(
                #[trigger] sort_by(key_le(), selected_of(items)).reverse()[i].key,
                #[trigger] sort_by(key_le(), selected_of(items)).reverse()[j].key,
            ),
{
    broadcast use vstd::seq_lib::group_to_multiset_ensures;

    let sel = selected_of(items);
    lemma_key_le_total_preorder();
    crate::sorting::law_sort_by(key_le(), sel);
    let sorted = sort_by(key_le(), sel);
    assert(sorted.to_multiset().len() == sel.to_multiset().len());
    assert(sorted.len() == sel.len());
    assert forall|i: int, j: int| 0 <= i < j < sel.len() implies !lex_lt(
        #[trigger] sorted[j].key,
        #[trigger] sorted[i].key,
    ) by {
        assert(key_le()(sorted[i], sorted[j]));
    }
    assert forall|i: int, j: int| 0 <= i < j < sel.len() implies !lex_lt(
        #[trigger] sorted.reverse()[i].key,
        #[trigger] sorted.reverse()[j].key,
    ) by {
        let n = sel.len() as int;
        assert(sorted.reverse()[i] == sorted[n - 1 - i]);
        assert(sorted.reverse()[j] == sorted[n - 1 - j]);
        assert(key_le()(sorted[n - 1 - j], sorted[n - 1 - i]));
    }
}

/// The children in their new order: where more than one is selected, the selected ones
/// sorted by key (in reverse where `reverse`) in front of the others in their order;
/// else as they were.
pub open spec fn reordered(items: Seq<Keyed>, reverse: bool) -> Seq<TreeView> {
    let sel = selected_of(items);
    if sel.len() <= 1 {
        items.map_values(|k: Keyed| k.tree)
    } else {
        let sorted = sort_by(key_le(), sel);
        let ordered = if reverse {
            sorted.reverse()
        } else {
            sorted
        };
        (ordered + unselected_of(items)).map_values(|k: Keyed| k.tree)
    }
}

/// A tree with the children of every node reordered, each child keyed by `key` of it as
/// it was before anything was moved.
pub open spec fn sorted_tree(t: TreeView, key: spec_fn(TreeView) -> Seq<char>, reverse: bool) -> TreeView
    decreases t, 1nat,
{
    let inner = sorted_trees(t.children, key, reverse);
    TreeView {
        children: reordered(
            Seq::new(
                t.children.len(),
                |i: int|
                    Keyed {
                        tree: inner[i],
                        key: if t.children[i].selected {
                            key(t.children[i])
                        } else {
                            Seq::empty()
                        },
                    },
            ),
            reverse,
        ),
        ..t
    }
}

/// Trees each sorted.
pub open spec fn sorted_trees(ts: Seq<TreeView>, key: spec_fn(TreeView) -> Seq<char>, reverse: bool) -> Seq<TreeView>
    decreases ts, 0nat,
{
    if ts.len() == 0 {
        Seq::empty()
    } else {
        sorted_trees(ts.drop_last(), key, reverse).push(sorted_tree(ts.last(), key, reverse))
    }
}


/// The trees sorted are as many as the trees.
pub proof fn lemma_sorted_trees_len(ts: Seq<TreeView>, key: spec_fn(TreeView) -> Seq<char>, reverse: bool)
    ensures
        sorted_trees(ts, key, reverse).len() == ts.len(),
    decreases ts.len(),
{
    if ts.len() > 0 {
        lemma_sorted_trees_len(ts.drop_last(), key, reverse);
    }
}

/// The vector in reverse order.
pub fn into_reversed<T>(v: Vec<T>) -> (r: Vec<T>)
    ensures
        r@ == v@.reverse(),
{
    let ghost orig = v@;
    let mut v = v;
    let mut r: Vec<T> = Vec::new();
    while v.len() > 0
        invariant
            r@.len() + v@.len() == orig.len(),
            v@ == orig.take(v@.len() as int),
            forall|j: int| 0 <= j < r@.len() ==> #[trigger] r@[j] == orig[orig.len() - 1 - j],
        decreases v@.len(),
    {
        let ghost before = v@;
        let x = v.pop().unwrap();
        assert(before == v@.push(x));
        assert(v@ =~= orig.take(v@.len() as int));
        r.push(x);
    }
    assert(r@ =~= orig.reverse());
    r
}

/// A child with its key, while children are reordered.
pub struct KeyedNode {
    pub tree: TreeNode,
    pub key: String,
}

/// The plain value of a keyed child.
pub open spec fn keyed_view(k: KeyedNode) -> Keyed {
    Keyed { tree: tree_view(k.tree), key: k.key@ }
}

/// The plain values of keyed children.
pub open spec fn keyed_views(ks: Seq<KeyedNode>) -> Seq<Keyed> {
    ks.map_values(|k: KeyedNode| keyed_view(k))
}

fn trees_of_keyed(items: Vec<KeyedNode>) -> (r: Vec<TreeNode>)
    ensures
        trees_view(r@) == keyed_views(items@).map_values(|k: Keyed| k.tree),
{
    let ghost target = keyed_views(items@).map_values(|k: Keyed| k.tree);
    let mut rev = into_reversed(items);
    let ghost rv = rev@;
    let mut r: Vec<TreeNode> = Vec::new();
    while rev.len() > 0
        invariant
            rev@.len() <= rv.len(),
            rev@ == rv.take(rev@.len() as int),
            rv.len() == target.len(),
            forall|j: int| 0 <= j < rv.len() ==> #[trigger] tree_view(rv[j].tree) == target[rv.len() - 1 - j],
            trees_view(r@) == target.take(rv.len() - rev@.len()),
        decreases rev@.len(),
    {
        let ghost before = rev@;
        let x = rev.pop().unwrap();
        assert(before == rev@.push(x));
        assert(rev@ =~= rv.take(rev@.len() as int));
        let ghost idx = rv.len() - 1 - rev@.len();
        assert(x == rv[rev@.len() as int]);
        proof {
            crate::tree::lemma_trees_view_push_pub(r@, x.tree);
        }
        let ghost prev = r@;
        r.push(x.tree);
        assert(r@ == prev.push(x.tree));
        assert(target.take(idx + 1) =~= target.take(idx).push(target[idx]));
    }
    assert(target.take(target.len() as int) == target);
    r
}

/// Sorts keyed children by key, keeping the order of equal keys.
fn sort_keyed(items: Vec<KeyedNode>) -> (r: Vec<KeyedNode>)
    ensures
        keyed_views(r@) == sort_by(key_le(), keyed_views(items@)),
{
    let ghost vs = keyed_views(items@);
    let mut rev = into_reversed(items);
    let ghost rv = rev@;
    let mut r: Vec<KeyedNode> = Vec::new();
    while rev.len() > 0
        invariant
            rev@.len() <= rv.len(),
            rev@ == rv.take(rev@.len() as int),
            rv.len() == vs.len(),
            forall|j: int| 0 <= j < rv.len() ==> #[trigger] keyed_view(rv[j]) == vs[rv.len() - 1 - j],
            keyed_views(r@) == sort_by(key_le(), vs.take(rv.len() - rev@.len())),
        decreases rev@.len(),
    {
        let ghost before = rev@;
        let x = rev.pop().unwrap();
        assert(before == rev@.push(x));
        assert(rev@ =~= rv.take(rev@.len() as int));
        let ghost i = rv.len() - 1 - rev@.len();
        assert(x == rv[rev@.len() as int]);
        assert(keyed_view(x) == vs[i]);
        let mut p: usize = 0;
        while p < r.len() && !str_lt(x.key.as_str(), r[p].key.as_str())
            invariant
                p <= r@.len(),
                forall|j: int| 0 <= j < p ==> !lex_lt(x.key@, #[trigger] r@[j].key@),
            decreases r@.len() - p,
        {
            p += 1;
        }
        let ghost cur = keyed_views(r@);
        proof {
            assert forall|j: int| 0 <= j < p implies (key_le())(#[trigger] cur[j], keyed_view(x)) by {
                assert(cur[j] == keyed_view(r@[j]));
            }
            if p < cur.len() {
                assert(cur[p as int] == keyed_view(r@[p as int]));
            }
            lemma_insert_at(key_le(), keyed_view(x), cur, p as int);
            assert(vs.take(i + 1).drop_last() == vs.take(i));
            assert(vs.take(i + 1).last() == keyed_view(x));
        }
        r.insert(p, x);
        assert(keyed_views(r@) =~= cur.take(p as int) + seq![keyed_view(x)] + cur.skip(p as int));
    }
    assert(vs.take(vs.len() as int) == vs);
    r
}

/// The children in their new order.
fn reorder_nodes(items: Vec<KeyedNode>, reverse: bool) -> (r: Vec<TreeNode>)
    ensures
        trees_view(r@) == reordered(keyed_views(items@), reverse),
{
    let ghost vs = keyed_views(items@);
    let mut count: usize = 0;
    let mut i: usize = 0;
    while i < items.len()
        invariant
            i <= items@.len(),
            vs == keyed_views(items@),
            count == selected_of(vs.take(i as int)).len(),
            count <= i,
        decreases items@.len() - i,
    {
        proof {
            vs.take(i as int).lemma_filter_push(vs[i as int], |k: Keyed| k.tree.selected);
            assert(vs.take(i + 1) == vs.take(i as int).push(vs[i as int]));
            assert(vs[i as int] == keyed_view(items@[i as int]));
        }
        if items[i].tree.selected {
            count += 1;
        }
        i += 1;
    }
    assert(vs.take(items@.len() as int) == vs);
    if count <= 1 {
        return trees_of_keyed(items);
    }
    let mut rev = into_reversed(items);
    let ghost rv = rev@;
    let mut sel: Vec<KeyedNode> = Vec::new();
    let mut others: Vec<KeyedNode> = Vec::new();
    while rev.len() > 0
        invariant
            rev@.len() <= rv.len(),
            rev@ == rv.take(rev@.len() as int),
            rv.len() == vs.len(),
            forall|j: int| 0 <= j < rv.len() ==> #[trigger] keyed_view(rv[j]) == vs[rv.len() - 1 - j],
            keyed_views(sel@) == selected_of(vs.take(rv.len() - rev@.len())),
            keyed_views(others@) == unselected_of(vs.take(rv.len() - rev@.len())),
        decreases rev@.len(),
    {
        let ghost before = rev@;
        let x = rev.pop().unwrap();
        assert(before == rev@.push(x));
        assert(rev@ =~= rv.take(rev@.len() as int));
        let ghost k = rv.len() - 1 - rev@.len();
        assert(x == rv[rev@.len() as int]);
        assert(keyed_view(x) == vs[k]);
        proof {
            vs.take(k).lemma_filter_push(vs[k], |k: Keyed| k.tree.selected);
            vs.take(k).lemma_filter_push(vs[k], |k: Keyed| !k.tree.selected);
            assert(vs.take(k + 1) == vs.take(k).push(vs[k]));
        }
        if x.tree.selected {
            let ghost prev = sel@;
            sel.push(x);
            assert(sel@ == prev.push(x));
            assert(keyed_views(sel@) =~= keyed_views(prev).push(keyed_view(x)));
        } else {
            let ghost prev = others@;
            others.push(x);
            assert(others@ == prev.push(x));
            assert(keyed_views(others@) =~= keyed_views(prev).push(keyed_view(x)));
        }
    }
    assert(vs.take(vs.len() as int) == vs);
    let sorted = sort_keyed(sel);
    let mut ordered = if reverse {
        let rs = into_reversed(sorted);
        assert(keyed_views(rs@) =~= keyed_views(sorted@).reverse());
        rs
    } else {
        sorted
    };
    let ghost ov = keyed_views(ordered@);
    let ghost others_v = keyed_views(others@);
    let mut others_rev = into_reversed(others);
    let ghost orv = others_rev@;
    while others_rev.len() > 0
        invariant
            others_rev@.len() <= orv.len(),
            others_rev@ == orv.take(others_rev@.len() as int),
            orv.len() == others_v.len(),
            forall|j: int| 0 <= j < orv.len() ==> #[trigger] keyed_view(orv[j]) == others_v[orv.len() - 1 - j],
            keyed_views(ordered@) == ov + others_v.take(orv.len() - others_rev@.len()),
        decreases others_rev@.len(),
    {
        let ghost before = others_rev@;
        let x = others_rev.pop().unwrap();
        assert(before == others_rev@.push(x));
        assert(others_rev@ =~= orv.take(others_rev@.len() as int));
        let ghost k = orv.len() - 1 - others_rev@.len();
        assert(x == orv[others_rev@.len() as int]);
        let ghost prev = ordered@;
        ordered.push(x);
        assert(ordered@ == prev.push(x));
        assert(keyed_views(ordered@) =~= keyed_views(prev).push(keyed_view(x)));
        assert(others_v.take(k + 1) =~= others_v.take(k).push(others_v[k]));
    }
    assert(others_v.take(others_v.len() as int) == others_v);
    trees_of_keyed(ordered)
}


/// The sorted trees are the trees each sorted.
pub proof fn lemma_sorted_trees_index(ts: Seq<TreeView>, key: spec_fn(TreeView) -> Seq<char>, reverse: bool, i: int)
    requires
        0 <= i < ts.len(),
    ensures
        sorted_trees(ts, key, reverse).len() == ts.len(),
        sorted_trees(ts, key, reverse)[i] == sorted_tree(ts[i], key, reverse),
    decreases ts.len(),
{
    lemma_sorted_trees_len(ts, key, reverse);
    if i < ts.len() - 1 {
        lemma_sorted_trees_index(ts.drop_last(), key, reverse, i);
    }
}

/// The tree with the children of every node reordered.
pub fn sort_node(cs: &CssSort, url: &SiteUrl, t: &TreeNode) -> (r: TreeNode)
    ensures
        tree_view(r) == sorted_tree(tree_view(*t), sort_key_fn(cs.sort_by@, url@), cs.reverse),
    decreases cs.sort_by@, crate::tree::tree_size(*t),
{
    let ghost tv = tree_view(*t);
    let ghost key = sort_key_fn(cs.sort_by@, url@);
    let ghost cv = trees_view(t.children@);
    let ghost inner = sorted_trees(cv, key, cs.reverse);
    let ghost target = Seq::new(
        cv.len(),
        |i: int|
            Keyed {
                tree: inner[i],
                key: if cv[i].selected {
                    key(cv[i])
                } else {
                    Seq::empty()
                },
            },
    );
    proof {
        crate::tree::lemma_trees_view_len(t.children@);
        lemma_sorted_trees_len(cv, key, cs.reverse);
    }
    let mut keyed: Vec<KeyedNode> = Vec::new();
    let mut i: usize = 0;
    while i < t.children.len()
        invariant
            i <= t.children@.len(),
            cv == trees_view(t.children@),
            cv.len() == t.children@.len(),
            inner == sorted_trees(cv, key, cs.reverse),
            key == sort_key_fn(cs.sort_by@, url@),
            target.len() == cv.len(),
            target == Seq::new(
                cv.len(),
                |i: int|
                    Keyed {
                        tree: inner[i],
                        key: if cv[i].selected {
                            key(cv[i])
                        } else {
                            Seq::empty()
                        },
                    },
            ),
            keyed_views(keyed@) == target.take(i as int),
        decreases t.children@.len() - i,
    {
        let child = &t.children[i];
        proof {
            crate::tree::lemma_trees_view_index(t.children@, i as int);
            lemma_sorted_trees_index(cv, key, cs.reverse, i as int);
            crate::tree::lemma_child_smaller(*t, i as int);
        }
        let sorted_child = sort_node(cs, url, child);
        let k = if child.selected {
            sort_key_of(cs, url, child)
        } else {
            String::new()
        };
        let x = KeyedNode { tree: sorted_child, key: k };
        assert(keyed_view(x) == target[i as int]);
        let ghost prev = keyed@;
        keyed.push(x);
        assert(keyed@ == prev.push(x));
        assert(keyed_views(keyed@) =~= keyed_views(prev).push(keyed_view(x)));
        assert(target.take(i + 1) =~= target.take(i as int).push(target[i as int]));
        i += 1;
    }
    assert(target.take(cv.len() as int) == target);
    let children = reorder_nodes(keyed, cs.reverse);
    TreeNode { data: crate::tree::copy_node(&t.data), selected: t.selected, children }
}

/// The key of a tree: its markup after the `sort_by` editors, or empty where one fails.
pub fn sort_key_of(cs: &CssSort, url: &SiteUrl, t: &TreeNode) -> (r: String)
    ensures
        r@ == sort_key(cs.sort_by@, url@, tree_view(*t)),
    decreases cs.sort_by@, crate::tree::tree_size(*t),
{
    let mut events: Vec<DomEvent> = Vec::new();
    push_tree_events(t, &mut events);
    assert(events_view(events@) =~= tree_events(tree_view(*t)));
    let markup = write_markup(&events);
    let content = Content { extension: Some("html"), text: markup };
    match crate::editor::apply_seq(&cs.sort_by, url, content) {
        Ok(c) => c.text,
        Err(_) => String::new(),
    }
}

/// How many of the trees are selected.
pub open spec fn selected_count(ts: Seq<TreeView>) -> nat
    decreases ts.len(),
{
    if ts.len() == 0 {
        0
    } else {
        selected_count(ts.drop_last()) + if ts.last().selected {
            1nat
        } else {
            0nat
        }
    }
}

/// No node of the tree has two or more selected children: sorting moves nothing.
pub open spec fn unsortable_tree(t: TreeView) -> bool
    decreases t, 1nat,
{
    selected_count(t.children) <= 1 && unsortable_trees(t.children)
}

/// No node of the trees has two or more selected children.
pub open spec fn unsortable_trees(ts: Seq<TreeView>) -> bool
    decreases ts, 0nat,
{
    ts.len() == 0 || (unsortable_trees(ts.drop_last()) && unsortable_tree(ts.last()))
}

proof fn lemma_selected_of_count(items: Seq<Keyed>, ts: Seq<TreeView>)
    requires
        items.len() == ts.len(),
        forall|i: int| 0 <= i < ts.len() ==> (#[trigger] items[i]).tree.selected == ts[i].selected,
    ensures
        selected_of(items).len() == selected_count(ts),
    decreases ts.len(),
{
    if ts.len() > 0 {
        let init = items.drop_last();
        assert forall|i: int| 0 <= i < ts.drop_last().len() implies (#[trigger] init[i]).tree.selected == ts.drop_last()[i].selected by {
            assert(init[i] == items[i]);
        }
        lemma_selected_of_count(init, ts.drop_last());
        init.lemma_filter_push(items.last(), |k: Keyed| k.tree.selected);
        assert(init.push(items.last()) =~= items);
        assert(items[items.len() - 1].tree.selected == ts[ts.len() - 1].selected);
    } else {
        assert(selected_of(items) =~= Seq::<Keyed>::empty()) by {
            reveal(Seq::filter);
        }
    }
}

/// Sorting a tree in which no node has two selected children keeps it as it is.
pub proof fn lemma_unsortable_tree_kept(t: TreeView, key: spec_fn(TreeView) -> Seq<char>, reverse: bool)
    requires
        unsortable_tree(t),
    ensures
        sorted_tree(t, key, reverse) == t,
    decreases t, 1nat,
{
    lemma_unsortable_trees_kept(t.children, key, reverse);
    let inner = sorted_trees(t.children, key, reverse);
    let items = Seq::new(
        t.children.len(),
        |i: int|
            Keyed {
                tree: inner[i],
                key: if t.children[i].selected {
                    key(t.children[i])
                } else {
                    Seq::empty()
                },
            },
    );
    lemma_selected_of_count(items, t.children);
    assert(items.map_values(|k: Keyed| k.tree) =~= t.children);
    assert(sorted_tree(t, key, reverse) =~= t);
}

/// Sorting trees in which no node has two selected children keeps them as they are.
pub proof fn lemma_unsortable_trees_kept(ts: Seq<TreeView>, key: spec_fn(TreeView) -> Seq<char>, reverse: bool)
    requires
        unsortable_trees(ts),
    ensures
        sorted_trees(ts, key, reverse) == ts,
    decreases ts, 0nat,
{
    if ts.len() > 0 {
        lemma_unsortable_trees_kept(ts.drop_last(), key, reverse);
        lemma_unsortable_tree_kept(ts.last(), key, reverse);
        assert(ts.drop_last().push(ts.last()) =~= ts);
    }
}

/// Where the selector matches but no node has two or more matching children, `css_sort`
/// moves nothing: the document comes back parsed and written again.
pub proof fn law_unsortable_document_unchanged(cs: CssSort, url: UrlView, c: ContentView)
    requires
        selected_flags(c.text, cs.selector@).contains(true),
        unsortable_trees(trees_of(parsed_document(c.text), selected_flags(c.text, cs.selector@))),
    ensures
        applied(Editor::CssSort(cs), url, c) == Ok::<ContentView, crate::editor::EditErrorView>(
            html_content(
                document_markup(
                    trees_events(trees_of(parsed_document(c.text), selected_flags(c.text, cs.selector@))),
                ),
            ),
        ),
{
    lemma_unsortable_trees_kept(
        trees_of(parsed_document(c.text), selected_flags(c.text, cs.selector@)),
        sort_key_fn(cs.sort_by@, url),
        cs.reverse,
    );
}

impl CssSort {
    /// The document with the elements that the selector matches sorted among their
    /// siblings (see `Editor::CssSort`); `Err` where the selector matches nothing; where
    /// no node has two or more matching children, the document parsed and written again.
    pub fn apply(&self, url: &SiteUrl, html: &str) -> (r: Result<String, EditError>)
        ensures
            match (r, applied(Editor::CssSort(*self), url@, html_content(html@))) {
                (Ok(s), Ok(c)) => s@ == c.text,
                (Err(e), Err(v)) => e@ == v,
                _ => false,
            },
            r matches Err(e) ==> e@ == crate::editor::EditErrorView::NothingToSort,
            selected_flags(html@, self.selector@).contains(true) && unsortable_trees(
                trees_of(parsed_document(html@), selected_flags(html@, self.selector@)),
            ) ==> (r matches Ok(s) && s@ == document_markup(
                trees_events(trees_of(parsed_document(html@), selected_flags(html@, self.selector@))),
            )),
    {
        proof {
            if selected_flags(html@, self.selector@).contains(true) && unsortable_trees(
                trees_of(parsed_document(html@), selected_flags(html@, self.selector@)),
            ) {
                law_unsortable_document_unchanged(*self, url@, html_content(html@));
            }
        }
        match sort_document(self, url, html) {
            Ok(s) => Ok(s),
            Err(e) => Err(e),
        }
    }
}

} // verus!
