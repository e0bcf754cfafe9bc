//! Sorting by a strict order: insertion of each element in front of the first one that
//! does not come before it.
use crate::markup::{Attribute, AttributeView, QNameView, attrs_view};
use crate::order::{lex_lt, str_eq, str_lt};
use vstd::prelude::*;

verus! {

/// `s` with `x` put in front of its first element that does not come strictly before `x`.
pub open spec fn insert_by<T>(lt: spec_fn(T, T) -> bool, x: T, s: Seq<T>) -> Seq<T>
    decreases s.len(),
{
    if s.len() == 0 {
        seq![x]
    } else if lt(s[0], x) {
        seq![s[0]] + insert_by(lt, x, s.drop_first())
    } else {
        seq![x] + s
    }
}

/// `s` sorted by `lt`, each element inserted in turn.
pub open spec fn sort_by<T>(lt: spec_fn(T, T) -> bool, s: Seq<T>) -> Seq<T>
    decreases s.len(),
{
    if s.len() == 0 {
        Seq::empty()
    } else {
        insert_by(lt, s.last(), sort_by(lt, s.drop_last()))
    }
}

/// Inserting at the first position whose element does not come before `x`.
pub proof fn lemma_insert_at<T>(lt: spec_fn(T, T) -> bool, x: T, s: Seq<T>, p: int)
    requires
        0 <= p <= s.len(),
        forall|j: int| 0 <= j < p ==> lt(#[trigger] s[j], x),
        p == s.len() || !lt(s[p], x),
    ensures
        insert_by(lt, x, s) == s.take(p) + seq![x] + s.skip(p),
    decreases s.len(),
{
    if s.len() == 0 {
        assert(s.take(p) + seq![x] + s.skip(p) =~= seq![x]);
    } else if p == 0 {
        assert(s.take(0) + seq![x] + s.skip(0) =~= seq![x] + s);
    } else {
        let t = s.drop_first();
        assert forall|j: int| 0 <= j < p - 1 implies lt(#[trigger] t[j], x) by {
            assert(t[j] == s[j + 1]);
        }
        lemma_insert_at(lt, x, t, p - 1);
        assert(seq![s[0]] + (t.take(p - 1) + seq![x] + t.skip(p - 1)) =~= s.take(p) + seq![x]
            + s.skip(p));
    }
}

/// `le` orders totally, ties allowed.
pub open spec fn is_total_preorder<T>(le: spec_fn(T, T) -> bool) -> bool {
    &&& forall|a: T, b: T| #![trigger le(a, b)] le(a, b) || le(b, a)
    &&& forall|a: T, b: T, c: T| #![trigger le(a, b), le(b, c)] le(a, b) && le(b, c) ==> le(a, c)
}

/// Each element may stand before each one after it.
pub open spec fn sorted_by<T>(le: spec_fn(T, T) -> bool, s: Seq<T>) -> bool {
    forall|i: int, j: int| 0 <= i < j < s.len() ==> le(#[trigger] s[i], #[trigger] s[j])
}

/// Inserting adds the element and keeps the others.
pub proof fn lemma_insert_by_multiset<T>(lt: spec_fn(T, T) -> bool, x: T, s: Seq<T>)
    ensures
        insert_by(lt, x, s).to_multiset() == s.to_multiset().insert(x),
    decreases s.len(),
{
    broadcast use vstd::seq_lib::group_to_multiset_ensures, vstd::multiset::group_multiset_axioms;

    if s.len() == 0 {
        assert(seq![x] =~= s.push(x));
    } else if lt(s[0], x) {
        let rest = s.drop_first();
        lemma_insert_by_multiset(lt, x, rest);
        vstd::seq_lib::lemma_multiset_commutative(seq![s[0]], insert_by(lt, x, rest));
        vstd::seq_lib::lemma_multiset_commutative(seq![s[0]], rest);
        assert(seq![s[0]] + rest =~= s);
        assert(seq![s[0]] =~= Seq::<T>::empty().push(s[0]));
        assert(insert_by(lt, x, s).to_multiset() =~= s.to_multiset().insert(x));
    } else {
        vstd::seq_lib::lemma_multiset_commutative(seq![x], s);
        assert(seq![x] =~= Seq::<T>::empty().push(x));
        assert(insert_by(lt, x, s).to_multiset() =~= s.to_multiset().insert(x));
    }
}

/// An element of a sequence is one of its entries.
proof fn lemma_multiset_member<T>(s: Seq<T>, y: T)
    requires
        s.to_multiset().count(y) > 0,
    ensures
        exists|k: int| 0 <= k < s.len() && s[k] == y,
{
    broadcast use vstd::seq_lib::group_to_multiset_ensures;

    assert(s.contains(y));
}

/// Inserting into a sorted sequence keeps it sorted.
pub proof fn lemma_insert_by_sorted<T>(le: spec_fn(T, T) -> bool, x: T, s: Seq<T>)
    requires
        is_total_preorder(le),
        sorted_by(le, s),
    ensures
        sorted_by(le, insert_by(le, x, s)),
    decreases s.len(),
{
    broadcast use vstd::seq_lib::group_to_multiset_ensures, vstd::multiset::group_multiset_axioms;

    let r = insert_by(le, x, s);
    if s.len() == 0 {
    } else if le(s[0], x) {
        let rest = s.drop_first();
        assert(sorted_by(le, rest)) by {
            assert forall|i: int, j: int| 0 <= i < j < rest.len() implies le(#[trigger] rest[i], #[trigger] rest[j]) by {
                assert(rest[i] == s[i + 1] && rest[j] == s[j + 1]);
            }
        }
        lemma_insert_by_sorted(le, x, rest);
        lemma_insert_by_multiset(le, x, rest);
        let t = insert_by(le, x, rest);
        assert(r == seq![s[0]] + t);
        assert forall|j: int| 0 <= j < t.len() implies le(s[0], #[trigger] t[j]) by {
            assert(t.contains(t[j]));
            assert(t.to_multiset().count(t[j]) > 0);
            if t[j] != x {
                assert(rest.to_multiset().count(t[j]) > 0);
                lemma_multiset_member(rest, t[j]);
                let k = choose|k: int| 0 <= k < rest.len() && rest[k] == t[j];
                assert(rest[k] == s[k + 1]);
                assert(le(s[0], s[k + 1]));
            }
        }
        assert forall|i: int, j: int| 0 <= i < j < r.len() implies le(#[trigger] r[i], #[trigger] r[j]) by {
            assert(r[j] == t[j - 1]);
            if i > 0 {
                assert(r[i] == t[i - 1]);
            }
        }
    } else {
        assert(le(x, s[0]));
        assert(r == seq![x] + s);
        assert forall|i: int, j: int| 0 <= i < j < r.len() implies le(#[trigger] r[i], #[trigger] r[j]) by {
            assert(r[j] == s[j - 1]);
            if i > 0 {
                assert(r[i] == s[i - 1]);
            } else if j > 1 {
                assert(le(s[0], s[j - 1]));
            }
        }
    }
}

/// Sorting by a total order keeps every element, and each element may stand before the
/// ones after it.
pub proof fn law_sort_by<T>(le: spec_fn(T, T) -> bool, s: Seq<T>)
    requires
        is_total_preorder(le),
    ensures
        sort_by(le, s).to_multiset() == s.to_multiset(),
        sorted_by(le, sort_by(le, s)),
    decreases s.len(),
{
    broadcast use vstd::seq_lib::group_to_multiset_ensures;

    if s.len() > 0 {
        law_sort_by(le, s.drop_last());
        lemma_insert_by_multiset(le, s.last(), sort_by(le, s.drop_last()));
        lemma_insert_by_sorted(le, s.last(), sort_by(le, s.drop_last()));
        assert(s.drop_last().push(s.last()) =~= s);
    } else {
        assert(sort_by(le, s) =~= s);
    }
}

/// The order of strings.
pub open spec fn string_lt() -> spec_fn(Seq<char>, Seq<char>) -> bool {
    |a: Seq<char>, b: Seq<char>| lex_lt(a, b)
}

/// The views of a list of strings.
pub open spec fn string_views(v: Seq<String>) -> Seq<Seq<char>> {
    v.map_values(|s: String| s@)
}

/// Sorts strings (as `sort` on a `Vec<String>` orders them).
pub fn sort_strings(v: Vec<String>) -> (r: Vec<String>)
    ensures
        string_views(r@) == sort_by(string_lt(), string_views(v@)),
{
    let ghost vs = string_views(v@);
    let mut r: Vec<String> = Vec::new();
    let mut i: usize = 0;
    while i < v.len()
        invariant
            i <= v@.len(),
            vs == string_views(v@),
            string_views(r@) == sort_by(string_lt(), vs.take(i as int)),
        decreases v@.len() - i,
    {
        let x = v[i].clone();
        let mut p: usize = 0;
        while p < r.len() && str_lt(r[p].as_str(), x.as_str())
            invariant
                p <= r@.len(),
                forall|j: int| 0 <= j < p ==> lex_lt(#[trigger] r@[j]@, x@),
            decreases r@.len() - p,
        {
            p += 1;
        }
        let ghost before = string_views(r@);
        proof {
            assert forall|j: int| 0 <= j < p implies (string_lt())(#[trigger] before[j], x@) by {
                assert(before[j] == r@[j]@);
            }
            if p < before.len() {
                assert(before[p as int] == r@[p as int]@);
            }
            lemma_insert_at(string_lt(), x@, before, p as int);
            assert(vs.take(i + 1).drop_last() == vs.take(i as int));
            assert(vs.take(i + 1).last() == x@);
        }
        r.insert(p, x);
        assert(string_views(r@) =~= before.take(p as int) + seq![x@] + before.skip(p as int));
        i += 1;
    }
    assert(vs.take(v@.len() as int) == vs);
    r
}

/// `a` comes strictly before `b` where `None` comes before every `Some`.
pub open spec fn option_lt(a: Option<Seq<char>>, b: Option<Seq<char>>) -> bool {
    match (a, b) {
        (None, Some(_)) => true,
        (Some(x), Some(y)) => lex_lt(x, y),
        _ => false,
    }
}

/// The order of attributes: by prefix, namespace, local name and value in turn (the
/// derived order of html5ever's `QualName`, then the value).
pub open spec fn attr_lt(a: AttributeView, b: AttributeView) -> bool {
    if a.name.prefix != b.name.prefix {
        option_lt(a.name.prefix, b.name.prefix)
    } else if a.name.ns != b.name.ns {
        lex_lt(a.name.ns, b.name.ns)
    } else if a.name.local != b.name.local {
        lex_lt(a.name.local, b.name.local)
    } else {
        lex_lt(a.value, b.value)
    }
}

/// The order of attributes as a function.
pub open spec fn attribute_lt() -> spec_fn(AttributeView, AttributeView) -> bool {
    |a: AttributeView, b: AttributeView| attr_lt(a, b)
}

fn option_str_eq(a: &Option<String>, b: &Option<String>) -> (r: bool)
    ensures
        r == ((match a {
            Some(x) => Some(x@),
            None => None,
        }) == (match b {
            Some(x) => Some(x@),
            None => None,
        })),
{
    match (a, b) {
        (None, None) => true,
        (Some(x), Some(y)) => str_eq(x.as_str(), y.as_str()),
        _ => false,
    }
}

fn option_str_lt(a: &Option<String>, b: &Option<String>) -> (r: bool)
    ensures
        r == option_lt(
            match a {
                Some(x) => Some(x@),
                None => None,
            },
            match b {
                Some(x) => Some(x@),
                None => None,
            },
        ),
{
    match (a, b) {
        (None, Some(_)) => true,
        (Some(x), Some(y)) => str_lt(x.as_str(), y.as_str()),
        _ => false,
    }
}

/// Whether attribute `a` comes strictly before `b`.
pub fn attribute_before(a: &Attribute, b: &Attribute) -> (r: bool)
    ensures
        r == attr_lt(a@, b@),
{
    if !option_str_eq(&a.name.prefix, &b.name.prefix) {
        option_str_lt(&a.name.prefix, &b.name.prefix)
    } else if !str_eq(a.name.ns.as_str(), b.name.ns.as_str()) {
        str_lt(a.name.ns.as_str(), b.name.ns.as_str())
    } else if !str_eq(a.name.local.as_str(), b.name.local.as_str()) {
        str_lt(a.name.local.as_str(), b.name.local.as_str())
    } else {
        str_lt(a.value.as_str(), b.value.as_str())
    }
}

/// Sorts attributes by name, then value.
pub fn sort_attributes(v: Vec<Attribute>) -> (r: Vec<Attribute>)
    ensures
        attrs_view(r@) == sort_by(attribute_lt(), attrs_view(v@)),
{
    let ghost vs = attrs_view(v@);
    let n = v.len();
    let mut v = v;
    let mut rev: Vec<Attribute> = Vec::new();
    while v.len() > 0
        invariant
            rev@.len() + v@.len() == vs.len(),
            attrs_view(v@) == vs.take(v@.len() as int),
            forall|j: int| 0 <= j < rev@.len() ==> #[trigger] rev@[j]@ == vs[vs.len() - 1 - j],
        decreases v@.len(),
    {
        let ghost old_v = v@;
        let a = v.pop().unwrap();
        assert(old_v == v@.push(a));
        assert(attrs_view(old_v)[old_v.len() - 1] == a@);
        assert(attrs_view(v@) =~= vs.take(v@.len() as int));
        rev.push(a);
    }
    let mut r: Vec<Attribute> = Vec::new();
    let mut i: usize = 0;
    while rev.len() > 0
        invariant
            i + rev@.len() == vs.len(),
            vs.len() == n,
            forall|j: int| 0 <= j < rev@.len() ==> #[trigger] rev@[j]@ == vs[vs.len() - 1 - j],
            attrs_view(r@) == sort_by(attribute_lt(), vs.take(i as int)),
        decreases rev@.len(),
    {
        let x = rev.pop().unwrap();
        assert(x@ == vs[i as int]);
        let mut p: usize = 0;
        while p < r.len() && attribute_before(&r[p], &x)
            invariant
                p <= r@.len(),
                forall|j: int| 0 <= j < p ==> attr_lt(#[trigger] r@[j]@, x@),
            decreases r@.len() - p,
        {
            p += 1;
        }
        let ghost before = attrs_view(r@);
        proof {
            assert forall|j: int| 0 <= j < p implies (attribute_lt())(#[trigger] before[j], x@) by {
                assert(before[j] == r@[j]@);
            }
            if p < before.len() {
                assert(before[p as int] == r@[p as int]@);
            }
            lemma_insert_at(attribute_lt(), x@, before, p as int);
            assert(vs.take(i + 1).drop_last() == vs.take(i as int));
            assert(vs.take(i + 1).last() == x@);
        }
        r.insert(p, x);
        assert(attrs_view(r@) =~= before.take(p as int) + seq![x@] + before.skip(p as int));
        i += 1;
    }
    assert(vs.take(vs.len() as int) == vs);
    r
}

} // verus!
