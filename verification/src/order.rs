//! The order of `String`s (code point by code point) and sorting with it.
use vstd::prelude::*;

use crate::text::to_chars;

verus! {

/// `a` comes strictly before `b` in the order of `String` (lexicographic by code point).
pub open spec fn lex_lt(a: Seq<char>, b: Seq<char>) -> bool
    decreases a.len(),
{
    if a.len() == 0 {
        b.len() > 0
    } else if b.len() == 0 {
        false
    } else if a[0] < b[0] {
        true
    } else if a[0] > b[0] {
        false
    } else {
        lex_lt(a.drop_first(), b.drop_first())
    }
}

/// Every element comes strictly before the ones after it (so none occurs twice).
pub open spec fn strictly_sorted(s: Seq<Seq<char>>) -> bool {
    forall|i: int, j: int| 0 <= i < j < s.len() ==> lex_lt(s[i], s[j])
}

/// No element comes strictly before one in front of it.
pub open spec fn sorted(s: Seq<Seq<char>>) -> bool {
    forall|i: int, j: int| 0 <= i < j < s.len() ==> !lex_lt(s[j], s[i])
}

/// The views of a list of strings.
pub open spec fn views(v: Seq<String>) -> Seq<Seq<char>> {
    v.map_values(|s: String| s@)
}

pub proof fn lemma_lex_irreflexive(a: Seq<char>)
    ensures
        !lex_lt(a, a),
    decreases a.len(),
{
    if a.len() > 0 {
        lemma_lex_irreflexive(a.drop_first());
    }
}

pub proof fn lemma_lex_asymmetric(a: Seq<char>, b: Seq<char>)
    ensures
        !(lex_lt(a, b) && lex_lt(b, a)),
    decreases a.len(),
{
    if a.len() > 0 && b.len() > 0 {
        lemma_lex_asymmetric(a.drop_first(), b.drop_first());
    }
}

pub proof fn lemma_lex_transitive(a: Seq<char>, b: Seq<char>, c: Seq<char>)
    requires
        lex_lt(a, b),
        lex_lt(b, c),
    ensures
        lex_lt(a, c),
    decreases a.len(),
{
    if a.len() > 0 && b.len() > 0 && c.len() > 0 {
        if a[0] == b[0] && b[0] == c[0] {
            lemma_lex_transitive(a.drop_first(), b.drop_first(), c.drop_first());
        }
    } else if a.len() == 0 {
        assert(b.len() > 0);
    }
}

pub proof fn lemma_lex_total(a: Seq<char>, b: Seq<char>)
    ensures
        a == b || lex_lt(a, b) || lex_lt(b, a),
    decreases a.len(),
{
    if a.len() > 0 && b.len() > 0 {
        lemma_lex_total(a.drop_first(), b.drop_first());
        if a[0] == b[0] && a.drop_first() == b.drop_first() {
            assert(a == seq![a[0]] + a.drop_first());
            assert(b == seq![b[0]] + b.drop_first());
        }
    } else if a.len() == 0 && b.len() == 0 {
        assert(a == b);
    }
}

proof fn lemma_views_contains(v: Seq<String>, x: Seq<char>)
    ensures
        views(v).contains(x) <==> exists|k: int| 0 <= k < v.len() && #[trigger] v[k]@ == x,
{
    if views(v).contains(x) {
        let k = choose|k: int| 0 <= k < views(v).len() && views(v)[k] == x;
        assert(v[k]@ == x);
    }
    if exists|k: int| 0 <= k < v.len() && #[trigger] v[k]@ == x {
        let k = choose|k: int| 0 <= k < v.len() && #[trigger] v[k]@ == x;
        assert(views(v)[k] == x);
    }
}

/// Whether `a` comes strictly before `b`.
pub fn chars_lt(a: &[char], b: &[char]) -> (r: bool)
    ensures
        r == lex_lt(a@, b@),
{
    let mut i: usize = 0;
    assert(a@.skip(0) == a@);
    assert(b@.skip(0) == b@);
    while i < a.len() && i < b.len() && a[i] == b[i]
        invariant
            i <= a@.len(),
            i <= b@.len(),
            lex_lt(a@, b@) == lex_lt(a@.skip(i as int), b@.skip(i as int)),
        decreases a@.len() - i,
    {
        assert(a@.skip(i as int).drop_first() == a@.skip(i + 1));
        assert(b@.skip(i as int).drop_first() == b@.skip(i + 1));
        i += 1;
    }
    if i == a.len() {
        i < b.len()
    } else if i == b.len() {
        false
    } else {
        a[i] < b[i]
    }
}

/// Whether the string `a` comes strictly before `b`.
pub fn str_lt(a: &str, b: &str) -> (r: bool)
    ensures
        r == lex_lt(a@, b@),
{
    let ac = to_chars(a);
    let bc = to_chars(b);
    chars_lt(ac.as_slice(), bc.as_slice())
}

/// Whether two strings hold the same characters.
pub fn str_eq(a: &str, b: &str) -> (r: bool)
    ensures
        r == (a@ == b@),
{
    proof {
        lemma_lex_total(a@, b@);
        lemma_lex_irreflexive(a@);
    }
    !str_lt(a, b) && !str_lt(b, a)
}

proof fn lemma_take_push_contains(v: Seq<String>, i: int, x: Seq<char>)
    requires
        0 <= i < v.len(),
    ensures
        views(v.take(i + 1)).contains(x) <==> (views(v.take(i)).contains(x) || v[i]@ == x),
{
    lemma_views_contains(v.take(i + 1), x);
    lemma_views_contains(v.take(i), x);
    if exists|k: int| 0 <= k < v.take(i + 1).len() && #[trigger] v.take(i + 1)[k]@ == x {
        let k = choose|k: int| 0 <= k < v.take(i + 1).len() && #[trigger] v.take(i + 1)[k]@ == x;
        if k < i {
            assert(v.take(i)[k]@ == x);
        }
    }
    if exists|k: int| 0 <= k < v.take(i).len() && #[trigger] v.take(i)[k]@ == x {
        let k = choose|k: int| 0 <= k < v.take(i).len() && #[trigger] v.take(i)[k]@ == x;
        assert(v.take(i + 1)[k]@ == x);
    }
    if v[i]@ == x {
        assert(v.take(i + 1)[i]@ == x);
    }
}

proof fn lemma_insert_contains(r: Seq<String>, p: int, s: String, x: Seq<char>)
    requires
        0 <= p <= r.len(),
    ensures
        views(r.insert(p, s)).contains(x) <==> (views(r).contains(x) || s@ == x),
{
    assert(views(r.insert(p, s)) =~= views(r).insert(p, s@));
    lemma_views_contains(r.insert(p, s), x);
    lemma_views_contains(r, x);
    if exists|k: int| 0 <= k < r.insert(p, s).len() && #[trigger] r.insert(p, s)[k]@ == x {
        let k = choose|k: int| 0 <= k < r.insert(p, s).len() && #[trigger] r.insert(p, s)[k]@ == x;
        if k < p {
            assert(r[k]@ == x);
        } else if k > p {
            assert(r[k - 1]@ == x);
        }
    }
    if exists|k: int| 0 <= k < r.len() && #[trigger] r[k]@ == x {
        let k = choose|k: int| 0 <= k < r.len() && #[trigger] r[k]@ == x;
        if k < p {
            assert(r.insert(p, s)[k]@ == x);
        } else {
            assert(r.insert(p, s)[k + 1]@ == x);
        }
    }
    if s@ == x {
        assert(r.insert(p, s)[p]@ == x);
    }
}

proof fn lemma_insert_sorted(r: Seq<String>, p: int, s: String)
    requires
        0 <= p <= r.len(),
        strictly_sorted(views(r)),
        forall|k: int| 0 <= k < p ==> lex_lt(#[trigger] r[k]@, s@),
        p < r.len() ==> lex_lt(s@, r[p]@),
    ensures
        strictly_sorted(views(r.insert(p, s))),
{
    let n = r.insert(p, s);
    assert forall|a: int, b: int| 0 <= a < b < views(n).len() implies lex_lt(
        views(n)[a],
        views(n)[b],
    ) by {
        let va = if a < p { r[a]@ } else if a == p { s@ } else { r[a - 1]@ };
        let vb = if b < p { r[b]@ } else if b == p { s@ } else { r[b - 1]@ };
        assert(views(n)[a] == va);
        assert(views(n)[b] == vb);
        if b < p {
            assert(lex_lt(views(r)[a], views(r)[b]));
        } else if b == p {
            assert(lex_lt(r[a]@, s@));
        } else if a < p {
            assert(lex_lt(views(r)[a], views(r)[b - 1]));
        } else if a == p {
            if b - 1 > p {
                assert(lex_lt(views(r)[p], views(r)[b - 1]));
                lemma_lex_transitive(s@, r[p]@, r[b - 1]@);
            }
        } else {
            assert(lex_lt(views(r)[a - 1], views(r)[b - 1]));
        }
    }
}

/// The elements of `xs` in order, each once.
pub open spec fn sorted_unique(xs: Seq<Seq<char>>) -> Seq<Seq<char>> {
    choose|r: Seq<Seq<char>>|
        strictly_sorted(r) && forall|x: Seq<char>| #[trigger] r.contains(x) <==> xs.contains(x)
}

proof fn lemma_first_is_least(a: Seq<Seq<char>>, x: Seq<char>)
    requires
        strictly_sorted(a),
        a.contains(x),
        a.len() > 0,
    ensures
        x == a[0] || lex_lt(a[0], x),
{
    let k = choose|k: int| 0 <= k < a.len() && a[k] == x;
    if k > 0 {
        assert(lex_lt(a[0], a[k]));
    }
}

/// Two lists in strict order with the same elements are the same list.
pub proof fn lemma_strictly_sorted_unique(a: Seq<Seq<char>>, b: Seq<Seq<char>>)
    requires
        strictly_sorted(a),
        strictly_sorted(b),
        forall|x: Seq<char>| a.contains(x) <==> b.contains(x),
    ensures
        a == b,
    decreases a.len(),
{
    if a.len() == 0 {
        if b.len() > 0 {
            assert(b.contains(b[0]));
        }
        assert(a =~= b);
    } else {
        assert(a.contains(a[0]));
        assert(b.len() > 0);
        assert(b.contains(b[0]));
        lemma_first_is_least(a, b[0]);
        lemma_first_is_least(b, a[0]);
        if a[0] != b[0] {
            lemma_lex_asymmetric(a[0], b[0]);
        }
        let a1 = a.drop_first();
        let b1 = b.drop_first();
        assert(strictly_sorted(a1)) by {
            assert forall|i: int, j: int| 0 <= i < j < a1.len() implies lex_lt(a1[i], a1[j]) by {
                assert(lex_lt(a[i + 1], a[j + 1]));
            }
        }
        assert(strictly_sorted(b1)) by {
            assert forall|i: int, j: int| 0 <= i < j < b1.len() implies lex_lt(b1[i], b1[j]) by {
                assert(lex_lt(b[i + 1], b[j + 1]));
            }
        }
        assert forall|x: Seq<char>| a1.contains(x) <==> b1.contains(x) by {
            if a1.contains(x) {
                let k = choose|k: int| 0 <= k < a1.len() && a1[k] == x;
                assert(lex_lt(a[0], a[k + 1]));
                assert(a.contains(x));
                let m = choose|m: int| 0 <= m < b.len() && b[m] == x;
                if m == 0 {
                    lemma_lex_irreflexive(a[0]);
                } else {
                    assert(b1[m - 1] == x);
                }
            }
            if b1.contains(x) {
                let k = choose|k: int| 0 <= k < b1.len() && b1[k] == x;
                assert(lex_lt(b[0], b[k + 1]));
                assert(b.contains(x));
                let m = choose|m: int| 0 <= m < a.len() && a[m] == x;
                if m == 0 {
                    lemma_lex_irreflexive(b[0]);
                } else {
                    assert(a1[m - 1] == x);
                }
            }
        }
        lemma_strictly_sorted_unique(a1, b1);
        assert(a =~= seq![a[0]] + a1);
        assert(b =~= seq![b[0]] + b1);
    }
}

/// A list in strict order with the elements of `xs` is `sorted_unique(xs)`.
pub proof fn lemma_is_sorted_unique(r: Seq<Seq<char>>, xs: Seq<Seq<char>>)
    requires
        strictly_sorted(r),
        forall|x: Seq<char>| r.contains(x) <==> xs.contains(x),
    ensures
        r == sorted_unique(xs),
{
    assert(strictly_sorted(r) && forall|x: Seq<char>| #[trigger] r.contains(x) <==> xs.contains(x));
    let c = sorted_unique(xs);
    lemma_strictly_sorted_unique(r, c);
}

/// The number of leading elements of a list in strict order that come strictly before `x`.
proof fn lemma_position(r: Seq<Seq<char>>, x: Seq<char>) -> (p: int)
    ensures
        0 <= p <= r.len(),
        forall|k: int| 0 <= k < p ==> lex_lt(#[trigger] r[k], x),
        p < r.len() ==> !lex_lt(r[p], x),
    decreases r.len(),
{
    if r.len() == 0 {
        0
    } else {
        let init = r.drop_last();
        let q = lemma_position(init, x);
        assert forall|k: int| 0 <= k < q implies lex_lt(#[trigger] r[k], x) by {
            assert(r[k] == init[k]);
        }
        if q < init.len() {
            assert(r[q] == init[q]);
            q
        } else if lex_lt(r.last(), x) {
            r.len() as int
        } else {
            q
        }
    }
}

proof fn lemma_insert_strictly_sorted(r: Seq<Seq<char>>, p: int, x: Seq<char>)
    requires
        0 <= p <= r.len(),
        strictly_sorted(r),
        forall|k: int| 0 <= k < p ==> lex_lt(#[trigger] r[k], x),
        p < r.len() ==> lex_lt(x, r[p]),
    ensures
        strictly_sorted(r.insert(p, x)),
{
    let n = r.insert(p, x);
    assert forall|a: int, b: int| 0 <= a < b < n.len() implies lex_lt(n[a], n[b]) by {
        if b < p {
            assert(lex_lt(r[a], r[b]));
        } else if b == p {
            assert(lex_lt(r[a], x));
        } else if a < p {
            assert(lex_lt(r[a], r[b - 1]));
        } else if a == p {
            if b - 1 > p {
                assert(lex_lt(r[p], r[b - 1]));
                lemma_lex_transitive(x, r[p], r[b - 1]);
            }
        } else {
            assert(lex_lt(r[a - 1], r[b - 1]));
        }
    }
}

/// A list in strict order with the elements of `xs`.
proof fn lemma_sorted_witness(xs: Seq<Seq<char>>) -> (r: Seq<Seq<char>>)
    ensures
        strictly_sorted(r),
        forall|x: Seq<char>| #[trigger] r.contains(x) <==> xs.contains(x),
    decreases xs.len(),
{
    if xs.len() == 0 {
        let r = Seq::<Seq<char>>::empty();
        assert forall|x: Seq<char>| #[trigger] r.contains(x) <==> xs.contains(x) by {}
        r
    } else {
        let init = xs.drop_last();
        let x = xs.last();
        let r0 = lemma_sorted_witness(init);
        assert forall|y: Seq<char>| xs.contains(y) <==> (init.contains(y) || y == x) by {
            if xs.contains(y) {
                let k = choose|k: int| 0 <= k < xs.len() && xs[k] == y;
                if k < init.len() {
                    assert(init[k] == y);
                }
            }
            if init.contains(y) {
                let k = choose|k: int| 0 <= k < init.len() && init[k] == y;
                assert(xs[k] == y);
            }
            if y == x {
                assert(xs[xs.len() - 1] == y);
            }
        }
        if r0.contains(x) {
            r0
        } else {
            let p = lemma_position(r0, x);
            if p < r0.len() {
                lemma_lex_total(r0[p], x);
                assert(r0.contains(r0[p]));
            }
            lemma_insert_strictly_sorted(r0, p, x);
            let r = r0.insert(p, x);
            assert forall|y: Seq<char>| #[trigger] r.contains(y) <==> (r0.contains(y) || y == x) by {
                if r.contains(y) {
                    let k = choose|k: int| 0 <= k < r.len() && r[k] == y;
                    if k < p {
                        assert(r0[k] == y);
                    } else if k > p {
                        assert(r0[k - 1] == y);
                    }
                }
                if r0.contains(y) {
                    let k = choose|k: int| 0 <= k < r0.len() && r0[k] == y;
                    if k < p {
                        assert(r[k] == y);
                    } else {
                        assert(r[k + 1] == y);
                    }
                }
                if y == x {
                    assert(r[p] == y);
                }
            }
            r
        }
    }
}

/// `sorted_unique` is in strict order and holds the elements of `xs`.
pub proof fn lemma_sorted_unique(xs: Seq<Seq<char>>)
    ensures
        strictly_sorted(sorted_unique(xs)),
        forall|x: Seq<char>| #[trigger] sorted_unique(xs).contains(x) <==> xs.contains(x),
{
    let w = lemma_sorted_witness(xs);
    assert(strictly_sorted(w) && forall|x: Seq<char>| #[trigger] w.contains(x) <==> xs.contains(x));
}

/// The elements in order, each once, depend only on which elements there are: not on
/// their order, nor on repeats.
pub proof fn law_sorted_unique_same_elements(xs: Seq<Seq<char>>, ys: Seq<Seq<char>>)
    requires
        forall|x: Seq<char>| xs.contains(x) <==> ys.contains(x),
    ensures
        sorted_unique(xs) == sorted_unique(ys),
{
    lemma_sorted_unique(xs);
    lemma_sorted_unique(ys);
    lemma_strictly_sorted_unique(sorted_unique(xs), sorted_unique(ys));
}

/// The strings in order, each once: `sort_unstable` followed by `dedup`.
pub fn sort_dedup(v: Vec<String>) -> (r: Vec<String>)
    ensures
        strictly_sorted(views(r@)),
        forall|x: Seq<char>| views(r@).contains(x) <==> views(v@).contains(x),
        views(r@) == sorted_unique(views(v@)),
{
    let mut r: Vec<String> = Vec::new();
    let mut i: usize = 0;
    while i < v.len()
        invariant
            i <= v@.len(),
            strictly_sorted(views(r@)),
            forall|x: Seq<char>| views(r@).contains(x) <==> views(v@.take(i as int)).contains(x),
        decreases v@.len() - i,
    {
        let s = v[i].clone();
        let mut p: usize = 0;
        while p < r.len() && str_lt(r[p].as_str(), s.as_str())
            invariant
                p <= r@.len(),
                forall|k: int| 0 <= k < p ==> lex_lt(#[trigger] r@[k]@, s@),
            decreases r@.len() - p,
        {
            p += 1;
        }
        let ghost old_r = r@;
        if p < r.len() && str_eq(r[p].as_str(), s.as_str()) {
            assert forall|x: Seq<char>| views(r@).contains(x) <==> views(v@.take(i + 1)).contains(
                x,
            ) by {
                lemma_take_push_contains(v@, i as int, x);
                if x == s@ {
                    assert(views(r@)[p as int] == x);
                }
            }
        } else {
            proof {
                if p < r@.len() {
                    lemma_lex_total(r@[p as int]@, s@);
                }
                lemma_insert_sorted(old_r, p as int, s);
            }
            r.insert(p, s);
            assert forall|x: Seq<char>| views(r@).contains(x) <==> views(v@.take(i + 1)).contains(
                x,
            ) by {
                lemma_take_push_contains(v@, i as int, x);
                lemma_insert_contains(old_r, p as int, s, x);
            }
        }
        i += 1;
    }
    assert(v@.take(v@.len() as int) == v@);
    proof {
        lemma_is_sorted_unique(views(r@), views(v@));
    }
    r
}

} // verus!
