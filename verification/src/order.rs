//! Lexicographic order on texts by code point, the order of `String` and of
//! maps keyed by `String`; and the order of paths given as components.
use vstd::prelude::*;
use crate::text::{chars_of, strings_view};

verus! {

/// `a` sorts strictly before `b`: at the first differing position `a` has the
/// smaller code point, or `a` is a proper prefix of `b`.
pub open spec fn text_lt(a: Seq<char>, b: Seq<char>) -> bool
    decreases a.len(),
{
    if a.len() == 0 {
        b.len() > 0
    } else if b.len() == 0 {
        false
    } else if a[0] != b[0] {
        a[0] < b[0]
    } else {
        text_lt(a.drop_first(), b.drop_first())
    }
}

pub proof fn lemma_text_lt_irreflexive(a: Seq<char>)
    ensures
        !text_lt(a, a),
    decreases a.len(),
{
    if a.len() > 0 {
        lemma_text_lt_irreflexive(a.drop_first());
    }
}

pub proof fn lemma_text_lt_asymmetric(a: Seq<char>, b: Seq<char>)
    ensures
        text_lt(a, b) ==> !text_lt(b, a),
    decreases a.len(),
{
    if a.len() > 0 && b.len() > 0 && a[0] == b[0] {
        lemma_text_lt_asymmetric(a.drop_first(), b.drop_first());
    }
}

pub proof fn lemma_text_lt_transitive(a: Seq<char>, b: Seq<char>, c: Seq<char>)
    ensures
        text_lt(a, b) && text_lt(b, c) ==> text_lt(a, c),
    decreases a.len(),
{
    if a.len() > 0 && b.len() > 0 && c.len() > 0 {
        lemma_text_lt_transitive(a.drop_first(), b.drop_first(), c.drop_first());
    }
}

pub proof fn lemma_text_lt_total(a: Seq<char>, b: Seq<char>)
    ensures
        a != b ==> text_lt(a, b) || text_lt(b, a),
    decreases a.len(),
{
    if a.len() > 0 && b.len() > 0 {
        if a[0] == b[0] {
            lemma_text_lt_total(a.drop_first(), b.drop_first());
            if a.drop_first() == b.drop_first() {
                assert(a =~= seq![a[0]] + a.drop_first());
                assert(b =~= seq![b[0]] + b.drop_first());
                assert(a =~= b);
            }
        } else {
            assert(a[0] < b[0] || b[0] < a[0]);
        }
    } else if a.len() == 0 && b.len() == 0 {
        assert(a =~= b);
    }
}

/// Strict lexicographic comparison of two character sequences.
pub fn chars_lt(a: &[char], b: &[char]) -> (r: bool)
    ensures
        r == text_lt(a@, b@),
{
    let mut i: usize = 0;
    assert(a@.skip(0) =~= a@ && b@.skip(0) =~= b@);
    while i < a.len() && i < b.len() && a[i] == b[i]
        invariant
            i <= a.len(),
            i <= b.len(),
            text_lt(a@, b@) == text_lt(a@.skip(i as int), b@.skip(i as int)),
        decreases a.len() - i,
    {
        proof {
            assert(a@.skip(i as int).drop_first() =~= a@.skip(i + 1));
            assert(b@.skip(i as int).drop_first() =~= b@.skip(i + 1));
        }
        i += 1;
    }
    if i == a.len() {
        i < b.len()
    } else if i == b.len() {
        false
    } else {
        a[i] < b[i]
    }
}

/// Strict lexicographic comparison of two texts.
pub fn str_lt(a: &str, b: &str) -> (r: bool)
    ensures
        r == text_lt(a@, b@),
{
    let x = chars_of(a);
    let y = chars_of(b);
    chars_lt(&x, &y)
}

// ---------------------------------------------------------------------------
// Paths as sequences of components
// ---------------------------------------------------------------------------

/// `a` sorts strictly before `b` component by component, the order of
/// `Path`: at the first differing component `a`'s is smaller, or `a` is a
/// proper prefix of `b`.
pub open spec fn path_lt(a: Seq<Seq<char>>, b: Seq<Seq<char>>) -> bool
    decreases a.len(),
{
    if a.len() == 0 {
        b.len() > 0
    } else if b.len() == 0 {
        false
    } else if a[0] != b[0] {
        text_lt(a[0], b[0])
    } else {
        path_lt(a.drop_first(), b.drop_first())
    }
}

pub proof fn lemma_path_lt_asymmetric(a: Seq<Seq<char>>, b: Seq<Seq<char>>)
    ensures
        path_lt(a, b) ==> !path_lt(b, a),
    decreases a.len(),
{
    if a.len() > 0 && b.len() > 0 {
        if a[0] == b[0] {
            lemma_path_lt_asymmetric(a.drop_first(), b.drop_first());
        } else {
            lemma_text_lt_asymmetric(a[0], b[0]);
        }
    }
}

pub proof fn lemma_path_lt_transitive(a: Seq<Seq<char>>, b: Seq<Seq<char>>, c: Seq<Seq<char>>)
    ensures
        path_lt(a, b) && path_lt(b, c) ==> path_lt(a, c),
    decreases a.len(),
{
    if a.len() > 0 && b.len() > 0 && c.len() > 0 {
        lemma_path_lt_transitive(a.drop_first(), b.drop_first(), c.drop_first());
        lemma_text_lt_transitive(a[0], b[0], c[0]);
        if a[0] != b[0] && b[0] != c[0] && a[0] == c[0] {
            lemma_text_lt_asymmetric(a[0], b[0]);
        }
    }
}

pub proof fn lemma_path_lt_total(a: Seq<Seq<char>>, b: Seq<Seq<char>>)
    ensures
        a != b ==> path_lt(a, b) || path_lt(b, a),
    decreases a.len(),
{
    if a.len() > 0 && b.len() > 0 {
        if a[0] == b[0] {
            lemma_path_lt_total(a.drop_first(), b.drop_first());
            if a.drop_first() == b.drop_first() {
                assert(a =~= seq![a[0]] + a.drop_first());
                assert(b =~= seq![b[0]] + b.drop_first());
            }
        } else {
            lemma_text_lt_total(a[0], b[0]);
        }
    } else if a.len() == 0 && b.len() == 0 {
        assert(a =~= b);
    }
}

/// The components of a path as texts.
pub open spec fn path_view(p: Vec<String>) -> Seq<Seq<char>> {
    strings_view(p@)
}

pub open spec fn paths_view(v: Seq<Vec<String>>) -> Seq<Seq<Seq<char>>> {
    v.map_values(|p: Vec<String>| path_view(p))
}

/// Strict comparison of two paths given as components.
pub fn paths_lt(a: &Vec<String>, b: &Vec<String>) -> (r: bool)
    ensures
        r == path_lt(path_view(*a), path_view(*b)),
{
    let ghost x = path_view(*a);
    let ghost y = path_view(*b);
    let mut i: usize = 0;
    assert(x.skip(0) =~= x && y.skip(0) =~= y);
    while i < a.len() && i < b.len() && crate::text::str_eq(a[i].as_str(), b[i].as_str())
        invariant
            i <= a@.len(),
            i <= b@.len(),
            x == path_view(*a),
            y == path_view(*b),
            path_lt(x, y) == path_lt(x.skip(i as int), y.skip(i as int)),
        decreases a@.len() - i,
    {
        proof {
            assert(x.skip(i as int).drop_first() =~= x.skip(i + 1));
            assert(y.skip(i as int).drop_first() =~= y.skip(i + 1));
            assert(x.skip(i as int)[0] == x[i as int]);
            assert(y.skip(i as int)[0] == y[i as int]);
        }
        i += 1;
    }
    if i == a.len() {
        i < b.len()
    } else if i == b.len() {
        false
    } else {
        proof {
            assert(x.skip(i as int)[0] == x[i as int]);
            assert(y.skip(i as int)[0] == y[i as int]);
        }
        str_lt(a[i].as_str(), b[i].as_str())
    }
}

/// In non-decreasing path order.
pub open spec fn paths_sorted(v: Seq<Seq<Seq<char>>>) -> bool {
    forall|i: int, j: int| 0 <= i < j < v.len() ==> !path_lt(v[j], v[i])
}

proof fn lemma_insert_multiset<A>(s: Seq<A>, p: int, x: A)
    requires
        0 <= p <= s.len(),
    ensures
        s.insert(p, x).to_multiset() == s.to_multiset().insert(x),
{
    let t = s.insert(p, x);
    assert(t.remove(p) =~= s);
    vstd::seq_lib::to_multiset_remove(t, p);
    assert(t[p] == x);
    vstd::seq_lib::to_multiset_contains(t, x);
    assert(t.contains(x));
    assert(t.to_multiset().count(x) > 0);
    assert(t.to_multiset() =~= t.to_multiset().remove(x).insert(x));
}

/// Sorts paths into path order; equal paths keep their relative order.
pub fn sort_paths(v: Vec<Vec<String>>) -> (r: Vec<Vec<String>>)
    ensures
        paths_sorted(paths_view(r@)),
        paths_view(r@).to_multiset() == paths_view(v@).to_multiset(),
{
    let ghost vs = paths_view(v@);
    let mut r: Vec<Vec<String>> = Vec::new();
    let n = v.len();
    let mut rest = v;
    let mut pending: Vec<Vec<String>> = Vec::new();
    // Take the items out; `pending` holds them last first.
    assert(vs.skip(n as int).reverse() =~= paths_view(pending@));
    while rest.len() > 0
        invariant
            rest@.len() + pending@.len() == n,
            n == vs.len(),
            paths_view(pending@) == vs.skip(rest@.len() as int).reverse(),
            paths_view(rest@) == vs.take(rest@.len() as int),
        decreases rest@.len(),
    {
        let ghost m = rest@.len() as int;
        let ghost before = pending@;
        let item = rest.pop().unwrap();
        proof {
            assert(path_view(item) == vs[m - 1]) by {
                assert(vs.take(m)[m - 1] == vs[m - 1]);
            }
        }
        pending.push(item);
        proof {
            assert(paths_view(rest@) =~= vs.take(rest@.len() as int)) by {
                assert forall|k: int| 0 <= k < rest@.len() implies paths_view(rest@)[k] == vs.take(
                    rest@.len() as int,
                )[k] by {
                    assert(vs.take(m)[k] == vs[k]);
                }
            }
            assert(paths_view(pending@) =~= paths_view(before).push(vs[m - 1]));
            assert(vs.skip(m - 1).reverse() =~= vs.skip(m).reverse().push(vs[m - 1]));
        }
    }
    proof {
        assert(vs.take(0) =~= paths_view(r@));
        assert(vs.skip(0) =~= vs);
    }
    let mut i: usize = 0;
    while pending.len() > 0
        invariant
            i + pending@.len() == n,
            n == vs.len(),
            paths_view(pending@) == vs.skip(i as int).reverse(),
            paths_sorted(paths_view(r@)),
            paths_view(r@).to_multiset() == vs.take(i as int).to_multiset(),
        decreases pending@.len(),
    {
        let item = pending.pop().unwrap();
        let ghost xv = path_view(item);
        proof {
            assert(xv == vs[i as int]) by {
                assert(vs.skip(i as int).reverse()[pending@.len() as int] == vs.skip(i as int)[0]);
            }
        }
        let mut p: usize = 0;
        while p < r.len() && !paths_lt(&item, &r[p])
            invariant
                p <= r@.len(),
                xv == path_view(item),
                forall|k: int| 0 <= k < p ==> !path_lt(xv, paths_view(r@)[k]),
            decreases r@.len() - p,
        {
            p += 1;
        }
        let ghost rv = paths_view(r@);
        r.insert(p, item);
        proof {
            let nv = paths_view(r@);
            assert(nv =~= rv.insert(p as int, xv));
            assert forall|a: int, b: int| 0 <= a < b < nv.len() implies !path_lt(nv[b], nv[a]) by {
                if b < p {
                    assert(nv[a] == rv[a] && nv[b] == rv[b]);
                } else if b == p {
                    assert(nv[a] == rv[a]);
                } else if a == p {
                    assert(nv[b] == rv[b - 1]);
                    if p < rv.len() {
                        assert(path_lt(xv, rv[p as int]));
                        if path_lt(rv[b - 1], xv) {
                            lemma_path_lt_transitive(rv[b - 1], xv, rv[p as int]);
                            if b - 1 == p {
                                lemma_path_lt_asymmetric(rv[b - 1], xv);
                            }
                        }
                    }
                } else if a < p {
                    assert(nv[a] == rv[a] && nv[b] == rv[b - 1]);
                } else {
                    assert(nv[a] == rv[a - 1] && nv[b] == rv[b - 1]);
                }
            }
            lemma_insert_multiset(rv, p as int, xv);
            assert(vs.take(i + 1) =~= vs.take(i as int).push(xv));
            vstd::seq_lib::to_multiset_build(vs.take(i as int), xv);
            assert(vs.skip(i + 1).reverse() =~= vs.skip(i as int).reverse().drop_last());
            assert(paths_view(pending@) =~= vs.skip(i as int).reverse().drop_last());
        }
        i += 1;
    }
    proof {
        assert(vs.take(i as int) =~= vs);
    }
    r
}

} // verus!
