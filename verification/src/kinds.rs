//! Counts of excluded lines per exclusion kind, in text order of the kinds.
use vstd::prelude::*;
use crate::analysis::sorted_texts;
use crate::order::{lemma_text_lt_asymmetric, lemma_text_lt_irreflexive, lemma_text_lt_total, lemma_text_lt_transitive, str_lt};
use crate::source::{excluded_views, ExcludedLine, ExcludedView};
use crate::text::{str_eq, string_from, strings_view};

verus! {

/// Number of excluded lines of kind `k`.
pub open spec fn kind_count(ex: Seq<ExcludedView>, k: Seq<char>) -> nat
    decreases ex.len(),
{
    if ex.len() == 0 {
        0
    } else {
        kind_count(ex.drop_last(), k) + if ex.last().kind == k {
            1nat
        } else {
            0nat
        }
    }
}

/// Some excluded line has kind `k`.
pub open spec fn has_kind(ex: Seq<ExcludedView>, k: Seq<char>) -> bool {
    exists|i: int| 0 <= i < ex.len() && ex[i].kind == k
}

/// `ks` lists each kind that occurs once, in increasing text order.
pub open spec fn lists_kinds(ks: Seq<Seq<char>>, ex: Seq<ExcludedView>) -> bool {
    &&& sorted_texts(ks)
    &&& forall|k: Seq<char>| #[trigger] ks.contains(k) <==> has_kind(ex, k)
}

/// The kinds that occur, in increasing text order.
pub open spec fn kind_order(ex: Seq<ExcludedView>) -> Seq<Seq<char>> {
    choose|ks: Seq<Seq<char>>| lists_kinds(ks, ex)
}

/// Two strictly increasing sequences with the same elements are equal.
pub proof fn lemma_sorted_unique(a: Seq<Seq<char>>, b: Seq<Seq<char>>)
    requires
        sorted_texts(a),
        sorted_texts(b),
        forall|k: Seq<char>| #[trigger] a.contains(k) <==> b.contains(k),
    ensures
        a == b,
    decreases a.len(),
{
    if a.len() == 0 {
        if b.len() > 0 {
            assert(b.contains(b[0]));
            assert(a.contains(b[0]));
        }
        assert(a =~= b);
    } else {
        assert(a.contains(a[0]));
        let j = choose|j: int| 0 <= j < b.len() && b[j] == a[0];
        assert(b.contains(a[0]));
        assert(b.contains(b[0]));
        assert(a.contains(b[0]));
        let i = choose|i: int| 0 <= i < a.len() && a[i] == b[0];
        if j > 0 {
            assert(text_lt_pair(b, 0, j));
            if i > 0 {
                assert(text_lt_pair(a, 0, i));
                lemma_text_lt_asymmetric(a[0], b[0]);
            } else {
                lemma_text_lt_irreflexive(a[0]);
            }
        }
        assert(a[0] == b[0]);
        let a1 = a.drop_first();
        let b1 = b.drop_first();
        assert forall|k: Seq<char>| #[trigger] a1.contains(k) <==> b1.contains(k) by {
            lemma_tail_contains(a, k);
            lemma_tail_contains(b, k);
        }
        lemma_sorted_unique(a1, b1);
        assert(a =~= seq![a[0]] + a1);
        assert(b =~= seq![b[0]] + b1);
    }
}

spec fn text_lt_pair(s: Seq<Seq<char>>, i: int, j: int) -> bool {
    crate::order::text_lt(s[i], s[j])
}

proof fn lemma_tail_contains(a: Seq<Seq<char>>, k: Seq<char>)
    requires
        sorted_texts(a),
        a.len() > 0,
    ensures
        a.drop_first().contains(k) <==> (a.contains(k) && k != a[0]),
{
    if a.drop_first().contains(k) {
        let m = choose|m: int| 0 <= m < a.drop_first().len() && a.drop_first()[m] == k;
        assert(a[m + 1] == k);
        assert(crate::order::text_lt(a[0], a[m + 1]));
        if k == a[0] {
            lemma_text_lt_irreflexive(k);
        }
    }
    if a.contains(k) && k != a[0] {
        let m = choose|m: int| 0 <= m < a.len() && a[m] == k;
        assert(a.drop_first()[m - 1] == k);
    }
}

proof fn lemma_kind_count_absent(ex: Seq<ExcludedView>, k: Seq<char>)
    requires
        !has_kind(ex, k),
    ensures
        kind_count(ex, k) == 0,
    decreases ex.len(),
{
    if ex.len() > 0 {
        assert(ex[ex.len() - 1].kind != k);
        assert(!has_kind(ex.drop_last(), k)) by {
            if has_kind(ex.drop_last(), k) {
                let i = choose|i: int| 0 <= i < ex.drop_last().len() && ex.drop_last()[i].kind == k;
                assert(ex[i] == ex.drop_last()[i]);
            }
        }
        lemma_kind_count_absent(ex.drop_last(), k);
    }
}

proof fn lemma_kind_count_bound(ex: Seq<ExcludedView>, k: Seq<char>)
    ensures
        kind_count(ex, k) <= ex.len(),
    decreases ex.len(),
{
    if ex.len() > 0 {
        lemma_kind_count_bound(ex.drop_last(), k);
    }
}

/// Kinds in increasing text order, with their counts.
pub struct KindCounts {
    pub kinds: Vec<String>,
    pub counts: Vec<usize>,
}

pub open spec fn counts_shape(t: KindCounts) -> bool {
    &&& t.kinds@.len() == t.counts@.len()
    &&& sorted_texts(strings_view(t.kinds@))
}

/// `t` lists the kinds of `ex` in order, each with its number of lines.
pub open spec fn counts_of(t: KindCounts, ex: Seq<ExcludedView>) -> bool {
    &&& t.kinds@.len() == t.counts@.len()
    &&& lists_kinds(strings_view(t.kinds@), ex)
    &&& forall|i: int|
        0 <= i < t.kinds@.len() ==> t.counts@[i] == kind_count(ex, #[trigger] t.kinds@[i]@)
}

/// Position of `key`, inserted with count zero where it keeps the order if
/// it is not there yet.
fn kind_slot(t: &mut KindCounts, key: &str) -> (idx: usize)
    requires
        counts_shape(*old(t)),
    ensures
        counts_shape(*final(t)),
        idx < final(t).kinds@.len(),
        final(t).kinds@[idx as int]@ == key@,
        strings_view(old(t).kinds@).contains(key@) ==> *final(t) == *old(t),
        !strings_view(old(t).kinds@).contains(key@) ==> {
            &&& idx <= old(t).kinds@.len()
            &&& strings_view(final(t).kinds@) == strings_view(old(t).kinds@).insert(idx as int, key@)
            &&& final(t).counts@ == old(t).counts@.insert(idx as int, 0)
        },
{
    let ghost ks = strings_view(t.kinds@);
    let mut p: usize = 0;
    while p < t.kinds.len() && str_lt(t.kinds[p].as_str(), key)
        invariant
            p <= t.kinds@.len(),
            ks == strings_view(t.kinds@),
            forall|j: int| 0 <= j < p ==> crate::order::text_lt(ks[j], key@),
        decreases t.kinds@.len() - p,
    {
        p += 1;
    }
    if p < t.kinds.len() && str_eq(t.kinds[p].as_str(), key) {
        assert(ks[p as int] == key@);
        return p;
    }
    proof {
        assert(!ks.contains(key@)) by {
            if ks.contains(key@) {
                let j = choose|j: int| 0 <= j < ks.len() && ks[j] == key@;
                if j < p {
                    lemma_text_lt_irreflexive(key@);
                } else if j > p {
                    lemma_text_lt_total(ks[p as int], key@);
                    assert(text_lt_pair(ks, p as int, j));
                    lemma_text_lt_asymmetric(ks[p as int], ks[j]);
                }
            }
        }
    }
    t.kinds.insert(p, string_from(key));
    t.counts.insert(p, 0);
    proof {
        let nks = strings_view(t.kinds@);
        assert(nks =~= ks.insert(p as int, key@));
        assert forall|i: int, j: int| 0 <= i < j < nks.len() implies crate::order::text_lt(nks[i], nks[j]) by {
            if j < p {
                assert(nks[i] == ks[i] && nks[j] == ks[j]);
                assert(text_lt_pair(ks, i, j));
            } else if j == p {
                assert(nks[i] == ks[i]);
            } else if i == p {
                assert(nks[j] == ks[j - 1]);
                lemma_text_lt_total(ks[p as int], key@);
                if j - 1 > p {
                    assert(text_lt_pair(ks, p as int, j - 1));
                    lemma_text_lt_transitive(key@, ks[p as int], ks[j - 1]);
                }
            } else if i < p {
                assert(nks[i] == ks[i] && nks[j] == ks[j - 1]);
                lemma_text_lt_total(ks[p as int], key@);
                lemma_text_lt_transitive(ks[i], key@, ks[p as int]);
                if j - 1 > p {
                    assert(text_lt_pair(ks, p as int, j - 1));
                    lemma_text_lt_transitive(ks[i], ks[p as int], ks[j - 1]);
                }
            } else {
                assert(nks[i] == ks[i - 1] && nks[j] == ks[j - 1]);
                assert(text_lt_pair(ks, i - 1, j - 1));
            }
        }
    }
    p
}

/// Counts the excluded lines of each kind.
pub fn count_kinds(excluded: &Vec<ExcludedLine>) -> (t: KindCounts)
    ensures
        counts_of(t, excluded_views(excluded@)),
{
    let ghost es = excluded_views(excluded@);
    let mut t = KindCounts { kinds: Vec::new(), counts: Vec::new() };
    let mut i: usize = 0;
    proof {
        assert(strings_view(t.kinds@) =~= Seq::<Seq<char>>::empty());
    }
    while i < excluded.len()
        invariant
            i <= excluded@.len(),
            es == excluded_views(excluded@),
            counts_of(t, es.take(i as int)),
        decreases excluded@.len() - i,
    {
        let ghost pre = es.take(i as int);
        let ghost post = es.take(i + 1);
        let ghost key = excluded@[i as int].kind@;
        proof {
            assert(post.drop_last() =~= pre);
            assert(post.last() == excluded@[i as int]@);
            assert forall|f: Seq<char>| has_kind(post, f) <==> has_kind(pre, f) || f == key by {
                if has_kind(post, f) {
                    let m = choose|m: int| 0 <= m < post.len() && post[m].kind == f;
                    if m < i {
                        assert(pre[m] == post[m]);
                    }
                }
                if has_kind(pre, f) {
                    let m = choose|m: int| 0 <= m < pre.len() && pre[m].kind == f;
                    assert(post[m] == pre[m]);
                }
                if f == key {
                    assert(post[i as int].kind == key);
                }
            }
        }
        let ghost old_t = t;
        let idx = kind_slot(&mut t, excluded[i].kind.as_str());
        proof {
            let oks = strings_view(old_t.kinds@);
            let nks = strings_view(t.kinds@);
            if !oks.contains(key) {
                lemma_kind_count_absent(pre, key);
            }
            assert forall|k: int| 0 <= k < t.kinds@.len() implies t.counts@[k] == kind_count(
                pre,
                #[trigger] t.kinds@[k]@,
            ) by {
                if !oks.contains(key) {
                    if k < idx {
                        assert(nks[k] == oks[k]);
                    } else if k > idx {
                        assert(nks[k] == oks[k - 1]);
                    } else {
                        assert(nks[k] == key);
                    }
                }
            }
            assert forall|f: Seq<char>| #[trigger] nks.contains(f) <==> has_kind(pre, f) || f == key by {
                if nks.contains(f) && f != key {
                    let j = choose|j: int| 0 <= j < nks.len() && nks[j] == f;
                    if !oks.contains(key) {
                        if j < idx {
                            assert(oks[j] == f);
                        } else if j > idx {
                            assert(oks[j - 1] == f);
                        }
                    }
                }
                if oks.contains(f) {
                    let j = choose|j: int| 0 <= j < oks.len() && oks[j] == f;
                    if !oks.contains(key) {
                        if j < idx {
                            assert(nks[j] == f);
                        } else {
                            assert(nks[j + 1] == f);
                        }
                    }
                }
                if f == key {
                    assert(nks[idx as int] == f);
                }
            }
            lemma_kind_count_bound(pre, key);
        }
        let c = t.counts[idx];
        t.counts.set(idx, c + 1);
        proof {
            let nks = strings_view(t.kinds@);
            assert forall|k: int| 0 <= k < t.kinds@.len() implies t.counts@[k] == kind_count(
                post,
                #[trigger] t.kinds@[k]@,
            ) by {
                if k != idx {
                    assert(nks[k] != key) by {
                        if k < idx {
                            assert(text_lt_pair(nks, k, idx as int));
                        } else {
                            assert(text_lt_pair(nks, idx as int, k));
                        }
                        if nks[k] == key {
                            lemma_text_lt_irreflexive(key);
                        }
                    }
                }
            }
            assert forall|f: Seq<char>| #[trigger] nks.contains(f) <==> has_kind(post, f) by {
            }
        }
        i += 1;
    }
    proof {
        assert(es.take(i as int) =~= es);
    }
    t
}

/// The kinds of a tally are those of `kind_order`.
pub proof fn lemma_counts_order(t: KindCounts, ex: Seq<ExcludedView>)
    requires
        counts_of(t, ex),
    ensures
        strings_view(t.kinds@) == kind_order(ex),
{
    let ks = strings_view(t.kinds@);
    assert(lists_kinds(ks, ex));
    let c = kind_order(ex);
    assert(lists_kinds(c, ex));
    assert forall|k: Seq<char>| #[trigger] ks.contains(k) <==> c.contains(k) by {
    }
    lemma_sorted_unique(ks, c);
}

/// `ks` with `x` inserted in front of the first larger element.
pub open spec fn insert_sorted(ks: Seq<Seq<char>>, x: Seq<char>) -> Seq<Seq<char>>
    decreases ks.len(),
{
    if ks.len() == 0 {
        seq![x]
    } else if crate::order::text_lt(x, ks[0]) {
        seq![x] + ks
    } else {
        seq![ks[0]] + insert_sorted(ks.drop_first(), x)
    }
}

proof fn lemma_insert_sorted(ks: Seq<Seq<char>>, x: Seq<char>)
    requires
        sorted_texts(ks),
        !ks.contains(x),
    ensures
        sorted_texts(insert_sorted(ks, x)),
        forall|k: Seq<char>| #[trigger] insert_sorted(ks, x).contains(k) <==> ks.contains(k) || k == x,
        insert_sorted(ks, x).len() > 0 && (ks.len() > 0 ==> insert_sorted(ks, x)[0] == x || insert_sorted(ks, x)[0]
            == ks[0]),
    decreases ks.len(),
{
    let r = insert_sorted(ks, x);
    if ks.len() == 0 {
        assert forall|k: Seq<char>| #[trigger] r.contains(k) <==> ks.contains(k) || k == x by {
            if k == x {
                assert(r[0] == x);
            }
        }
    } else if crate::order::text_lt(x, ks[0]) {
        assert forall|i: int, j: int| 0 <= i < j < r.len() implies crate::order::text_lt(r[i], r[j]) by {
            if i == 0 {
                if j > 1 {
                    assert(text_lt_pair(ks, 0, j - 1));
                    lemma_text_lt_transitive(x, ks[0], ks[j - 1]);
                }
            } else {
                assert(text_lt_pair(ks, i - 1, j - 1));
            }
        }
        assert forall|k: Seq<char>| #[trigger] r.contains(k) <==> ks.contains(k) || k == x by {
            if r.contains(k) {
                let i = choose|i: int| 0 <= i < r.len() && r[i] == k;
                if i > 0 {
                    assert(ks[i - 1] == k);
                }
            }
            if ks.contains(k) {
                let i = choose|i: int| 0 <= i < ks.len() && ks[i] == k;
                assert(r[i + 1] == k);
            }
            if k == x {
                assert(r[0] == x);
            }
        }
    } else {
        let t = ks.drop_first();
        assert(sorted_texts(t)) by {
            assert forall|i: int, j: int| 0 <= i < j < t.len() implies crate::order::text_lt(t[i], t[j]) by {
                assert(text_lt_pair(ks, i + 1, j + 1));
            }
        }
        assert(!t.contains(x)) by {
            if t.contains(x) {
                let i = choose|i: int| 0 <= i < t.len() && t[i] == x;
                assert(ks[i + 1] == x);
            }
        }
        lemma_insert_sorted(t, x);
        let u = insert_sorted(t, x);
        assert(x != ks[0]) by {
            assert(ks.contains(ks[0]));
        }
        lemma_text_lt_total(x, ks[0]);
        assert forall|k: Seq<char>| #[trigger] r.contains(k) <==> ks.contains(k) || k == x by {
            if r.contains(k) {
                let i = choose|i: int| 0 <= i < r.len() && r[i] == k;
                if i > 0 {
                    assert(u[i - 1] == k);
                    assert(u.contains(k));
                    if t.contains(k) {
                        let m = choose|m: int| 0 <= m < t.len() && t[m] == k;
                        assert(ks[m + 1] == k);
                    }
                } else {
                    assert(ks[0] == k);
                }
            }
            if ks.contains(k) {
                let i = choose|i: int| 0 <= i < ks.len() && ks[i] == k;
                if i > 0 {
                    assert(t[i - 1] == k);
                    assert(t.contains(k));
                    assert(u.contains(k));
                    let m = choose|m: int| 0 <= m < u.len() && u[m] == k;
                    assert(r[m + 1] == k);
                } else {
                    assert(r[0] == k);
                }
            }
            if k == x {
                assert(u.contains(x));
                let m = choose|m: int| 0 <= m < u.len() && u[m] == x;
                assert(r[m + 1] == x);
            }
        }
        assert forall|i: int, j: int| 0 <= i < j < r.len() implies crate::order::text_lt(r[i], r[j]) by {
            if i == 0 {
                assert(r[j] == u[j - 1]);
                assert(u.contains(u[j - 1]));
                if u[j - 1] == x {
                } else {
                    assert(t.contains(u[j - 1]));
                    let m = choose|m: int| 0 <= m < t.len() && t[m] == u[j - 1];
                    assert(text_lt_pair(ks, 0, m + 1));
                }
            } else {
                assert(r[i] == u[i - 1] && r[j] == u[j - 1]);
            }
        }
    }
}

proof fn lemma_kinds_exist(ex: Seq<ExcludedView>) -> (ks: Seq<Seq<char>>)
    ensures
        lists_kinds(ks, ex),
    decreases ex.len(),
{
    if ex.len() == 0 {
        let ks = Seq::<Seq<char>>::empty();
        assert forall|k: Seq<char>| #[trigger] ks.contains(k) <==> has_kind(ex, k) by {}
        ks
    } else {
        let q = ex.drop_last();
        let ks0 = lemma_kinds_exist(q);
        let key = ex.last().kind;
        assert forall|f: Seq<char>| has_kind(ex, f) <==> has_kind(q, f) || f == key by {
            if has_kind(ex, f) {
                let m = choose|m: int| 0 <= m < ex.len() && ex[m].kind == f;
                if m < q.len() {
                    assert(q[m] == ex[m]);
                }
            }
            if has_kind(q, f) {
                let m = choose|m: int| 0 <= m < q.len() && q[m].kind == f;
                assert(ex[m] == q[m]);
            }
            if f == key {
                assert(ex[ex.len() - 1].kind == key);
            }
        }
        if ks0.contains(key) {
            assert forall|k: Seq<char>| #[trigger] ks0.contains(k) <==> has_kind(ex, k) by {}
            ks0
        } else {
            lemma_insert_sorted(ks0, key);
            let ks = insert_sorted(ks0, key);
            assert forall|k: Seq<char>| #[trigger] ks.contains(k) <==> has_kind(ex, k) by {}
            ks
        }
    }
}

/// Sum of the counts of the kinds in `ks`.
pub open spec fn counts_over(ks: Seq<Seq<char>>, ex: Seq<ExcludedView>) -> nat
    decreases ks.len(),
{
    if ks.len() == 0 {
        0
    } else {
        counts_over(ks.drop_last(), ex) + kind_count(ex, ks.last())
    }
}

spec fn occurrences(ks: Seq<Seq<char>>, x: Seq<char>) -> nat
    decreases ks.len(),
{
    if ks.len() == 0 {
        0
    } else {
        occurrences(ks.drop_last(), x) + if ks.last() == x {
            1nat
        } else {
            0nat
        }
    }
}

proof fn lemma_occurrences_once(ks: Seq<Seq<char>>, x: Seq<char>)
    requires
        sorted_texts(ks),
    ensures
        occurrences(ks, x) == if ks.contains(x) { 1nat } else { 0nat },
    decreases ks.len(),
{
    if ks.len() > 0 {
        let q = ks.drop_last();
        assert(sorted_texts(q)) by {
            assert forall|i: int, j: int| 0 <= i < j < q.len() implies crate::order::text_lt(q[i], q[j]) by {
                assert(text_lt_pair(ks, i, j));
            }
        }
        lemma_occurrences_once(q, x);
        if ks.last() == x {
            if q.contains(x) {
                let i = choose|i: int| 0 <= i < q.len() && q[i] == x;
                assert(text_lt_pair(ks, i, ks.len() - 1));
                lemma_text_lt_irreflexive(x);
            }
            assert(ks[ks.len() - 1] == x);
        } else {
            if ks.contains(x) {
                let i = choose|i: int| 0 <= i < ks.len() && ks[i] == x;
                assert(q[i] == x);
            }
            if q.contains(x) {
                let i = choose|i: int| 0 <= i < q.len() && q[i] == x;
                assert(ks[i] == x);
            }
        }
    }
}

proof fn lemma_counts_over_step(ks: Seq<Seq<char>>, ex: Seq<ExcludedView>)
    requires
        ex.len() > 0,
    ensures
        counts_over(ks, ex) == counts_over(ks, ex.drop_last()) + occurrences(ks, ex.last().kind),
    decreases ks.len(),
{
    if ks.len() > 0 {
        lemma_counts_over_step(ks.drop_last(), ex);
    }
}

proof fn lemma_counts_over_empty(ks: Seq<Seq<char>>, ex: Seq<ExcludedView>)
    requires
        ex.len() == 0,
    ensures
        counts_over(ks, ex) == 0,
    decreases ks.len(),
{
    if ks.len() > 0 {
        lemma_counts_over_empty(ks.drop_last(), ex);
    }
}

proof fn lemma_counts_add_up(ks: Seq<Seq<char>>, ex: Seq<ExcludedView>)
    requires
        sorted_texts(ks),
        forall|i: int| 0 <= i < ex.len() ==> ks.contains(#[trigger] ex[i].kind),
    ensures
        counts_over(ks, ex) == ex.len(),
    decreases ex.len(),
{
    if ex.len() == 0 {
        lemma_counts_over_empty(ks, ex);
    } else {
        let q = ex.drop_last();
        assert forall|i: int| 0 <= i < q.len() implies ks.contains(#[trigger] q[i].kind) by {
            assert(q[i] == ex[i]);
        }
        lemma_counts_add_up(ks, q);
        lemma_counts_over_step(ks, ex);
        assert(ks.contains(ex[ex.len() - 1].kind));
        lemma_occurrences_once(ks, ex.last().kind);
    }
}

/// The kinds of excluded lines, in increasing text order, each listed once,
/// with counts that add up to the number of excluded lines.
pub proof fn law_kind_counts_add_up(ex: Seq<ExcludedView>)
    ensures
        lists_kinds(kind_order(ex), ex),
        counts_over(kind_order(ex), ex) == ex.len(),
{
    let w = lemma_kinds_exist(ex);
    assert(lists_kinds(w, ex));
    let ks = kind_order(ex);
    assert(lists_kinds(ks, ex));
    assert forall|i: int| 0 <= i < ex.len() implies ks.contains(#[trigger] ex[i].kind) by {
        assert(has_kind(ex, ex[i].kind));
    }
    lemma_counts_add_up(ks, ex);
}

} // verus!
