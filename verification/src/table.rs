//! Feature counters keyed by file path or project name, and their
//! construction from code lines.
use vstd::prelude::*;
use vstd::hash_map::StringHashMap;
use crate::source::{lines_view, CodeLine, LineView};
use crate::stats::{
    add_file_stats, add_line_stats, bounded_by, line_room, spec_add_line, spec_add_stats,
    sums_fit, zero_stats, FileStats,
};
use crate::text::{chars_of, string_of, strings_view};

verus! {

/// Counters per key (file path or project name), remembering the order in
/// which keys first appeared.
pub struct StatsMap {
    map: StringHashMap<FileStats>,
    keys: Vec<String>,
}

impl View for StatsMap {
    type V = Map<Seq<char>, FileStats>;

    closed spec fn view(&self) -> Map<Seq<char>, FileStats> {
        self.map@
    }
}

/// The counters stored under `k`, or all-zero counters.
pub open spec fn stats_or_zero(m: Map<Seq<char>, FileStats>, k: Seq<char>) -> FileStats {
    if m.contains_key(k) {
        m[k]
    } else {
        zero_stats()
    }
}

impl StatsMap {
    #[verifier::type_invariant]
    closed spec fn inv(self) -> bool {
        &&& strings_view(self.keys@).no_duplicates()
        &&& forall|k: Seq<char>| #[trigger]
            self.map@.contains_key(k) <==> strings_view(self.keys@).contains(k)
    }

    /// The keys, in order of first appearance.
    pub closed spec fn key_list(&self) -> Seq<Seq<char>> {
        strings_view(self.keys@)
    }

    /// The keys are distinct and are exactly the stored keys.
    pub fn check_keys(&self)
        ensures
            self.key_list().no_duplicates(),
            forall|k: Seq<char>| #[trigger] self@.contains_key(k) <==> self.key_list().contains(k),
    {
        proof {
            use_type_invariant(self);
        }
    }

    pub fn new() -> (r: StatsMap)
        ensures
            r@ == Map::<Seq<char>, FileStats>::empty(),
            r.key_list() == Seq::<Seq<char>>::empty(),
    {
        let r = StatsMap { map: StringHashMap::new(), keys: Vec::new() };
        assert(strings_view(r.keys@) =~= Seq::<Seq<char>>::empty());
        r
    }

    /// The counters stored under `key`, or all-zero counters.
    pub fn get_or_default(&self, key: &str) -> (r: FileStats)
        ensures
            r == stats_or_zero(self@, key@),
    {
        match self.map.get(key) {
            Some(v) => *v,
            None => FileStats::default(),
        }
    }

    pub fn contains_key(&self, key: &str) -> (r: bool)
        ensures
            r == self@.contains_key(key@),
    {
        self.map.contains_key(key)
    }

    /// Stores `value` under `key`.
    pub fn set(&mut self, key: &str, value: FileStats)
        ensures
            final(self)@ == old(self)@.insert(key@, value),
            old(self)@.contains_key(key@) ==> final(self).key_list() == old(self).key_list(),
            !old(self)@.contains_key(key@) ==> final(self).key_list() == old(self).key_list().push(
                key@,
            ),
    {
        let mut current = StatsMap::new();
        std::mem::swap(self, &mut current);
        proof {
            use_type_invariant(&current);
        }
        let StatsMap { mut map, mut keys } = current;
        let ghost old_map = map@;
        let ghost before = strings_view(keys@);
        let present = map.contains_key(key);
        let k1 = string_of(chars_of(key).as_slice());
        let k2 = string_of(chars_of(key).as_slice());
        if !present {
            keys.push(k2);
            proof {
                assert(strings_view(keys@) =~= before.push(key@));
                assert forall|i: int, j: int|
                    0 <= i < j < strings_view(keys@).len() implies strings_view(keys@)[i]
                    != strings_view(keys@)[j] by {
                    if j == before.len() {
                        assert(before.contains(before[i]));
                    }
                }
            }
        } else {
            assert(strings_view(keys@) =~= before);
        }
        map.insert(k1, value);
        proof {
            assert forall|k: Seq<char>| #[trigger]
                map@.contains_key(k) <==> strings_view(keys@).contains(k) by {
                if k == key@ {
                    if present {
                        assert(old_map.contains_key(k));
                    } else {
                        assert(strings_view(keys@).last() == k);
                    }
                } else if !present {
                    if strings_view(keys@).contains(k) {
                        let i = choose|i: int|
                            0 <= i < strings_view(keys@).len() && strings_view(keys@)[i] == k;
                        assert(before[i] == k);
                    }
                    if before.contains(k) {
                        let i = choose|i: int| 0 <= i < before.len() && before[i] == k;
                        assert(strings_view(keys@)[i] == k);
                    }
                }
            }
        }
        *self = StatsMap { map, keys };
    }

    /// Number of keys.
    pub fn key_count(&self) -> (r: usize)
        ensures
            r == self.key_list().len(),
    {
        self.keys.len()
    }

    /// The `i`-th key in order of first appearance.
    pub fn key_at(&self, i: usize) -> (r: &String)
        requires
            i < self.key_list().len(),
        ensures
            r@ == self.key_list()[i as int],
    {
        &self.keys[i]
    }
}

// ---------------------------------------------------------------------------
// Counters of groups of lines
// ---------------------------------------------------------------------------

/// The key a line is grouped under: its project or its file.
pub open spec fn group_key(line: LineView, by_project: bool) -> Seq<char> {
    if by_project {
        line.project
    } else {
        line.file
    }
}

/// Counters accumulated over the lines whose key is `k`, in order.
pub open spec fn group_stats(lines: Seq<LineView>, by_project: bool, k: Seq<char>) -> FileStats
    decreases lines.len(),
{
    if lines.len() == 0 {
        zero_stats()
    } else {
        let prev = group_stats(lines.drop_last(), by_project, k);
        if group_key(lines.last(), by_project) == k {
            spec_add_line(prev, lines.last())
        } else {
            prev
        }
    }
}

/// Some line has key `k`.
pub open spec fn has_group(lines: Seq<LineView>, by_project: bool, k: Seq<char>) -> bool {
    exists|i: int| 0 <= i < lines.len() && group_key(lines[i], by_project) == k
}

pub proof fn lemma_group_stats_bounded(lines: Seq<LineView>, by_project: bool, k: Seq<char>)
    ensures
        bounded_by(group_stats(lines, by_project, k), lines.len() as int),
        !has_group(lines, by_project, k) ==> group_stats(lines, by_project, k) == zero_stats(),
    decreases lines.len(),
{
    if lines.len() > 0 {
        lemma_group_stats_bounded(lines.drop_last(), by_project, k);
        if !has_group(lines, by_project, k) {
            assert(group_key(lines[lines.len() - 1], by_project) != k);
            assert forall|i: int| 0 <= i < lines.drop_last().len() implies group_key(
                lines.drop_last()[i],
                by_project,
            ) != k by {
                assert(lines.drop_last()[i] == lines[i]);
            }
        }
    }
}

/// Groups the lines by file (or by project) and accumulates their counters.
fn build_group_stats(lines: &[CodeLine], by_project: bool) -> (r: StatsMap)
    ensures
        forall|k: Seq<char>| #[trigger]
            r@.contains_key(k) <==> has_group(lines_view(lines@), by_project, k),
        forall|k: Seq<char>| #[trigger]
            r@.contains_key(k) ==> r@[k] == group_stats(lines_view(lines@), by_project, k),
{
    let ghost ls = lines_view(lines@);
    let mut stats = StatsMap::new();
    let mut i: usize = 0;
    while i < lines.len()
        invariant
            i <= lines@.len(),
            ls == lines_view(lines@),
            forall|k: Seq<char>| #[trigger]
                stats@.contains_key(k) <==> has_group(ls.take(i as int), by_project, k),
            forall|k: Seq<char>|
                #[trigger] stats@.contains_key(k) ==> stats@[k] == group_stats(
                    ls.take(i as int),
                    by_project,
                    k,
                ),
        decreases lines@.len() - i,
    {
        let line = &lines[i];
        let key = if by_project {
            line.project.as_str()
        } else {
            line.file.as_str()
        };
        let ghost t = ls.take(i + 1);
        proof {
            assert(t.drop_last() =~= ls.take(i as int));
            assert(t.last() == line@);
            lemma_group_stats_bounded(ls.take(i as int), by_project, key@);
        }
        let mut entry = stats.get_or_default(key);
        proof {
            if !stats@.contains_key(key@) {
                assert(!has_group(ls.take(i as int), by_project, key@));
            }
            assert(entry == group_stats(ls.take(i as int), by_project, key@));
        }
        add_line_stats(&mut entry, line);
        stats.set(key, entry);
        proof {
            assert forall|k: Seq<char>| #[trigger]
                stats@.contains_key(k) <==> has_group(t, by_project, k) by {
                if has_group(t, by_project, k) && k != key@ {
                    let j = choose|j: int| 0 <= j < t.len() && group_key(t[j], by_project) == k;
                    assert(j < i);
                    assert(ls.take(i as int)[j] == t[j]);
                }
                if has_group(ls.take(i as int), by_project, k) {
                    let j = choose|j: int|
                        0 <= j < ls.take(i as int).len() && group_key(ls.take(i as int)[j], by_project)
                            == k;
                    assert(t[j] == ls.take(i as int)[j]);
                }
                if k == key@ {
                    assert(group_key(t[i as int], by_project) == k);
                }
            }
        }
        i += 1;
    }
    assert(ls.take(i as int) =~= ls);
    stats
}

/// Counters of every file that has code lines.
pub fn build_file_stats(lines: &[CodeLine]) -> (r: StatsMap)
    ensures
        forall|k: Seq<char>| #[trigger]
            r@.contains_key(k) <==> has_group(lines_view(lines@), false, k),
        forall|k: Seq<char>| #[trigger]
            r@.contains_key(k) ==> r@[k] == group_stats(lines_view(lines@), false, k),
{
    build_group_stats(lines, false)
}

/// Counters of every project that has code lines.
pub fn build_project_stats(lines: &[CodeLine]) -> (r: StatsMap)
    ensures
        forall|k: Seq<char>| #[trigger]
            r@.contains_key(k) <==> has_group(lines_view(lines@), true, k),
        forall|k: Seq<char>| #[trigger]
            r@.contains_key(k) ==> r@[k] == group_stats(lines_view(lines@), true, k),
{
    build_group_stats(lines, true)
}

/// Field-wise sums fit for every key of `source`.
pub open spec fn merge_fits(target: Map<Seq<char>, FileStats>, source: Map<Seq<char>, FileStats>) -> bool {
    forall|k: Seq<char>| #[trigger]
        source.contains_key(k) ==> sums_fit(stats_or_zero(target, k), source[k])
}

/// The result of adding every entry of `source` into `target`.
pub open spec fn spec_merge(target: Map<Seq<char>, FileStats>, source: Map<Seq<char>, FileStats>) -> Map<
    Seq<char>,
    FileStats,
> {
    Map::new(
        |k: Seq<char>| target.contains_key(k) || source.contains_key(k),
        |k: Seq<char>|
            if source.contains_key(k) {
                spec_add_stats(stats_or_zero(target, k), source[k])
            } else {
                target[k]
            },
    )
}

/// Adds every entry of `source` into the entry of `target` with the same key
/// (an absent entry counts as zero).
pub fn merge_file_stats(target: &mut StatsMap, source: StatsMap)
    requires
        merge_fits(old(target)@, source@),
    ensures
        final(target)@ == spec_merge(old(target)@, source@),
{
    source.check_keys();
    let ghost keys = source.key_list();
    let n = source.key_count();
    let mut i: usize = 0;
    while i < n
        invariant
            i <= n == keys.len(),
            keys == source.key_list(),
            keys.no_duplicates(),
            forall|k: Seq<char>| #[trigger] source@.contains_key(k) <==> keys.contains(k),
            merge_fits(old(target)@, source@),
            forall|k: Seq<char>| #[trigger]
                target@.contains_key(k) <==> (old(target)@.contains_key(k) || keys.take(i as int).contains(k)),
            forall|k: Seq<char>| #[trigger]
                target@.contains_key(k) ==> target@[k] == if keys.take(i as int).contains(k) {
                    spec_add_stats(stats_or_zero(old(target)@, k), source@[k])
                } else {
                    old(target)@[k]
                },
        decreases n - i,
    {
        let key = source.key_at(i);
        proof {
            assert(keys.contains(key@));
            assert(!keys.take(i as int).contains(key@)) by {
                if keys.take(i as int).contains(key@) {
                    let j = choose|j: int| 0 <= j < i && keys.take(i as int)[j] == key@;
                    assert(keys[j] == keys[i as int]);
                }
            }
            assert(keys.take(i + 1) =~= keys.take(i as int).push(key@));
        }
        let add = source.get_or_default(key.as_str());
        let mut entry = target.get_or_default(key.as_str());
        let ghost cur = target@;
        proof {
            assert(stats_or_zero(cur, key@) == stats_or_zero(old(target)@, key@));
        }
        add_file_stats(&mut entry, &add);
        target.set(key.as_str(), entry);
        proof {
            let pre = keys.take(i as int);
            let post = keys.take(i + 1);
            assert forall|k: Seq<char>| post.contains(k) <==> (pre.contains(k) || k == key@) by {
                if post.contains(k) {
                    let j = choose|j: int| 0 <= j < post.len() && post[j] == k;
                    if j < i {
                        assert(pre[j] == k);
                    }
                }
                if pre.contains(k) {
                    let j = choose|j: int| 0 <= j < pre.len() && pre[j] == k;
                    assert(post[j] == k);
                }
                if k == key@ {
                    assert(post[i as int] == k);
                }
            }
        }
        i += 1;
    }
    proof {
        assert(keys.take(i as int) =~= keys);
        assert(target@ =~= spec_merge(old(target)@, source@));
    }
}

proof fn lemma_add_line_commutes(s: FileStats, a: LineView, b: LineView, n: int)
    requires
        bounded_by(s, n),
        n + 2 <= usize::MAX,
    ensures
        spec_add_line(spec_add_line(s, a), b) == spec_add_line(spec_add_line(s, b), a),
{
}

proof fn lemma_group_remove(lines: Seq<LineView>, by_project: bool, k: Seq<char>, j: int)
    requires
        0 <= j < lines.len(),
        lines.len() < usize::MAX,
    ensures
        group_stats(lines, by_project, k) == if group_key(lines[j], by_project) == k {
            spec_add_line(group_stats(lines.remove(j), by_project, k), lines[j])
        } else {
            group_stats(lines.remove(j), by_project, k)
        },
    decreases lines.len(),
{
    if j == lines.len() - 1 {
        assert(lines.remove(j) =~= lines.drop_last());
    } else {
        let q = lines.drop_last();
        lemma_group_remove(q, by_project, k, j);
        assert(lines.remove(j).drop_last() =~= q.remove(j));
        assert(lines.remove(j).last() == lines.last());
        assert(q[j] == lines[j]);
        let g = group_stats(q.remove(j), by_project, k);
        lemma_group_stats_bounded(q.remove(j), by_project, k);
        if group_key(lines[j], by_project) == k && group_key(lines.last(), by_project) == k {
            lemma_add_line_commutes(g, lines[j], lines.last(), q.remove(j).len() as int);
        }
    }
}

/// The counters of a group do not depend on the order of the lines: any
/// rearrangement of the same lines gives the same groups with the same
/// counters, and a group counts one source line per line of its key.
pub proof fn law_group_stats_order_free(
    lines: Seq<LineView>,
    other: Seq<LineView>,
    by_project: bool,
    k: Seq<char>,
)
    requires
        lines.to_multiset() == other.to_multiset(),
        lines.len() < usize::MAX,
    ensures
        group_stats(lines, by_project, k) == group_stats(other, by_project, k),
        has_group(lines, by_project, k) <==> has_group(other, by_project, k),
    decreases lines.len(),
{
    broadcast use vstd::seq_lib::group_to_multiset_ensures;

    assert(lines.to_multiset().len() == lines.len());
    assert(other.to_multiset().len() == other.len());
    assert(other.len() == lines.len());
    if lines.len() == 0 {
        assert(other =~= lines);
    } else {
        let x = lines.last();
        let q = lines.drop_last();
        assert(q.push(x) =~= lines);
        assert(lines.to_multiset() == q.to_multiset().insert(x));
        assert(other.to_multiset().count(x) > 0);
        assert(other.contains(x));
        let j = choose|j: int| 0 <= j < other.len() && other[j] == x;
        assert(other.remove(j).to_multiset() == other.to_multiset().remove(x));
        assert(q.to_multiset() =~= other.remove(j).to_multiset());
        law_group_stats_order_free(q, other.remove(j), by_project, k);
        lemma_group_remove(other, by_project, k, j);
        assert forall|kk: Seq<char>| kk == k implies (has_group(lines, by_project, kk) <==> has_group(
            other,
            by_project,
            kk,
        )) by {
            if has_group(lines, by_project, k) {
                let i = choose|i: int| 0 <= i < lines.len() && group_key(lines[i], by_project) == k;
                assert(lines.contains(lines[i]));
                assert(other.to_multiset().count(lines[i]) > 0);
                assert(other.contains(lines[i]));
            }
            if has_group(other, by_project, k) {
                let i = choose|i: int| 0 <= i < other.len() && group_key(other[i], by_project) == k;
                assert(other.contains(other[i]));
                assert(lines.to_multiset().count(other[i]) > 0);
                assert(lines.contains(other[i]));
            }
        }
    }
}

/// Source lines counted over the groups `ks`.
pub open spec fn group_lines_over(ks: Seq<Seq<char>>, lines: Seq<LineView>, by_project: bool) -> nat
    decreases ks.len(),
{
    if ks.len() == 0 {
        0
    } else {
        group_lines_over(ks.drop_last(), lines, by_project) + group_stats(lines, by_project, ks.last()).source_lines as nat
    }
}

spec fn key_occurrences(ks: Seq<Seq<char>>, x: Seq<char>) -> nat
    decreases ks.len(),
{
    if ks.len() == 0 {
        0
    } else {
        key_occurrences(ks.drop_last(), x) + if ks.last() == x {
            1nat
        } else {
            0nat
        }
    }
}

proof fn lemma_key_occurrences(ks: Seq<Seq<char>>, x: Seq<char>)
    requires
        ks.no_duplicates(),
    ensures
        key_occurrences(ks, x) == if ks.contains(x) { 1nat } else { 0nat },
    decreases ks.len(),
{
    if ks.len() > 0 {
        let q = ks.drop_last();
        assert(q.no_duplicates()) by {
            assert forall|i: int, j: int| 0 <= i < q.len() && 0 <= j < q.len() && i != j implies q[i] != q[j] by {
                assert(q[i] == ks[i] && q[j] == ks[j]);
            }
        }
        lemma_key_occurrences(q, x);
        if ks.last() == x {
            if q.contains(x) {
                let i = choose|i: int| 0 <= i < q.len() && q[i] == x;
                assert(ks[i] == ks[ks.len() - 1]);
            }
            assert(ks[ks.len() - 1] == x);
        } else {
            if ks.contains(x) {
                let i = choose|i: int| 0 <= i < ks.len() && ks[i] == x;
                assert(q[i] == x);
            }
            if q.contains(x) {
                let i = choose|i: int| 0 <= i < q.len() && q[i] == x;
                assert(ks[i] == x);
            }
        }
    }
}

proof fn lemma_group_lines_step(ks: Seq<Seq<char>>, lines: Seq<LineView>, by_project: bool)
    requires
        lines.len() > 0,
        lines.len() < usize::MAX,
    ensures
        group_lines_over(ks, lines, by_project) == group_lines_over(ks, lines.drop_last(), by_project)
            + key_occurrences(ks, group_key(lines.last(), by_project)),
    decreases ks.len(),
{
    if ks.len() > 0 {
        lemma_group_lines_step(ks.drop_last(), lines, by_project);
        lemma_group_stats_bounded(lines.drop_last(), by_project, ks.last());
    }
}

proof fn lemma_group_lines_empty(ks: Seq<Seq<char>>, lines: Seq<LineView>, by_project: bool)
    requires
        lines.len() == 0,
    ensures
        group_lines_over(ks, lines, by_project) == 0,
    decreases ks.len(),
{
    if ks.len() > 0 {
        lemma_group_lines_empty(ks.drop_last(), lines, by_project);
    }
}

/// Over distinct keys that cover every line, the groups' source-line
/// counts add up to the number of lines.
pub proof fn law_group_lines_add_up(ks: Seq<Seq<char>>, lines: Seq<LineView>, by_project: bool)
    requires
        ks.no_duplicates(),
        forall|i: int| 0 <= i < lines.len() ==> ks.contains(#[trigger] group_key(lines[i], by_project)),
        lines.len() < usize::MAX,
    ensures
        group_lines_over(ks, lines, by_project) == lines.len(),
    decreases lines.len(),
{
    if lines.len() == 0 {
        lemma_group_lines_empty(ks, lines, by_project);
    } else {
        let q = lines.drop_last();
        assert forall|i: int| 0 <= i < q.len() implies ks.contains(#[trigger] group_key(q[i], by_project)) by {
            assert(q[i] == lines[i]);
        }
        law_group_lines_add_up(ks, q, by_project);
        lemma_group_lines_step(ks, lines, by_project);
        assert(ks.contains(group_key(lines[lines.len() - 1], by_project)));
        lemma_key_occurrences(ks, group_key(lines.last(), by_project));
    }
}

} // verus!
