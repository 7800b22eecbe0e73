//! Shared scaffold detection: normalized lines repeated across many sibling
//! projects are treated as templates rather than authored code.
use vstd::prelude::*;
use vstd::hash_map::StringHashMap;
use crate::profile::LineSet;
use crate::source::{lines_view, CodeLine, LineView};
use crate::syntax::{is_low_information, spec_is_low_information};
use crate::text::{chars_eq, chars_of, string_of, strings_view};

verus! {

/// The projects that have at least one line.
pub open spec fn project_set(lines: Seq<LineView>) -> Set<Seq<char>> {
    Set::new(|p: Seq<char>| exists|i: int| 0 <= i < lines.len() && lines[i].project == p)
}

/// The projects that have a line normalized to `n`.
pub open spec fn projects_with(lines: Seq<LineView>, n: Seq<char>) -> Set<Seq<char>> {
    Set::new(
        |p: Seq<char>|
            exists|i: int| 0 <= i < lines.len() && lines[i].normalized == n && lines[i].project == p,
    )
}

/// Number of projects a line must appear in to count as a template: 35% of
/// the projects, rounded up, and at least three.
pub open spec fn template_threshold(projects: nat) -> nat {
    let t = (35 * projects + 99) / 100;
    if t > 3 {
        t
    } else {
        3
    }
}

/// With at least three projects, a line that is not low-information and
/// appears in at least the threshold number of projects is a template.
pub open spec fn is_template(lines: Seq<LineView>, n: Seq<char>) -> bool {
    &&& project_set(lines).len() >= 3
    &&& !spec_is_low_information(n)
    &&& projects_with(lines, n).len() >= template_threshold(project_set(lines).len())
}

/// The template lines of a scan.
pub open spec fn template_set(lines: Seq<LineView>) -> Set<Seq<char>> {
    Set::new(|n: Seq<char>| is_template(lines, n))
}

fn copy_string(s: &String) -> (r: String)
    ensures
        r@ == s@,
{
    string_of(chars_of(s.as_str()).as_slice())
}

fn copy_strings(v: &Vec<String>) -> (r: Vec<String>)
    ensures
        strings_view(r@) == strings_view(v@),
{
    let mut r: Vec<String> = Vec::new();
    let mut i: usize = 0;
    while i < v.len()
        invariant
            i <= v@.len(),
            strings_view(r@) == strings_view(v@).take(i as int),
        decreases v@.len() - i,
    {
        let ghost before = r@;
        r.push(copy_string(&v[i]));
        proof {
            assert(strings_view(r@) =~= strings_view(before).push(v@[i as int]@));
            assert(strings_view(v@).take(i + 1) =~= strings_view(v@).take(i as int).push(v@[i as int]@));
        }
        i += 1;
    }
    assert(strings_view(v@).take(i as int) =~= strings_view(v@));
    r
}

fn contains_string(v: &Vec<String>, s: &str) -> (r: bool)
    ensures
        r == strings_view(v@).contains(s@),
{
    let sc = chars_of(s);
    let mut i: usize = 0;
    while i < v.len()
        invariant
            i <= v@.len(),
            sc@ == s@,
            forall|j: int| 0 <= j < i ==> strings_view(v@)[j] != s@,
        decreases v@.len() - i,
    {
        let e = chars_of(v[i].as_str());
        if chars_eq(&e, &sc) {
            assert(strings_view(v@)[i as int] == s@);
            return true;
        }
        i += 1;
    }
    false
}

/// Threshold without overflow.
fn threshold_of(projects: usize) -> (r: usize)
    ensures
        r == template_threshold(projects as nat),
{
    let p: u128 = projects as u128;
    let t: u128 = (35 * p + 99) / 100;
    assert(t <= p + 1) by (nonlinear_arith)
        requires
            t == (35 * p + 99) / 100,
    ;
    let t: usize = t as usize;
    if t > 3 {
        t
    } else {
        3
    }
}

/// Normalized lines (other than low-information ones) that occur in at
/// least 35% of the sibling projects (and in at least three) when the scan
/// spans three or more projects.
pub fn repeated_template_lines(lines: &[CodeLine]) -> (r: LineSet)
    ensures
        r@ == template_set(lines_view(lines@)),
{
    let ghost ls = lines_view(lines@);
    // Distinct projects.
    let mut projects = LineSet::new();
    let mut i: usize = 0;
    while i < lines.len()
        invariant
            i <= lines@.len(),
            ls == lines_view(lines@),
            projects@ == project_set(ls.take(i as int)),
        decreases lines@.len() - i,
    {
        projects.insert(copy_string(&lines[i].project));
        proof {
            let pre = ls.take(i as int);
            let post = ls.take(i + 1);
            assert forall|p: Seq<char>| project_set(post).contains(p) <==> project_set(pre).insert(
                ls[i as int].project,
            ).contains(p) by {
                if project_set(post).contains(p) {
                    let j = choose|j: int| 0 <= j < post.len() && post[j].project == p;
                    if j < i {
                        assert(pre[j] == post[j]);
                    }
                }
                if project_set(pre).contains(p) {
                    let j = choose|j: int| 0 <= j < pre.len() && pre[j].project == p;
                    assert(pre[j] == post[j]);
                }
                if p == ls[i as int].project {
                    assert(post[i as int] == ls[i as int]);
                }
            }
            assert(project_set(post) =~= project_set(pre).insert(ls[i as int].project));
        }
        i += 1;
    }
    assert(ls.take(i as int) =~= ls);
    let n_projects = projects.len();
    let mut result = LineSet::new();
    if n_projects < 3 {
        proof {
            assert(template_set(ls) =~= Set::<Seq<char>>::empty());
        }
        return result;
    }
    let threshold = threshold_of(n_projects);
    // Distinct projects per normalized line.
    let mut index: StringHashMap<usize> = StringHashMap::new();
    let mut keys: Vec<String> = Vec::new();
    let mut groups: Vec<Vec<String>> = Vec::new();
    let mut i: usize = 0;
    while i < lines.len()
        invariant
            i <= lines@.len(),
            ls == lines_view(lines@),
            keys@.len() == groups@.len(),
            forall|n: Seq<char>| #[trigger]
                index@.contains_key(n) ==> index@[n] < keys@.len() && keys@[index@[n] as int]@ == n,
            forall|j: int| 0 <= j < keys@.len() ==> #[trigger] index@.contains_key(keys@[j]@),
            forall|j: int| 0 <= j < keys@.len() ==> index@[#[trigger] keys@[j]@] == j,
            forall|j: int| 0 <= j < keys@.len() ==> !spec_is_low_information(#[trigger] keys@[j]@),
            forall|n: Seq<char>|
                !spec_is_low_information(n) && !index@.contains_key(n) ==> #[trigger] projects_with(
                    ls.take(i as int),
                    n,
                ) =~= Set::<Seq<char>>::empty(),
            forall|j: int|
                0 <= j < keys@.len() ==> strings_view(#[trigger] groups@[j]@).no_duplicates()
                    && strings_view(groups@[j]@).to_set() == projects_with(
                    ls.take(i as int),
                    keys@[j]@,
                ),
        decreases lines@.len() - i,
    {
        let line = &lines[i];
        let ghost pre = ls.take(i as int);
        let ghost post = ls.take(i + 1);
        proof {
            assert(post[i as int] == line@);
            assert forall|n: Seq<char>|
                projects_with(post, n) == if n == line@.normalized {
                    projects_with(pre, n).insert(line@.project)
                } else {
                    projects_with(pre, n)
                } by {
                let target = if n == line@.normalized {
                    projects_with(pre, n).insert(line@.project)
                } else {
                    projects_with(pre, n)
                };
                assert forall|p: Seq<char>| projects_with(post, n).contains(p) <==> target.contains(p) by {
                    if projects_with(post, n).contains(p) {
                        let j = choose|j: int|
                            0 <= j < post.len() && post[j].normalized == n && post[j].project == p;
                        if j < i {
                            assert(pre[j] == post[j]);
                        }
                    }
                    if projects_with(pre, n).contains(p) {
                        let j = choose|j: int|
                            0 <= j < pre.len() && pre[j].normalized == n && pre[j].project == p;
                        assert(pre[j] == post[j]);
                    }
                }
                assert(projects_with(post, n) =~= target);
            }
        }
        if !is_low_information(line.normalized.as_str()) {
            let key = line.normalized.as_str();
            match index.get(key) {
                Some(idx) => {
                    let idx = *idx;
                    let mut group = copy_strings(&groups[idx]);
                    if !contains_string(&group, line.project.as_str()) {
                        let ghost g0 = strings_view(group@);
                        group.push(copy_string(&line.project));
                        proof {
                            assert(strings_view(group@) =~= g0.push(line@.project));
                            g0.lemma_push_to_set_commute(line@.project);
                            assert forall|a: int, b: int|
                                0 <= a < b < strings_view(group@).len() implies strings_view(group@)[a]
                                != strings_view(group@)[b] by {
                                if b == g0.len() {
                                    assert(g0.contains(g0[a]));
                                }
                            }
                        }
                    } else {
                        proof {
                            assert(strings_view(group@).to_set() =~= strings_view(group@).to_set().insert(
                                line@.project,
                            ));
                        }
                    }
                    let ghost old_groups = groups@;
                    groups.set(idx, group);
                    proof {
                        assert forall|j: int| 0 <= j < keys@.len() implies strings_view(
                            #[trigger] groups@[j]@,
                        ).no_duplicates() && strings_view(groups@[j]@).to_set() == projects_with(
                            post,
                            keys@[j]@,
                        ) by {
                            if j != idx {
                                assert(groups@[j] == old_groups[j]);
                                assert(keys@[j]@ != line@.normalized);
                            }
                        }
                    }
                },
                None => {
                    let mut group: Vec<String> = Vec::new();
                    group.push(copy_string(&line.project));
                    proof {
                        assert(projects_with(pre, key@) =~= Set::<Seq<char>>::empty());
                        assert(strings_view(group@) =~= seq![line@.project]);
                        Seq::<Seq<char>>::empty().lemma_push_to_set_commute(line@.project);
                        assert(Seq::<Seq<char>>::empty().push(line@.project) =~= seq![line@.project]);
                        assert(Seq::<Seq<char>>::empty().to_set() =~= Set::<Seq<char>>::empty());
                    }
                    let ghost old_groups = groups@;
                    let ghost old_keys = keys@;
                    index.insert(copy_string(&line.normalized), keys.len());
                    keys.push(copy_string(&line.normalized));
                    groups.push(group);
                    proof {
                        assert forall|j: int| 0 <= j < keys@.len() implies strings_view(
                            #[trigger] groups@[j]@,
                        ).no_duplicates() && strings_view(groups@[j]@).to_set() == projects_with(
                            post,
                            keys@[j]@,
                        ) by {
                            if j < old_keys.len() {
                                assert(groups@[j] == old_groups[j]);
                                assert(keys@[j] == old_keys[j]);
                                assert(old_keys[j]@ != line@.normalized);
                            }
                        }
                    }
                },
            }
        } else {
            proof {
                assert forall|j: int| 0 <= j < keys@.len() implies strings_view(
                    #[trigger] groups@[j]@,
                ).no_duplicates() && strings_view(groups@[j]@).to_set() == projects_with(
                    post,
                    keys@[j]@,
                ) by {
                    assert(keys@[j]@ != line@.normalized);
                }
            }
        }
        i += 1;
    }
    assert(ls.take(i as int) =~= ls);
    // Keep the lines seen in enough projects.
    let mut j: usize = 0;
    while j < keys.len()
        invariant
            j <= keys@.len() == groups@.len(),
            n_projects == project_set(ls).len(),
            n_projects >= 3,
            threshold == template_threshold(n_projects as nat),
            forall|n: Seq<char>| #[trigger]
                index@.contains_key(n) ==> index@[n] < keys@.len() && keys@[index@[n] as int]@ == n,
            forall|k: int| 0 <= k < keys@.len() ==> #[trigger] index@.contains_key(keys@[k]@),
            forall|k: int| 0 <= k < keys@.len() ==> !spec_is_low_information(#[trigger] keys@[k]@),
            forall|k: int|
                0 <= k < keys@.len() ==> strings_view(#[trigger] groups@[k]@).no_duplicates()
                    && strings_view(groups@[k]@).to_set() == projects_with(ls, keys@[k]@),
            forall|n: Seq<char>| #[trigger]
                result@.contains(n) <==> (exists|k: int|
                    0 <= k < j && keys@[k]@ == n && is_template(ls, n)),
        decreases keys@.len() - j,
    {
        proof {
            strings_view(groups@[j as int]@).unique_seq_to_set();
        }
        if groups[j].len() >= threshold {
            result.insert(copy_string(&keys[j]));
        }
        j += 1;
    }
    proof {
        assert forall|n: Seq<char>| result@.contains(n) <==> template_set(ls).contains(n) by {
            if is_template(ls, n) {
                if !index@.contains_key(n) {
                    assert(projects_with(ls, n) =~= Set::<Seq<char>>::empty());
                } else {
                    let k = index@[n] as int;
                    assert(keys@[k]@ == n);
                }
            }
        }
        assert(result@ =~= template_set(ls));
    }
    result
}

/// The calibration profile of a corpus: its normalized lines that are
/// neither low-information nor shared templates.
pub open spec fn profile_set(lines: Seq<LineView>) -> Set<Seq<char>> {
    Set::new(
        |n: Seq<char>|
            (exists|i: int| 0 <= i < lines.len() && lines[i].normalized == n) && !spec_is_low_information(n)
                && !template_set(lines).contains(n),
    )
}

/// Builds the calibration profile of the lines of a corpus.
pub fn build_profile(lines: &[CodeLine]) -> (r: LineSet)
    ensures
        r@ == profile_set(lines_view(lines@)),
{
    let ghost ls = lines_view(lines@);
    let templates = repeated_template_lines(lines);
    let mut profile = LineSet::new();
    let mut i: usize = 0;
    while i < lines.len()
        invariant
            i <= lines@.len(),
            ls == lines_view(lines@),
            templates@ == template_set(ls),
            forall|n: Seq<char>| #[trigger] profile@.contains(n) <==> (
                (exists|j: int| 0 <= j < i && ls[j].normalized == n) && !spec_is_low_information(n)
                    && !template_set(ls).contains(n)),
        decreases lines@.len() - i,
    {
        let norm = lines[i].normalized.as_str();
        let ghost before = profile@;
        if !is_low_information(norm) && !templates.contains(norm) {
            profile.insert(copy_string(&lines[i].normalized));
        }
        proof {
            assert(ls[i as int].normalized == lines@[i as int].normalized@);
            assert forall|n: Seq<char>| #[trigger] profile@.contains(n) <==> (
                (exists|j: int| 0 <= j < i + 1 && ls[j].normalized == n) && !spec_is_low_information(n)
                    && !template_set(ls).contains(n)) by {
                if exists|j: int| 0 <= j < i + 1 && ls[j].normalized == n {
                    let j = choose|j: int| 0 <= j < i + 1 && ls[j].normalized == n;
                    if j < i {
                        assert(exists|j: int| 0 <= j < i && ls[j].normalized == n);
                    }
                }
                if exists|j: int| 0 <= j < i && ls[j].normalized == n {
                    let j = choose|j: int| 0 <= j < i && ls[j].normalized == n;
                    assert(0 <= j < i + 1 && ls[j].normalized == n);
                }
            }
        }
        i += 1;
    }
    assert(profile@ =~= profile_set(ls));
    profile
}

} // verus!
