//! Scoring a loaded scan: combined per-file counters, per-line scores,
//! exclusions, and per-file tallies in path order.
use vstd::prelude::*;
use vstd::hash_map::StringHashMap;
use crate::order::{
    lemma_text_lt_asymmetric, lemma_text_lt_irreflexive, lemma_text_lt_total,
    lemma_text_lt_transitive, str_lt, text_lt,
};
use crate::profile::{decompiled_profile, score_line, spec_decompiled_profile, spec_score_line, LineSet};
use crate::source::{excluded_views, lines_view, stats_entries_view, CodeLine, ExcludedLine, ExcludedView, LineView, LoadedSource};
use crate::stats::{add_file_stats, bounded_by, spec_add_stats, sums_fit, zero_stats, FileStats};
use crate::syntax::{is_low_information, spec_is_low_information};
use crate::table::{
    build_file_stats, build_project_stats, group_stats, has_group, lemma_group_stats_bounded,
    merge_file_stats, spec_merge, stats_or_zero, StatsMap,
};
use crate::template::{repeated_template_lines, template_set};
use crate::text::{chars_of, str_eq, string_from, string_of};

verus! {

// ---------------------------------------------------------------------------
// Combined counters per file
// ---------------------------------------------------------------------------

/// Raw-text counters by path; a later entry for the same path wins.
pub open spec fn raw_map(entries: Seq<(Seq<char>, FileStats)>) -> Map<Seq<char>, FileStats>
    decreases entries.len(),
{
    if entries.len() == 0 {
        Map::empty()
    } else {
        raw_map(entries.drop_last()).insert(entries.last().0, entries.last().1)
    }
}

/// The project of the last line of file `f`.
pub open spec fn project_of(lines: Seq<LineView>, f: Seq<char>) -> Seq<char>
    decreases lines.len(),
{
    if lines.len() == 0 {
        seq![]
    } else if lines.last().file == f {
        lines.last().project
    } else {
        project_of(lines.drop_last(), f)
    }
}

/// Counters used to score file `f`: its raw-text counters plus the counters
/// of its code lines; a C# file that is not decompiled also receives the
/// counters of its whole project.
pub open spec fn merged_stats(
    raw: Map<Seq<char>, FileStats>,
    lines: Seq<LineView>,
    f: Seq<char>,
) -> FileStats {
    let base = stats_or_zero(raw, f);
    if has_group(lines, false, f) {
        let e = spec_add_stats(base, group_stats(lines, false, f));
        if e.csharp && !e.decompiled {
            spec_add_stats(e, group_stats(lines, true, project_of(lines, f)))
        } else {
            e
        }
    } else {
        base
    }
}

/// Size limits under which no counter overflows.
pub open spec fn analysis_fits(entries: Seq<(Seq<char>, FileStats)>, lines: Seq<LineView>) -> bool {
    &&& lines.len() <= usize::MAX / 4
    &&& forall|k: int| 0 <= k < entries.len() ==> bounded_by(#[trigger] entries[k].1, (usize::MAX / 2) as int)
}

fn stats_bounded(s: &FileStats, n: usize) -> (r: bool)
    ensures
        r == bounded_by(*s, n as int),
{
    s.source_lines <= n && s.namespaces <= n && s.classes <= n && s.config_binds <= n
        && s.harmony_patches <= n && s.bep_in_plugin <= n && s.base_unity_plugin <= n
        && s.reflection_markers <= n && s.generated_mod_markers <= n && s.using_count <= n
        && s.assembly_attributes <= n && s.debug_metadata <= n && s.developer_debug_metadata <= n
        && s.repository_metadata <= n && s.named_company_metadata <= n && s.title_product_metadata <= n
        && s.informational_version_metadata <= n && s.description_metadata <= n
        && s.security_metadata <= n && s.ignores_access_checks <= n && s.asset_bundle_markers <= n
        && s.file_io_markers <= n && s.task_async_markers <= n && s.public_static_markers <= n
        && s.non_ascii_chars <= n
}

/// Whether a loaded scan is small enough for [`analyze`].
pub fn scan_fits(loaded: &LoadedSource) -> (r: bool)
    ensures
        r == analysis_fits(stats_entries_view(loaded.raw_file_stats@), lines_view(loaded.lines@)),
{
    let ghost es = stats_entries_view(loaded.raw_file_stats@);
    if loaded.lines.len() > usize::MAX / 4 {
        return false;
    }
    let mut k: usize = 0;
    while k < loaded.raw_file_stats.len()
        invariant
            k <= loaded.raw_file_stats@.len(),
            es == stats_entries_view(loaded.raw_file_stats@),
            forall|j: int| 0 <= j < k ==> bounded_by(#[trigger] es[j].1, (usize::MAX / 2) as int),
        decreases loaded.raw_file_stats@.len() - k,
    {
        if !stats_bounded(&loaded.raw_file_stats[k].1, usize::MAX / 2) {
            assert(es[k as int].1 == loaded.raw_file_stats@[k as int].1);
            return false;
        }
        proof {
            assert(es[k as int].1 == loaded.raw_file_stats@[k as int].1);
        }
        k += 1;
    }
    true
}

proof fn lemma_raw_map_bounded(entries: Seq<(Seq<char>, FileStats)>, b: int)
    requires
        forall|k: int| 0 <= k < entries.len() ==> bounded_by(#[trigger] entries[k].1, b),
    ensures
        forall|f: Seq<char>| #[trigger] raw_map(entries).contains_key(f) ==> bounded_by(raw_map(entries)[f], b),
    decreases entries.len(),
{
    if entries.len() > 0 {
        assert forall|k: int| 0 <= k < entries.drop_last().len() implies bounded_by(
            #[trigger] entries.drop_last()[k].1,
            b,
        ) by {
            assert(entries.drop_last()[k] == entries[k]);
        }
        lemma_raw_map_bounded(entries.drop_last(), b);
        assert(bounded_by(entries[entries.len() - 1].1, b));
        let m = raw_map(entries);
        assert forall|f: Seq<char>| #[trigger] m.contains_key(f) implies bounded_by(m[f], b) by {
            if f != entries.last().0 {
                assert(raw_map(entries.drop_last()).contains_key(f));
            }
        }
    }
}

proof fn lemma_add_bounded(a: FileStats, b: FileStats, x: int, y: int)
    requires
        bounded_by(a, x),
        bounded_by(b, y),
        x + y <= usize::MAX,
    ensures
        sums_fit(a, b),
        bounded_by(spec_add_stats(a, b), x + y),
{
}

proof fn lemma_zero_bounded(b: int)
    requires
        b >= 0,
    ensures
        bounded_by(zero_stats(), b),
{
}

/// Every line counter of `a` is at least the same counter of `b`.
pub open spec fn line_counters_cover(a: FileStats, b: FileStats) -> bool {
    &&& a.source_lines >= b.source_lines
    &&& a.namespaces >= b.namespaces
    &&& a.classes >= b.classes
    &&& a.config_binds >= b.config_binds
    &&& a.harmony_patches >= b.harmony_patches
    &&& a.bep_in_plugin >= b.bep_in_plugin
    &&& a.base_unity_plugin >= b.base_unity_plugin
    &&& a.reflection_markers >= b.reflection_markers
    &&& a.generated_mod_markers >= b.generated_mod_markers
}

/// A file's own counters: its raw-text counters plus those of its code
/// lines.
pub open spec fn own_stats(raw: Map<Seq<char>, FileStats>, lines: Seq<LineView>, f: Seq<char>) -> FileStats {
    spec_add_stats(stats_or_zero(raw, f), group_stats(lines, false, f))
}

/// A plain (not decompiled) C# file with code lines is scored with the
/// counters of its whole project included, so a plugin declared anywhere in
/// the project (with no decompiled line) gives it the plugin profile (base
/// and cap 1000); a decompiled file is scored with its own counters alone.
pub proof fn law_project_counters_reach_plain_csharp(
    entries: Seq<(Seq<char>, FileStats)>,
    lines: Seq<LineView>,
    f: Seq<char>,
)
    requires
        analysis_fits(entries, lines),
        has_group(lines, false, f),
    ensures
        own_stats(raw_map(entries), lines, f).csharp && !own_stats(raw_map(entries), lines, f).decompiled ==> {
            let m = merged_stats(raw_map(entries), lines, f);
            let p = group_stats(lines, true, project_of(lines, f));
            &&& m.csharp
            &&& m.decompiled == p.decompiled
            &&& line_counters_cover(m, p)
            &&& line_counters_cover(m, own_stats(raw_map(entries), lines, f))
            &&& (!p.decompiled && (p.bep_in_plugin > 0 || p.base_unity_plugin > 0)) ==> spec_decompiled_profile(m).base_score == 1000
                && spec_decompiled_profile(m).cap == 1000
        },
        own_stats(raw_map(entries), lines, f).decompiled ==> merged_stats(raw_map(entries), lines, f) == own_stats(
            raw_map(entries),
            lines,
            f,
        ),
{
    let raw = raw_map(entries);
    let b = (usize::MAX / 2) as int;
    let n = lines.len() as int;
    lemma_raw_map_bounded(entries, b);
    lemma_zero_bounded(b);
    lemma_group_stats_bounded(lines, false, f);
    lemma_group_stats_bounded(lines, true, project_of(lines, f));
    let base = stats_or_zero(raw, f);
    assert(bounded_by(base, b));
    lemma_add_bounded(base, group_stats(lines, false, f), b, n);
    let e = own_stats(raw, lines, f);
    lemma_add_bounded(e, group_stats(lines, true, project_of(lines, f)), b + n, n);
}

fn copy_str(s: &str) -> (r: String)
    ensures
        r@ == s@,
{
    string_of(chars_of(s).as_slice())
}

/// Combined counters of every file that has raw counters or code lines.
pub fn file_stats_for(lines: &[CodeLine], raw: &Vec<(String, FileStats)>) -> (r: StatsMap)
    requires
        analysis_fits(stats_entries_view(raw@), lines_view(lines@)),
    ensures
        forall|f: Seq<char>|
            #[trigger] stats_or_zero(r@, f) == merged_stats(
                raw_map(stats_entries_view(raw@)),
                lines_view(lines@),
                f,
            ),
{
    let ghost entries = stats_entries_view(raw@);
    let ghost ls = lines_view(lines@);
    let mut stats = StatsMap::new();
    let mut i: usize = 0;
    while i < raw.len()
        invariant
            i <= raw@.len(),
            entries == stats_entries_view(raw@),
            stats@ == raw_map(entries.take(i as int)),
        decreases raw@.len() - i,
    {
        proof {
            assert(entries.take(i + 1).drop_last() =~= entries.take(i as int));
        }
        stats.set(raw[i].0.as_str(), raw[i].1);
        i += 1;
    }
    assert(entries.take(i as int) =~= entries);
    let ghost raw_stats = stats@;
    let ghost half = (usize::MAX / 2) as int;
    let ghost quarter = (usize::MAX / 4) as int;
    proof {
        lemma_raw_map_bounded(entries, half);
        lemma_zero_bounded(half);
    }
    let by_file = build_file_stats(lines);
    let mut files: Vec<String> = Vec::new();
    by_file.check_keys();
    let n_files = by_file.key_count();
    let mut k: usize = 0;
    while k < n_files
        invariant
            k <= n_files == by_file.key_list().len(),
            files@.len() == k,
            forall|j: int| 0 <= j < k ==> #[trigger] files@[j]@ == by_file.key_list()[j],
        decreases n_files - k,
    {
        files.push(copy_str(by_file.key_at(k).as_str()));
        k += 1;
    }
    proof {
        assert forall|f: Seq<char>| #[trigger] by_file@.contains_key(f) implies sums_fit(
            stats_or_zero(stats@, f),
            by_file@[f],
        ) by {
            lemma_group_stats_bounded(ls, false, f);
            lemma_add_bounded(stats_or_zero(stats@, f), by_file@[f], half, quarter);
        }
    }
    let ghost file_keys = by_file.key_list();
    let ghost file_map = by_file@;
    proof {
        assert forall|f: Seq<char>| #[trigger] file_keys.contains(f) <==> has_group(ls, false, f) by {
            assert(file_map.contains_key(f) <==> file_keys.contains(f));
        }
        assert forall|f: Seq<char>| #[trigger] file_map.contains_key(f) <==> file_keys.contains(f) by {
            assert(file_map.contains_key(f) <==> file_keys.contains(f));
        }
    }
    merge_file_stats(&mut stats, by_file);
    let ghost merged = stats@;
    // The project of each file: that of its last line.
    let mut project_of_file: StringHashMap<String> = StringHashMap::new();
    let mut i: usize = 0;
    while i < lines.len()
        invariant
            i <= lines@.len(),
            ls == lines_view(lines@),
            forall|f: Seq<char>| #[trigger]
                project_of_file@.contains_key(f) <==> has_group(ls.take(i as int), false, f),
            forall|f: Seq<char>| #[trigger]
                project_of_file@.contains_key(f) ==> project_of_file@[f]@ == project_of(
                    ls.take(i as int),
                    f,
                ),
        decreases lines@.len() - i,
    {
        let ghost pre = ls.take(i as int);
        let ghost post = ls.take(i + 1);
        proof {
            assert(post.drop_last() =~= pre);
            assert(post.last() == lines@[i as int]@);
        }
        project_of_file.insert(copy_str(lines[i].file.as_str()), copy_str(lines[i].project.as_str()));
        proof {
            assert forall|f: Seq<char>| #[trigger]
                project_of_file@.contains_key(f) <==> has_group(post, false, f) by {
                if has_group(post, false, f) && f != lines@[i as int]@.file {
                    let j = choose|j: int| 0 <= j < post.len() && post[j].file == f;
                    assert(pre[j] == post[j]);
                }
                if has_group(pre, false, f) {
                    let j = choose|j: int| 0 <= j < pre.len() && pre[j].file == f;
                    assert(pre[j] == post[j]);
                }
                if f == lines@[i as int]@.file {
                    assert(post[i as int].file == f);
                }
            }
        }
        i += 1;
    }
    assert(ls.take(i as int) =~= ls);
    let by_project = build_project_stats(lines);
    let mut k: usize = 0;
    while k < files.len()
        invariant
            k <= files@.len() == file_keys.len(),
            forall|j: int| 0 <= j < files@.len() ==> #[trigger] files@[j]@ == file_keys[j],
            file_keys.no_duplicates(),
            forall|f: Seq<char>| #[trigger] project_of_file@.contains_key(f) <==> has_group(ls, false, f),
            forall|f: Seq<char>| #[trigger]
                project_of_file@.contains_key(f) ==> project_of_file@[f]@ == project_of(ls, f),
            forall|f: Seq<char>| #[trigger] by_project@.contains_key(f) <==> has_group(ls, true, f),
            forall|f: Seq<char>| #[trigger]
                by_project@.contains_key(f) ==> by_project@[f] == group_stats(ls, true, f),
            forall|f: Seq<char>| #[trigger] file_keys.contains(f) <==> has_group(ls, false, f),
            forall|f: Seq<char>| #[trigger] file_map.contains_key(f) <==> file_keys.contains(f),
            merged == spec_merge(raw_stats, file_map),
            forall|f: Seq<char>| #[trigger] file_map.contains_key(f) ==> file_map[f] == group_stats(ls, false, f),
            forall|f: Seq<char>| #[trigger] raw_stats.contains_key(f) ==> bounded_by(raw_stats[f], half),
            forall|f: Seq<char>|
                #[trigger] stats_or_zero(stats@, f) == if file_keys.take(k as int).contains(f) {
                    merged_stats(raw_stats, ls, f)
                } else {
                    stats_or_zero(merged, f)
                },
            ls.len() <= usize::MAX / 4,
            ls == lines_view(lines@),
            raw_stats == raw_map(entries),
            half == (usize::MAX / 2) as int,
            quarter == (usize::MAX / 4) as int,
        decreases files@.len() - k,
    {
        let file = files[k].as_str();
        let ghost f = file@;
        proof {
            assert(file_keys[k as int] == f);
            assert(file_keys.contains(f));
            assert(!file_keys.take(k as int).contains(f)) by {
                if file_keys.take(k as int).contains(f) {
                    let j = choose|j: int| 0 <= j < k && file_keys.take(k as int)[j] == f;
                    assert(file_keys[j] == file_keys[k as int]);
                }
            }
            assert(has_group(ls, false, f));
            lemma_group_stats_bounded(ls, false, f);
            lemma_zero_bounded(half);
            lemma_add_bounded(stats_or_zero(raw_stats, f), group_stats(ls, false, f), half, quarter);
        }
        let mut entry = stats.get_or_default(file);
        let ghost before = stats@;
        proof {
            assert(file_map.contains_key(f));
            assert(merged.contains_key(f));
            assert(merged[f] == spec_add_stats(stats_or_zero(raw_stats, f), file_map[f]));
            assert(stats_or_zero(merged, f) == spec_add_stats(stats_or_zero(raw_stats, f), group_stats(ls, false, f)));
            assert(entry == stats_or_zero(merged, f));
        }
        if entry.csharp && !entry.decompiled {
            let project = match project_of_file.get(file) {
                Some(p) => p,
                None => {
                    proof {
                        assert(false);
                    }
                    return stats;
                },
            };
            let ghost p = project_of(ls, f);
            proof {
                assert(has_group(ls, true, p)) by {
                    lemma_project_of_has_group(ls, f);
                }
                lemma_group_stats_bounded(ls, true, p);
                lemma_add_bounded(entry, group_stats(ls, true, p), half + quarter, quarter);
            }
            let add = by_project.get_or_default(project.as_str());
            assert(add == group_stats(ls, true, p));
            add_file_stats(&mut entry, &add);
            stats.set(file, entry);
            assert(entry == merged_stats(raw_stats, ls, f));
        } else {
            stats.set(file, entry);
            assert(entry == merged_stats(raw_stats, ls, f));
        }
        proof {
            assert forall|g: Seq<char>| g != f implies #[trigger] stats_or_zero(stats@, g) == stats_or_zero(before, g) by {
                assert(stats@ == before.insert(f, entry));
            }
            assert(stats_or_zero(stats@, f) == entry);
            let pre = file_keys.take(k as int);
            let post = file_keys.take(k + 1);
            assert(post =~= pre.push(f));
            assert forall|g: Seq<char>| post.contains(g) <==> (pre.contains(g) || g == f) by {
                if post.contains(g) {
                    let j = choose|j: int| 0 <= j < post.len() && post[j] == g;
                    if j < k {
                        assert(pre[j] == g);
                    }
                }
                if pre.contains(g) {
                    let j = choose|j: int| 0 <= j < pre.len() && pre[j] == g;
                    assert(post[j] == g);
                }
                if g == f {
                    assert(post[k as int] == g);
                }
            }
        }
        k += 1;
    }
    proof {
        assert(file_keys.take(k as int) =~= file_keys);
        assert forall|f: Seq<char>| #[trigger]
            stats_or_zero(stats@, f) == merged_stats(raw_stats, ls, f) by {
            if !file_keys.contains(f) {
                assert(!has_group(ls, false, f));
                assert(!file_map.contains_key(f));
            }
        }
    }
    stats
}

proof fn lemma_project_of_has_group(lines: Seq<LineView>, f: Seq<char>)
    requires
        has_group(lines, false, f),
    ensures
        has_group(lines, true, project_of(lines, f)),
    decreases lines.len(),
{
    if lines.last().file != f {
        let j = choose|j: int| 0 <= j < lines.len() && lines[j].file == f;
        assert(j != lines.len() - 1);
        assert(lines.drop_last()[j] == lines[j]);
        lemma_project_of_has_group(lines.drop_last(), f);
        let p = project_of(lines.drop_last(), f);
        let i = choose|i: int| 0 <= i < lines.drop_last().len() && lines.drop_last()[i].project == p;
        assert(lines[i] == lines.drop_last()[i]);
    } else {
        assert(lines[lines.len() - 1].project == project_of(lines, f));
    }
}

// ---------------------------------------------------------------------------
// Line records
// ---------------------------------------------------------------------------

/// A scored line.
pub struct LineRecord {
    pub file: String,
    pub line: usize,
    pub excerpt: String,
    pub normalized: String,
    /// Score in thousandths.
    pub score: u32,
    pub reason: String,
}

/// Mathematical view of [`LineRecord`].
pub struct RecordView {
    pub file: Seq<char>,
    pub line: usize,
    pub excerpt: Seq<char>,
    pub normalized: Seq<char>,
    pub score: nat,
    pub reason: Seq<char>,
}

impl View for LineRecord {
    type V = RecordView;

    open spec fn view(&self) -> RecordView {
        RecordView {
            file: self.file@,
            line: self.line,
            excerpt: self.excerpt@,
            normalized: self.normalized@,
            score: self.score as nat,
            reason: self.reason@,
        }
    }
}

pub open spec fn records_view(v: Seq<LineRecord>) -> Seq<RecordView> {
    v.map_values(|r: LineRecord| r@)
}

/// Scoring of the lines in order: low-information and template lines are
/// excluded, every other line is scored with the counters of its file.
pub open spec fn record_fold(
    lines: Seq<LineView>,
    fs: spec_fn(Seq<char>) -> FileStats,
    templates: Set<Seq<char>>,
    ai: Set<Seq<char>>,
    human: Set<Seq<char>>,
) -> (Seq<RecordView>, Seq<ExcludedView>)
    decreases lines.len(),
{
    if lines.len() == 0 {
        (seq![], seq![])
    } else {
        let (r, e) = record_fold(lines.drop_last(), fs, templates, ai, human);
        let l = lines.last();
        if spec_is_low_information(l.normalized) {
            (
                r,
                e.push(
                    ExcludedView {
                        file: l.file,
                        line: l.line,
                        kind: "low_information"@,
                        reason: "syntax-only or too little authorship signal"@,
                    },
                ),
            )
        } else if templates.contains(l.normalized) {
            (
                r,
                e.push(
                    ExcludedView {
                        file: l.file,
                        line: l.line,
                        kind: "template"@,
                        reason: "normalized line repeats across sibling projects and is treated as shared scaffold"@,
                    },
                ),
            )
        } else {
            let (score, why) = spec_score_line(l, fs(l.file), ai, human);
            (
                r.push(
                    RecordView {
                        file: l.file,
                        line: l.line,
                        excerpt: l.code,
                        normalized: l.normalized,
                        score,
                        reason: why,
                    },
                ),
                e,
            )
        }
    }
}

/// Sum of the scores of the records.
pub open spec fn scores_sum(records: Seq<RecordView>) -> nat
    decreases records.len(),
{
    if records.len() == 0 {
        0
    } else {
        scores_sum(records.drop_last()) + records.last().score
    }
}

fn excluded_entry(file: &String, line: usize, kind: &str, reason: &str) -> (r: ExcludedLine)
    ensures
        r@ == (ExcludedView { file: file@, line, kind: kind@, reason: reason@ }),
{
    ExcludedLine { file: copy_str(file.as_str()), line, kind: string_from(kind), reason: string_from(reason) }
}

/// Scores every line that is neither low-information nor a template line.
pub fn score_records(
    lines: &[CodeLine],
    stats: &StatsMap,
    templates: &LineSet,
    ai_profile: &LineSet,
    human_profile: &LineSet,
) -> (r: (Vec<LineRecord>, Vec<ExcludedLine>, u128))
    requires
        lines@.len() <= usize::MAX / 4,
    ensures
        records_view(r.0@) == record_fold(lines_view(lines@), |f: Seq<char>| stats_or_zero(stats@, f), templates@, ai_profile@, human_profile@).0,
        excluded_views(r.1@) == record_fold(lines_view(lines@), |f: Seq<char>| stats_or_zero(stats@, f), templates@, ai_profile@, human_profile@).1,
        r.2 == scores_sum(records_view(r.0@)),
        r.2 <= r.0@.len() * 1000,
        r.0@.len() <= lines@.len(),
        forall|k: int| 0 <= k < r.0@.len() ==> (#[trigger] r.0@[k]).score <= 1000,
{
    let ghost ls = lines_view(lines@);
    let mut records: Vec<LineRecord> = Vec::new();
    let mut excluded: Vec<ExcludedLine> = Vec::new();
    let mut total: u128 = 0;
    let mut i: usize = 0;
    while i < lines.len()
        invariant
            i <= lines@.len() <= usize::MAX / 4,
            ls == lines_view(lines@),
            records_view(records@) == record_fold(ls.take(i as int), |f: Seq<char>| stats_or_zero(stats@, f), templates@, ai_profile@, human_profile@).0,
            excluded_views(excluded@) == record_fold(ls.take(i as int), |f: Seq<char>| stats_or_zero(stats@, f), templates@, ai_profile@, human_profile@).1,
            total == scores_sum(records_view(records@)),
            total <= records@.len() * 1000,
            records@.len() <= i,
            forall|k: int| 0 <= k < records@.len() ==> (#[trigger] records@[k]).score <= 1000,
        decreases lines@.len() - i,
    {
        let line = &lines[i];
        proof {
            assert(ls.take(i + 1).drop_last() =~= ls.take(i as int));
            assert(ls.take(i + 1).last() == line@);
        }
        if is_low_information(line.normalized.as_str()) {
            excluded.push(excluded_entry(&line.file, line.line, "low_information", "syntax-only or too little authorship signal"));
            proof {
                assert(excluded_views(excluded@) =~= record_fold(ls.take(i + 1), |f: Seq<char>| stats_or_zero(stats@, f), templates@, ai_profile@, human_profile@).1);
            }
        } else if templates.contains(line.normalized.as_str()) {
            excluded.push(excluded_entry(&line.file, line.line, "template", "normalized line repeats across sibling projects and is treated as shared scaffold"));
            proof {
                assert(excluded_views(excluded@) =~= record_fold(ls.take(i + 1), |f: Seq<char>| stats_or_zero(stats@, f), templates@, ai_profile@, human_profile@).1);
            }
        } else {
            let file_stats = stats.get_or_default(line.file.as_str());
            let (score, reason) = score_line(line, &file_stats, ai_profile, human_profile);
            let ghost before = records@;
            records.push(LineRecord {
                file: copy_str(line.file.as_str()),
                line: line.line,
                excerpt: copy_str(line.code.as_str()),
                normalized: copy_str(line.normalized.as_str()),
                score,
                reason,
            });
            total = total + score as u128;
            proof {
                assert(records_view(records@) =~= records_view(before).push(records@.last()@));
                assert(records_view(records@).drop_last() =~= records_view(before));
                assert(records_view(records@) =~= record_fold(ls.take(i + 1), |f: Seq<char>| stats_or_zero(stats@, f), templates@, ai_profile@, human_profile@).0);
            }
        }
        i += 1;
    }
    assert(ls.take(i as int) =~= ls);
    (records, excluded, total)
}

// ---------------------------------------------------------------------------
// Per-file tallies in path order
// ---------------------------------------------------------------------------

/// Number of scored lines of file `f`.
pub open spec fn file_considered(records: Seq<RecordView>, f: Seq<char>) -> nat
    decreases records.len(),
{
    if records.len() == 0 {
        0
    } else {
        file_considered(records.drop_last(), f) + if records.last().file == f {
            1nat
        } else {
            0nat
        }
    }
}

/// Sum of the scores of the scored lines of file `f`.
pub open spec fn file_score(records: Seq<RecordView>, f: Seq<char>) -> nat
    decreases records.len(),
{
    if records.len() == 0 {
        0
    } else {
        file_score(records.drop_last(), f) + if records.last().file == f {
            records.last().score
        } else {
            0nat
        }
    }
}

/// Number of excluded lines of file `f`; whole-file exclusions (line zero)
/// do not count.
pub open spec fn file_excluded(excluded: Seq<ExcludedView>, f: Seq<char>) -> nat
    decreases excluded.len(),
{
    if excluded.len() == 0 {
        0
    } else {
        file_excluded(excluded.drop_last(), f) + if excluded.last().file == f
            && excluded.last().line > 0 {
            1nat
        } else {
            0nat
        }
    }
}

/// Files mentioned by a scored or an excluded line.
pub open spec fn tally_paths(records: Seq<RecordView>, excluded: Seq<ExcludedView>) -> Set<Seq<char>> {
    Set::new(
        |f: Seq<char>|
            (exists|i: int| 0 <= i < records.len() && records[i].file == f) || (exists|i: int|
                0 <= i < excluded.len() && excluded[i].file == f),
    )
}

/// Strictly increasing in text order.
pub open spec fn sorted_texts(s: Seq<Seq<char>>) -> bool {
    forall|i: int, j: int| 0 <= i < j < s.len() ==> text_lt(s[i], s[j])
}

proof fn lemma_counts_absent(records: Seq<RecordView>, excluded: Seq<ExcludedView>, f: Seq<char>)
    requires
        !tally_paths(records, excluded).contains(f),
    ensures
        file_considered(records, f) == 0,
        file_score(records, f) == 0,
        file_excluded(excluded, f) == 0,
    decreases records.len() + excluded.len(),
{
    if records.len() > 0 {
        assert(records[records.len() - 1].file != f);
        assert(!tally_paths(records.drop_last(), excluded).contains(f)) by {
            if tally_paths(records.drop_last(), excluded).contains(f) {
                if exists|i: int| 0 <= i < records.drop_last().len() && records.drop_last()[i].file == f {
                    let i = choose|i: int| 0 <= i < records.drop_last().len() && records.drop_last()[i].file == f;
                    assert(records[i] == records.drop_last()[i]);
                }
            }
        }
        lemma_counts_absent(records.drop_last(), excluded, f);
    } else if excluded.len() > 0 {
        assert(excluded[excluded.len() - 1].file != f);
        assert(!tally_paths(records, excluded.drop_last()).contains(f)) by {
            if tally_paths(records, excluded.drop_last()).contains(f) {
                if exists|i: int| 0 <= i < excluded.drop_last().len() && excluded.drop_last()[i].file == f {
                    let i = choose|i: int| 0 <= i < excluded.drop_last().len() && excluded.drop_last()[i].file == f;
                    assert(excluded[i] == excluded.drop_last()[i]);
                }
            }
        }
        lemma_counts_absent(records, excluded.drop_last(), f);
    }
}

proof fn lemma_counts_bounded(records: Seq<RecordView>, excluded: Seq<ExcludedView>, f: Seq<char>)
    requires
        forall|k: int| 0 <= k < records.len() ==> (#[trigger] records[k]).score <= 1000,
    ensures
        file_considered(records, f) <= records.len(),
        file_score(records, f) <= records.len() * 1000,
        file_excluded(excluded, f) <= excluded.len(),
    decreases records.len() + excluded.len(),
{
    if records.len() > 0 {
        assert forall|k: int| 0 <= k < records.drop_last().len() implies (
        #[trigger] records.drop_last()[k]).score <= 1000 by {
            assert(records.drop_last()[k] == records[k]);
        }
        assert(records[records.len() - 1].score <= 1000);
        lemma_counts_bounded(records.drop_last(), excluded, f);
    } else if excluded.len() > 0 {
        lemma_counts_bounded(records, excluded.drop_last(), f);
    }
}

/// Per-file tallies kept in path order.
struct FileTallies {
    paths: Vec<String>,
    considered: Vec<usize>,
    excluded: Vec<usize>,
    scores: Vec<u128>,
}

spec fn tallies_shape(t: FileTallies) -> bool {
    &&& t.paths@.len() == t.considered@.len()
    &&& t.paths@.len() == t.excluded@.len()
    &&& t.paths@.len() == t.scores@.len()
    &&& sorted_texts(crate::text::strings_view(t.paths@))
}

spec fn tallies_count(t: FileTallies, records: Seq<RecordView>, excluded: Seq<ExcludedView>) -> bool {
    &&& tallies_shape(t)
    &&& forall|f: Seq<char>| #[trigger]
        crate::text::strings_view(t.paths@).contains(f) <==> tally_paths(records, excluded).contains(f)
    &&& forall|i: int|
        0 <= i < t.paths@.len() ==> t.considered@[i] == file_considered(records, #[trigger] t.paths@[i]@)
            && t.scores@[i] == file_score(records, t.paths@[i]@) && t.excluded@[i] == file_excluded(
            excluded,
            t.paths@[i]@,
        )
}

/// Position of `key`, inserted with zero counts where it keeps the order if
/// it is not there yet. `hint` is tried first.
fn locate(t: &mut FileTallies, key: &str, hint: usize) -> (idx: usize)
    requires
        tallies_shape(*old(t)),
    ensures
        tallies_shape(*final(t)),
        idx < final(t).paths@.len(),
        final(t).paths@[idx as int]@ == key@,
        crate::text::strings_view(old(t).paths@).contains(key@) ==> *final(t) == *old(t),
        !crate::text::strings_view(old(t).paths@).contains(key@) ==> {
            &&& idx <= old(t).paths@.len()
            &&& crate::text::strings_view(final(t).paths@) == crate::text::strings_view(old(t).paths@).insert(idx as int, key@)
            &&& final(t).considered@ == old(t).considered@.insert(idx as int, 0)
            &&& final(t).excluded@ == old(t).excluded@.insert(idx as int, 0)
            &&& final(t).scores@ == old(t).scores@.insert(idx as int, 0)
        },
{
    let ghost ps = crate::text::strings_view(t.paths@);
    if hint < t.paths.len() && str_eq(t.paths[hint].as_str(), key) {
        assert(ps[hint as int] == key@);
        return hint;
    }
    let mut p: usize = 0;
    while p < t.paths.len() && str_lt(t.paths[p].as_str(), key)
        invariant
            p <= t.paths@.len(),
            ps == crate::text::strings_view(t.paths@),
            forall|j: int| 0 <= j < p ==> text_lt(ps[j], key@),
        decreases t.paths@.len() - p,
    {
        p += 1;
    }
    if p < t.paths.len() && str_eq(t.paths[p].as_str(), key) {
        assert(ps[p as int] == key@);
        return p;
    }
    proof {
        assert(!ps.contains(key@)) by {
            if ps.contains(key@) {
                let j = choose|j: int| 0 <= j < ps.len() && ps[j] == key@;
                if j < p {
                    lemma_text_lt_irreflexive(key@);
                } else if j > p {
                    lemma_text_lt_total(ps[p as int], key@);
                    lemma_text_lt_asymmetric(ps[p as int], ps[j]);
                } else {
                }
            }
        }
    }
    let ghost old_t = *t;
    t.paths.insert(p, copy_str(key));
    t.considered.insert(p, 0);
    t.excluded.insert(p, 0);
    t.scores.insert(p, 0);
    proof {
        let nps = crate::text::strings_view(t.paths@);
        assert(nps =~= ps.insert(p as int, key@));
        assert forall|i: int, j: int| 0 <= i < j < nps.len() implies text_lt(nps[i], nps[j]) by {
            if j < p {
                assert(nps[i] == ps[i] && nps[j] == ps[j]);
            } else if j == p {
                assert(nps[i] == ps[i]);
            } else if i == p {
                assert(nps[j] == ps[j - 1]);
                lemma_text_lt_total(ps[p as int], key@);
                if j - 1 > p {
                    lemma_text_lt_transitive(key@, ps[p as int], ps[j - 1]);
                }
            } else if i < p {
                assert(nps[i] == ps[i] && nps[j] == ps[j - 1]);
                lemma_text_lt_total(ps[p as int], key@);
                lemma_text_lt_transitive(ps[i], key@, ps[p as int]);
                if j - 1 > p {
                    lemma_text_lt_transitive(ps[i], ps[p as int], ps[j - 1]);
                }
            } else {
                assert(nps[i] == ps[i - 1] && nps[j] == ps[j - 1]);
            }
        }
    }
    p
}

/// Tallies per file, in path order, of the scored and the excluded lines.
fn tally_files(records: &Vec<LineRecord>, excluded: &Vec<ExcludedLine>) -> (r: FileTallies)
    requires
        forall|k: int| 0 <= k < records@.len() ==> (#[trigger] records@[k]).score <= 1000,
    ensures
        tallies_count(r, records_view(records@), excluded_views(excluded@)),
{
    let ghost rs = records_view(records@);
    let ghost es = excluded_views(excluded@);
    let mut t = FileTallies { paths: Vec::new(), considered: Vec::new(), excluded: Vec::new(), scores: Vec::new() };
    let mut hint: usize = 0;
    let mut i: usize = 0;
    let ghost none: Seq<ExcludedView> = seq![];
    proof {
        assert(crate::text::strings_view(t.paths@) =~= Seq::<Seq<char>>::empty());
        assert forall|f: Seq<char>| #[trigger] crate::text::strings_view(t.paths@).contains(f)
            <==> tally_paths(rs.take(0), none).contains(f) by {
        }
    }
    while i < records.len()
        invariant
            i <= records@.len(),
            rs == records_view(records@),
            forall|k: int| 0 <= k < records@.len() ==> (#[trigger] records@[k]).score <= 1000,
            tallies_count(t, rs.take(i as int), none),
            none == Seq::<ExcludedView>::empty(),
        decreases records@.len() - i,
    {
        let ghost pre = rs.take(i as int);
        let ghost post = rs.take(i + 1);
        let rec = &records[i];
        proof {
            assert(post.drop_last() =~= pre);
            assert(post.last() == rec@);
        }
        let ghost old_t = t;
        let idx = locate(&mut t, rec.file.as_str(), hint);
        proof {
            if !crate::text::strings_view(old_t.paths@).contains(rec@.file) {
                lemma_counts_absent(pre, none, rec@.file);
            }
            assert forall|f: Seq<char>| #[trigger] crate::text::strings_view(t.paths@).contains(f)
                <==> tally_paths(pre, none).contains(f) || f == rec@.file by {
                if crate::text::strings_view(t.paths@).contains(f) && f != rec@.file {
                    let j = choose|j: int| 0 <= j < t.paths@.len() && crate::text::strings_view(t.paths@)[j] == f;
                    if !crate::text::strings_view(old_t.paths@).contains(rec@.file) {
                        if j < idx {
                            assert(crate::text::strings_view(old_t.paths@)[j] == f);
                        } else if j > idx {
                            assert(crate::text::strings_view(old_t.paths@)[j - 1] == f);
                        }
                    }
                }
                if crate::text::strings_view(old_t.paths@).contains(f) {
                    let j = choose|j: int| 0 <= j < old_t.paths@.len() && crate::text::strings_view(old_t.paths@)[j] == f;
                    if !crate::text::strings_view(old_t.paths@).contains(rec@.file) {
                        if j < idx {
                            assert(crate::text::strings_view(t.paths@)[j] == f);
                        } else {
                            assert(crate::text::strings_view(t.paths@)[j + 1] == f);
                        }
                    }
                }
                if f == rec@.file {
                    assert(crate::text::strings_view(t.paths@)[idx as int] == f);
                }
            }
            assert forall|k: int| 0 <= k < t.paths@.len() implies t.considered@[k] == file_considered(
                pre,
                #[trigger] t.paths@[k]@,
            ) && t.scores@[k] == file_score(pre, t.paths@[k]@) && t.excluded@[k] == file_excluded(
                none,
                t.paths@[k]@,
            ) by {
                if !crate::text::strings_view(old_t.paths@).contains(rec@.file) {
                    if k < idx {
                        assert(crate::text::strings_view(t.paths@)[k] == crate::text::strings_view(old_t.paths@)[k]);
                    } else if k > idx {
                        assert(crate::text::strings_view(t.paths@)[k] == crate::text::strings_view(old_t.paths@)[k - 1]);
                    } else {
                        assert(t.paths@[k]@ == rec@.file);
                    }
                }
            }
            lemma_counts_bounded(pre, none, rec@.file);
        }
        let c = t.considered[idx];
        let sc = t.scores[idx];
        let ghost mid = t;
        t.considered.set(idx, c + 1);
        t.scores.set(idx, sc + rec.score as u128);
        hint = idx;
        proof {
            let vs = crate::text::strings_view(t.paths@);
            assert forall|k: int| 0 <= k < t.paths@.len() implies t.considered@[k] == file_considered(
                post,
                #[trigger] t.paths@[k]@,
            ) && t.scores@[k] == file_score(post, t.paths@[k]@) && t.excluded@[k] == file_excluded(
                none,
                t.paths@[k]@,
            ) by {
                assert(vs[k] == t.paths@[k]@);
                assert(vs[idx as int] == rec@.file);
                if k < idx {
                    lemma_text_lt_irreflexive(vs[k]);
                    assert(text_lt(vs[k], vs[idx as int]));
                } else if k > idx {
                    lemma_text_lt_irreflexive(vs[k]);
                    assert(text_lt(vs[idx as int], vs[k]));
                }
                assert(mid.considered@[k] == file_considered(pre, t.paths@[k]@));
            }
            assert forall|f: Seq<char>| #[trigger] tally_paths(post, none).contains(f)
                <==> tally_paths(pre, none).contains(f) || f == rec@.file by {
                if tally_paths(post, none).contains(f) && f != rec@.file {
                    let j = choose|j: int| 0 <= j < post.len() && post[j].file == f;
                    assert(pre[j] == post[j]);
                }
                if tally_paths(pre, none).contains(f) {
                    let j = choose|j: int| 0 <= j < pre.len() && pre[j].file == f;
                    assert(pre[j] == post[j]);
                }
                if f == rec@.file {
                    assert(post[i as int].file == f);
                }
            }
        }
        i += 1;
    }
    assert(rs.take(i as int) =~= rs);
    let mut i: usize = 0;
    while i < excluded.len()
        invariant
            i <= excluded@.len(),
            es == excluded_views(excluded@),
            rs == records_view(records@),
            forall|k: int| 0 <= k < records@.len() ==> (#[trigger] records@[k]).score <= 1000,
            tallies_count(t, rs, es.take(i as int)),
        decreases excluded@.len() - i,
    {
        let ghost pre = es.take(i as int);
        let ghost post = es.take(i + 1);
        let ex = &excluded[i];
        proof {
            assert(post.drop_last() =~= pre);
            assert(post.last() == ex@);
        }
        let ghost old_t = t;
        let idx = locate(&mut t, ex.file.as_str(), hint);
        proof {
            if !crate::text::strings_view(old_t.paths@).contains(ex@.file) {
                lemma_counts_absent(rs, pre, ex@.file);
            }
            assert forall|f: Seq<char>| #[trigger] crate::text::strings_view(t.paths@).contains(f)
                <==> tally_paths(rs, pre).contains(f) || f == ex@.file by {
                if crate::text::strings_view(t.paths@).contains(f) && f != ex@.file {
                    let j = choose|j: int| 0 <= j < t.paths@.len() && crate::text::strings_view(t.paths@)[j] == f;
                    if !crate::text::strings_view(old_t.paths@).contains(ex@.file) {
                        if j < idx {
                            assert(crate::text::strings_view(old_t.paths@)[j] == f);
                        } else if j > idx {
                            assert(crate::text::strings_view(old_t.paths@)[j - 1] == f);
                        }
                    }
                }
                if crate::text::strings_view(old_t.paths@).contains(f) {
                    let j = choose|j: int| 0 <= j < old_t.paths@.len() && crate::text::strings_view(old_t.paths@)[j] == f;
                    if !crate::text::strings_view(old_t.paths@).contains(ex@.file) {
                        if j < idx {
                            assert(crate::text::strings_view(t.paths@)[j] == f);
                        } else {
                            assert(crate::text::strings_view(t.paths@)[j + 1] == f);
                        }
                    }
                }
                if f == ex@.file {
                    assert(crate::text::strings_view(t.paths@)[idx as int] == f);
                }
            }
            assert forall|k: int| 0 <= k < t.paths@.len() implies t.considered@[k] == file_considered(
                rs,
                #[trigger] t.paths@[k]@,
            ) && t.scores@[k] == file_score(rs, t.paths@[k]@) && t.excluded@[k] == file_excluded(
                pre,
                t.paths@[k]@,
            ) by {
                if !crate::text::strings_view(old_t.paths@).contains(ex@.file) {
                    if k < idx {
                        assert(crate::text::strings_view(t.paths@)[k] == crate::text::strings_view(old_t.paths@)[k]);
                    } else if k > idx {
                        assert(crate::text::strings_view(t.paths@)[k] == crate::text::strings_view(old_t.paths@)[k - 1]);
                    } else {
                        assert(t.paths@[k]@ == ex@.file);
                    }
                }
            }
            lemma_counts_bounded(rs, pre, ex@.file);
        }
        let ghost mid = t;
        if ex.line > 0 {
            let c = t.excluded[idx];
            t.excluded.set(idx, c + 1);
        }
        hint = idx;
        proof {
            let vs = crate::text::strings_view(t.paths@);
            assert forall|k: int| 0 <= k < t.paths@.len() implies t.considered@[k] == file_considered(
                rs,
                #[trigger] t.paths@[k]@,
            ) && t.scores@[k] == file_score(rs, t.paths@[k]@) && t.excluded@[k] == file_excluded(
                post,
                t.paths@[k]@,
            ) by {
                assert(vs[k] == t.paths@[k]@);
                assert(vs[idx as int] == ex@.file);
                if k < idx {
                    lemma_text_lt_irreflexive(vs[k]);
                    assert(text_lt(vs[k], vs[idx as int]));
                } else if k > idx {
                    lemma_text_lt_irreflexive(vs[k]);
                    assert(text_lt(vs[idx as int], vs[k]));
                }
                assert(mid.excluded@[k] == file_excluded(pre, t.paths@[k]@));
            }
            assert forall|f: Seq<char>| #[trigger] tally_paths(rs, post).contains(f)
                <==> tally_paths(rs, pre).contains(f) || f == ex@.file by {
                if tally_paths(rs, post).contains(f) && f != ex@.file {
                    if exists|j: int| 0 <= j < post.len() && post[j].file == f {
                        let j = choose|j: int| 0 <= j < post.len() && post[j].file == f;
                        assert(pre[j] == post[j]);
                    }
                }
                if tally_paths(rs, pre).contains(f) {
                    if exists|j: int| 0 <= j < pre.len() && pre[j].file == f {
                        let j = choose|j: int| 0 <= j < pre.len() && pre[j].file == f;
                        assert(pre[j] == post[j]);
                    }
                }
                if f == ex@.file {
                    assert(post[i as int].file == f);
                }
            }
        }
        i += 1;
    }
    assert(es.take(i as int) =~= es);
    t
}

// ---------------------------------------------------------------------------
// The whole analysis
// ---------------------------------------------------------------------------

/// Summary of one file.
pub struct FileSummary {
    pub path: String,
    pub considered_lines: usize,
    pub excluded_lines: usize,
    /// Sum of the scores of the file's scored lines, in thousandths.
    pub score_total: u128,
    pub decompiled: bool,
    pub ai_features: usize,
    pub legit_features: usize,
    pub ai_positive: bool,
    pub strong_legit: bool,
    pub feature_summary: String,
}

/// The summary of a file agrees with its lines and its counters.
pub open spec fn summary_matches(
    s: FileSummary,
    records: Seq<RecordView>,
    excluded: Seq<ExcludedView>,
    fs: spec_fn(Seq<char>) -> FileStats,
) -> bool {
    let stats = fs(s.path@);
    let p = spec_decompiled_profile(stats);
    &&& s.considered_lines == file_considered(records, s.path@)
    &&& s.excluded_lines == file_excluded(excluded, s.path@)
    &&& s.score_total == file_score(records, s.path@)
    &&& s.decompiled == stats.decompiled
    &&& s.ai_features == p.ai_features
    &&& s.legit_features == p.legit_features
    &&& s.ai_positive == p.ai_positive
    &&& s.strong_legit == p.strong_legit
    &&& s.feature_summary@ == p.summary
}

pub open spec fn summary_paths(v: Seq<FileSummary>) -> Seq<Seq<char>> {
    v.map_values(|s: FileSummary| s.path@)
}

/// The result of scoring a scan. Scores are in thousandths; percentages and
/// the verdict against the threshold are derived from them.
pub struct Analysis {
    /// Sum of the scores of all scored lines, in thousandths.
    pub score_total: u128,
    pub considered_lines: usize,
    pub excluded_lines: usize,
    pub source_files: usize,
    pub skipped_non_source_files: usize,
    pub skipped_dirs: usize,
    pub template_lines: usize,
    pub line_records: Vec<LineRecord>,
    pub excluded: Vec<ExcludedLine>,
    pub files: Vec<FileSummary>,
}

/// Counters used for scoring the lines of a loaded scan.
pub open spec fn scan_stats(loaded: LoadedSource) -> spec_fn(Seq<char>) -> FileStats {
    |f: Seq<char>| merged_stats(
        raw_map(stats_entries_view(loaded.raw_file_stats@)),
        lines_view(loaded.lines@),
        f,
    )
}

/// Scored lines and new exclusions of a loaded scan.
pub open spec fn scan_records(loaded: LoadedSource, ai: Set<Seq<char>>, human: Set<Seq<char>>) -> (
    Seq<RecordView>,
    Seq<ExcludedView>,
) {
    record_fold(
        lines_view(loaded.lines@),
        scan_stats(loaded),
        template_set(lines_view(loaded.lines@)),
        ai,
        human,
    )
}

fn summarize(t: &FileTallies, stats: &StatsMap) -> (r: Vec<FileSummary>)
    requires
        tallies_shape(*t),
    ensures
        r@.len() == t.paths@.len(),
        summary_paths(r@) == crate::text::strings_view(t.paths@),
        forall|i: int| 0 <= i < r@.len() ==> {
            let s = #[trigger] r@[i];
            &&& s.considered_lines == t.considered@[i]
            &&& s.excluded_lines == t.excluded@[i]
            &&& s.score_total == t.scores@[i]
            &&& s.decompiled == stats_or_zero(stats@, s.path@).decompiled
            &&& s.ai_features == spec_decompiled_profile(stats_or_zero(stats@, s.path@)).ai_features
            &&& s.legit_features == spec_decompiled_profile(stats_or_zero(stats@, s.path@)).legit_features
            &&& s.ai_positive == spec_decompiled_profile(stats_or_zero(stats@, s.path@)).ai_positive
            &&& s.strong_legit == spec_decompiled_profile(stats_or_zero(stats@, s.path@)).strong_legit
            &&& s.feature_summary@ == spec_decompiled_profile(stats_or_zero(stats@, s.path@)).summary
        },
{
    let mut r: Vec<FileSummary> = Vec::new();
    let mut i: usize = 0;
    while i < t.paths.len()
        invariant
            i <= t.paths@.len(),
            tallies_shape(*t),
            r@.len() == i,
            forall|k: int| 0 <= k < i ==> (#[trigger] r@[k]).path@ == t.paths@[k]@,
            forall|k: int| 0 <= k < i ==> {
                let s = #[trigger] r@[k];
                &&& s.considered_lines == t.considered@[k]
                &&& s.excluded_lines == t.excluded@[k]
                &&& s.score_total == t.scores@[k]
                &&& s.decompiled == stats_or_zero(stats@, s.path@).decompiled
                &&& s.ai_features == spec_decompiled_profile(stats_or_zero(stats@, s.path@)).ai_features
                &&& s.legit_features == spec_decompiled_profile(stats_or_zero(stats@, s.path@)).legit_features
                &&& s.ai_positive == spec_decompiled_profile(stats_or_zero(stats@, s.path@)).ai_positive
                &&& s.strong_legit == spec_decompiled_profile(stats_or_zero(stats@, s.path@)).strong_legit
                &&& s.feature_summary@ == spec_decompiled_profile(stats_or_zero(stats@, s.path@)).summary
            },
        decreases t.paths@.len() - i,
    {
        let path = t.paths[i].as_str();
        let st = stats.get_or_default(path);
        let profile = decompiled_profile(&st);
        r.push(FileSummary {
            path: copy_str(path),
            considered_lines: t.considered[i],
            excluded_lines: t.excluded[i],
            score_total: t.scores[i],
            decompiled: st.decompiled,
            ai_features: profile.ai_features,
            legit_features: profile.legit_features,
            ai_positive: profile.ai_positive,
            strong_legit: profile.strong_legit,
            feature_summary: profile.summary,
        });
        i += 1;
    }
    assert(summary_paths(r@) =~= crate::text::strings_view(t.paths@));
    r
}

// ---------------------------------------------------------------------------
// Per-file tallies add up to the totals
// ---------------------------------------------------------------------------

/// Scored lines over all file summaries.
pub open spec fn sum_considered(v: Seq<FileSummary>) -> nat
    decreases v.len(),
{
    if v.len() == 0 {
        0
    } else {
        sum_considered(v.drop_last()) + v.last().considered_lines as nat
    }
}

/// Score totals over all file summaries.
pub open spec fn sum_scores(v: Seq<FileSummary>) -> nat
    decreases v.len(),
{
    if v.len() == 0 {
        0
    } else {
        sum_scores(v.drop_last()) + v.last().score_total as nat
    }
}

/// Excluded lines over all file summaries.
pub open spec fn sum_excluded(v: Seq<FileSummary>) -> nat
    decreases v.len(),
{
    if v.len() == 0 {
        0
    } else {
        sum_excluded(v.drop_last()) + v.last().excluded_lines as nat
    }
}

/// Excluded lines that name a line (whole-file exclusions have line zero).
pub open spec fn line_exclusions(ex: Seq<ExcludedView>) -> nat
    decreases ex.len(),
{
    if ex.len() == 0 {
        0
    } else {
        line_exclusions(ex.drop_last()) + if ex.last().line > 0 {
            1nat
        } else {
            0nat
        }
    }
}

spec fn occurrences(ps: Seq<Seq<char>>, x: Seq<char>) -> nat
    decreases ps.len(),
{
    if ps.len() == 0 {
        0
    } else {
        occurrences(ps.drop_last(), x) + if ps.last() == x {
            1nat
        } else {
            0nat
        }
    }
}

spec fn considered_over(ps: Seq<Seq<char>>, rs: Seq<RecordView>) -> nat
    decreases ps.len(),
{
    if ps.len() == 0 {
        0
    } else {
        considered_over(ps.drop_last(), rs) + file_considered(rs, ps.last())
    }
}

spec fn score_over(ps: Seq<Seq<char>>, rs: Seq<RecordView>) -> nat
    decreases ps.len(),
{
    if ps.len() == 0 {
        0
    } else {
        score_over(ps.drop_last(), rs) + file_score(rs, ps.last())
    }
}

spec fn excluded_over(ps: Seq<Seq<char>>, ex: Seq<ExcludedView>) -> nat
    decreases ps.len(),
{
    if ps.len() == 0 {
        0
    } else {
        excluded_over(ps.drop_last(), ex) + file_excluded(ex, ps.last())
    }
}

proof fn lemma_occurrences(ps: Seq<Seq<char>>, x: Seq<char>)
    requires
        sorted_texts(ps),
    ensures
        occurrences(ps, x) == if ps.contains(x) { 1nat } else { 0nat },
    decreases ps.len(),
{
    if ps.len() > 0 {
        let q = ps.drop_last();
        assert(sorted_texts(q)) by {
            assert forall|i: int, j: int| 0 <= i < j < q.len() implies text_lt(q[i], q[j]) by {
                assert(q[i] == ps[i] && q[j] == ps[j]);
            }
        }
        lemma_occurrences(q, x);
        if ps.last() == x {
            if q.contains(x) {
                let i = choose|i: int| 0 <= i < q.len() && q[i] == x;
                assert(text_lt(ps[i], ps[ps.len() - 1]));
                lemma_text_lt_irreflexive(x);
            }
            assert(ps.contains(x)) by {
                assert(ps[ps.len() - 1] == x);
            }
        } else {
            if ps.contains(x) {
                let i = choose|i: int| 0 <= i < ps.len() && ps[i] == x;
                assert(q[i] == x);
            }
            if q.contains(x) {
                let i = choose|i: int| 0 <= i < q.len() && q[i] == x;
                assert(ps[i] == x);
            }
        }
    }
}

proof fn lemma_over_empty(ps: Seq<Seq<char>>, rs: Seq<RecordView>, ex: Seq<ExcludedView>)
    requires
        rs.len() == 0,
        ex.len() == 0,
    ensures
        considered_over(ps, rs) == 0,
        score_over(ps, rs) == 0,
        excluded_over(ps, ex) == 0,
    decreases ps.len(),
{
    if ps.len() > 0 {
        lemma_over_empty(ps.drop_last(), rs, ex);
    }
}

proof fn lemma_over_step(ps: Seq<Seq<char>>, rs: Seq<RecordView>)
    requires
        rs.len() > 0,
    ensures
        considered_over(ps, rs) == considered_over(ps, rs.drop_last()) + occurrences(ps, rs.last().file),
        score_over(ps, rs) == score_over(ps, rs.drop_last()) + occurrences(ps, rs.last().file) * rs.last().score,
    decreases ps.len(),
{
    if ps.len() > 0 {
        lemma_over_step(ps.drop_last(), rs);
        let o = occurrences(ps.drop_last(), rs.last().file);
        let sc = rs.last().score;
        if ps.last() == rs.last().file {
            assert((o + 1) * sc == o * sc + sc) by (nonlinear_arith);
        }
    }
}

proof fn lemma_excluded_step(ps: Seq<Seq<char>>, ex: Seq<ExcludedView>)
    requires
        ex.len() > 0,
    ensures
        excluded_over(ps, ex) == excluded_over(ps, ex.drop_last()) + if ex.last().line > 0 {
            occurrences(ps, ex.last().file)
        } else {
            0nat
        },
    decreases ps.len(),
{
    if ps.len() > 0 {
        lemma_excluded_step(ps.drop_last(), ex);
    }
}

proof fn lemma_records_add_up(ps: Seq<Seq<char>>, rs: Seq<RecordView>)
    requires
        sorted_texts(ps),
        forall|i: int| 0 <= i < rs.len() ==> ps.contains(#[trigger] rs[i].file),
    ensures
        considered_over(ps, rs) == rs.len(),
        score_over(ps, rs) == scores_sum(rs),
    decreases rs.len(),
{
    if rs.len() == 0 {
        lemma_over_empty(ps, rs, seq![]);
    } else {
        let q = rs.drop_last();
        assert forall|i: int| 0 <= i < q.len() implies ps.contains(#[trigger] q[i].file) by {
            assert(q[i] == rs[i]);
        }
        lemma_records_add_up(ps, q);
        lemma_over_step(ps, rs);
        assert(ps.contains(rs[rs.len() - 1].file));
        lemma_occurrences(ps, rs.last().file);
    }
}

proof fn lemma_exclusions_add_up(ps: Seq<Seq<char>>, ex: Seq<ExcludedView>)
    requires
        sorted_texts(ps),
        forall|i: int| 0 <= i < ex.len() ==> ps.contains(#[trigger] ex[i].file),
    ensures
        excluded_over(ps, ex) == line_exclusions(ex),
    decreases ex.len(),
{
    if ex.len() == 0 {
        lemma_over_empty(ps, seq![], ex);
    } else {
        let q = ex.drop_last();
        assert forall|i: int| 0 <= i < q.len() implies ps.contains(#[trigger] q[i].file) by {
            assert(q[i] == ex[i]);
        }
        lemma_exclusions_add_up(ps, q);
        lemma_excluded_step(ps, ex);
        assert(ps.contains(ex[ex.len() - 1].file));
        lemma_occurrences(ps, ex.last().file);
    }
}

proof fn lemma_file_score_bounded(rs: Seq<RecordView>, f: Seq<char>)
    requires
        forall|k: int| 0 <= k < rs.len() ==> (#[trigger] rs[k]).score <= 1000,
    ensures
        file_score(rs, f) <= 1000 * file_considered(rs, f),
    decreases rs.len(),
{
    if rs.len() > 0 {
        let q = rs.drop_last();
        assert forall|k: int| 0 <= k < q.len() implies (#[trigger] q[k]).score <= 1000 by {
            assert(q[k] == rs[k]);
        }
        assert(rs[rs.len() - 1].score <= 1000);
        lemma_file_score_bounded(q, f);
    }
}

proof fn lemma_summaries_sum(v: Seq<FileSummary>, rs: Seq<RecordView>, ex: Seq<ExcludedView>)
    requires
        forall|i: int|
            0 <= i < v.len() ==> (#[trigger] v[i]).considered_lines == file_considered(rs, v[i].path@)
                && v[i].score_total == file_score(rs, v[i].path@) && v[i].excluded_lines == file_excluded(
                ex,
                v[i].path@,
            ),
    ensures
        sum_considered(v) == considered_over(summary_paths(v), rs),
        sum_scores(v) == score_over(summary_paths(v), rs),
        sum_excluded(v) == excluded_over(summary_paths(v), ex),
    decreases v.len(),
{
    if v.len() > 0 {
        let q = v.drop_last();
        assert forall|i: int| 0 <= i < q.len() implies (#[trigger] q[i]).considered_lines == file_considered(
            rs,
            q[i].path@,
        ) && q[i].score_total == file_score(rs, q[i].path@) && q[i].excluded_lines == file_excluded(
            ex,
            q[i].path@,
        ) by {
            assert(q[i] == v[i]);
        }
        lemma_summaries_sum(q, rs, ex);
        assert(summary_paths(v).drop_last() =~= summary_paths(q));
        assert(v[v.len() - 1] == v.last());
    }
}

/// Scores a loaded scan: combines the counters of each file, drops
/// low-information and template lines, scores the rest, and tallies every
/// file in path order.
pub fn analyze(loaded: LoadedSource, ai_profile: &LineSet, human_profile: &LineSet) -> (r: Analysis)
    requires
        analysis_fits(stats_entries_view(loaded.raw_file_stats@), lines_view(loaded.lines@)),
    ensures
        records_view(r.line_records@) == scan_records(loaded, ai_profile@, human_profile@).0,
        excluded_views(r.excluded@) == excluded_views(loaded.excluded@) + scan_records(
            loaded,
            ai_profile@,
            human_profile@,
        ).1,
        r.score_total == scores_sum(scan_records(loaded, ai_profile@, human_profile@).0),
        r.considered_lines == r.line_records@.len(),
        r.excluded_lines == r.excluded@.len(),
        r.template_lines == template_set(lines_view(loaded.lines@)).len(),
        r.source_files == loaded.source_files,
        r.skipped_non_source_files == loaded.skipped_non_source,
        r.skipped_dirs == loaded.skipped_dirs,
        sorted_texts(summary_paths(r.files@)),
        r.score_total <= 1000 * r.considered_lines,
        forall|k: int| 0 <= k < r.line_records@.len() ==> (#[trigger] r.line_records@[k]).score <= 1000,
        sum_considered(r.files@) == r.considered_lines,
        sum_scores(r.files@) == r.score_total,
        sum_excluded(r.files@) == line_exclusions(excluded_views(r.excluded@)),
        forall|i: int|
            0 <= i < r.files@.len() ==> (#[trigger] r.files@[i]).score_total <= 1000 * r.files@[i].considered_lines,
        forall|f: Seq<char>| #[trigger] summary_paths(r.files@).contains(f) <==> tally_paths(
            records_view(r.line_records@),
            excluded_views(r.excluded@),
        ).contains(f),
        forall|i: int| 0 <= i < r.files@.len() ==> summary_matches(
            #[trigger] r.files@[i],
            records_view(r.line_records@),
            excluded_views(r.excluded@),
            scan_stats(loaded),
        ),
{
    let ghost whole = loaded;
    let LoadedSource { lines, excluded, raw_file_stats, source_files, skipped_non_source, skipped_dirs } = loaded;
    let stats = file_stats_for(&lines, &raw_file_stats);
    let templates = repeated_template_lines(&lines);
    let template_lines = templates.len();
    let ghost fs = scan_stats(whole);
    proof {
        assert((|f: Seq<char>| stats_or_zero(stats@, f)) =~= fs);
    }
    let (records, mut new_excluded, score_total) = score_records(&lines, &stats, &templates, ai_profile, human_profile);
    let mut all_excluded = excluded;
    let ghost first = all_excluded@;
    let ghost second = new_excluded@;
    all_excluded.append(&mut new_excluded);
    proof {
        assert(excluded_views(all_excluded@) =~= excluded_views(first) + excluded_views(second));
    }
    let t = tally_files(&records, &all_excluded);
    let files = summarize(&t, &stats);
    proof {
        assert forall|f: Seq<char>| #[trigger] summary_paths(files@).contains(f) <==> tally_paths(
            records_view(records@),
            excluded_views(all_excluded@),
        ).contains(f) by {
            assert(crate::text::strings_view(t.paths@).contains(f) <==> tally_paths(
                records_view(records@),
                excluded_views(all_excluded@),
            ).contains(f));
        }
        assert forall|i: int| 0 <= i < files@.len() implies summary_matches(
            #[trigger] files@[i],
            records_view(records@),
            excluded_views(all_excluded@),
            fs,
        ) by {
            assert(files@[i].path@ == summary_paths(files@)[i]);
            assert(t.paths@[i]@ == crate::text::strings_view(t.paths@)[i]);
            assert(t.considered@[i] == file_considered(records_view(records@), t.paths@[i]@));
            assert(stats_or_zero(stats@, files@[i].path@) == fs(files@[i].path@));
        }
        let rs = records_view(records@);
        let es = excluded_views(all_excluded@);
        let ps = summary_paths(files@);
        assert forall|i: int| 0 <= i < rs.len() implies ps.contains(#[trigger] rs[i].file) by {
            assert(tally_paths(rs, es).contains(rs[i].file));
        }
        assert forall|i: int| 0 <= i < es.len() implies ps.contains(#[trigger] es[i].file) by {
            assert(tally_paths(rs, es).contains(es[i].file));
        }
        assert forall|i: int| 0 <= i < files@.len() implies (#[trigger] files@[i]).considered_lines
            == file_considered(rs, files@[i].path@) && files@[i].score_total == file_score(
            rs,
            files@[i].path@,
        ) && files@[i].excluded_lines == file_excluded(es, files@[i].path@) by {
            assert(summary_matches(files@[i], rs, es, fs));
        }
        lemma_records_add_up(ps, rs);
        lemma_exclusions_add_up(ps, es);
        assert forall|i: int| 0 <= i < files@.len() implies (#[trigger] files@[i]).score_total <= 1000
            * files@[i].considered_lines by {
            lemma_file_score_bounded(rs, files@[i].path@);
        }
        lemma_summaries_sum(files@, rs, es);
    }
    Analysis {
        score_total,
        considered_lines: records.len(),
        excluded_lines: all_excluded.len(),
        source_files,
        skipped_non_source_files: skipped_non_source,
        skipped_dirs,
        template_lines,
        line_records: records,
        excluded: all_excluded,
        files,
    }
}

} // verus!
