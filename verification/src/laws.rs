//! Properties of the scanner as a whole.
use vstd::prelude::*;
use crate::analysis::{record_fold, records_view, scan_records, scores_sum, RecordView};
use crate::profile::{
    lemma_cap_at_most_one, profile_summary, rules_reasons, score_reasons, score_rules, spec_decompiled_profile,
    spec_score_line, Rule,
};
use crate::source::{lines_view, ExcludedView, LineView, LoadedSource};
use crate::stats::FileStats;
use crate::syntax::spec_is_low_information;
use crate::template::template_set;
use crate::args::{
    in_words, falsy_words, key_filter, lead_dashes, spec_canonical_key, spec_parse_bool,
    spec_split_assignment, trim_dashes, truthy_words, first_char,
};
use crate::report::{
    bool_text, hex4, hex_digit, json_escape, json_escape_char, json_report, markdown_report,
    replace_char, spec_escape_code, spec_escape_md, Report,
};
use crate::text::{has_char, is_control, lower, lower_char, starts_with, ends_with};
use crate::kinds::{counts_over, kind_order, law_kind_counts_add_up, lists_kinds};
use crate::report::{
    application_value, calibration_fields, data_value, excluded_items, excluded_json, file_items, file_json,
    json_member, json_array, line_items, line_json, summary_fields,
};
use crate::report::{md_file_row, md_file_rows, md_kind_rows, md_line_row, md_line_rows, md_verdict, FileReport, LineReport};
use crate::source::excluded_views;

verus! {

/// What the scoring of a line keeps apart from its reasons.
pub open spec fn record_key(r: RecordView) -> (Seq<char>, usize, Seq<char>, Seq<char>, nat) {
    (r.file, r.line, r.excerpt, r.normalized, r.score)
}

pub open spec fn record_keys(rs: Seq<RecordView>) -> Seq<(Seq<char>, usize, Seq<char>, Seq<char>, nat)> {
    rs.map_values(|r: RecordView| record_key(r))
}

proof fn lemma_fold_facts(
    lines: Seq<LineView>,
    fs: spec_fn(Seq<char>) -> FileStats,
    templates: Set<Seq<char>>,
    ai: Set<Seq<char>>,
    human: Set<Seq<char>>,
)
    ensures
        ({
            let (r, e) = record_fold(lines, fs, templates, ai, human);
            &&& r.len() + e.len() == lines.len()
            &&& scores_sum(r) <= 1000 * r.len()
            &&& forall|i: int| 0 <= i < r.len() ==> (#[trigger] r[i]).score <= 1000
            &&& forall|i: int| 0 <= i < r.len() ==> !spec_is_low_information((#[trigger] r[i]).normalized)
                && !templates.contains(r[i].normalized)
        }),
    decreases lines.len(),
{
    if lines.len() > 0 {
        lemma_fold_facts(lines.drop_last(), fs, templates, ai, human);
        let l = lines.last();
        lemma_cap_at_most_one(fs(l.file));
        let (r0, e0) = record_fold(lines.drop_last(), fs, templates, ai, human);
        let (r, e) = record_fold(lines, fs, templates, ai, human);
        if !spec_is_low_information(l.normalized) && !templates.contains(l.normalized) {
            assert(r.drop_last() =~= r0);
            assert forall|i: int| 0 <= i < r.len() implies (#[trigger] r[i]).score <= 1000 && !spec_is_low_information(
                r[i].normalized,
            ) && !templates.contains(r[i].normalized) by {
                if i < r0.len() {
                    assert(r[i] == r0[i]);
                }
            }
        }
    }
}

/// No line scores above one (1000 thousandths).
pub proof fn law_line_score_at_most_one(
    line: LineView,
    stats: FileStats,
    ai: Set<Seq<char>>,
    human: Set<Seq<char>>,
)
    ensures
        spec_score_line(line, stats, ai, human).0 <= 1000,
{
    lemma_cap_at_most_one(stats);
}

/// The total score of a scan is at most 1000 thousandths per scored line,
/// so the percentage lies between 0 and 100.
pub proof fn law_percentage_in_range(loaded: LoadedSource, ai: Set<Seq<char>>, human: Set<Seq<char>>)
    ensures
        scores_sum(scan_records(loaded, ai, human).0) <= 1000 * scan_records(loaded, ai, human).0.len(),
{
    let lines = lines_view(loaded.lines@);
    lemma_fold_facts(lines, crate::analysis::scan_stats(loaded), template_set(lines), ai, human);
}

/// Only authored code is scored: no scored line is low-information or a
/// shared template line.
pub proof fn law_scored_lines_are_authored(loaded: LoadedSource, ai: Set<Seq<char>>, human: Set<Seq<char>>)
    ensures
        forall|i: int|
            0 <= i < scan_records(loaded, ai, human).0.len() ==> {
                let r = #[trigger] scan_records(loaded, ai, human).0[i];
                &&& !spec_is_low_information(r.normalized)
                &&& !template_set(lines_view(loaded.lines@)).contains(r.normalized)
            },
{
    let lines = lines_view(loaded.lines@);
    lemma_fold_facts(lines, crate::analysis::scan_stats(loaded), template_set(lines), ai, human);
}

/// Every kept line of a scan is either scored or excluded, exactly once.
pub proof fn law_every_line_accounted(loaded: LoadedSource, ai: Set<Seq<char>>, human: Set<Seq<char>>)
    ensures
        scan_records(loaded, ai, human).0.len() + scan_records(loaded, ai, human).1.len()
            == loaded.lines@.len(),
{
    let lines = lines_view(loaded.lines@);
    lemma_fold_facts(lines, crate::analysis::scan_stats(loaded), template_set(lines), ai, human);
}

proof fn lemma_fold_calibration(
    lines: Seq<LineView>,
    fs: spec_fn(Seq<char>) -> FileStats,
    templates: Set<Seq<char>>,
    ai1: Set<Seq<char>>,
    human1: Set<Seq<char>>,
    ai2: Set<Seq<char>>,
    human2: Set<Seq<char>>,
)
    ensures
        record_fold(lines, fs, templates, ai1, human1).1 == record_fold(lines, fs, templates, ai2, human2).1,
        record_keys(record_fold(lines, fs, templates, ai1, human1).0) == record_keys(
            record_fold(lines, fs, templates, ai2, human2).0,
        ),
        scores_sum(record_fold(lines, fs, templates, ai1, human1).0) == scores_sum(
            record_fold(lines, fs, templates, ai2, human2).0,
        ),
    decreases lines.len(),
{
    if lines.len() > 0 {
        lemma_fold_calibration(lines.drop_last(), fs, templates, ai1, human1, ai2, human2);
        let (r1, e1) = record_fold(lines, fs, templates, ai1, human1);
        let (r2, e2) = record_fold(lines, fs, templates, ai2, human2);
        let r10 = record_fold(lines.drop_last(), fs, templates, ai1, human1).0;
        let r20 = record_fold(lines.drop_last(), fs, templates, ai2, human2).0;
        let l = lines.last();
        if !spec_is_low_information(l.normalized) && !templates.contains(l.normalized) {
            assert(r1.drop_last() =~= r10);
            assert(r2.drop_last() =~= r20);
            assert(record_keys(r1) =~= record_keys(r10).push(record_key(r1.last())));
            assert(record_keys(r2) =~= record_keys(r20).push(record_key(r2.last())));
        }
    }
}

proof fn lemma_rules_reasons_from(rules: Seq<Rule>)
    ensures
        forall|k: int|
            0 <= k < rules_reasons(rules).len() ==> exists|i: int|
                0 <= i < rules.len() && #[trigger] rules_reasons(rules)[k] == rules[i].2@,
    decreases rules.len(),
{
    if rules.len() > 0 {
        let q = rules.drop_last();
        lemma_rules_reasons_from(q);
        let a = rules_reasons(q);
        assert forall|k: int| 0 <= k < rules_reasons(rules).len() implies exists|i: int|
            0 <= i < rules.len() && #[trigger] rules_reasons(rules)[k] == rules[i].2@ by {
            if k < a.len() {
                assert(rules_reasons(rules)[k] == a[k]);
                let i = choose|i: int| 0 <= i < q.len() && a[k] == q[i].2@;
                assert(rules[i] == q[i]);
            } else {
                assert(rules_reasons(rules)[k] == rules[rules.len() - 1].2@);
            }
        }
    }
}

/// No reason from the rules or the file profile starts with `c`.
proof fn lemma_base_reasons(line: LineView, s: FileStats)
    ensures
        forall|k: int|
            0 <= k < rules_reasons(score_rules(line, s)).len() ==> (#[trigger] rules_reasons(
                score_rules(line, s),
            )[k]).len() > 0 && rules_reasons(score_rules(line, s))[k][0] != 'c',
        spec_decompiled_profile(s).summary.len() > 0,
        spec_decompiled_profile(s).summary[0] != 'c',
{
    reveal_strlit("reflection/runtime-discovery pattern");
    reveal_strlit("formulaic plugin/configuration pattern");
    reveal_strlit("broad defensive generated-code pattern");
    reveal_strlit("long mechanically structured line");
    reveal_strlit("Unity API orchestration pattern");
    reveal_strlit("generated C# plugin profile");
    reveal_strlit("normal source file profile");
    reveal_strlit("legitimate decompiled profile cap");
    reveal_strlit("AI-positive decompiled profile");
    reveal_strlit("ambiguous decompiled profile");
    let rules = score_rules(line, s);
    lemma_rules_reasons_from(rules);
    assert forall|k: int| 0 <= k < rules_reasons(rules).len() implies (#[trigger] rules_reasons(rules)[k]).len()
        > 0 && rules_reasons(rules)[k][0] != 'c' by {
        let i = choose|i: int| 0 <= i < rules.len() && rules_reasons(rules)[k] == rules[i].2@;
        assert(0 <= i < 5);
    }
    let p = spec_decompiled_profile(s);
    assert(p.summary.len() > 0 && p.summary[0] != 'c');
}

/// Calibration only adds its own reasons: a line's score is the same under
/// any calibration profiles, and its reasons include the generated-code
/// (authored-code) calibration match exactly when the AI (human) profile
/// holds its normalized text.
pub proof fn law_calibration_reasons(
    line: LineView,
    s: FileStats,
    ai: Set<Seq<char>>,
    human: Set<Seq<char>>,
    ai2: Set<Seq<char>>,
    human2: Set<Seq<char>>,
)
    ensures
        spec_score_line(line, s, ai, human).0 == spec_score_line(line, s, ai2, human2).0,
        spec_score_line(line, s, ai, human).1 == crate::text::join(score_reasons(line, s, ai, human), "; "@),
        score_reasons(line, s, ai, human).contains("calibrated generated-code match"@) <==> ai.contains(
            line.normalized,
        ),
        score_reasons(line, s, ai, human).contains("calibrated authored-code match"@) <==> human.contains(
            line.normalized,
        ),
{
    reveal_strlit("calibrated generated-code match");
    reveal_strlit("calibrated authored-code match");
    reveal_strlit("unmatched line with weak AI evidence");
    lemma_base_reasons(line, s);
    let g = "calibrated generated-code match"@;
    let h = "calibrated authored-code match"@;
    assert(g.len() == 31 && h.len() == 30);
    let p = spec_decompiled_profile(s);
    let base = rules_reasons(score_rules(line, s));
    let sm = if s.decompiled || p.ai_positive { seq![p.summary] } else { seq![] };
    let ga = if ai.contains(line.normalized) { seq![g] } else { seq![] };
    let hb = if human.contains(line.normalized) { seq![h] } else { seq![] };
    let r = base + sm + ga + hb;
    let all = score_reasons(line, s, ai, human);
    assert(all == if r.len() == 0 { seq!["unmatched line with weak AI evidence"@] } else { r });
    assert forall|x: Seq<char>| x == g || x == h implies (r.contains(x) <==> (x == g && ai.contains(
        line.normalized,
    )) || (x == h && human.contains(line.normalized))) by {
        if r.contains(x) {
            let k = choose|k: int| 0 <= k < r.len() && r[k] == x;
            if k < base.len() {
                assert(r[k] == base[k]);
            } else if k < base.len() + sm.len() {
                assert(r[k] == sm[k - base.len()]);
            } else if k < base.len() + sm.len() + ga.len() {
                assert(r[k] == ga[k - base.len() - sm.len()]);
            } else {
                assert(r[k] == hb[k - base.len() - sm.len() - ga.len()]);
            }
        }
        if x == g && ai.contains(line.normalized) {
            assert(r[(base.len() + sm.len()) as int] == g);
        }
        if x == h && human.contains(line.normalized) {
            assert(r[(base.len() + sm.len() + ga.len()) as int] == h);
        }
    }
    if r.len() == 0 {
        assert(!all.contains(g)) by {
            if all.contains(g) {
                assert(all[0] == "unmatched line with weak AI evidence"@);
            }
        }
        assert(!all.contains(h)) by {
            if all.contains(h) {
                assert(all[0] == "unmatched line with weak AI evidence"@);
            }
        }
    }
}

/// A kept line is scored when it is neither low-information nor a template.
pub open spec fn is_scored(l: LineView, templates: Set<Seq<char>>) -> bool {
    !spec_is_low_information(l.normalized) && !templates.contains(l.normalized)
}

/// The kept lines that are scored, in order.
pub open spec fn scored_lines(lines: Seq<LineView>, templates: Set<Seq<char>>) -> Seq<LineView>
    decreases lines.len(),
{
    if lines.len() == 0 {
        seq![]
    } else {
        let rest = scored_lines(lines.drop_last(), templates);
        if is_scored(lines.last(), templates) {
            rest.push(lines.last())
        } else {
            rest
        }
    }
}

/// The kept lines that are dropped, in order.
pub open spec fn dropped_lines(lines: Seq<LineView>, templates: Set<Seq<char>>) -> Seq<LineView>
    decreases lines.len(),
{
    if lines.len() == 0 {
        seq![]
    } else {
        let rest = dropped_lines(lines.drop_last(), templates);
        if is_scored(lines.last(), templates) {
            rest
        } else {
            rest.push(lines.last())
        }
    }
}

/// The record of a scored line.
pub open spec fn record_of(
    l: LineView,
    fs: spec_fn(Seq<char>) -> FileStats,
    ai: Set<Seq<char>>,
    human: Set<Seq<char>>,
) -> RecordView {
    RecordView {
        file: l.file,
        line: l.line,
        excerpt: l.code,
        normalized: l.normalized,
        score: spec_score_line(l, fs(l.file), ai, human).0,
        reason: spec_score_line(l, fs(l.file), ai, human).1,
    }
}

/// The exclusion of a dropped line: `low_information`, or else `template`.
pub open spec fn drop_of(l: LineView) -> ExcludedView {
    if spec_is_low_information(l.normalized) {
        ExcludedView {
            file: l.file,
            line: l.line,
            kind: "low_information"@,
            reason: "syntax-only or too little authorship signal"@,
        }
    } else {
        ExcludedView {
            file: l.file,
            line: l.line,
            kind: "template"@,
            reason: "normalized line repeats across sibling projects and is treated as shared scaffold"@,
        }
    }
}

proof fn lemma_fold_partition(
    lines: Seq<LineView>,
    fs: spec_fn(Seq<char>) -> FileStats,
    templates: Set<Seq<char>>,
    ai: Set<Seq<char>>,
    human: Set<Seq<char>>,
)
    ensures
        record_fold(lines, fs, templates, ai, human).0 == scored_lines(lines, templates).map_values(
            |l: LineView| record_of(l, fs, ai, human),
        ),
        record_fold(lines, fs, templates, ai, human).1 == dropped_lines(lines, templates).map_values(
            |l: LineView| drop_of(l),
        ),
    decreases lines.len(),
{
    if lines.len() > 0 {
        lemma_fold_partition(lines.drop_last(), fs, templates, ai, human);
        let sl = scored_lines(lines.drop_last(), templates);
        let dl = dropped_lines(lines.drop_last(), templates);
        let l = lines.last();
        if is_scored(l, templates) {
            assert(sl.push(l).map_values(|x: LineView| record_of(x, fs, ai, human)) =~= sl.map_values(
                |x: LineView| record_of(x, fs, ai, human),
            ).push(record_of(l, fs, ai, human)));
        } else {
            assert(dl.push(l).map_values(|x: LineView| drop_of(x)) =~= dl.map_values(|x: LineView| drop_of(x)).push(
                drop_of(l),
            ));
        }
    }
}

/// Every kept line of a scan is accounted for, in order: the lines that are
/// neither low-information nor templates become the scored records, with
/// their position, code and score; the others become exclusions of kind
/// `low_information`, or else `template`.
pub proof fn law_lines_scored_or_dropped(loaded: LoadedSource, ai: Set<Seq<char>>, human: Set<Seq<char>>)
    ensures
        scan_records(loaded, ai, human).0 == scored_lines(
            lines_view(loaded.lines@),
            template_set(lines_view(loaded.lines@)),
        ).map_values(|l: LineView| record_of(l, crate::analysis::scan_stats(loaded), ai, human)),
        scan_records(loaded, ai, human).1 == dropped_lines(
            lines_view(loaded.lines@),
            template_set(lines_view(loaded.lines@)),
        ).map_values(|l: LineView| drop_of(l)),
{
    let lines = lines_view(loaded.lines@);
    lemma_fold_partition(lines, crate::analysis::scan_stats(loaded), template_set(lines), ai, human);
}

/// Calibration profiles only add reasons: with any other profiles, a scan
/// excludes the same lines and gives every scored line the same score.
pub proof fn law_calibration_keeps_scores(
    loaded: LoadedSource,
    ai1: Set<Seq<char>>,
    human1: Set<Seq<char>>,
    ai2: Set<Seq<char>>,
    human2: Set<Seq<char>>,
)
    ensures
        scan_records(loaded, ai1, human1).1 == scan_records(loaded, ai2, human2).1,
        record_keys(scan_records(loaded, ai1, human1).0) == record_keys(scan_records(loaded, ai2, human2).0),
        scores_sum(scan_records(loaded, ai1, human1).0) == scores_sum(scan_records(loaded, ai2, human2).0),
{
    let lines = lines_view(loaded.lines@);
    lemma_fold_calibration(lines, crate::analysis::scan_stats(loaded), template_set(lines), ai1, human1, ai2, human2);
}

// ---------------------------------------------------------------------------
// Reports
// ---------------------------------------------------------------------------

/// With only the verdict asked for, both reports depend on the verdict
/// alone.
pub proof fn law_result_only_shows_verdict(r1: Report, r2: Report)
    requires
        r1.result_only,
        r2.result_only,
        r1.is_ai == r2.is_ai,
    ensures
        json_report(r1) == json_report(r2),
        markdown_report(r1) == markdown_report(r2),
{
}

proof fn lemma_prefix_suffix(a: Seq<char>, b: Seq<char>, c: Seq<char>, n: int)
    requires
        0 <= n <= a.len(),
    ensures
        (a + b + c).subrange(0, n) == a.subrange(0, n),
        (a + b + c).subrange((a + b + c).len() - c.len(), (a + b + c).len() as int) == c,
{
    assert((a + b + c).subrange(0, n) =~= a.subrange(0, n));
    assert((a + b + c).subrange((a + b + c).len() - c.len(), (a + b + c).len() as int) =~= c);
}

proof fn lemma_md_split(r: Report)
    requires
        !r.result_only,
    ensures
        markdown_report(r) == md_verdict(r) + crate::report::md_tables(r) + md_kind_rows(
            excluded_views(r.excluded@),
        ),
{
}

proof fn lemma_verdict_heading(r: Report)
    ensures
        md_verdict(r).len() >= "# AI Code Detection Report\n\n## Summary\n\n"@.len(),
        md_verdict(r).subrange(0, "# AI Code Detection Report\n\n## Summary\n\n"@.len() as int)
            == "# AI Code Detection Report\n\n## Summary\n\n"@,
{
    reveal_strlit("# AI Code Detection Report\n\n");
    reveal_strlit("## Summary\n\n");
    reveal_strlit("# AI Code Detection Report\n\n## Summary\n\n");
    let h = "# AI Code Detection Report\n\n## Summary\n\n"@;
    let v = md_verdict(r);
    let rest = v.subrange(h.len() as int, v.len() as int);
    assert(v =~= h + rest);
    assert(v.subrange(0, h.len() as int) =~= h);
}

/// Number of line breaks in a text.
pub open spec fn line_breaks(s: Seq<char>) -> nat
    decreases s.len(),
{
    if s.len() == 0 {
        0
    } else {
        line_breaks(s.drop_last()) + if s.last() == '\n' {
            1nat
        } else {
            0nat
        }
    }
}

proof fn lemma_breaks_add(a: Seq<char>, b: Seq<char>)
    ensures
        line_breaks(a + b) == line_breaks(a) + line_breaks(b),
    decreases b.len(),
{
    if b.len() == 0 {
        assert(a + b =~= a);
    } else {
        lemma_breaks_add(a, b.drop_last());
        assert((a + b).drop_last() =~= a + b.drop_last());
        assert((a + b).last() == b.last());
    }
}

proof fn lemma_no_breaks(s: Seq<char>)
    requires
        !s.contains('\n'),
    ensures
        line_breaks(s) == 0,
    decreases s.len(),
{
    if s.len() > 0 {
        assert(!s.drop_last().contains('\n')) by {
            if s.drop_last().contains('\n') {
                let i = choose|i: int| 0 <= i < s.drop_last().len() && s.drop_last()[i] == '\n';
                assert(s[i] == '\n');
            }
        }
        lemma_no_breaks(s.drop_last());
        assert(s[s.len() - 1] != '\n');
    }
}

proof fn lemma_decimal_no_breaks(n: nat)
    ensures
        line_breaks(crate::text::decimal(n)) == 0,
    decreases n,
{
    let d = crate::text::decimal(n);
    assert(crate::text::digit_char(n % 10) != '\n');
    if n >= 10 {
        lemma_decimal_no_breaks(n / 10);
        assert(d.drop_last() =~= crate::text::decimal(n / 10));
        assert(d.last() == crate::text::digit_char(n % 10));
        assert(line_breaks(d) == line_breaks(d.drop_last()));
    } else {
        assert(crate::text::digit_char(n) != '\n');
        assert(d.drop_last() =~= Seq::<char>::empty());
        assert(d.last() == crate::text::digit_char(n));
        assert(line_breaks(d.drop_last()) == 0);
        assert(line_breaks(d) == line_breaks(d.drop_last()));
    }
}

proof fn lemma_literal_breaks()
    ensures
        line_breaks("| `"@) == 0,
        line_breaks("` | "@) == 0,
        line_breaks(" | "@) == 0,
        line_breaks(" | `"@) == 0,
        line_breaks(" |\n"@) == 1,
        line_breaks("` |\n"@) == 1,
        line_breaks("true"@) == 0,
        line_breaks("false"@) == 0,
{
    reveal_strlit("| `");
    reveal_strlit("` | ");
    reveal_strlit(" | ");
    reveal_strlit(" | `");
    reveal_strlit(" |\n");
    reveal_strlit("` |\n");
    reveal_strlit("true");
    reveal_strlit("false");
    reveal_with_fuel(line_breaks, 6);
}

proof fn lemma_file_row_breaks(f: FileReport)
    requires
        !f.percentage@.contains('\n'),
    ensures
        line_breaks(md_file_row(f)) == 1,
        md_file_row(f).last() == '\n',
{
    lemma_literal_breaks();
    law_markdown_cells_single_line(f.path@);
    law_markdown_cells_single_line(f.feature_summary@);
    lemma_no_breaks(spec_escape_md(f.path@));
    lemma_no_breaks(spec_escape_md(f.feature_summary@));
    lemma_no_breaks(f.percentage@);
    lemma_decimal_no_breaks(f.considered_lines as nat);
    lemma_decimal_no_breaks(f.excluded_lines as nat);
    let a = "| `"@ + spec_escape_md(f.path@) + "` | "@ + crate::text::decimal(f.considered_lines as nat) + " | "@;
    let b = crate::text::decimal(f.excluded_lines as nat) + " | "@ + f.percentage@ + " | "@ + bool_text(f.is_ai) + " | "@;
    let c = spec_escape_md(f.feature_summary@) + " |\n"@;
    assert(md_file_row(f) =~= a + b + c);
    lemma_breaks_add("| `"@, spec_escape_md(f.path@));
    lemma_breaks_add("| `"@ + spec_escape_md(f.path@), "` | "@);
    lemma_breaks_add("| `"@ + spec_escape_md(f.path@) + "` | "@, crate::text::decimal(f.considered_lines as nat));
    lemma_breaks_add("| `"@ + spec_escape_md(f.path@) + "` | "@ + crate::text::decimal(f.considered_lines as nat), " | "@);
    lemma_breaks_add(crate::text::decimal(f.excluded_lines as nat), " | "@);
    lemma_breaks_add(crate::text::decimal(f.excluded_lines as nat) + " | "@, f.percentage@);
    lemma_breaks_add(crate::text::decimal(f.excluded_lines as nat) + " | "@ + f.percentage@, " | "@);
    lemma_breaks_add(crate::text::decimal(f.excluded_lines as nat) + " | "@ + f.percentage@ + " | "@, bool_text(f.is_ai));
    lemma_breaks_add(crate::text::decimal(f.excluded_lines as nat) + " | "@ + f.percentage@ + " | "@ + bool_text(f.is_ai), " | "@);
    lemma_breaks_add(spec_escape_md(f.feature_summary@), " |\n"@);
    lemma_breaks_add(a, b);
    lemma_breaks_add(a + b, c);
    reveal_strlit(" |\n");
}

proof fn lemma_line_row_breaks(l: LineReport)
    requires
        !l.score@.contains('\n'),
    ensures
        line_breaks(md_line_row(l)) == 1,
        md_line_row(l).last() == '\n',
{
    lemma_literal_breaks();
    law_markdown_cells_single_line(l.file@);
    law_markdown_cells_single_line(l.reason@);
    law_markdown_cells_single_line(l.excerpt@);
    lemma_no_breaks(spec_escape_md(l.file@));
    lemma_no_breaks(spec_escape_md(l.reason@));
    lemma_no_breaks(spec_escape_code(l.excerpt@));
    lemma_no_breaks(l.score@);
    lemma_decimal_no_breaks(l.line as nat);
    let a = "| `"@ + spec_escape_md(l.file@) + "` | "@ + crate::text::decimal(l.line as nat) + " | "@;
    let b = l.score@ + " | "@ + spec_escape_md(l.reason@) + " | `"@;
    let c = spec_escape_code(l.excerpt@) + "` |\n"@;
    assert(md_line_row(l) =~= a + b + c);
    lemma_breaks_add("| `"@, spec_escape_md(l.file@));
    lemma_breaks_add("| `"@ + spec_escape_md(l.file@), "` | "@);
    lemma_breaks_add("| `"@ + spec_escape_md(l.file@) + "` | "@, crate::text::decimal(l.line as nat));
    lemma_breaks_add("| `"@ + spec_escape_md(l.file@) + "` | "@ + crate::text::decimal(l.line as nat), " | "@);
    lemma_breaks_add(l.score@, " | "@);
    lemma_breaks_add(l.score@ + " | "@, spec_escape_md(l.reason@));
    lemma_breaks_add(l.score@ + " | "@ + spec_escape_md(l.reason@), " | `"@);
    lemma_breaks_add(spec_escape_code(l.excerpt@), "` |\n"@);
    lemma_breaks_add(a, b);
    lemma_breaks_add(a + b, c);
    reveal_strlit("` |\n");
}

proof fn lemma_rows_breaks(rows: Seq<Seq<char>>)
    requires
        forall|i: int| 0 <= i < rows.len() ==> line_breaks(#[trigger] rows[i]) == 1,
    ensures
        line_breaks(rows.flatten_alt()) == rows.len(),
    decreases rows.len(),
{
    if rows.len() > 0 {
        let q = rows.drop_last();
        assert forall|i: int| 0 <= i < q.len() implies line_breaks(#[trigger] q[i]) == 1 by {
            assert(q[i] == rows[i]);
        }
        lemma_rows_breaks(q);
        lemma_breaks_add(q.flatten_alt(), rows.last());
        assert(line_breaks(rows[rows.len() - 1]) == 1);
    } else {
        assert(rows.flatten_alt() =~= Seq::<char>::empty());
    }
}

/// The file table of the Markdown report has one row per file, and the
/// scored-line table one row per scored line: each row is one line, ended
/// by its line break (numbers that arrive as text are taken to be written
/// on one line).
pub proof fn law_markdown_table_rows(files: Seq<FileReport>, lines: Seq<LineReport>)
    requires
        forall|i: int| 0 <= i < files.len() ==> !(#[trigger] files[i]).percentage@.contains('\n'),
        forall|i: int| 0 <= i < lines.len() ==> !(#[trigger] lines[i]).score@.contains('\n'),
    ensures
        line_breaks(md_file_rows(files)) == files.len(),
        line_breaks(md_line_rows(lines)) == lines.len(),
        forall|i: int| 0 <= i < files.len() ==> line_breaks(#[trigger] md_file_row(files[i])) == 1
            && md_file_row(files[i]).last() == '\n',
        forall|i: int| 0 <= i < lines.len() ==> line_breaks(#[trigger] md_line_row(lines[i])) == 1
            && md_line_row(lines[i]).last() == '\n',
{
    assert forall|i: int| 0 <= i < files.len() implies line_breaks(#[trigger] md_file_row(files[i])) == 1
        && md_file_row(files[i]).last() == '\n' by {
        lemma_file_row_breaks(files[i]);
    }
    assert forall|i: int| 0 <= i < lines.len() implies line_breaks(#[trigger] md_line_row(lines[i])) == 1
        && md_line_row(lines[i]).last() == '\n' by {
        lemma_line_row_breaks(lines[i]);
    }
    let fr = files.map_values(|f: FileReport| md_file_row(f));
    let lr = lines.map_values(|l: LineReport| md_line_row(l));
    assert forall|i: int| 0 <= i < fr.len() implies line_breaks(#[trigger] fr[i]) == 1 by {
        assert(fr[i] == md_file_row(files[i]));
    }
    assert forall|i: int| 0 <= i < lr.len() implies line_breaks(#[trigger] lr[i]) == 1 by {
        assert(lr[i] == md_line_row(lines[i]));
    }
    lemma_rows_breaks(fr);
    lemma_rows_breaks(lr);
}

/// The JSON report is one object, one member per line. A full report has
/// the members `application`, `data`, `summary`, `calibration`, `files`,
/// `lines` and `excluded`, in that order; the three arrays hold one entry
/// per file, per scored line and per excluded line, each entry one object
/// in braces. A verdict-only report has `application` and `data` alone;
/// `data` holds the verdict.
pub proof fn law_json_layout(r: Report)
    ensures
        r.result_only ==> json_report(r) == "{\n"@ + json_member("application"@, application_value(), false)
            + json_member("data"@, data_value(r), true) + "}\n"@,
        !r.result_only ==> json_report(r) == "{\n"@ + json_member("application"@, application_value(), false)
            + json_member("data"@, data_value(r), false) + json_member(
            "summary"@,
            "{"@ + summary_fields(r) + "}"@,
            false,
        ) + json_member("calibration"@, "{"@ + calibration_fields(r) + "}"@, false) + json_member(
            "files"@,
            json_array(file_items(r.files@)),
            false,
        ) + json_member("lines"@, json_array(line_items(r.lines@)), false) + json_member(
            "excluded"@,
            json_array(excluded_items(excluded_views(r.excluded@))),
            true,
        ) + "}\n"@,
        file_items(r.files@).len() == r.files@.len(),
        line_items(r.lines@).len() == r.lines@.len(),
        excluded_items(excluded_views(r.excluded@)).len() == r.excluded@.len(),
        forall|i: int|
            0 <= i < r.files@.len() ==> (#[trigger] file_items(r.files@)[i])[0] == '{' && file_items(
                r.files@,
            )[i].last() == '}',
        forall|i: int|
            0 <= i < r.lines@.len() ==> (#[trigger] line_items(r.lines@)[i])[0] == '{' && line_items(
                r.lines@,
            )[i].last() == '}',
        forall|i: int|
            0 <= i < r.excluded@.len() ==> (#[trigger] excluded_items(excluded_views(r.excluded@))[i])[0] == '{'
                && excluded_items(excluded_views(r.excluded@))[i].last() == '}',
{
    reveal_strlit("{\"path\":");
    reveal_strlit("{\"file\":");
    reveal_strlit("}");
    assert forall|i: int| 0 <= i < r.files@.len() implies (#[trigger] file_items(r.files@)[i])[0] == '{'
        && file_items(r.files@)[i].last() == '}' by {
        assert(file_items(r.files@)[i] == file_json(r.files@[i]));
    }
    assert forall|i: int| 0 <= i < r.lines@.len() implies (#[trigger] line_items(r.lines@)[i])[0] == '{'
        && line_items(r.lines@)[i].last() == '}' by {
        assert(line_items(r.lines@)[i] == line_json(r.lines@[i]));
    }
    assert forall|i: int| 0 <= i < r.excluded@.len() implies (#[trigger] excluded_items(
        excluded_views(r.excluded@),
    )[i])[0] == '{' && excluded_items(excluded_views(r.excluded@))[i].last() == '}' by {
        assert(excluded_items(excluded_views(r.excluded@))[i] == excluded_json(excluded_views(r.excluded@)[i]));
    }
}

/// A full Markdown report opens with the title and the summary heading and
/// closes with the table of excluded kinds: one row per kind that occurs,
/// kinds in increasing text order, counts adding up to the excluded lines.
/// A verdict-only report opens with the title too.
pub proof fn law_markdown_layout(r: Report)
    ensures
        starts_with(markdown_report(r), "# AI Code Detection Report\n\n"@),
        !r.result_only ==> starts_with(markdown_report(r), "# AI Code Detection Report\n\n## Summary\n\n"@),
        !r.result_only ==> ends_with(markdown_report(r), md_kind_rows(excluded_views(r.excluded@))),
        lists_kinds(kind_order(excluded_views(r.excluded@)), excluded_views(r.excluded@)),
        counts_over(kind_order(excluded_views(r.excluded@)), excluded_views(r.excluded@)) == r.excluded@.len(),
{
    reveal_strlit("# AI Code Detection Report\n\n");
    reveal_strlit("# AI Code Detection Report\n\n## Summary\n\n");
    let t = "# AI Code Detection Report\n\n"@;
    let h = "# AI Code Detection Report\n\n## Summary\n\n"@;
    assert(h.subrange(0, t.len() as int) =~= t);
    if r.result_only {
        let m = markdown_report(r);
        lemma_prefix_suffix(t, md_item_verdict(r), seq![], t.len() as int);
        assert(m =~= t + md_item_verdict(r) + Seq::<char>::empty());
        assert(t.subrange(0, t.len() as int) =~= t);
        assert(m.subrange(0, t.len() as int) == t);
    } else {
        lemma_md_split(r);
        lemma_verdict_heading(r);
        let v = md_verdict(r);
        lemma_prefix_suffix(v, crate::report::md_tables(r), md_kind_rows(excluded_views(r.excluded@)), h.len() as int);
        let m = markdown_report(r);
        assert(m.subrange(0, h.len() as int) == h);
        assert(m.subrange(0, t.len() as int) =~= m.subrange(0, h.len() as int).subrange(0, t.len() as int));
        assert(m.subrange(0, t.len() as int) == t);
    }
    law_kind_counts_add_up(excluded_views(r.excluded@));
}

spec fn md_item_verdict(r: Report) -> Seq<char> {
    crate::report::md_item("IsAI"@, bool_text(r.is_ai))
}

proof fn lemma_hex_digit_not_control(d: nat)
    requires
        d < 16,
    ensures
        !is_control(hex_digit(d)),
{
}

proof fn lemma_escape_char_clean(c: char)
    ensures
        forall|i: int| 0 <= i < json_escape_char(c).len() ==> !is_control(#[trigger] json_escape_char(c)[i]),
{
    if !(c == '"' || c == '\\' || c == '\n' || c == '\r' || c == '\t') && is_control(c) {
        let n = c as nat;
        lemma_hex_digit_not_control((n / 4096) % 16);
        lemma_hex_digit_not_control((n / 256) % 16);
        lemma_hex_digit_not_control((n / 16) % 16);
        lemma_hex_digit_not_control(n % 16);
        assert(json_escape_char(c) =~= seq!['\\', 'u'] + hex4(n));
    }
}

/// JSON string escaping leaves no control character in the text.
pub proof fn law_json_escape_has_no_control(s: Seq<char>)
    ensures
        forall|i: int| 0 <= i < json_escape(s).len() ==> !is_control(#[trigger] json_escape(s)[i]),
    decreases s.len(),
{
    if s.len() > 0 {
        law_json_escape_has_no_control(s.drop_last());
        lemma_escape_char_clean(s.last());
        let a = json_escape(s.drop_last());
        let b = json_escape_char(s.last());
        assert forall|i: int| 0 <= i < json_escape(s).len() implies !is_control(#[trigger] json_escape(s)[i]) by {
            if i < a.len() {
                assert(json_escape(s)[i] == a[i]);
            } else {
                assert(json_escape(s)[i] == b[i - a.len()]);
            }
        }
    }
}

/// Value of one hexadecimal digit.
pub open spec fn hex_value(c: char) -> nat {
    if '0' <= c && c <= '9' {
        (c as u32 - '0' as u32) as nat
    } else if 'a' <= c && c <= 'f' {
        (c as u32 - 'a' as u32 + 10) as nat
    } else if 'A' <= c && c <= 'F' {
        (c as u32 - 'A' as u32 + 10) as nat
    } else {
        0
    }
}

/// Reading of a JSON string body: `\"`, `\\`, `\n`, `\r`, `\t` and
/// `\uXXXX` escapes stand for one character each; every other character
/// stands for itself.
pub open spec fn json_unescape(s: Seq<char>) -> Seq<char>
    decreases s.len(),
{
    if s.len() == 0 {
        seq![]
    } else if s[0] == '\\' && s.len() >= 2 {
        let e = s[1];
        if e == 'u' && s.len() >= 6 {
            let v = 4096 * hex_value(s[2]) + 256 * hex_value(s[3]) + 16 * hex_value(s[4]) + hex_value(s[5]);
            seq![v as char] + json_unescape(s.skip(6))
        } else if e == '"' || e == '\\' {
            seq![e] + json_unescape(s.skip(2))
        } else if e == 'n' {
            seq!['\n'] + json_unescape(s.skip(2))
        } else if e == 'r' {
            seq!['\r'] + json_unescape(s.skip(2))
        } else if e == 't' {
            seq!['\t'] + json_unescape(s.skip(2))
        } else {
            seq![s[0]] + json_unescape(s.skip(1))
        }
    } else {
        seq![s[0]] + json_unescape(s.skip(1))
    }
}

proof fn lemma_escape_front(s: Seq<char>)
    requires
        s.len() > 0,
    ensures
        json_escape(s) == json_escape_char(s[0]) + json_escape(s.drop_first()),
    decreases s.len(),
{
    if s.len() == 1 {
        assert(s.drop_last() =~= Seq::<char>::empty());
        assert(s.drop_first() =~= Seq::<char>::empty());
        assert(json_escape(s.drop_last()) =~= Seq::<char>::empty());
        assert(s.last() == s[0]);
        assert(json_escape(s) =~= json_escape_char(s[0]));
        assert(json_escape(s.drop_first()) =~= Seq::<char>::empty());
        assert(json_escape(s) =~= json_escape_char(s[0]) + json_escape(s.drop_first()));
    } else {
        lemma_escape_front(s.drop_last());
        assert(s.drop_last()[0] == s[0]);
        assert(s.drop_last().drop_first() =~= s.drop_first().drop_last());
        assert(s.drop_first().last() == s.last());
        assert(json_escape(s) =~= json_escape_char(s[0]) + json_escape(s.drop_first()));
    }
}

proof fn lemma_hex_round_trip(c: char)
    requires
        is_control(c),
    ensures
        ({
            let h = hex4(c as nat);
            4096 * hex_value(h[0]) + 256 * hex_value(h[1]) + 16 * hex_value(h[2]) + hex_value(h[3]) == c as nat
        }),
{
    let n = c as nat;
    assert(n < 256);
    let d2 = (n / 16) % 16;
    let d3 = n % 16;
    assert(n / 4096 == 0 && n / 256 == 0) by (nonlinear_arith)
        requires
            n < 256,
    ;
    assert(16 * ((n / 16) % 16) + n % 16 == n) by (nonlinear_arith)
        requires
            n < 256,
    ;
    assert(hex_value(hex_digit(0)) == 0);
    assert(hex_value(hex_digit(d2)) == d2);
    assert(hex_value(hex_digit(d3)) == d3);
}

proof fn lemma_unescape_char(c: char, rest: Seq<char>)
    ensures
        json_unescape(json_escape_char(c) + rest) == seq![c] + json_unescape(rest),
{
    let s = json_escape_char(c) + rest;
    if c == '"' || c == '\\' || c == '\n' || c == '\r' || c == '\t' {
        assert(s.skip(2) =~= rest);
    } else if is_control(c) {
        lemma_hex_round_trip(c);
        assert(s.skip(6) =~= rest);
        let h = hex4(c as nat);
        assert(s[2] == h[0] && s[3] == h[1] && s[4] == h[2] && s[5] == h[3]);
        assert(((c as nat) as char) == c);
    } else {
        assert(s.skip(1) =~= rest);
    }
}

/// A JSON string written by the reports reads back as the text it came
/// from.
pub proof fn law_json_strings_read_back(s: Seq<char>)
    ensures
        json_unescape(json_escape(s)) == s,
    decreases s.len(),
{
    if s.len() > 0 {
        lemma_escape_front(s);
        lemma_unescape_char(s[0], json_escape(s.drop_first()));
        law_json_strings_read_back(s.drop_first());
        assert(s =~= seq![s[0]] + s.drop_first());
    } else {
        assert(json_escape(s) =~= Seq::<char>::empty());
    }
}

proof fn lemma_replace_keeps_out(t: Seq<char>, c: char, by: Seq<char>, x: char)
    requires
        !by.contains(x),
        x == c || !t.contains(x),
    ensures
        !replace_char(t, c, by).contains(x),
    decreases t.len(),
{
    if t.len() > 0 {
        assert(x == c || !t.drop_last().contains(x)) by {
            if t.drop_last().contains(x) {
                let i = choose|i: int| 0 <= i < t.drop_last().len() && t.drop_last()[i] == x;
                assert(t[i] == x);
            }
        }
        lemma_replace_keeps_out(t.drop_last(), c, by, x);
        let a = replace_char(t.drop_last(), c, by);
        let b = if t.last() == c { by } else { seq![t.last()] };
        if t.last() != c {
            assert(t[t.len() - 1] == t.last());
        }
        assert(!b.contains(x));
        assert(!replace_char(t, c, by).contains(x)) by {
            if replace_char(t, c, by).contains(x) {
                let i = choose|i: int| 0 <= i < replace_char(t, c, by).len() && replace_char(t, c, by)[i] == x;
                if i < a.len() {
                    assert(a[i] == x);
                } else {
                    assert(b[i - a.len()] == x);
                }
            }
        }
    }
}

/// Markdown table cells never break the row: escaped cell text holds no
/// line break.
pub proof fn law_markdown_cells_single_line(s: Seq<char>)
    ensures
        !spec_escape_md(s).contains('\n'),
        !spec_escape_code(s).contains('\n'),
{
    reveal_strlit(" ");
    reveal_strlit("\\`");
    let t = replace_char(s, '|', "\\|"@);
    lemma_replace_keeps_out(t, '\n', " "@, '\n');
    lemma_replace_keeps_out(spec_escape_md(s), '`', "\\`"@, '\n');
}

// ---------------------------------------------------------------------------
// Arguments
// ---------------------------------------------------------------------------

/// An assignment splits at its first `=`: the leading dashes, the key, `=`
/// and the value give back the argument, and the key holds no `=`.
pub proof fn law_split_assignment_rejoins(arg: Seq<char>)
    ensures
        spec_split_assignment(arg) matches Some((k, v)) ==> {
            &&& arg == Seq::new(lead_dashes(arg), |i: int| '-') + k + seq!['='] + v
            &&& !has_char(k, '=')
        },
{
    if let Some((k, v)) = spec_split_assignment(arg) {
        let e = lemma_first_char_at(arg, '=');
        let key = arg.take(e);
        let d = lemma_dashes_prefix(key);
        lemma_dashes_same(arg, key, d);
        assert(k == key.skip(d));
        assert(v == arg.skip(e + 1));
        assert forall|j: int| 0 <= j < d implies arg[j] == '-' by {
            assert(key[j] == arg[j]);
        }
        assert forall|j: int| d <= j < e implies k[j - d] == arg[j] by {
            assert(key[j] == arg[j]);
        }
        assert(arg =~= Seq::new(lead_dashes(arg), |i: int| '-') + k + seq!['='] + v);
        assert(!has_char(k, '=')) by {
            if has_char(k, '=') {
                let j = choose|j: int| 0 <= j < k.len() && k[j] == '=';
                assert(arg[d + j] == '=');
            }
        }
    }
}

proof fn lemma_first_char_at(s: Seq<char>, c: char) -> (e: int)
    requires
        first_char(s, c) is Some,
    ensures
        first_char(s, c) == Some(e),
        0 <= e < s.len(),
        s[e] == c,
        forall|j: int| 0 <= j < e ==> s[j] != c,
    decreases s.len(),
{
    if s.last() == c && first_char(s.drop_last(), c) is None {
        lemma_first_char_none(s.drop_last(), c);
        assert forall|j: int| 0 <= j < s.len() - 1 implies s[j] != c by {
            assert(s[j] == s.drop_last()[j]);
        }
        s.len() - 1
    } else {
        let e = lemma_first_char_at(s.drop_last(), c);
        assert(s[e] == s.drop_last()[e]);
        assert forall|j: int| 0 <= j < e implies s[j] != c by {
            assert(s[j] == s.drop_last()[j]);
        }
        e
    }
}

proof fn lemma_first_char_none(s: Seq<char>, c: char)
    requires
        first_char(s, c) is None,
    ensures
        forall|j: int| 0 <= j < s.len() ==> s[j] != c,
    decreases s.len(),
{
    if s.len() > 0 {
        lemma_first_char_none(s.drop_last(), c);
        assert forall|j: int| 0 <= j < s.len() implies s[j] != c by {
            if j < s.len() - 1 {
                assert(s[j] == s.drop_last()[j]);
            }
        }
    }
}

proof fn lemma_dashes_prefix(s: Seq<char>) -> (d: int)
    ensures
        d == lead_dashes(s),
        0 <= d <= s.len(),
        forall|j: int| 0 <= j < d ==> s[j] == '-',
        d == s.len() || s[d] != '-',
    decreases s.len(),
{
    if s.len() > 0 && s[0] == '-' {
        let d = lemma_dashes_prefix(s.drop_first());
        assert forall|j: int| 0 <= j < d + 1 implies s[j] == '-' by {
            if j > 0 {
                assert(s[j] == s.drop_first()[j - 1]);
            }
        }
        if d + 1 < s.len() {
            assert(s[d + 1] == s.drop_first()[d]);
        }
        d + 1
    } else {
        0
    }
}

proof fn lemma_dashes_same(arg: Seq<char>, key: Seq<char>, d: int)
    requires
        key.len() < arg.len(),
        key == arg.take(key.len() as int),
        arg[key.len() as int] == '=',
        d == lead_dashes(key),
        0 <= d <= key.len(),
        forall|j: int| 0 <= j < d ==> key[j] == '-',
        d == key.len() || key[d] != '-',
    ensures
        lead_dashes(arg) == d,
    decreases d,
{
    if d > 0 {
        assert(key.drop_first() == arg.drop_first().take(key.len() - 1));
        assert(arg[0] == '-');
        assert forall|j: int| 0 <= j < d - 1 implies key.drop_first()[j] == '-' by {
            assert(key.drop_first()[j] == key[j + 1]);
        }
        if d - 1 < key.drop_first().len() {
            assert(key.drop_first()[d - 1] == key[d]);
        }
        assert(arg.drop_first()[key.len() - 1] == arg[key.len() as int]);
        assert(lead_dashes(key.drop_first()) == d - 1);
        lemma_dashes_same(arg.drop_first(), key.drop_first(), d - 1);
    } else {
        if key.len() > 0 {
            assert(arg[0] == key[0]);
        }
    }
}

proof fn lemma_lower_idempotent(c: char)
    ensures
        lower_char(lower_char(c)) == lower_char(c),
        lower_char(c) == '-' <==> c == '-',
        lower_char(c) == '_' <==> c == '_',
{
}

proof fn lemma_filter_clean(s: Seq<char>)
    ensures
        forall|j: int|
            0 <= j < key_filter(s).len() ==> #[trigger] key_filter(s)[j] != '-' && key_filter(s)[j] != '_',
        (forall|i: int| 0 <= i < s.len() ==> lower_char(#[trigger] s[i]) == s[i]) ==> forall|j: int|
            0 <= j < key_filter(s).len() ==> lower_char(#[trigger] key_filter(s)[j]) == key_filter(s)[j],
    decreases s.len(),
{
    if s.len() > 0 {
        let q = s.drop_last();
        lemma_filter_clean(q);
        let kf = key_filter(s);
        let kq = key_filter(q);
        let fixed = forall|i: int| 0 <= i < s.len() ==> lower_char(#[trigger] s[i]) == s[i];
        if fixed {
            assert forall|i: int| 0 <= i < q.len() implies lower_char(#[trigger] q[i]) == q[i] by {
                assert(q[i] == s[i]);
            }
            assert(lower_char(s[s.len() - 1]) == s[s.len() - 1]);
        }
        if s.last() == '_' || s.last() == '-' {
            assert(kf == kq);
        } else {
            assert(kf == kq.push(s.last()));
            assert forall|j: int| 0 <= j < kf.len() implies #[trigger] kf[j] != '-' && kf[j] != '_' && (fixed
                ==> lower_char(kf[j]) == kf[j]) by {
                if j < kq.len() {
                    assert(kf[j] == kq[j]);
                } else {
                    assert(kf[j] == s[s.len() - 1]);
                }
            }
        }
    }
}

proof fn lemma_filter_keeps_clean(s: Seq<char>)
    requires
        forall|j: int| 0 <= j < s.len() ==> #[trigger] s[j] != '-' && s[j] != '_',
    ensures
        key_filter(s) == s,
    decreases s.len(),
{
    if s.len() > 0 {
        assert forall|j: int| 0 <= j < s.drop_last().len() implies #[trigger] s.drop_last()[j] != '-'
            && s.drop_last()[j] != '_' by {
            assert(s.drop_last()[j] == s[j]);
        }
        lemma_filter_keeps_clean(s.drop_last());
        assert(s[s.len() - 1] != '-' && s[s.len() - 1] != '_');
        assert(s.drop_last().push(s.last()) =~= s);
    }
}

/// The canonical form of an option name is its own canonical form.
pub proof fn law_canonical_key_is_fixed(key: Seq<char>)
    ensures
        spec_canonical_key(spec_canonical_key(key)) == spec_canonical_key(key),
{
    let l = lower(trim_dashes(key));
    assert forall|i: int| 0 <= i < l.len() implies lower_char(#[trigger] l[i]) == l[i] by {
        lemma_lower_idempotent(trim_dashes(key)[i]);
    }
    lemma_filter_clean(l);
    let c = key_filter(l);
    assert(lead_dashes(c) == 0) by {
        if c.len() > 0 {
            assert(c[0] != '-');
        }
    }
    assert(trim_dashes(c) =~= c);
    assert(lower(c) =~= c) by {
        assert forall|i: int| 0 <= i < c.len() implies lower(c)[i] == c[i] by {
            assert(lower_char(c[i]) == c[i]);
        }
    }
    lemma_filter_keeps_clean(c);
}

/// The canonical form of an option name holds no `-`, no `_` and no ASCII
/// upper-case letter.
pub proof fn law_canonical_key_is_clean(key: Seq<char>)
    ensures
        forall|j: int|
            0 <= j < spec_canonical_key(key).len() ==> {
                let c = #[trigger] spec_canonical_key(key)[j];
                &&& c != '-'
                &&& c != '_'
                &&& !('A' <= c && c <= 'Z')
            },
{
    let l = lower(trim_dashes(key));
    assert forall|i: int| 0 <= i < l.len() implies lower_char(#[trigger] l[i]) == l[i] by {
        lemma_lower_idempotent(trim_dashes(key)[i]);
    }
    lemma_filter_clean(l);
}

/// The booleans the reports print read back as the same booleans.
pub proof fn law_printed_booleans_read_back(b: bool)
    ensures
        spec_parse_bool(bool_text(b)) == Ok::<bool, Seq<char>>(b),
{
    reveal_strlit("true");
    reveal_strlit("false");
    reveal_strlit("t");
    reveal_strlit("1");
    reveal_strlit("yes");
    reveal_strlit("y");
    reveal_strlit("on");
    let t = bool_text(b);
    assert(lower(t) =~= t);
    if b {
        assert(truthy_words()[0]@ == t);
        assert(in_words(lower(t), truthy_words()));
    } else {
        assert(falsy_words()[0]@ == t);
        assert(in_words(lower(t), falsy_words()));
        assert(!in_words(lower(t), truthy_words())) by {
            if in_words(lower(t), truthy_words()) {
                let k = choose|k: int| 0 <= k < truthy_words().len() && lower(t) == truthy_words()[k]@;
                assert(truthy_words()[k]@.len() != 5 || truthy_words()[k]@[0] != 'f');
            }
        }
    }
}

} // verus!
