use lib::analysis::analyze;
use lib::kinds::count_kinds;
use lib::paths::source_file;
use lib::profile::{decompiled_profile, score_line, LineSet};
use lib::source::{load_file, load_source, CodeLine, ExcludedLine};
use lib::stats::FileStats;
use lib::table::{build_file_stats, build_project_stats, merge_file_stats};
use lib::template::{build_profile, repeated_template_lines};

const PLUGIN: &str = "using BepInEx;\n// comment line\n\nnamespace MyMod\n{\n    [BepInPlugin(\"id\", \"name\", \"1.0\")]\n    public class Plugin : BaseUnityPlugin\n    {\n        private void Awake()\n        {\n            Logger.LogInfo(\"loaded\");\n        }\n    }\n}\n";

fn path(items: &[&str]) -> Vec<String> {
    items.iter().map(|s| s.to_string()).collect()
}

fn code_line(file: &str, project: &str, normalized: &str) -> CodeLine {
    CodeLine {
        file: file.to_string(),
        project: project.to_string(),
        line: 1,
        code: normalized.to_string(),
        normalized: normalized.to_string(),
        csharp: false,
        decompiled: false,
    }
}

fn kinds(v: &[ExcludedLine]) -> Vec<(usize, String)> {
    v.iter().map(|e| (e.line, e.kind.clone())).collect()
}

#[test]
fn load_file_keeps_code_and_excludes_comments_and_blanks() {
    let f = source_file(&path(&["mod", "Plugin.cs"]), '/', Some(PLUGIN.to_string()));
    let loaded = load_file(&f);
    let kept: Vec<usize> = loaded.lines.iter().map(|l| l.line).collect();
    assert_eq!(kept, vec![1, 4, 5, 6, 7, 8, 9, 10, 11, 12, 13, 14]);
    assert_eq!(kinds(&loaded.excluded), vec![(2, "comment".to_string()), (3, "blank".to_string())]);
    assert_eq!(loaded.excluded[0].reason, "comment-only after stripping comments");
    assert_eq!(loaded.excluded[1].reason, "blank line");
    let first = &loaded.lines[0];
    assert_eq!(first.file, "mod/Plugin.cs");
    assert_eq!(first.project, "mod");
    assert_eq!(first.code, "using BepInEx;");
    assert!(first.csharp && !first.decompiled);
    let stats = loaded.raw_stats.unwrap();
    assert!(stats.csharp && !stats.decompiled);
}

#[test]
fn load_file_of_unreadable_and_non_source_blob() {
    let f = source_file(&path(&["x.cs"]), '/', None);
    let loaded = load_file(&f);
    assert!(loaded.lines.is_empty());
    assert_eq!(kinds(&loaded.excluded), vec![(0, "read_error".to_string())]);
    assert_eq!(loaded.excluded[0].reason, "file could not be read as UTF-8 text");
    assert!(loaded.raw_stats.is_none());

    let f = source_file(&path(&["x.blob"]), '/', Some("hello".to_string()));
    let loaded = load_file(&f);
    assert!(loaded.lines.is_empty());
    assert_eq!(kinds(&loaded.excluded), vec![(0, "non_source_blob".to_string())]);
    assert_eq!(loaded.excluded[0].reason, "blob file does not look like decompiled C# source");
}

#[test]
fn load_file_excludes_decompiler_scaffolding() {
    let text = "[assembly: AssemblyTitle(\"x\")]\nusing System;\n[CompilerGenerated]\nprivate sealed class <>c\n{\n    public int A;\n}\npublic class Real\n{\n}\n";
    let f = source_file(&path(&["Mod.blob"]), '/', Some(text.to_string()));
    let loaded = load_file(&f);
    let kept: Vec<usize> = loaded.lines.iter().map(|l| l.line).collect();
    assert_eq!(kept, vec![2, 8, 9, 10]);
    assert!(loaded.lines.iter().all(|l| l.decompiled && l.csharp));
    assert_eq!(
        kinds(&loaded.excluded),
        vec![
            (1, "decompiler_scaffold".to_string()),
            (3, "decompiler_scaffold".to_string()),
            (4, "decompiler_scaffold".to_string()),
            (5, "decompiler_scaffold".to_string()),
            (6, "decompiler_scaffold".to_string()),
            (7, "decompiler_scaffold".to_string()),
        ]
    );
    assert!(loaded.raw_stats.unwrap().decompiled);
}

#[test]
fn load_source_concatenates_files() {
    let files = vec![
        source_file(&path(&["mod", "Plugin.cs"]), '/', Some(PLUGIN.to_string())),
        source_file(&path(&["mod", "tool.py"]), '/', Some("print('x')  # c\n".to_string())),
    ];
    let loaded = load_source(&files, 3, 4);
    assert_eq!(loaded.lines.len(), 13);
    assert_eq!(loaded.excluded.len(), 2);
    assert_eq!(loaded.raw_file_stats.len(), 2);
    assert_eq!(loaded.source_files, 2);
    assert_eq!(loaded.skipped_non_source, 3);
    assert_eq!(loaded.skipped_dirs, 4);
    assert_eq!(loaded.lines[12].normalized, "print('x')");
}

#[test]
fn analyze_scores_a_plugin_project() {
    let files = vec![
        source_file(&path(&["mod", "Plugin.cs"]), '/', Some(PLUGIN.to_string())),
        source_file(&path(&["mod", "tool.py"]), '/', Some("print('x')  # c\n".to_string())),
    ];
    let loaded = load_source(&files, 0, 0);
    let a = analyze(loaded, &LineSet::new(), &LineSet::new());
    assert_eq!(a.considered_lines, 7);
    assert_eq!(a.excluded_lines, 8);
    assert_eq!(a.score_total, 6000);
    assert_eq!(a.template_lines, 0);
    assert_eq!(a.source_files, 2);
    let scored: Vec<(String, usize, u32)> = a.line_records.iter().map(|r| (r.file.clone(), r.line, r.score)).collect();
    assert_eq!(
        scored,
        vec![
            ("mod/Plugin.cs".to_string(), 1, 1000),
            ("mod/Plugin.cs".to_string(), 4, 1000),
            ("mod/Plugin.cs".to_string(), 6, 1000),
            ("mod/Plugin.cs".to_string(), 7, 1000),
            ("mod/Plugin.cs".to_string(), 9, 1000),
            ("mod/Plugin.cs".to_string(), 11, 1000),
            ("mod/tool.py".to_string(), 1, 0),
        ]
    );
    let summary = "generated C# plugin profile; ai_features=4; legit_features=0; standalone C# plugin structure";
    assert_eq!(a.line_records[0].reason, summary);
    assert_eq!(a.line_records[6].reason, "unmatched line with weak AI evidence");
    assert_eq!(a.files.len(), 2);
    let f = &a.files[0];
    assert_eq!(f.path, "mod/Plugin.cs");
    assert_eq!((f.considered_lines, f.excluded_lines, f.score_total), (6, 8, 6000));
    assert!(f.ai_positive && !f.strong_legit && !f.decompiled);
    assert_eq!((f.ai_features, f.legit_features), (4, 0));
    assert_eq!(f.feature_summary, summary);
    let g = &a.files[1];
    assert_eq!(g.path, "mod/tool.py");
    assert_eq!((g.considered_lines, g.excluded_lines, g.score_total), (1, 0, 0));
    assert_eq!(g.feature_summary, "normal source file profile");
}

#[test]
fn per_file_tallies_add_up_to_the_totals() {
    let files = vec![
        source_file(&path(&["mod", "Plugin.cs"]), '/', Some(PLUGIN.to_string())),
        source_file(&path(&["mod", "tool.py"]), '/', Some("print('x')  # c\n\n".to_string())),
        source_file(&path(&["gone.cs"]), '/', None),
    ];
    let loaded = load_source(&files, 0, 0);
    let a = analyze(loaded, &LineSet::new(), &LineSet::new());
    let considered: usize = a.files.iter().map(|f| f.considered_lines).sum();
    let score: u128 = a.files.iter().map(|f| f.score_total).sum();
    let excluded: usize = a.files.iter().map(|f| f.excluded_lines).sum();
    assert_eq!(considered, a.considered_lines);
    assert_eq!(score, a.score_total);
    assert_eq!(excluded, a.excluded.iter().filter(|e| e.line > 0).count());
    assert!(a.files.iter().all(|f| f.score_total <= 1000 * f.considered_lines as u128));
    let paths: Vec<&str> = a.files.iter().map(|f| f.path.as_str()).collect();
    assert_eq!(paths, vec!["gone.cs", "mod/Plugin.cs", "mod/tool.py"]);
}

#[test]
fn scores_stay_within_range_and_every_line_is_accounted() {
    let files = vec![source_file(&path(&["mod", "Plugin.cs"]), '/', Some(PLUGIN.to_string()))];
    let loaded = load_source(&files, 0, 0);
    let kept = loaded.lines.len();
    let before = loaded.excluded.len();
    let a = analyze(loaded, &LineSet::new(), &LineSet::new());
    assert!(a.score_total <= 1000 * a.considered_lines as u128);
    assert!(a.line_records.iter().all(|r| r.score <= 1000));
    assert_eq!(a.considered_lines + (a.excluded_lines - before), kept);
}

#[test]
fn calibration_changes_reasons_only() {
    let files = vec![source_file(&path(&["mod", "Plugin.cs"]), '/', Some(PLUGIN.to_string()))];
    let plain = analyze(load_source(&files, 0, 0), &LineSet::new(), &LineSet::new());
    let mut ai = LineSet::new();
    ai.insert("using BepInEx;".to_string());
    let mut human = LineSet::new();
    human.insert("using BepInEx;".to_string());
    let calibrated = analyze(load_source(&files, 0, 0), &ai, &human);
    assert_eq!(plain.score_total, calibrated.score_total);
    assert_eq!(plain.excluded.len(), calibrated.excluded.len());
    let a: Vec<u32> = plain.line_records.iter().map(|r| r.score).collect();
    let b: Vec<u32> = calibrated.line_records.iter().map(|r| r.score).collect();
    assert_eq!(a, b);
    assert_eq!(
        calibrated.line_records[0].reason,
        "generated C# plugin profile; ai_features=4; legit_features=0; standalone C# plugin structure; calibrated generated-code match; calibrated authored-code match"
    );
}

#[test]
fn scored_lines_are_neither_low_information_nor_templates() {
    let files = vec![source_file(&path(&["mod", "Plugin.cs"]), '/', Some(PLUGIN.to_string()))];
    let a = analyze(load_source(&files, 0, 0), &LineSet::new(), &LineSet::new());
    assert!(a.line_records.iter().all(|r| !lib::syntax::is_low_information(&r.normalized)));
    let low: Vec<usize> = a.excluded.iter().filter(|e| e.kind == "low_information").map(|e| e.line).collect();
    assert_eq!(low, vec![5, 8, 10, 12, 13, 14]);
}

#[test]
fn repeated_lines_across_projects_are_templates() {
    let mut lines = Vec::new();
    for p in ["a", "b", "c", "d"] {
        lines.push(code_line(&format!("{p}/x.cs"), p, "shared line here;"));
        lines.push(code_line(&format!("{p}/x.cs"), p, &format!("unique {p};")));
        lines.push(code_line(&format!("{p}/x.cs"), p, "{"));
    }
    let t = repeated_template_lines(&lines);
    assert_eq!(t.len(), 1);
    assert!(t.contains("shared line here;"));
    assert!(!t.contains("{"));
    let profile = build_profile(&lines);
    assert_eq!(profile.len(), 4);
    assert!(profile.contains("unique a;"));
    assert!(!profile.contains("shared line here;"));
}

#[test]
fn fewer_than_three_projects_have_no_templates() {
    let lines = vec![code_line("a/x.cs", "a", "same;"), code_line("b/x.cs", "b", "same;")];
    assert_eq!(repeated_template_lines(&lines).len(), 0);
    let profile = build_profile(&lines);
    assert_eq!(profile.len(), 1);
}

#[test]
fn template_threshold_rounds_up() {
    // Ten projects need ceil(3.5) = 4 of them.
    let mut lines = Vec::new();
    for i in 0..10 {
        let p = format!("p{i}");
        lines.push(code_line(&format!("{p}/x.cs"), &p, &format!("project line {i};")));
    }
    for i in 0..3 {
        let p = format!("p{i}");
        lines.push(code_line(&format!("{p}/y.cs"), &p, "three times;"));
    }
    for i in 0..4 {
        let p = format!("p{i}");
        lines.push(code_line(&format!("{p}/z.cs"), &p, "four times;"));
    }
    let t = repeated_template_lines(&lines);
    assert!(t.contains("four times;"));
    assert!(!t.contains("three times;"));
}

#[test]
fn decompiled_profiles() {
    let normal = decompiled_profile(&FileStats::default());
    assert_eq!((normal.base_score, normal.cap), (0, 0));
    assert_eq!(normal.summary, "normal source file profile");

    let mut s = FileStats::default();
    s.csharp = true;
    s.bep_in_plugin = 1;
    s.config_binds = 2;
    s.generated_mod_markers = 1;
    let p = decompiled_profile(&s);
    assert_eq!((p.ai_features, p.base_score, p.cap), (7, 1000, 1000));
    assert_eq!(
        p.summary,
        "generated C# plugin profile; ai_features=7; legit_features=0; standalone C# plugin structure, configuration binding, generated guard/config idioms"
    );

    let mut d = FileStats::default();
    d.decompiled = true;
    d.repository_metadata = 1;
    d.asset_bundle_markers = 1;
    let p = decompiled_profile(&d);
    assert!(p.strong_legit && !p.ai_positive);
    assert_eq!((p.legit_features, p.base_score, p.cap), (9, 10, 20));
    assert_eq!(
        p.summary,
        "legitimate decompiled profile cap; ai_features=0; legit_features=9; repository metadata, asset/library integration surface"
    );

    let mut d = FileStats::default();
    d.decompiled = true;
    d.config_binds = 8;
    d.bep_in_plugin = 1;
    d.source_lines = 100;
    let p = decompiled_profile(&d);
    assert!(p.ai_positive);
    assert_eq!((p.ai_features, p.base_score, p.cap), (7, 910, 980));
}

#[test]
fn score_line_adds_rule_weights_up_to_the_cap() {
    let mut d = FileStats::default();
    d.decompiled = true;
    d.csharp = true;
    d.config_binds = 3;
    d.harmony_patches = 3;
    let mut l = code_line("a.cs", "a", "var m = AccessTools.Method(t, \"x\") ?? fallback;");
    l.csharp = true;
    l.decompiled = true;
    let p = decompiled_profile(&d);
    assert_eq!((p.ai_features, p.base_score, p.cap), (2, 900, 960));
    let (score, reason) = score_line(&l, &d, &LineSet::new(), &LineSet::new());
    assert_eq!(score, 960);
    assert!(reason.starts_with("reflection/runtime-discovery pattern; formulaic plugin/configuration pattern; broad defensive generated-code pattern"));

    let plain = code_line("a.py", "a", "x = fallback");
    let (score, reason) = score_line(&plain, &FileStats::default(), &LineSet::new(), &LineSet::new());
    assert_eq!(score, 0);
    assert_eq!(reason, "unmatched line with weak AI evidence");
}

#[test]
fn stats_tables_group_lines() {
    let lines = vec![
        code_line("p/a.cs", "p", "namespace X"),
        code_line("p/a.cs", "p", "class Y"),
        code_line("q/b.cs", "q", "config.bind(1)"),
    ];
    let files = build_file_stats(&lines);
    assert_eq!(files.key_count(), 2);
    assert_eq!(files.get_or_default("p/a.cs").source_lines, 2);
    assert_eq!(files.get_or_default("p/a.cs").namespaces, 1);
    assert_eq!(files.get_or_default("p/a.cs").classes, 1);
    assert_eq!(files.get_or_default("q/b.cs").config_binds, 1);
    assert_eq!(files.get_or_default("missing").source_lines, 0);
    let projects = build_project_stats(&lines);
    assert_eq!(projects.get_or_default("p").source_lines, 2);
    let mut merged = build_file_stats(&lines);
    merge_file_stats(&mut merged, build_file_stats(&lines));
    assert_eq!(merged.get_or_default("p/a.cs").source_lines, 4);
    assert_eq!(merged.key_count(), 2);
}

#[test]
fn count_kinds_sorts_kinds() {
    let ex = vec![
        ExcludedLine { file: "a".to_string(), line: 1, kind: "template".to_string(), reason: String::new() },
        ExcludedLine { file: "a".to_string(), line: 2, kind: "blank".to_string(), reason: String::new() },
        ExcludedLine { file: "a".to_string(), line: 3, kind: "blank".to_string(), reason: String::new() },
    ];
    let c = count_kinds(&ex);
    assert_eq!(c.kinds, vec!["blank".to_string(), "template".to_string()]);
    assert_eq!(c.counts, vec![2, 1]);
}

#[test]
fn every_line_of_a_file_is_kept_or_excluded() {
    let f = source_file(&path(&["mod", "Plugin.cs"]), '/', Some(PLUGIN.to_string()));
    let loaded = load_file(&f);
    assert_eq!(loaded.lines.len() + loaded.excluded.len(), PLUGIN.lines().count());
    assert!(loaded.lines.iter().all(|l| !l.code.is_empty() && l.line >= 1 && l.line <= 14));
}

#[test]
fn kept_lines_are_trimmed_normalized_and_in_order() {
    let text = "  int a =  1;  \n\t\n /* c */ \nint   b = 2; // x\n";
    let f = source_file(&path(&["p", "a.cs"]), '/', Some(text.to_string()));
    let loaded = load_file(&f);
    let kept: Vec<(usize, &str, &str)> =
        loaded.lines.iter().map(|l| (l.line, l.code.as_str(), l.normalized.as_str())).collect();
    assert_eq!(kept, vec![(1, "int a =  1;", "int a = 1;"), (4, "int   b = 2;", "int b = 2;")]);
    assert!(loaded.lines.iter().all(|l| l.code == l.code.trim() && !l.normalized.is_empty() && l.csharp));
    assert_eq!(kinds(&loaded.excluded), vec![(2, "blank".to_string()), (3, "comment".to_string())]);
}

#[test]
fn calibration_reasons_follow_the_profiles() {
    let l = code_line("a.py", "a", "x = compute(1)");
    let mut ai = LineSet::new();
    ai.insert("x = compute(1)".to_string());
    let (s1, r1) = score_line(&l, &FileStats::default(), &ai, &LineSet::new());
    let (s2, r2) = score_line(&l, &FileStats::default(), &LineSet::new(), &ai);
    assert_eq!(s1, s2);
    assert_eq!(r1, "calibrated generated-code match");
    assert_eq!(r2, "calibrated authored-code match");
}

#[test]
fn project_counters_ignore_line_order() {
    let lines = vec![
        code_line("p/a.cs", "p", "namespace X"),
        code_line("q/b.cs", "q", "config.bind(1)"),
        code_line("p/c.cs", "p", "class Y"),
    ];
    let reversed = vec![
        code_line("p/c.cs", "p", "class Y"),
        code_line("q/b.cs", "q", "config.bind(1)"),
        code_line("p/a.cs", "p", "namespace X"),
    ];
    let a = build_project_stats(&lines);
    let b = build_project_stats(&reversed);
    for key in ["p", "q", "r"] {
        assert_eq!(a.get_or_default(key), b.get_or_default(key));
        assert_eq!(a.contains_key(key), b.contains_key(key));
    }
    let total: usize = ["p", "q"].iter().map(|k| a.get_or_default(k).source_lines).sum();
    assert_eq!(total, lines.len());
}
