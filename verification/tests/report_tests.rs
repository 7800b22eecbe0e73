use lib::report::{comma, escape_code, escape_md, j, render_json, render_markdown, FileReport, LineReport, Report};
use lib::source::ExcludedLine;

fn excluded(file: &str, line: usize, kind: &str, reason: &str) -> ExcludedLine {
    ExcludedLine { file: file.to_string(), line, kind: kind.to_string(), reason: reason.to_string() }
}

fn sample(result_only: bool) -> Report {
    Report {
        target: "repo".to_string(),
        percentage: "85.714".to_string(),
        is_ai: true,
        deem: "50.0".to_string(),
        result_only,
        considered_lines: 2,
        excluded_lines: 3,
        source_files: 1,
        skipped_non_source_files: 4,
        skipped_dirs: 5,
        template_lines: 0,
        ai_calibration_enabled: false,
        human_calibration_enabled: true,
        ai_profile_lines: 0,
        human_profile_lines: 7,
        files: vec![FileReport {
            path: "p/a|b.cs".to_string(),
            considered_lines: 2,
            excluded_lines: 3,
            percentage: "100.0".to_string(),
            is_ai: true,
            decompiled: false,
            ai_features: 4,
            legit_features: 0,
            ai_positive: true,
            strong_legit: false,
            feature_summary: "s".to_string(),
        }],
        lines: vec![LineReport {
            file: "p/a|b.cs".to_string(),
            line: 9,
            score: "1.0".to_string(),
            excerpt: "x = `y`;".to_string(),
            normalized: "x = `y`;".to_string(),
            reason: "r\"q".to_string(),
        }],
        excluded: vec![
            excluded("p/a|b.cs", 1, "template", "t"),
            excluded("p/a|b.cs", 2, "blank", "b"),
            excluded("p/a|b.cs", 3, "blank", "b"),
            excluded("p/a|b.cs", 0, "comment", "c"),
        ],
    }
}

#[test]
fn j_escapes_json_strings() {
    assert_eq!(j("a\"b\\c\n\t\r\u{1}\u{7f}é"), "\"a\\\"b\\\\c\\n\\t\\r\\u0001\\u007fé\"");
    assert_eq!(j(""), "\"\"");
}

#[test]
fn j_leaves_no_control_character() {
    let out = j("\u{0}\u{1f}\u{85}x\ny");
    assert!(!out.chars().any(|c| c.is_control()));
}

#[test]
fn comma_separates_array_entries() {
    let mut out = String::new();
    comma(&mut out, 0, 4);
    assert_eq!(out, "    ");
    comma(&mut out, 1, 2);
    assert_eq!(out, "    ,\n  ");
}

#[test]
fn markdown_escapes() {
    assert_eq!(escape_md("a|b\nc"), "a\\|b c");
    assert_eq!(escape_code("`x`|\n"), "\\`x\\`\\| ");
    assert!(!escape_md("a\n\nb").contains('\n'));
    assert!(!escape_code("\n`\n").contains('\n'));
}

#[test]
fn result_only_json_holds_the_verdict_only() {
    assert_eq!(
        render_json(&sample(true)),
        "{\n  \"application\": {\"name\":\"ai-code-detector\",\"version\":\"0.1.0\"},\n  \"data\": {\"IsAI\":true}\n}\n"
    );
}

#[test]
fn result_only_reports_depend_on_the_verdict_alone() {
    let a = sample(true);
    let mut b = sample(true);
    b.target = "other".to_string();
    b.files.clear();
    b.percentage = "1.0".to_string();
    assert_eq!(render_json(&a), render_json(&b));
    assert_eq!(render_markdown(&a), render_markdown(&b));
}

#[test]
fn full_json_report() {
    let expected = [
        "{\n",
        "  \"application\": {\"name\":\"ai-code-detector\",\"version\":\"0.1.0\"},\n",
        "  \"data\": {\"Percentage\":85.714,\"IsAI\":true},\n",
        "  \"summary\": {\"target\":\"repo\",\"deem\":50.0,\"considered_lines\":2,\"excluded_lines\":3,\"source_files\":1,\"skipped_non_source_files\":4,\"skipped_dirs\":5,\"template_lines\":0},\n",
        "  \"calibration\": {\"ai_calibration_enabled\":false,\"human_calibration_enabled\":true,\"ai_profile_lines\":0,\"human_profile_lines\":7},\n",
        "  \"files\": [\n",
        "    {\"path\":\"p/a|b.cs\",\"considered_lines\":2,\"excluded_lines\":3,\"Percentage\":100.0,\"IsAI\":true,\"decompiled\":false,\"ai_features\":4,\"legit_features\":0,\"ai_positive\":true,\"strong_legit\":false,\"feature_summary\":\"s\"}",
        "\n  ],\n",
        "  \"lines\": [\n",
        "    {\"file\":\"p/a|b.cs\",\"line\":9,\"score\":1.0,\"excerpt\":\"x = `y`;\",\"normalized\":\"x = `y`;\",\"reason\":\"r\\\"q\"}",
        "\n  ],\n",
        "  \"excluded\": [\n",
        "    {\"file\":\"p/a|b.cs\",\"line\":1,\"kind\":\"template\",\"reason\":\"t\"},\n",
        "    {\"file\":\"p/a|b.cs\",\"line\":2,\"kind\":\"blank\",\"reason\":\"b\"},\n",
        "    {\"file\":\"p/a|b.cs\",\"line\":3,\"kind\":\"blank\",\"reason\":\"b\"},\n",
        "    {\"file\":\"p/a|b.cs\",\"line\":0,\"kind\":\"comment\",\"reason\":\"c\"}",
        "\n  ]\n",
        "}\n",
    ]
    .concat();
    assert_eq!(render_json(&sample(false)), expected);
}

#[test]
fn empty_arrays_in_json() {
    let mut r = sample(false);
    r.files.clear();
    r.lines.clear();
    r.excluded.clear();
    let out = render_json(&r);
    assert!(out.contains("  \"files\": [\n\n  ],\n  \"lines\": [\n\n  ],\n  \"excluded\": [\n\n  ]\n}\n"));
}

#[test]
fn result_only_markdown() {
    assert_eq!(render_markdown(&sample(true)), "# AI Code Detection Report\n\n- IsAI: `true`\n");
}

#[test]
fn full_markdown_report() {
    let expected = [
        "# AI Code Detection Report\n\n",
        "## Summary\n\n",
        "- Target: `repo`\n",
        "- Percentage: `85.714`\n",
        "- Deem threshold: `50.0`\n",
        "- IsAI: `true`\n",
        "- Considered lines: `2`\n",
        "- Excluded lines: `3`\n",
        "- Source files: `1`\n",
        "- Skipped non-source files: `4`\n",
        "- AI profile lines: `0`\n",
        "- Human profile lines: `7`\n",
        "- Shared template lines detected: `0`\n\n",
        "- AI calibration enabled: `false`\n",
        "- Human calibration enabled: `true`\n\n",
        "## File Summary\n\n",
        "| File | Considered | Excluded | Percentage | IsAI | Features |\n",
        "|---|---:|---:|---:|---|---|\n",
        "| `p/a\\|b.cs` | 2 | 3 | 100.0 | true | s |\n",
        "\n## Considered Lines\n\n",
        "| File | Line | Score | Reason | Code |\n",
        "|---|---:|---:|---|---|\n",
        "| `p/a\\|b.cs` | 9 | 1.0 | r\"q | `x = \\`y\\`;` |\n",
        "\n## Excluded Summary\n\n",
        "| Kind | Count |\n",
        "|---|---:|\n",
        "| `blank` | 2 |\n",
        "| `comment` | 1 |\n",
        "| `template` | 1 |\n",
    ]
    .concat();
    assert_eq!(render_markdown(&sample(false)), expected);
}

fn unescape(s: &str) -> String {
    let chars: Vec<char> = s.chars().collect();
    let mut out = String::new();
    let mut i = 0;
    while i < chars.len() {
        if chars[i] == '\\' && i + 1 < chars.len() {
            match chars[i + 1] {
                'u' => {
                    let v: String = chars[i + 2..i + 6].iter().collect();
                    out.push(char::from_u32(u32::from_str_radix(&v, 16).unwrap()).unwrap());
                    i += 6;
                }
                'n' => { out.push('\n'); i += 2; }
                'r' => { out.push('\r'); i += 2; }
                't' => { out.push('\t'); i += 2; }
                c => { out.push(c); i += 2; }
            }
        } else {
            out.push(chars[i]);
            i += 1;
        }
    }
    out
}

#[test]
fn json_strings_read_back() {
    for s in ["plain", "q\"uote\\back", "line\nbreak\r\ttab", "\u{0}\u{1b}\u{7f}\u{9f}é€"] {
        let quoted = j(s);
        assert!(quoted.starts_with('"') && quoted.ends_with('"'));
        assert_eq!(unescape(&quoted[1..quoted.len() - 1]), s);
    }
}

#[test]
fn markdown_layout() {
    let full = render_markdown(&sample(false));
    assert!(full.starts_with("# AI Code Detection Report\n\n## Summary\n\n"));
    assert!(full.ends_with("| `blank` | 2 |\n| `comment` | 1 |\n| `template` | 1 |\n"));
    assert!(render_markdown(&sample(true)).starts_with("# AI Code Detection Report\n\n"));
}

#[test]
fn json_layout_members_in_order() {
    let out = render_json(&sample(false));
    let keys: Vec<&str> = out
        .lines()
        .filter(|l| l.starts_with("  \""))
        .map(|l| &l[3..l[3..].find('"').unwrap() + 3])
        .collect();
    assert_eq!(keys, vec!["application", "data", "summary", "calibration", "files", "lines", "excluded"]);
    let out = render_json(&sample(true));
    assert!(out.starts_with("{\n") && out.ends_with("}\n"));
}

#[test]
fn markdown_tables_have_one_row_per_item() {
    let mut r = sample(false);
    r.files.push(FileReport {
        path: "x\ny".to_string(),
        considered_lines: 0,
        excluded_lines: 0,
        percentage: "0.0".to_string(),
        is_ai: false,
        decompiled: false,
        ai_features: 0,
        legit_features: 0,
        ai_positive: false,
        strong_legit: false,
        feature_summary: "a\nb".to_string(),
    });
    let out = render_markdown(&r);
    let file_rows = out.lines().skip_while(|l| !l.starts_with("|---|---:|---:|---:|")).skip(1).take_while(|l| l.starts_with('|')).count();
    assert_eq!(file_rows, 2);
    let line_rows = out.lines().skip_while(|l| !l.starts_with("|---|---:|---:|---|")).skip(1).take_while(|l| l.starts_with('|')).count();
    assert_eq!(line_rows, 1);
}
