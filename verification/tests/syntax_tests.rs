use lib::scaffold::{decompiled_scaffold_kind, has_any, looks_decompiled_csharp, starts_generated_block};
use lib::syntax::{brace_delta, is_low_information, normalize_code, strip_comments, syntax_for};

fn strip_all(kind: &str, lines: &[&str]) -> Vec<String> {
    let syntax = syntax_for(kind);
    let mut block_end = None;
    lines.iter().map(|line| strip_comments(line, &syntax, &mut block_end)).collect()
}

#[test]
fn strip_comments_removes_line_comments() {
    assert_eq!(strip_all("c_family", &["int x = 1; // note"]), vec!["int x = 1; "]);
    assert_eq!(strip_all("hash", &["x = 1 # note"]), vec!["x = 1 "]);
    assert_eq!(strip_all("lua", &["x = 1 -- note"]), vec!["x = 1 "]);
    assert_eq!(strip_all("plain", &["a // b # c"]), vec!["a // b # c"]);
}

#[test]
fn strip_comments_follows_block_comments_across_lines() {
    assert_eq!(strip_all("c_family", &["a /* b */ c"]), vec!["a  c"]);
    assert_eq!(strip_all("c_family", &["a /* b", "still comment", "c */ d"]), vec!["a ", "", " d"]);
    assert_eq!(strip_all("lua", &["x --[[ one", "two ]] y"]), vec!["x ", " y"]);
    assert_eq!(strip_all("xml", &["<a><!-- c --></a>"]), vec!["<a></a>"]);
}

#[test]
fn strip_comments_keeps_quoted_markers() {
    assert_eq!(strip_all("c_family", &["s = \"//not\"; // x"]), vec!["s = \"//not\"; "]);
    assert_eq!(strip_all("c_family", &["s = \"a\\\"//b\"; c"]), vec!["s = \"a\\\"//b\"; c"]);
    assert_eq!(strip_all("c_family", &["c = '/'; // x"]), vec!["c = '/'; "]);
}

#[test]
fn strip_comments_never_lengthens_a_line() {
    let syntax = syntax_for("c_family");
    for line in ["a /* b */ c", "x // y", "\"q\" /* open", "plain"] {
        let mut block_end = None;
        assert!(strip_comments(line, &syntax, &mut block_end).len() <= line.len());
    }
}

#[test]
fn normalize_code_collapses_whitespace() {
    assert_eq!(normalize_code("  a   b\t c  "), "a b c");
    assert_eq!(normalize_code("x\u{00a0}\u{2003}y"), "x y");
    assert_eq!(normalize_code("   "), "");
}

#[test]
fn is_low_information_examples() {
    for s in ["{", "};", "ab", "else", "try", "finally", "do", "end", "()", "{};", "=:.", "é"] {
        assert!(is_low_information(s), "{s}");
    }
    for s in ["return x;", "foo();", "éé", "abc", "{ };"] {
        assert!(!is_low_information(s), "{s}");
    }
}

#[test]
fn brace_delta_counts_braces() {
    assert_eq!(brace_delta("{ {}"), 1);
    assert_eq!(brace_delta("}}"), -2);
    assert_eq!(brace_delta("no braces"), 0);
}

#[test]
fn has_any_finds_a_marker() {
    assert!(has_any("abc", &["x", "bc"]));
    assert!(!has_any("abc", &["x", "y"]));
    assert!(!has_any("abc", &[]));
}

#[test]
fn looks_decompiled_csharp_needs_assembly_and_code_markers() {
    assert!(looks_decompiled_csharp("[assembly: AssemblyTitle(\"x\")]\nusing System;\n"));
    assert!(looks_decompiled_csharp("[Assembly: X]\n[BepInPlugin(\"a\")]"));
    assert!(!looks_decompiled_csharp("using System;\npublic class A {}"));
    assert!(!looks_decompiled_csharp("[assembly: X]"));
}

#[test]
fn decompiled_scaffold_kind_tracks_support_namespaces() {
    let mut ns = false;
    assert_eq!(
        decompiled_scaffold_kind("namespace Microsoft.CodeAnalysis", &mut ns),
        Some("compiler support namespace emitted by decompiler")
    );
    assert!(ns);
    assert_eq!(
        decompiled_scaffold_kind("internal sealed class EmbeddedAttribute : Attribute", &mut ns),
        Some("compiler support namespace emitted by decompiler")
    );
    assert_eq!(decompiled_scaffold_kind("public class Plugin", &mut ns), None);
    assert!(!ns);
    assert_eq!(decompiled_scaffold_kind("namespace MyMod", &mut ns), None);
    assert!(!ns);
}

#[test]
fn decompiled_scaffold_kind_reasons() {
    let mut ns = false;
    assert_eq!(
        decompiled_scaffold_kind("[assembly: AssemblyTitle(\"x\")]", &mut ns),
        Some("assembly/module metadata emitted by decompiler")
    );
    assert_eq!(decompiled_scaffold_kind("[CompilerGenerated]", &mut ns), Some("compiler generated attribute scaffold"));
    assert_eq!(
        decompiled_scaffold_kind("private sealed class <>c", &mut ns),
        Some("compiler generated closure or async/iterator state machine")
    );
    assert_eq!(
        decompiled_scaffold_kind("//yield-return decompiler failed: x", &mut ns),
        Some("decompiler failure annotation")
    );
    assert_eq!(decompiled_scaffold_kind("int x = 1;", &mut ns), None);
}

#[test]
fn starts_generated_block_examples() {
    assert!(starts_generated_block("private sealed class <>c__DisplayClass0_0"));
    assert!(starts_generated_block("private struct <Run>d__3 : IAsyncStateMachine"));
    assert!(!starts_generated_block("public class Foo"));
}

fn is_subsequence(a: &str, b: &str) -> bool {
    let mut it = b.chars();
    a.chars().all(|c| it.any(|d| d == c))
}

#[test]
fn brace_delta_adds_over_concatenation() {
    for (a, b) in [("{ {", "}"), ("}}", "{x{"), ("", "{")] {
        assert_eq!(brace_delta(&format!("{a}{b}")), brace_delta(a) + brace_delta(b));
    }
}

#[test]
fn strip_comments_keeps_a_subsequence_and_plain_is_unchanged() {
    let syntax = syntax_for("c_family");
    for line in ["a /* b */ c // d", "\"x // y\" z", "q /* open"] {
        let mut block_end = None;
        let out = strip_comments(line, &syntax, &mut block_end);
        assert!(is_subsequence(&out, line));
    }
    let plain = syntax_for("plain");
    for line in ["a // b /* c */", "# x -- y"] {
        let mut block_end = None;
        assert_eq!(strip_comments(line, &plain, &mut block_end), line);
        assert!(block_end.is_none());
    }
}

#[test]
fn normalize_code_is_single_spaced_and_idempotent() {
    for code in ["  a \t b\n\u{2003}c  ", "x", "   ", "a  b   c"] {
        let n = normalize_code(code);
        assert_eq!(normalize_code(&n), n);
        assert!(!n.starts_with(' ') && !n.ends_with(' ') && !n.contains("  "));
        assert!(n.chars().all(|c| c == ' ' || !c.is_whitespace()));
        let kept: String = code.chars().filter(|c| !c.is_whitespace()).collect();
        let got: String = n.chars().filter(|c| !c.is_whitespace()).collect();
        assert_eq!(kept, got);
    }
}
