use lib::source::CodeLine;
use lib::stats::{add_file_stats, add_line_stats, count_occurrences, inspect_raw_file_stats, named_assembly_value, FileStats};

fn line(normalized: &str, csharp: bool) -> CodeLine {
    CodeLine {
        file: "a.cs".to_string(),
        project: "p".to_string(),
        line: 1,
        code: normalized.to_string(),
        normalized: normalized.to_string(),
        csharp,
        decompiled: false,
    }
}

#[test]
fn count_occurrences_counts_non_overlapping_matches() {
    assert_eq!(count_occurrences("aaaa", "aa"), 2);
    assert_eq!(count_occurrences("abcabc", "bc"), 2);
    assert_eq!(count_occurrences("abc", "x"), 0);
    assert_eq!(count_occurrences("abc", ""), 4);
}

#[test]
fn named_assembly_value_needs_a_non_blank_value() {
    assert!(named_assembly_value("  [assembly: AssemblyCompany(\"Acme\")]  \n", "AssemblyCompany"));
    assert!(!named_assembly_value("[assembly: AssemblyCompany(\" \")]", "AssemblyCompany"));
    assert!(!named_assembly_value("[assembly: AssemblyCompany(\"Acme\")", "AssemblyCompany"));
    assert!(!named_assembly_value("x [assembly: AssemblyCompany(\"Acme\")]", "AssemblyCompany"));
}

#[test]
fn inspect_raw_file_stats_counts_metadata() {
    let text = "using A;\nusing B;\n[assembly: AssemblyCompany(\"Acme\")]\n[assembly: AssemblyTitle(\"T\")]\n[assembly: AssemblyProduct(\"P\")]\npublic static async Task Run() { File.Read(); await x; } // é\n";
    let s = inspect_raw_file_stats(text, true, true);
    assert!(s.csharp && s.decompiled);
    assert_eq!(s.using_count, 1);
    assert_eq!(s.assembly_attributes, 3);
    assert_eq!(s.named_company_metadata, 1);
    assert_eq!(s.title_product_metadata, 2);
    assert_eq!(s.description_metadata, 0);
    assert_eq!(s.public_static_markers, 1);
    assert_eq!(s.task_async_markers, 3);
    assert_eq!(s.file_io_markers, 1);
    assert_eq!(s.non_ascii_chars, 1);
    assert_eq!(s.source_lines, 0);
}

#[test]
fn add_line_stats_counts_markers() {
    let mut s = FileStats::default();
    add_line_stats(&mut s, &line("namespace Mod", true));
    add_line_stats(&mut s, &line("public class Plugin : BaseUnityPlugin", true));
    add_line_stats(&mut s, &line("[BepInPlugin(\"id\")]", true));
    add_line_stats(&mut s, &line("Config.Bind(\"a\", \"b\", 1, new ConfigDescription(\"c\"));", true));
    add_line_stats(&mut s, &line("[HarmonyPatch(typeof(A))]", true));
    add_line_stats(&mut s, &line("var m = AccessTools.Method(t, \"x\");", true));
    assert!(s.csharp && !s.decompiled);
    assert_eq!(s.source_lines, 6);
    assert_eq!(s.namespaces, 1);
    assert_eq!(s.classes, 1);
    assert_eq!(s.bep_in_plugin, 1);
    assert_eq!(s.base_unity_plugin, 1);
    assert_eq!(s.config_binds, 1);
    assert_eq!(s.generated_mod_markers, 1);
    assert_eq!(s.harmony_patches, 1);
    assert_eq!(s.reflection_markers, 1);
}

#[test]
fn add_file_stats_adds_fieldwise() {
    let mut a = FileStats::default();
    a.source_lines = 3;
    a.config_binds = 1;
    let mut b = FileStats::default();
    b.csharp = true;
    b.source_lines = 4;
    b.non_ascii_chars = 2;
    add_file_stats(&mut a, &b);
    assert!(a.csharp && !a.decompiled);
    assert_eq!(a.source_lines, 7);
    assert_eq!(a.config_binds, 1);
    assert_eq!(a.non_ascii_chars, 2);
}

#[test]
fn add_file_stats_zero_and_order() {
    let mut e = FileStats::default();
    e.source_lines = 5;
    e.csharp = true;
    let mut a = FileStats::default();
    a.config_binds = 2;
    a.decompiled = true;
    let mut b = FileStats::default();
    b.config_binds = 3;
    b.source_lines = 1;
    let mut z = e;
    add_file_stats(&mut z, &FileStats::default());
    assert_eq!(z, e);
    let mut ab = e;
    add_file_stats(&mut ab, &a);
    add_file_stats(&mut ab, &b);
    let mut ba = e;
    add_file_stats(&mut ba, &b);
    add_file_stats(&mut ba, &a);
    assert_eq!(ab, ba);
}
