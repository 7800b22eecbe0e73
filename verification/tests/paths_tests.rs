use lib::order::{paths_lt, sort_paths, str_lt};
use lib::paths::{
    collect_source_files, is_csharp_path, project_name, relative_display, should_skip_dir, source_file,
    source_kind, target_label, visit_entries, DirEntryInfo, FileCollection, Target,
};

fn path(items: &[&str]) -> Vec<String> {
    items.iter().map(|s| s.to_string()).collect()
}

fn entry(name: &str, is_dir: bool) -> DirEntryInfo {
    DirEntryInfo { name: name.to_string(), is_dir }
}

#[test]
fn source_kind_by_file_name() {
    assert_eq!(source_kind("Main.CS"), Some("c_family"));
    assert_eq!(source_kind("lib.rs"), Some("c_family"));
    assert_eq!(source_kind("a.tsx"), Some("c_family"));
    assert_eq!(source_kind("init.lua.disabled"), Some("lua"));
    assert_eq!(source_kind("a.LUAU"), Some("lua"));
    assert_eq!(source_kind("run.ps1"), Some("hash"));
    assert_eq!(source_kind("Plugin.blob"), Some("blob"));
    assert_eq!(source_kind("README.md"), None);
    assert_eq!(source_kind(".gitignore"), None);
    assert_eq!(source_kind("Makefile"), None);
}

#[test]
fn csharp_paths_and_skipped_dirs() {
    assert!(is_csharp_path("A.Cs"));
    assert!(is_csharp_path("a.BLOB"));
    assert!(!is_csharp_path("a.rs"));
    assert!(!is_csharp_path(".cs"));
    assert!(should_skip_dir("node_modules"));
    assert!(should_skip_dir(".Git"));
    assert!(should_skip_dir("BIN"));
    assert!(!should_skip_dir("src"));
}

#[test]
fn target_label_falls_back() {
    assert_eq!(target_label(Some("repo")), "repo");
    assert_eq!(target_label(Some("")), "scan-target");
    assert_eq!(target_label(None), "scan-target");
}

#[test]
fn relative_display_and_project() {
    assert_eq!(relative_display(&path(&["proj", "src", "a.cs"]), '/'), "proj/src/a.cs");
    assert_eq!(relative_display(&path(&["a.cs"]), '\\'), "a.cs");
    assert_eq!(relative_display(&path(&["x", "y"]), '\\'), "x\\y");
    assert_eq!(project_name(&path(&["proj", "a.cs"])), "proj");
    assert_eq!(project_name(&path(&["a.cs"])), "a.cs");
    assert_eq!(project_name(&path(&[])), "root");
}

#[test]
fn source_file_describes_a_file() {
    let f = source_file(&path(&["p", "Mod.blob"]), '/', Some("x".to_string()));
    assert_eq!(f.display, "p/Mod.blob");
    assert_eq!(f.project, "p");
    assert_eq!(f.kind, "blob");
    assert!(f.csharp);
    assert_eq!(f.text, Some("x".to_string()));
    let f = source_file(&path(&["notes.txt"]), '/', None);
    assert_eq!(f.kind, "text");
    assert!(!f.csharp);
    assert_eq!(f.text, None);
}

#[test]
fn visit_entries_classifies_a_listing() {
    let mut c = FileCollection { source_files: Vec::new(), skipped_non_source: 0, skipped_dirs: 0 };
    let entries = vec![
        entry("b.cs", false),
        entry("bin", true),
        entry("zz", true),
        entry("aa", true),
        entry("readme.md", false),
        entry("x.py", false),
    ];
    let subdirs = visit_entries(&path(&["p"]), &entries, &mut c);
    assert_eq!(subdirs, vec![path(&["p", "aa"]), path(&["p", "zz"])]);
    assert_eq!(c.source_files, vec![path(&["p", "b.cs"]), path(&["p", "x.py"])]);
    assert_eq!(c.skipped_dirs, 1);
    assert_eq!(c.skipped_non_source, 1);
}

#[test]
fn collect_source_files_of_a_single_file() {
    let c = collect_source_files(Target::File("a.cs".to_string()));
    assert_eq!(c.source_files, vec![path(&["a.cs"])]);
    assert_eq!((c.skipped_non_source, c.skipped_dirs), (0, 0));
    let c = collect_source_files(Target::File("a.txt".to_string()));
    assert!(c.source_files.is_empty());
    assert_eq!((c.skipped_non_source, c.skipped_dirs), (1, 0));
}

#[test]
fn collect_source_files_sorts_component_wise() {
    let walked = FileCollection {
        source_files: vec![path(&["b", "x.cs"]), path(&["a-b", "y.cs"]), path(&["a", "z.cs"])],
        skipped_non_source: 2,
        skipped_dirs: 3,
    };
    let c = collect_source_files(Target::Directory(walked));
    assert_eq!(c.source_files, vec![path(&["a", "z.cs"]), path(&["a-b", "y.cs"]), path(&["b", "x.cs"])]);
    assert_eq!((c.skipped_non_source, c.skipped_dirs), (2, 3));
}

#[test]
fn path_order_is_component_wise() {
    assert!(paths_lt(&path(&["a", "b"]), &path(&["a-b"])));
    assert!(!paths_lt(&path(&["a-b"]), &path(&["a", "b"])));
    assert!(paths_lt(&path(&["a"]), &path(&["a", "b"])));
    assert!(!paths_lt(&path(&["a"]), &path(&["a"])));
    assert!(str_lt("a-b", "a/b"));
    let sorted = sort_paths(vec![path(&["c"]), path(&["a"]), path(&["b"]), path(&["a"])]);
    assert_eq!(sorted, vec![path(&["a"]), path(&["a"]), path(&["b"]), path(&["c"])]);
}
