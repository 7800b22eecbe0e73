//! File names and scan-relative paths. A path below the scan root is the
//! list of its components, each a name read from a directory listing.
use vstd::prelude::*;
use crate::order::{path_view, paths_sorted, paths_view, sort_paths};
use crate::source::SourceFile;
use crate::text::{
    chars_eq, chars_of, ends_with, ends_with_str, join, lower, lower_chars, slice_chars, string_from,
    string_of, strings_view,
};

verus! {

/// Position of the last `.` of a file name.
pub open spec fn last_dot(name: Seq<char>) -> Option<int>
    decreases name.len(),
{
    if name.len() == 0 {
        None
    } else if name.last() == '.' {
        Some(name.len() - 1)
    } else {
        last_dot(name.drop_last())
    }
}

/// The extension of a file name as `Path::extension` documents it: the part
/// after the last `.`, unless there is no `.` or the only `.` starts the name.
pub open spec fn name_extension(name: Seq<char>) -> Option<Seq<char>> {
    match last_dot(name) {
        None => None,
        Some(k) => if k == 0 {
            None
        } else {
            Some(name.skip(k + 1))
        },
    }
}

proof fn lemma_last_dot(name: Seq<char>, k: int)
    requires
        -1 <= k < name.len(),
        forall|j: int| k < j < name.len() ==> name[j] != '.',
        k >= 0 ==> name[k] == '.',
    ensures
        last_dot(name) == if k < 0 { None::<int> } else { Some(k) },
    decreases name.len(),
{
    if name.len() > 0 && k < name.len() - 1 {
        assert forall|j: int| k < j < name.drop_last().len() implies name.drop_last()[j] != '.' by {
            assert(name.drop_last()[j] == name[j]);
        }
        if k >= 0 {
            assert(name.drop_last()[k] == name[k]);
        }
        lemma_last_dot(name.drop_last(), k);
    }
}

fn find_last_dot(name: &[char]) -> (r: Option<usize>)
    ensures
        match r {
            Some(k) => last_dot(name@) == Some(k as int) && k < name@.len(),
            None => last_dot(name@) is None,
        },
{
    let mut i: usize = name.len();
    while i > 0 && name[i - 1] != '.'
        invariant
            i <= name@.len(),
            forall|j: int| i <= j < name@.len() ==> name@[j] != '.',
        decreases i,
    {
        i -= 1;
    }
    proof {
        lemma_last_dot(name@, i - 1);
    }
    if i == 0 {
        None
    } else {
        Some(i - 1)
    }
}

fn extension_chars(name: &[char]) -> (r: Option<Vec<char>>)
    ensures
        match r {
            Some(e) => name_extension(name@) == Some(e@),
            None => name_extension(name@) is None,
        },
{
    match find_last_dot(name) {
        None => None,
        Some(k) => if k == 0 {
            None
        } else {
            let n = name.len();
            assert(k < n);
            Some(slice_chars(name, k + 1, n))
        },
    }
}

pub open spec fn c_family_extensions() -> Seq<&'static str> {
    seq![
        "cs", "rs", "ts", "tsx", "js", "jsx", "mjs", "cjs", "cpp", "cc", "cxx", "c", "h", "hpp",
        "hh", "hxx", "java", "go", "kt", "kts", "swift",
    ]
}

pub open spec fn hash_extensions() -> Seq<&'static str> {
    seq!["py", "ps1", "sh", "rb"]
}

pub open spec fn lua_extensions() -> Seq<&'static str> {
    seq!["lua", "luau"]
}

pub open spec fn one_of(s: Seq<char>, words: Seq<&'static str>) -> bool {
    exists|k: int| 0 <= k < words.len() && s == words[k]@
}

fn one_of_exec(s: &[char], words: &[&'static str]) -> (r: bool)
    ensures
        r == one_of(s@, words@),
{
    let mut k: usize = 0;
    while k < words.len()
        invariant
            k <= words@.len(),
            forall|j: int| 0 <= j < k ==> s@ != words@[j]@,
        decreases words@.len() - k,
    {
        let w = chars_of(words[k]);
        if chars_eq(s, &w) {
            return true;
        }
        k += 1;
    }
    false
}

/// The source kind of a file from its (lower-cased) name: disabled Lua
/// scripts, C-family, hash-comment scripts, Lua, decompiled blobs; other
/// files are not source.
pub open spec fn spec_source_kind(name: Seq<char>) -> Option<&'static str> {
    let name = lower(name);
    if ends_with(name, ".lua.disabled"@) {
        Some("lua")
    } else {
        match name_extension(name) {
            None => None,
            Some(ext) => if one_of(ext, c_family_extensions()) {
                Some("c_family")
            } else if one_of(ext, hash_extensions()) {
                Some("hash")
            } else if one_of(ext, lua_extensions()) {
                Some("lua")
            } else if ext == "blob"@ {
                Some("blob")
            } else {
                None
            },
        }
    }
}

/// Classifies a file as a source kind by its name.
pub fn source_kind(name: &str) -> (r: Option<&'static str>)
    ensures
        r == spec_source_kind(name@),
{
    let nc = chars_of(name);
    let lowered = lower_chars(&nc);
    if ends_with_str(&lowered, ".lua.disabled") {
        return Some("lua");
    }
    // The extension of the lower-cased name is the lower-cased extension.
    let ext = match extension_chars(&lowered) {
        Some(e) => e,
        None => return None,
    };
    let c_family = [
        "cs", "rs", "ts", "tsx", "js", "jsx", "mjs", "cjs", "cpp", "cc", "cxx", "c", "h", "hpp",
        "hh", "hxx", "java", "go", "kt", "kts", "swift",
    ];
    assert(c_family@ == c_family_extensions());
    let hash = ["py", "ps1", "sh", "rb"];
    assert(hash@ == hash_extensions());
    let lua = ["lua", "luau"];
    assert(lua@ == lua_extensions());
    if one_of_exec(&ext, &c_family) {
        Some("c_family")
    } else if one_of_exec(&ext, &hash) {
        Some("hash")
    } else if one_of_exec(&ext, &lua) {
        Some("lua")
    } else if chars_eq(&ext, &chars_of("blob")) {
        Some("blob")
    } else {
        None
    }
}

/// A file name with a `.cs` or `.blob` extension, in any case.
pub open spec fn spec_is_csharp_path(name: Seq<char>) -> bool {
    match name_extension(name) {
        None => false,
        Some(ext) => lower(ext) == "cs"@ || lower(ext) == "blob"@,
    }
}

pub fn is_csharp_path(name: &str) -> (r: bool)
    ensures
        r == spec_is_csharp_path(name@),
{
    let nc = chars_of(name);
    match extension_chars(&nc) {
        None => false,
        Some(ext) => {
            let l = lower_chars(&ext);
            chars_eq(&l, &chars_of("cs")) || chars_eq(&l, &chars_of("blob"))
        },
    }
}

pub open spec fn skipped_dir_names() -> Seq<&'static str> {
    seq![
        ".git", ".hg", ".svn", "target", "bin", "obj", "node_modules", ".cache", ".idea", ".vs",
        "artifacts",
    ]
}

/// Directories never descended into: version control, build output, package
/// caches and IDE folders (names compared case-insensitively).
pub open spec fn spec_should_skip_dir(name: Seq<char>) -> bool {
    one_of(lower(name), skipped_dir_names())
}

pub fn should_skip_dir(name: &str) -> (r: bool)
    ensures
        r == spec_should_skip_dir(name@),
{
    let nc = chars_of(name);
    let l = lower_chars(&nc);
    let names = [
        ".git", ".hg", ".svn", "target", "bin", "obj", "node_modules", ".cache", ".idea", ".vs",
        "artifacts",
    ];
    assert(names@ == skipped_dir_names());
    one_of_exec(&l, &names)
}

/// The label of a scan target: its file name when it has a non-empty one,
/// else `scan-target`.
pub open spec fn spec_target_label(name: Option<Seq<char>>) -> Seq<char> {
    match name {
        Some(n) => if n.len() > 0 {
            n
        } else {
            "scan-target"@
        },
        None => "scan-target"@,
    }
}

pub fn target_label(name: Option<&str>) -> (r: String)
    ensures
        r@ == spec_target_label(match name {
            Some(n) => Some(n@),
            None => None,
        }),
{
    match name {
        Some(n) => if chars_of(n).len() > 0 {
            string_from(n)
        } else {
            string_from("scan-target")
        },
        None => string_from("scan-target"),
    }
}

/// A path below the scan root as shown in reports: its components joined
/// by the platform's separator.
pub open spec fn spec_relative_display(rel: Seq<Seq<char>>, sep: char) -> Seq<char> {
    join(rel, seq![sep])
}

pub fn relative_display(rel: &Vec<String>, sep: char) -> (r: String)
    ensures
        r@ == spec_relative_display(path_view(*rel), sep),
{
    let ghost parts = path_view(*rel);
    let mut out = String::new();
    let mut i: usize = 0;
    while i < rel.len()
        invariant
            i <= rel@.len(),
            parts == path_view(*rel),
            out@ == join(parts.take(i as int), seq![sep]),
        decreases rel@.len() - i,
    {
        let ghost before = out@;
        if i > 0 {
            out.push(sep);
        }
        crate::text::push_str(&mut out, rel[i].as_str());
        proof {
            assert(parts.take(i + 1).drop_last() =~= parts.take(i as int));
            assert(parts[i as int] == rel@[i as int]@);
            if i == 0 {
                assert(out@ =~= parts[0]);
            } else {
                assert(out@ =~= before + seq![sep] + parts[i as int]);
            }
        }
        i += 1;
    }
    assert(parts.take(i as int) =~= parts);
    out
}

/// The project a file belongs to: the first component of its path below
/// the scan root (`root` for the root itself).
pub open spec fn spec_project_name(rel: Seq<Seq<char>>) -> Seq<char> {
    if rel.len() > 0 {
        rel[0]
    } else {
        "root"@
    }
}

pub fn project_name(rel: &Vec<String>) -> (r: String)
    ensures
        r@ == spec_project_name(path_view(*rel)),
{
    if rel.len() > 0 {
        string_from(rel[0].as_str())
    } else {
        string_from("root")
    }
}

/// A source file ready to be scanned: how it is shown, its project, its
/// kind (`text` when the name gives none) and whether it is C#.
pub open spec fn spec_source_file(rel: Seq<Seq<char>>, sep: char, text: Option<Seq<char>>) -> (
    Seq<char>,
    Seq<char>,
    Seq<char>,
    bool,
    Option<Seq<char>>,
) {
    let name = if rel.len() > 0 { rel.last() } else { seq![] };
    (
        spec_relative_display(rel, sep),
        spec_project_name(rel),
        match spec_source_kind(name) {
            Some(k) => k@,
            None => "text"@,
        },
        spec_is_csharp_path(name),
        text,
    )
}

pub open spec fn source_file_view(f: SourceFile) -> (Seq<char>, Seq<char>, Seq<char>, bool, Option<Seq<char>>) {
    (
        f.display@,
        f.project@,
        f.kind@,
        f.csharp,
        match f.text {
            Some(t) => Some(t@),
            None => None,
        },
    )
}

/// Describes a file below the scan root, with its text when it could be
/// read as UTF-8.
pub fn source_file(rel: &Vec<String>, sep: char, text: Option<String>) -> (r: SourceFile)
    ensures
        source_file_view(r) == spec_source_file(
            path_view(*rel),
            sep,
            match text {
                Some(t) => Some(t@),
                None => None,
            },
        ),
{
    let empty = String::new();
    let name = if rel.len() > 0 {
        rel[rel.len() - 1].as_str()
    } else {
        empty.as_str()
    };
    proof {
        if rel@.len() > 0 {
            assert(path_view(*rel).last() == rel@[rel@.len() - 1]@);
        } else {
            assert(name@ =~= Seq::<char>::empty());
        }
    }
    let kind = match source_kind(name) {
        Some(k) => string_from(k),
        None => string_from("text"),
    };
    SourceFile {
        display: relative_display(rel, sep),
        project: project_name(rel),
        kind,
        csharp: is_csharp_path(name),
        text,
    }
}

// ---------------------------------------------------------------------------
// Collecting the files of a scan target
// ---------------------------------------------------------------------------

/// A directory entry as listed: its name and whether it is a directory.
pub struct DirEntryInfo {
    pub name: String,
    pub is_dir: bool,
}

/// Source files below the scan root, as component lists, and what was
/// skipped.
pub struct FileCollection {
    pub source_files: Vec<Vec<String>>,
    pub skipped_non_source: usize,
    pub skipped_dirs: usize,
}

/// What a scan target turned out to be: a single file (by name), or a
/// directory with what walking it collected.
pub enum Target {
    File(String),
    Directory(FileCollection),
}

/// `dir` extended by one name.
pub open spec fn child(dir: Seq<Seq<char>>, name: Seq<char>) -> Seq<Seq<char>> {
    dir.push(name)
}

/// Entries that are directories descended into.
pub open spec fn entered(dir: Seq<Seq<char>>, es: Seq<DirEntryInfo>) -> Seq<Seq<Seq<char>>>
    decreases es.len(),
{
    if es.len() == 0 {
        seq![]
    } else {
        let e = es.last();
        let rest = entered(dir, es.drop_last());
        if e.is_dir && !spec_should_skip_dir(e.name@) {
            rest.push(child(dir, e.name@))
        } else {
            rest
        }
    }
}

/// Entries that are source files.
pub open spec fn found(dir: Seq<Seq<char>>, es: Seq<DirEntryInfo>) -> Seq<Seq<Seq<char>>>
    decreases es.len(),
{
    if es.len() == 0 {
        seq![]
    } else {
        let e = es.last();
        let rest = found(dir, es.drop_last());
        if !e.is_dir && spec_source_kind(e.name@) is Some {
            rest.push(child(dir, e.name@))
        } else {
            rest
        }
    }
}

/// Directories skipped by name.
pub open spec fn skipped_dirs_in(es: Seq<DirEntryInfo>) -> nat
    decreases es.len(),
{
    if es.len() == 0 {
        0
    } else {
        skipped_dirs_in(es.drop_last()) + if es.last().is_dir && spec_should_skip_dir(es.last().name@) {
            1nat
        } else {
            0nat
        }
    }
}

/// Files that are not source.
pub open spec fn skipped_files_in(es: Seq<DirEntryInfo>) -> nat
    decreases es.len(),
{
    if es.len() == 0 {
        0
    } else {
        skipped_files_in(es.drop_last()) + if !es.last().is_dir && spec_source_kind(es.last().name@) is None {
            1nat
        } else {
            0nat
        }
    }
}

proof fn lemma_skips_bound(es: Seq<DirEntryInfo>)
    ensures
        skipped_dirs_in(es) <= es.len(),
        skipped_files_in(es) <= es.len(),
    decreases es.len(),
{
    if es.len() > 0 {
        lemma_skips_bound(es.drop_last());
    }
}

fn child_path(dir: &Vec<String>, name: &str) -> (r: Vec<String>)
    ensures
        path_view(r) == child(path_view(*dir), name@),
{
    let mut r: Vec<String> = Vec::new();
    let mut i: usize = 0;
    while i < dir.len()
        invariant
            i <= dir@.len(),
            path_view(r) == path_view(*dir).take(i as int),
        decreases dir@.len() - i,
    {
        let ghost before = r@;
        r.push(string_from(dir[i].as_str()));
        proof {
            assert(strings_view(r@) =~= strings_view(before).push(dir@[i as int]@));
            assert(path_view(r) =~= path_view(*dir).take(i + 1));
        }
        i += 1;
    }
    r.push(string_from(name));
    proof {
        assert(path_view(*dir).take(i as int) =~= path_view(*dir));
        assert(path_view(r) =~= child(path_view(*dir), name@));
    }
    r
}

/// Classifies the entries of the directory `dir` (a path below the scan
/// root): source files join the collection, other files and skipped
/// directories are counted, and the directories to descend into are
/// returned in path order.
pub fn visit_entries(
    dir: &Vec<String>,
    entries: &Vec<DirEntryInfo>,
    collection: &mut FileCollection,
) -> (subdirs: Vec<Vec<String>>)
    requires
        old(collection).skipped_dirs + entries@.len() <= usize::MAX,
        old(collection).skipped_non_source + entries@.len() <= usize::MAX,
    ensures
        paths_sorted(paths_view(subdirs@)),
        paths_view(subdirs@).to_multiset() == entered(path_view(*dir), entries@).to_multiset(),
        paths_view(final(collection).source_files@) == paths_view(old(collection).source_files@) + found(
            path_view(*dir),
            entries@,
        ),
        final(collection).skipped_dirs == old(collection).skipped_dirs + skipped_dirs_in(entries@),
        final(collection).skipped_non_source == old(collection).skipped_non_source + skipped_files_in(
            entries@,
        ),
{
    let ghost d = path_view(*dir);
    let mut subdirs: Vec<Vec<String>> = Vec::new();
    let mut i: usize = 0;
    proof {
        lemma_skips_bound(entries@);
    }
    while i < entries.len()
        invariant
            i <= entries@.len(),
            d == path_view(*dir),
            old(collection).skipped_dirs + entries@.len() <= usize::MAX,
            old(collection).skipped_non_source + entries@.len() <= usize::MAX,
            skipped_dirs_in(entries@) <= entries@.len(),
            skipped_files_in(entries@) <= entries@.len(),
            paths_view(subdirs@) == entered(d, entries@.take(i as int)),
            paths_view(collection.source_files@) == paths_view(old(collection).source_files@) + found(
                d,
                entries@.take(i as int),
            ),
            collection.skipped_dirs == old(collection).skipped_dirs + skipped_dirs_in(entries@.take(i as int)),
            collection.skipped_non_source == old(collection).skipped_non_source + skipped_files_in(
                entries@.take(i as int),
            ),
        decreases entries@.len() - i,
    {
        let ghost pre = entries@.take(i as int);
        let ghost post = entries@.take(i + 1);
        proof {
            assert(post.drop_last() =~= pre);
            assert(post.last() == entries@[i as int]);
            lemma_skips_bound(pre);
            lemma_skips_bound(post);
            assert(skipped_dirs_in(post) <= i + 1);
            assert(skipped_files_in(post) <= i + 1);
        }
        let e = &entries[i];
        if e.is_dir {
            if should_skip_dir(e.name.as_str()) {
                collection.skipped_dirs = collection.skipped_dirs + 1;
            } else {
                let ghost before = subdirs@;
                subdirs.push(child_path(dir, e.name.as_str()));
                proof {
                    assert(paths_view(subdirs@) =~= paths_view(before).push(child(d, e.name@)));
                }
            }
        } else if source_kind(e.name.as_str()).is_some() {
            let ghost before = collection.source_files@;
            collection.source_files.push(child_path(dir, e.name.as_str()));
            proof {
                assert(paths_view(collection.source_files@) =~= paths_view(before).push(child(d, e.name@)));
                assert(paths_view(old(collection).source_files@) + found(d, post) =~= (paths_view(
                    old(collection).source_files@,
                ) + found(d, pre)).push(child(d, e.name@)));
            }
        } else {
            collection.skipped_non_source = collection.skipped_non_source + 1;
        }
        i += 1;
    }
    proof {
        assert(entries@.take(i as int) =~= entries@);
    }
    sort_paths(subdirs)
}

/// The source files of a scan target: a single file is kept when it is
/// source and counted as skipped otherwise; the files found in a directory
/// are put in path order.
pub fn collect_source_files(target: Target) -> (r: FileCollection)
    ensures
        match target {
            Target::File(name) => {
                &&& spec_source_kind(name@) is Some ==> paths_view(r.source_files@) == seq![seq![name@]]
                &&& spec_source_kind(name@) is None ==> paths_view(r.source_files@).len() == 0
                &&& r.skipped_non_source == if spec_source_kind(name@) is Some { 0usize } else { 1usize }
                &&& r.skipped_dirs == 0
            },
            Target::Directory(walked) => {
                &&& paths_sorted(paths_view(r.source_files@))
                &&& paths_view(r.source_files@).to_multiset() == paths_view(walked.source_files@).to_multiset()
                &&& r.skipped_non_source == walked.skipped_non_source
                &&& r.skipped_dirs == walked.skipped_dirs
            },
        },
{
    match target {
        Target::File(name) => {
            let mut source_files: Vec<Vec<String>> = Vec::new();
            let mut skipped_non_source: usize = 0;
            if source_kind(name.as_str()).is_some() {
                let ghost n = name@;
                let one = vec![name];
                proof {
                    assert(path_view(one) =~= seq![n]);
                }
                source_files.push(one);
                proof {
                    assert(paths_view(source_files@) =~= seq![seq![n]]);
                }
            } else {
                skipped_non_source = 1;
            }
            FileCollection { source_files, skipped_non_source, skipped_dirs: 0 }
        },
        Target::Directory(walked) => {
            let FileCollection { source_files, skipped_non_source, skipped_dirs } = walked;
            FileCollection { source_files: sort_paths(source_files), skipped_non_source, skipped_dirs }
        },
    }
}

} // verus!
