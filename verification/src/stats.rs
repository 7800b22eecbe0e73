//! Per-file and per-project feature counters, collected from individual code
//! lines and from the raw text of a file.
use vstd::prelude::*;
use crate::text::{
    any_contains, any_contains_chars, chars_of, count_from, count_matches, count_matches_chars,
    count_non_ascii, count_non_ascii_chars, find_chars, find_from, lemma_count_from_fits,
    lemma_find_from, lines_of, lower, lower_chars, push_str, split_lines, starts_with,
    starts_with_str, contains, contains_str, trim, trim_chars, chars_eq, slice_chars,
};
use crate::source::{CodeLine, LineView};

verus! {

/// Feature counters of a file (or of all files of a project).
#[derive(Clone, Copy, Debug, PartialEq, Eq)]
pub struct FileStats {
    pub csharp: bool,
    pub decompiled: bool,
    pub source_lines: usize,
    pub namespaces: usize,
    pub classes: usize,
    pub config_binds: usize,
    pub harmony_patches: usize,
    pub bep_in_plugin: usize,
    pub base_unity_plugin: usize,
    pub reflection_markers: usize,
    pub generated_mod_markers: usize,
    pub using_count: usize,
    pub assembly_attributes: usize,
    pub debug_metadata: usize,
    pub developer_debug_metadata: usize,
    pub repository_metadata: usize,
    pub named_company_metadata: usize,
    pub title_product_metadata: usize,
    pub informational_version_metadata: usize,
    pub description_metadata: usize,
    pub security_metadata: usize,
    pub ignores_access_checks: usize,
    pub asset_bundle_markers: usize,
    pub file_io_markers: usize,
    pub task_async_markers: usize,
    pub public_static_markers: usize,
    pub non_ascii_chars: usize,
}

/// All counters zero, no flag set.
pub open spec fn zero_stats() -> FileStats {
    FileStats {
        csharp: false,
        decompiled: false,
        source_lines: 0,
        namespaces: 0,
        classes: 0,
        config_binds: 0,
        harmony_patches: 0,
        bep_in_plugin: 0,
        base_unity_plugin: 0,
        reflection_markers: 0,
        generated_mod_markers: 0,
        using_count: 0,
        assembly_attributes: 0,
        debug_metadata: 0,
        developer_debug_metadata: 0,
        repository_metadata: 0,
        named_company_metadata: 0,
        title_product_metadata: 0,
        informational_version_metadata: 0,
        description_metadata: 0,
        security_metadata: 0,
        ignores_access_checks: 0,
        asset_bundle_markers: 0,
        file_io_markers: 0,
        task_async_markers: 0,
        public_static_markers: 0,
        non_ascii_chars: 0,
    }
}

impl Default for FileStats {
    fn default() -> (r: FileStats)
        ensures
            r == zero_stats(),
    {
        FileStats {
            csharp: false,
            decompiled: false,
            source_lines: 0,
            namespaces: 0,
            classes: 0,
            config_binds: 0,
            harmony_patches: 0,
            bep_in_plugin: 0,
            base_unity_plugin: 0,
            reflection_markers: 0,
            generated_mod_markers: 0,
            using_count: 0,
            assembly_attributes: 0,
            debug_metadata: 0,
            developer_debug_metadata: 0,
            repository_metadata: 0,
            named_company_metadata: 0,
            title_product_metadata: 0,
            informational_version_metadata: 0,
            description_metadata: 0,
            security_metadata: 0,
            ignores_access_checks: 0,
            asset_bundle_markers: 0,
            file_io_markers: 0,
            task_async_markers: 0,
            public_static_markers: 0,
            non_ascii_chars: 0,
        }
    }
}

// ---------------------------------------------------------------------------
// Line statistics
// ---------------------------------------------------------------------------

pub open spec fn reflection_stat_markers() -> Seq<&'static str> {
    seq!["accesstools.", "methodinfo", "fieldinfo", ".invoke(", "getfield(", "getmethod("]
}

pub open spec fn generated_stat_markers() -> Seq<&'static str> {
    seq![
        "configdescription(",
        "acceptablevaluerange",
        "log.logwarning(",
        "fallback",
        "restore",
        "reapply",
    ]
}

/// `n`, plus one when `b` holds.
pub open spec fn bump(n: usize, b: bool) -> usize {
    if b {
        (n + 1) as usize
    } else {
        n
    }
}

pub open spec fn is_namespace_line(l: Seq<char>) -> bool {
    starts_with(l, "namespace "@)
}

pub open spec fn is_class_line(l: Seq<char>) -> bool {
    contains(l, " class "@) || starts_with(l, "class "@) || contains(l, "record "@)
}

/// The counters after accounting for one more code line.
pub open spec fn spec_add_line(s: FileStats, line: LineView) -> FileStats {
    let l = lower(line.normalized);
    FileStats {
        csharp: s.csharp || line.csharp,
        decompiled: s.decompiled || line.decompiled,
        source_lines: (s.source_lines + 1) as usize,
        namespaces: bump(s.namespaces, is_namespace_line(l)),
        classes: bump(s.classes, is_class_line(l)),
        config_binds: bump(s.config_binds, contains(l, "config.bind"@)),
        harmony_patches: bump(s.harmony_patches, contains(l, "harmonypatch"@)),
        bep_in_plugin: bump(s.bep_in_plugin, contains(l, "bepinplugin"@)),
        base_unity_plugin: bump(s.base_unity_plugin, contains(l, "baseunityplugin"@)),
        reflection_markers: bump(s.reflection_markers, any_contains(l, reflection_stat_markers())),
        generated_mod_markers: bump(
            s.generated_mod_markers,
            any_contains(l, generated_stat_markers()),
        ),
        ..s
    }
}

/// Room for one more line in every counter a line can raise.
pub open spec fn line_room(s: FileStats) -> bool {
    &&& s.source_lines < usize::MAX
    &&& s.namespaces < usize::MAX
    &&& s.classes < usize::MAX
    &&& s.config_binds < usize::MAX
    &&& s.harmony_patches < usize::MAX
    &&& s.bep_in_plugin < usize::MAX
    &&& s.base_unity_plugin < usize::MAX
    &&& s.reflection_markers < usize::MAX
    &&& s.generated_mod_markers < usize::MAX
}

fn bump_exec(n: usize, b: bool) -> (r: usize)
    requires
        n < usize::MAX,
    ensures
        r == bump(n, b),
{
    if b {
        n + 1
    } else {
        n
    }
}

/// Accounts for one code line in the counters.
pub fn add_line_stats(entry: &mut FileStats, line: &CodeLine)
    requires
        line_room(*old(entry)),
    ensures
        *final(entry) == spec_add_line(*old(entry), line@),
{
    let n = chars_of(line.normalized.as_str());
    let lower = lower_chars(&n);
    let reflection = [
        "accesstools.",
        "methodinfo",
        "fieldinfo",
        ".invoke(",
        "getfield(",
        "getmethod(",
    ];
    assert(reflection@ == reflection_stat_markers());
    let generated = [
        "configdescription(",
        "acceptablevaluerange",
        "log.logwarning(",
        "fallback",
        "restore",
        "reapply",
    ];
    assert(generated@ == generated_stat_markers());
    let namespace = starts_with_str(&lower, "namespace ");
    let class = contains_str(&lower, " class ") || starts_with_str(&lower, "class ")
        || contains_str(&lower, "record ");
    let config = contains_str(&lower, "config.bind");
    let harmony = contains_str(&lower, "harmonypatch");
    let bep = contains_str(&lower, "bepinplugin");
    let unity = contains_str(&lower, "baseunityplugin");
    let refl = any_contains_chars(&lower, &reflection);
    let gen = any_contains_chars(&lower, &generated);
    let e = *entry;
    let updated = FileStats {
        csharp: e.csharp || line.csharp,
        decompiled: e.decompiled || line.decompiled,
        source_lines: e.source_lines + 1,
        namespaces: bump_exec(e.namespaces, namespace),
        classes: bump_exec(e.classes, class),
        config_binds: bump_exec(e.config_binds, config),
        harmony_patches: bump_exec(e.harmony_patches, harmony),
        bep_in_plugin: bump_exec(e.bep_in_plugin, bep),
        base_unity_plugin: bump_exec(e.base_unity_plugin, unity),
        reflection_markers: bump_exec(e.reflection_markers, refl),
        generated_mod_markers: bump_exec(e.generated_mod_markers, gen),
        ..e
    };
    *entry = updated;
}

// ---------------------------------------------------------------------------
// Summing statistics
// ---------------------------------------------------------------------------

/// Field-wise sum of counters, union of flags.
pub open spec fn spec_add_stats(a: FileStats, b: FileStats) -> FileStats {
    FileStats {
        csharp: a.csharp || b.csharp,
        decompiled: a.decompiled || b.decompiled,
        source_lines: (a.source_lines + b.source_lines) as usize,
        namespaces: (a.namespaces + b.namespaces) as usize,
        classes: (a.classes + b.classes) as usize,
        config_binds: (a.config_binds + b.config_binds) as usize,
        harmony_patches: (a.harmony_patches + b.harmony_patches) as usize,
        bep_in_plugin: (a.bep_in_plugin + b.bep_in_plugin) as usize,
        base_unity_plugin: (a.base_unity_plugin + b.base_unity_plugin) as usize,
        reflection_markers: (a.reflection_markers + b.reflection_markers) as usize,
        generated_mod_markers: (a.generated_mod_markers + b.generated_mod_markers) as usize,
        using_count: (a.using_count + b.using_count) as usize,
        assembly_attributes: (a.assembly_attributes + b.assembly_attributes) as usize,
        debug_metadata: (a.debug_metadata + b.debug_metadata) as usize,
        developer_debug_metadata: (a.developer_debug_metadata + b.developer_debug_metadata) as usize,
        repository_metadata: (a.repository_metadata + b.repository_metadata) as usize,
        named_company_metadata: (a.named_company_metadata + b.named_company_metadata) as usize,
        title_product_metadata: (a.title_product_metadata + b.title_product_metadata) as usize,
        informational_version_metadata: (a.informational_version_metadata
            + b.informational_version_metadata) as usize,
        description_metadata: (a.description_metadata + b.description_metadata) as usize,
        security_metadata: (a.security_metadata + b.security_metadata) as usize,
        ignores_access_checks: (a.ignores_access_checks + b.ignores_access_checks) as usize,
        asset_bundle_markers: (a.asset_bundle_markers + b.asset_bundle_markers) as usize,
        file_io_markers: (a.file_io_markers + b.file_io_markers) as usize,
        task_async_markers: (a.task_async_markers + b.task_async_markers) as usize,
        public_static_markers: (a.public_static_markers + b.public_static_markers) as usize,
        non_ascii_chars: (a.non_ascii_chars + b.non_ascii_chars) as usize,
    }
}

/// Every counter of `s` is at most `n`.
pub open spec fn bounded_by(s: FileStats, n: int) -> bool {
    &&& s.source_lines <= n
    &&& s.namespaces <= n
    &&& s.classes <= n
    &&& s.config_binds <= n
    &&& s.harmony_patches <= n
    &&& s.bep_in_plugin <= n
    &&& s.base_unity_plugin <= n
    &&& s.reflection_markers <= n
    &&& s.generated_mod_markers <= n
    &&& s.using_count <= n
    &&& s.assembly_attributes <= n
    &&& s.debug_metadata <= n
    &&& s.developer_debug_metadata <= n
    &&& s.repository_metadata <= n
    &&& s.named_company_metadata <= n
    &&& s.title_product_metadata <= n
    &&& s.informational_version_metadata <= n
    &&& s.description_metadata <= n
    &&& s.security_metadata <= n
    &&& s.ignores_access_checks <= n
    &&& s.asset_bundle_markers <= n
    &&& s.file_io_markers <= n
    &&& s.task_async_markers <= n
    &&& s.public_static_markers <= n
    &&& s.non_ascii_chars <= n
}

/// No field-wise sum of `a` and `b` exceeds `usize::MAX`.
pub open spec fn sums_fit(a: FileStats, b: FileStats) -> bool {
    &&& a.source_lines + b.source_lines <= usize::MAX
    &&& a.namespaces + b.namespaces <= usize::MAX
    &&& a.classes + b.classes <= usize::MAX
    &&& a.config_binds + b.config_binds <= usize::MAX
    &&& a.harmony_patches + b.harmony_patches <= usize::MAX
    &&& a.bep_in_plugin + b.bep_in_plugin <= usize::MAX
    &&& a.base_unity_plugin + b.base_unity_plugin <= usize::MAX
    &&& a.reflection_markers + b.reflection_markers <= usize::MAX
    &&& a.generated_mod_markers + b.generated_mod_markers <= usize::MAX
    &&& a.using_count + b.using_count <= usize::MAX
    &&& a.assembly_attributes + b.assembly_attributes <= usize::MAX
    &&& a.debug_metadata + b.debug_metadata <= usize::MAX
    &&& a.developer_debug_metadata + b.developer_debug_metadata <= usize::MAX
    &&& a.repository_metadata + b.repository_metadata <= usize::MAX
    &&& a.named_company_metadata + b.named_company_metadata <= usize::MAX
    &&& a.title_product_metadata + b.title_product_metadata <= usize::MAX
    &&& a.informational_version_metadata + b.informational_version_metadata <= usize::MAX
    &&& a.description_metadata + b.description_metadata <= usize::MAX
    &&& a.security_metadata + b.security_metadata <= usize::MAX
    &&& a.ignores_access_checks + b.ignores_access_checks <= usize::MAX
    &&& a.asset_bundle_markers + b.asset_bundle_markers <= usize::MAX
    &&& a.file_io_markers + b.file_io_markers <= usize::MAX
    &&& a.task_async_markers + b.task_async_markers <= usize::MAX
    &&& a.public_static_markers + b.public_static_markers <= usize::MAX
    &&& a.non_ascii_chars + b.non_ascii_chars <= usize::MAX
}

/// Adds the counters of `stats` into `entry`.
pub fn add_file_stats(entry: &mut FileStats, stats: &FileStats)
    requires
        sums_fit(*old(entry), *stats),
    ensures
        *final(entry) == spec_add_stats(*old(entry), *stats),
{
    let e = *entry;
    let updated = FileStats {
        csharp: e.csharp || stats.csharp,
        decompiled: e.decompiled || stats.decompiled,
        source_lines: e.source_lines + stats.source_lines,
        namespaces: e.namespaces + stats.namespaces,
        classes: e.classes + stats.classes,
        config_binds: e.config_binds + stats.config_binds,
        harmony_patches: e.harmony_patches + stats.harmony_patches,
        bep_in_plugin: e.bep_in_plugin + stats.bep_in_plugin,
        base_unity_plugin: e.base_unity_plugin + stats.base_unity_plugin,
        reflection_markers: e.reflection_markers + stats.reflection_markers,
        generated_mod_markers: e.generated_mod_markers + stats.generated_mod_markers,
        using_count: e.using_count + stats.using_count,
        assembly_attributes: e.assembly_attributes + stats.assembly_attributes,
        debug_metadata: e.debug_metadata + stats.debug_metadata,
        developer_debug_metadata: e.developer_debug_metadata + stats.developer_debug_metadata,
        repository_metadata: e.repository_metadata + stats.repository_metadata,
        named_company_metadata: e.named_company_metadata + stats.named_company_metadata,
        title_product_metadata: e.title_product_metadata + stats.title_product_metadata,
        informational_version_metadata: e.informational_version_metadata + stats.informational_version_metadata,
        description_metadata: e.description_metadata + stats.description_metadata,
        security_metadata: e.security_metadata + stats.security_metadata,
        ignores_access_checks: e.ignores_access_checks + stats.ignores_access_checks,
        asset_bundle_markers: e.asset_bundle_markers + stats.asset_bundle_markers,
        file_io_markers: e.file_io_markers + stats.file_io_markers,
        task_async_markers: e.task_async_markers + stats.task_async_markers,
        public_static_markers: e.public_static_markers + stats.public_static_markers,
        non_ascii_chars: e.non_ascii_chars + stats.non_ascii_chars,
    };
    *entry = updated;
}

// ---------------------------------------------------------------------------
// Raw text statistics
// ---------------------------------------------------------------------------

/// `[assembly: <key>("`
pub open spec fn assembly_prefix(key: Seq<char>) -> Seq<char> {
    "[assembly: "@ + key + "(\""@
}

/// The trimmed line declares the assembly attribute `key` with a value that
/// is not blank.
pub open spec fn declares_named_value(line: Seq<char>, key: Seq<char>) -> bool {
    let t = trim(line);
    let prefix = assembly_prefix(key);
    let rest = t.skip(prefix.len() as int);
    &&& starts_with(t, prefix)
    &&& find_from(rest, "\")]"@, 0) matches Some(end)
    &&& trim(rest.take(end)).len() > 0
}

/// Some line of the text declares the attribute `key` with a non-blank value.
pub open spec fn spec_named_assembly_value(text: Seq<char>, key: Seq<char>) -> bool {
    exists|k: int| 0 <= k < lines_of(text).len() && declares_named_value(lines_of(text)[k], key)
}

fn declares_named_value_exec(line: &[char], prefix: &[char], key: Ghost<Seq<char>>) -> (r: bool)
    requires
        prefix@ == assembly_prefix(key@),
    ensures
        r == declares_named_value(line@, key@),
{
    let t = trim_chars(line);
    if !crate::text::matches_at(&t, prefix, 0) {
        return false;
    }
    let rest = slice_chars(&t, prefix.len(), t.len());
    assert(rest@ == t@.skip(prefix@.len() as int));
    let close = chars_of("\")]");
    match find_chars(&rest, &close) {
        Some(end) => {
            proof {
                lemma_find_from(rest@, close@, 0);
            }
            let value = slice_chars(&rest, 0, end);
            let tv = trim_chars(&value);
            assert(value@ == rest@.take(end as int));
            tv.len() > 0
        },
        None => false,
    }
}

/// Some line declares `[assembly: <key>("...")]` with a non-blank value.
pub fn named_assembly_value(text: &str, key: &str) -> (r: bool)
    ensures
        r == spec_named_assembly_value(text@, key@),
{
    let t = chars_of(text);
    named_assembly_value_chars(&t, key)
}

pub fn named_assembly_value_chars(text: &[char], key: &str) -> (r: bool)
    ensures
        r == spec_named_assembly_value(text@, key@),
{
    let mut prefix = String::new();
    push_str(&mut prefix, "[assembly: ");
    push_str(&mut prefix, key);
    push_str(&mut prefix, "(\"");
    let p = chars_of(prefix.as_str());
    let lines = split_lines(text);
    let mut k: usize = 0;
    while k < lines.len()
        invariant
            k <= lines.len(),
            p@ == assembly_prefix(key@),
            lines@.len() == lines_of(text@).len(),
            forall|j: int| 0 <= j < lines@.len() ==> #[trigger] lines@[j]@ == lines_of(text@)[j],
            forall|j: int| 0 <= j < k ==> !declares_named_value(lines_of(text@)[j], key@),
        decreases lines.len() - k,
    {
        if declares_named_value_exec(lines[k].as_slice(), &p, Ghost(key@)) {
            assert(lines@[k as int]@ == lines_of(text@)[k as int]);
            return true;
        }
        k += 1;
    }
    false
}

/// Non-overlapping occurrences of `needle` in `value` (`str::matches`).
pub fn count_occurrences(value: &str, needle: &str) -> (r: usize)
    requires
        value@.len() < usize::MAX,
    ensures
        r == count_matches(value@, needle@),
{
    let v = chars_of(value);
    let n = chars_of(needle);
    count_matches_chars(&v, &n)
}

/// Occurrences of a pattern of at least `w` characters in `l`; the count
/// times `w` fits in the text.
fn count_in(l: &[char], needle: &str, w: Ghost<nat>) -> (r: usize)
    requires
        needle@.len() >= w@ > 0,
        l@.len() < usize::MAX,
    ensures
        r == count_matches(l@, needle@),
        r * w@ <= l@.len(),
{
    let n = chars_of(needle);
    let r = count_matches_chars(l, &n);
    proof {
        lemma_count_from_fits(l@, needle@, 0);
        assert(r * w@ <= r * needle@.len()) by (nonlinear_arith)
            requires
                needle@.len() >= w@;
    }
    r
}

/// Counters read from the whole text of a file.
pub open spec fn spec_inspect_raw(text: Seq<char>, csharp: bool, decompiled: bool) -> FileStats {
    let l = lower(text);
    FileStats {
        csharp,
        decompiled,
        using_count: count_matches(l, "\nusing "@) as usize,
        assembly_attributes: count_matches(l, "[assembly:"@) as usize,
        debug_metadata: count_matches(l, "assemblyconfiguration(\"debug\")"@) as usize,
        developer_debug_metadata: (count_matches(l, "disableoptimizations"@) + count_matches(
            l,
            "enableeditandcontinue"@,
        )) as usize,
        repository_metadata: count_matches(l, "repositoryurl"@) as usize,
        named_company_metadata: if spec_named_assembly_value(text, "AssemblyCompany"@) {
            1
        } else {
            0
        },
        title_product_metadata: ((if spec_named_assembly_value(text, "AssemblyTitle"@) {
            1int
        } else {
            0int
        }) + (if spec_named_assembly_value(text, "AssemblyProduct"@) {
            1int
        } else {
            0int
        })) as usize,
        informational_version_metadata: count_matches(l, "assemblyinformationalversion"@) as usize,
        description_metadata: if spec_named_assembly_value(text, "AssemblyDescription"@) {
            1
        } else {
            0
        },
        security_metadata: count_matches(l, "securitypermission"@) as usize,
        ignores_access_checks: count_matches(l, "ignoresaccesschecksto"@) as usize,
        asset_bundle_markers: count_matches(l, "assetbundle"@) as usize,
        file_io_markers: (count_matches(l, "file."@) + count_matches(l, "directory."@)
            + count_matches(l, "path."@)) as usize,
        task_async_markers: (count_matches(l, "async"@) + count_matches(l, "await"@)
            + count_matches(l, "task"@)) as usize,
        public_static_markers: count_matches(l, "public static"@) as usize,
        non_ascii_chars: count_non_ascii(text) as usize,
        ..zero_stats()
    }
}

/// Counters read from the raw text of a file: `using` directives, assembly
/// metadata, I/O, async and API markers, non-ASCII characters.
pub fn inspect_raw_file_stats(text: &str, csharp: bool, decompiled: bool) -> (r: FileStats)
    requires
        text@.len() < usize::MAX,
    ensures
        r == spec_inspect_raw(text@, csharp, decompiled),
        bounded_by(r, text@.len() + 2int),
{
    let t = chars_of(text);
    inspect_raw_chars(&t, csharp, decompiled)
}

pub fn inspect_raw_chars(text: &[char], csharp: bool, decompiled: bool) -> (r: FileStats)
    requires
        text@.len() < usize::MAX,
    ensures
        r == spec_inspect_raw(text@, csharp, decompiled),
        bounded_by(r, text@.len() + 2int),
{
    let l = lower_chars(text);
    assert(l@.len() == text@.len());
    proof {
        reveal_strlit("\nusing ");
        reveal_strlit("[assembly:");
        reveal_strlit("assemblyconfiguration(\"debug\")");
        reveal_strlit("disableoptimizations");
        reveal_strlit("enableeditandcontinue");
        reveal_strlit("repositoryurl");
        reveal_strlit("assemblyinformationalversion");
        reveal_strlit("securitypermission");
        reveal_strlit("ignoresaccesschecksto");
        reveal_strlit("assetbundle");
        reveal_strlit("file.");
        reveal_strlit("directory.");
        reveal_strlit("path.");
        reveal_strlit("async");
        reveal_strlit("await");
        reveal_strlit("task");
        reveal_strlit("public static");
    }
    let using_count = count_in(&l, "\nusing ", Ghost(1));
    let assembly_attributes = count_in(&l, "[assembly:", Ghost(1));
    let debug_metadata = count_in(&l, "assemblyconfiguration(\"debug\")", Ghost(1));
    let dev1 = count_in(&l, "disableoptimizations", Ghost(2));
    let dev2 = count_in(&l, "enableeditandcontinue", Ghost(2));
    let repository_metadata = count_in(&l, "repositoryurl", Ghost(1));
    let company = named_assembly_value_chars(text, "AssemblyCompany");
    let title = named_assembly_value_chars(text, "AssemblyTitle");
    let product = named_assembly_value_chars(text, "AssemblyProduct");
    let description = named_assembly_value_chars(text, "AssemblyDescription");
    let informational = count_in(&l, "assemblyinformationalversion", Ghost(1));
    let security = count_in(&l, "securitypermission", Ghost(1));
    let ignores = count_in(&l, "ignoresaccesschecksto", Ghost(1));
    let asset = count_in(&l, "assetbundle", Ghost(1));
    let io1 = count_in(&l, "file.", Ghost(3));
    let io2 = count_in(&l, "directory.", Ghost(3));
    let io3 = count_in(&l, "path.", Ghost(3));
    let t1 = count_in(&l, "async", Ghost(3));
    let t2 = count_in(&l, "await", Ghost(3));
    let t3 = count_in(&l, "task", Ghost(3));
    let public_static = count_in(&l, "public static", Ghost(1));
    let non_ascii = count_non_ascii_chars(text);
    proof {
        assert(dev1 + dev2 <= l@.len()) by (nonlinear_arith)
            requires
                dev1 * 2 <= l@.len(),
                dev2 * 2 <= l@.len(),
        ;
        assert(io1 + io2 + io3 <= l@.len()) by (nonlinear_arith)
            requires
                io1 * 3 <= l@.len(),
                io2 * 3 <= l@.len(),
                io3 * 3 <= l@.len(),
        ;
        assert(t1 + t2 + t3 <= l@.len()) by (nonlinear_arith)
            requires
                t1 * 3 <= l@.len(),
                t2 * 3 <= l@.len(),
                t3 * 3 <= l@.len(),
        ;
        assert(using_count * 1 == using_count);
    }
    let r = FileStats {
        csharp,
        decompiled,
        source_lines: 0,
        namespaces: 0,
        classes: 0,
        config_binds: 0,
        harmony_patches: 0,
        bep_in_plugin: 0,
        base_unity_plugin: 0,
        reflection_markers: 0,
        generated_mod_markers: 0,
        using_count,
        assembly_attributes,
        debug_metadata,
        developer_debug_metadata: dev1 + dev2,
        repository_metadata,
        named_company_metadata: if company { 1 } else { 0 },
        title_product_metadata: (if title { 1 } else { 0 }) + (if product { 1 } else { 0 }),
        informational_version_metadata: informational,
        description_metadata: if description { 1 } else { 0 },
        security_metadata: security,
        ignores_access_checks: ignores,
        asset_bundle_markers: asset,
        file_io_markers: io1 + io2 + io3,
        task_async_markers: t1 + t2 + t3,
        public_static_markers: public_static,
        non_ascii_chars: non_ascii,
    };
    r
}

/// Adding all-zero counters changes nothing, and when the sums fit, the
/// order in which two sets of counters are added does not matter.
pub proof fn law_add_stats_zero_and_order(e: FileStats, a: FileStats, b: FileStats)
    ensures
        spec_add_stats(e, zero_stats()) == e,
        sums_fit(e, a) && sums_fit(spec_add_stats(e, a), b) ==> spec_add_stats(spec_add_stats(e, a), b)
            == spec_add_stats(spec_add_stats(e, b), a),
{
}

} // verus!
