//! File profiles (generated-plugin and decompiled-assembly feature rules) and
//! the score of a single line, in thousandths.
use vstd::prelude::*;
use vstd::hash_set::StringHashSet;
use crate::source::{CodeLine, LineView};
use crate::stats::FileStats;
use crate::syntax::{utf8_len, utf8_len_at_most};
use crate::text::{
    any_contains, any_contains_chars, chars_of, contains, contains_str, decimal, join,
    lower, lower_chars, push_decimal, push_joined, push_str, string_from, strings_view,
};

verus! {

// ---------------------------------------------------------------------------
// Sets of normalized lines
// ---------------------------------------------------------------------------

/// A set of normalized code lines (a calibration profile or the shared
/// template lines of a scan).
pub struct LineSet {
    set: StringHashSet,
}

impl View for LineSet {
    type V = Set<Seq<char>>;

    closed spec fn view(&self) -> Set<Seq<char>> {
        self.set@
    }
}

impl LineSet {
    pub fn new() -> (r: LineSet)
        ensures
            r@ == Set::<Seq<char>>::empty(),
    {
        LineSet { set: StringHashSet::new() }
    }

    pub fn contains(&self, line: &str) -> (r: bool)
        ensures
            r == self@.contains(line@),
    {
        self.set.contains(line)
    }

    pub fn insert(&mut self, line: String)
        ensures
            final(self)@ == old(self)@.insert(line@),
    {
        self.set.insert(line);
    }

    pub fn len(&self) -> (r: usize)
        ensures
            r == self@.len(),
    {
        broadcast use vstd::hash_set::axiom_string_hash_set_spec_len;
        self.set.len()
    }
}

// ---------------------------------------------------------------------------
// Feature rules
// ---------------------------------------------------------------------------

/// A feature rule: whether it fires, its weight, and the reason it reports.
pub type Rule = (bool, usize, &'static str);

/// Total weight of the rules that fire.
pub open spec fn rules_weight(rules: Seq<Rule>) -> nat
    decreases rules.len(),
{
    if rules.len() == 0 {
        0
    } else {
        rules_weight(rules.drop_last()) + if rules.last().0 {
            rules.last().1 as nat
        } else {
            0nat
        }
    }
}

/// Reasons of the rules that fire, in rule order.
pub open spec fn rules_reasons(rules: Seq<Rule>) -> Seq<Seq<char>>
    decreases rules.len(),
{
    if rules.len() == 0 {
        seq![]
    } else {
        rules_reasons(rules.drop_last()) + if rules.last().0 {
            seq![rules.last().2@]
        } else {
            seq![]
        }
    }
}

proof fn lemma_rules_weight_bound(rules: Seq<Rule>, w: nat)
    requires
        forall|k: int| 0 <= k < rules.len() ==> (#[trigger] rules[k]).1 <= w,
    ensures
        rules_weight(rules) <= rules.len() * w,
    decreases rules.len(),
{
    if rules.len() > 0 {
        lemma_rules_weight_bound(rules.drop_last(), w);
        assert((rules.len() - 1) * w + w == rules.len() * w) by (nonlinear_arith);
    }
}

/// Adds the weights of the firing rules to `total` and their reasons to
/// `reasons`.
fn apply_rules(rules: &[Rule], total: &mut usize, reasons: &mut Vec<String>)
    requires
        *old(total) + rules@.len() * 1000 <= usize::MAX,
        forall|k: int| 0 <= k < rules@.len() ==> (#[trigger] rules@[k]).1 <= 1000,
    ensures
        *final(total) == *old(total) + rules_weight(rules@),
        rules_weight(rules@) <= rules@.len() * 1000,
        strings_view(final(reasons)@) == strings_view(old(reasons)@) + rules_reasons(rules@),
{
    let mut i: usize = 0;
    proof {
        lemma_rules_weight_bound(rules@, 1000);
    }
    while i < rules.len()
        invariant
            i <= rules@.len(),
            *old(total) + rules@.len() * 1000 <= usize::MAX,
            forall|k: int| 0 <= k < rules@.len() ==> (#[trigger] rules@[k]).1 <= 1000,
            *total == *old(total) + rules_weight(rules@.take(i as int)),
            strings_view(reasons@) == strings_view(old(reasons)@) + rules_reasons(rules@.take(i as int)),
        decreases rules@.len() - i,
    {
        proof {
            assert(rules@.take(i + 1).drop_last() =~= rules@.take(i as int));
            lemma_rules_weight_bound(rules@.take(i as int), 1000);
            assert(i * 1000 <= rules@.len() * 1000 - 1000) by (nonlinear_arith)
                requires
                    i < rules@.len(),
            ;
        }
        let (fires, weight, reason) = rules[i];
        assert(rules@.take(i + 1).last() == rules@[i as int]);
        assert((fires, weight, reason) == rules@[i as int]);
        let ghost before = reasons@;
        if fires {
            *total = *total + weight;
            let text = string_from(reason);
            reasons.push(text);
            assert(strings_view(reasons@) =~= strings_view(before).push(reason@));
        } else {
            assert(strings_view(reasons@) =~= strings_view(before));
        }
        proof {
            let t = rules@.take(i + 1);
            assert(rules_reasons(t) == rules_reasons(t.drop_last()) + if t.last().0 {
                seq![t.last().2@]
            } else {
                seq![]
            });
            assert(strings_view(reasons@) =~= strings_view(old(reasons)@) + rules_reasons(
                rules@.take(i + 1),
            ));
        }
        i += 1;
    }
    proof {
        assert(rules@.take(i as int) =~= rules@);
    }
}

// ---------------------------------------------------------------------------
// File profiles
// ---------------------------------------------------------------------------

/// The profile of a file, derived from its counters.
pub struct DecompiledProfile {
    pub ai_features: usize,
    pub legit_features: usize,
    /// Base score of every line of the file, in thousandths.
    pub base_score: u32,
    /// Cap on the score of every line of the file, in thousandths.
    pub cap: u32,
    pub ai_positive: bool,
    pub strong_legit: bool,
    pub summary: String,
}

/// Mathematical view of [`DecompiledProfile`].
pub struct ProfileView {
    pub ai_features: nat,
    pub legit_features: nat,
    pub base_score: nat,
    pub cap: nat,
    pub ai_positive: bool,
    pub strong_legit: bool,
    pub summary: Seq<char>,
}

impl View for DecompiledProfile {
    type V = ProfileView;

    open spec fn view(&self) -> ProfileView {
        ProfileView {
            ai_features: self.ai_features as nat,
            legit_features: self.legit_features as nat,
            base_score: self.base_score as nat,
            cap: self.cap as nat,
            ai_positive: self.ai_positive,
            strong_legit: self.strong_legit,
            summary: self.summary@,
        }
    }
}

pub open spec fn standalone_mod(s: FileStats) -> bool {
    s.bep_in_plugin > 0 || s.base_unity_plugin > 0
}

/// Rules of a non-decompiled C# plugin.
pub open spec fn plugin_rules(s: FileStats) -> Seq<Rule> {
    seq![
        (true, 4usize, "standalone C# plugin structure"),
        (s.config_binds > 0, 2usize, "configuration binding"),
        (s.harmony_patches > 0 || s.reflection_markers > 0, 2usize, "Harmony/reflection patching"),
        (s.generated_mod_markers > 0, 1usize, "generated guard/config idioms"),
    ]
}

pub open spec fn has_legit_metadata(s: FileStats) -> bool {
    s.debug_metadata > 0 || s.repository_metadata > 0 || s.security_metadata > 0
        || s.ignores_access_checks > 0 || s.description_metadata > 0
}

/// Rules that count towards generated code in a decompiled file.
pub open spec fn ai_rules(s: FileStats) -> Seq<Rule> {
    let standalone = standalone_mod(s);
    let legit = has_legit_metadata(s);
    seq![
        (s.config_binds >= 8, 3usize, "dense config binding"),
        (s.harmony_patches + s.reflection_markers >= 10, 3usize, "dense Harmony/reflection patching"),
        (s.config_binds >= 3 && s.harmony_patches >= 3, 2usize, "combined config and patch density"),
        (standalone && !legit && (s.config_binds > 0 || s.harmony_patches > 0), 2usize,
            "low-metadata standalone mod profile"),
        (s.source_lines < 400 && standalone && !legit && (s.config_binds > 0 || s.harmony_patches
            > 0 || s.reflection_markers > 0), 2usize, "short utility-mod shape"),
        (s.generated_mod_markers >= 6, 1usize, "generated guard/config idioms"),
    ]
}

/// Rules that count towards authored code in a decompiled file.
pub open spec fn legit_rules(s: FileStats) -> Seq<Rule> {
    let legit = has_legit_metadata(s);
    seq![
        (s.repository_metadata > 0, 4usize, "repository metadata"),
        (s.debug_metadata > 0, 2usize, "debug build metadata"),
        (s.security_metadata > 0 || s.ignores_access_checks > 0, 1usize,
            "assembly access/security metadata"),
        (s.description_metadata > 0, 1usize, "descriptive assembly metadata"),
        (s.named_company_metadata > 0 && legit, 1usize, "named author/company metadata"),
        (s.developer_debug_metadata > 0 && s.title_product_metadata >= 2 && s.config_binds == 0
            && s.reflection_markers == 0 && s.source_lines < 150 && s.harmony_patches <= 5, 5usize,
            "tiny developer-debug UI patch profile"),
        (s.ignores_access_checks >= 10 && s.informational_version_metadata > 0
            && s.named_company_metadata > 0, 5usize, "broad assembly access dependency surface"),
        (s.named_company_metadata > 0 && s.title_product_metadata >= 2
            && s.informational_version_metadata > 0 && s.source_lines < 150 && s.config_binds == 0
            && s.harmony_patches == 0 && s.reflection_markers <= 3, 5usize,
            "compact release-metadata UI hook profile"),
        (s.asset_bundle_markers > 0, 5usize, "asset/library integration surface"),
        (s.public_static_markers >= 20, 2usize, "broad public API surface"),
        (s.namespaces >= 4 || s.classes >= 20, 2usize, "multi-type architecture"),
        (s.source_lines >= 1200 && s.config_binds <= 2 && s.namespaces >= 3, 3usize,
            "large low-config library/application profile"),
        (s.task_async_markers >= 10 && s.file_io_markers >= 10 && s.config_binds <= 4, 8usize,
            "async file-workflow implementation"),
        (s.named_company_metadata > 0 && s.source_lines >= 300 && s.config_binds <= 2
            && s.harmony_patches <= 1, 5usize, "named low-config utility/library profile"),
        (s.named_company_metadata > 0 && s.using_count >= 18 && s.source_lines >= 700 && (
        s.repository_metadata > 0 || s.description_metadata > 0 || s.asset_bundle_markers > 0),
            2usize, "broad dependency surface with named metadata"),
    ]
}

/// `<class>; ai_features=<ai>; legit_features=<legit>; <reasons>`
pub open spec fn profile_summary(class: Seq<char>, ai: nat, legit: nat, reasons: Seq<Seq<char>>) -> Seq<
    char,
> {
    class + "; ai_features="@ + decimal(ai) + "; legit_features="@ + decimal(legit) + "; "@ + join(
        reasons,
        ", "@,
    )
}

/// The profile of a file. A non-decompiled C# plugin (BepInEx or Unity
/// plugin base) is fully AI-positive with score 1; other non-decompiled
/// files score 0. A decompiled file weighs generated-code rules against
/// authored-code rules: strongly legitimate files are capped at 0.02,
/// AI-positive ones score 0.91 capped at 0.98, ambiguous ones with some
/// generated-code evidence 0.90 capped at 0.96, and the rest 0.01 capped
/// at 0.02.
pub open spec fn spec_decompiled_profile(s: FileStats) -> ProfileView {
    if !s.decompiled {
        if s.csharp && standalone_mod(s) {
            let ai = rules_weight(plugin_rules(s));
            ProfileView {
                ai_features: ai,
                legit_features: 0,
                base_score: 1000,
                cap: 1000,
                ai_positive: true,
                strong_legit: false,
                summary: profile_summary(
                    "generated C# plugin profile"@,
                    ai,
                    0,
                    rules_reasons(plugin_rules(s)),
                ),
            }
        } else {
            ProfileView {
                ai_features: 0,
                legit_features: 0,
                base_score: 0,
                cap: 0,
                ai_positive: false,
                strong_legit: false,
                summary: "normal source file profile"@,
            }
        }
    } else {
        let ai = rules_weight(ai_rules(s));
        let legit = rules_weight(legit_rules(s));
        let strong = legit >= 5 && legit + 1 >= ai;
        let positive = ai >= 4 && !strong;
        let (base, cap) = if strong {
            (10nat, 20nat)
        } else if positive {
            (910nat, 980nat)
        } else if ai >= 2 {
            (900nat, 960nat)
        } else {
            (10nat, 20nat)
        };
        let class = if strong {
            "legitimate decompiled profile cap"@
        } else if positive {
            "AI-positive decompiled profile"@
        } else {
            "ambiguous decompiled profile"@
        };
        ProfileView {
            ai_features: ai,
            legit_features: legit,
            base_score: base,
            cap,
            ai_positive: positive,
            strong_legit: strong,
            summary: profile_summary(
                class,
                ai,
                legit,
                rules_reasons(ai_rules(s)) + rules_reasons(legit_rules(s)),
            ),
        }
    }
}

fn build_summary(class: &str, ai: usize, legit: usize, reasons: &Vec<String>) -> (r: String)
    ensures
        r@ == profile_summary(class@, ai as nat, legit as nat, strings_view(reasons@)),
{
    let mut out = String::new();
    push_str(&mut out, class);
    push_str(&mut out, "; ai_features=");
    push_decimal(&mut out, ai);
    push_str(&mut out, "; legit_features=");
    push_decimal(&mut out, legit);
    push_str(&mut out, "; ");
    push_joined(&mut out, reasons, ", ");
    out
}

/// Whether `a + b >= n`, without forming the sum.
fn sum_at_least(a: usize, b: usize, n: usize) -> (r: bool)
    ensures
        r == (a + b >= n),
{
    a >= n || b >= n - a
}

fn plugin_profile(s: FileStats) -> (r: DecompiledProfile)
    requires
        !s.decompiled && s.csharp && standalone_mod(s),
    ensures
        r@ == spec_decompiled_profile(s),
{
    let rules: [Rule; 4] = [
        (true, 4, "standalone C# plugin structure"),
        (s.config_binds > 0, 2, "configuration binding"),
        (s.harmony_patches > 0 || s.reflection_markers > 0, 2, "Harmony/reflection patching"),
        (s.generated_mod_markers > 0, 1, "generated guard/config idioms"),
    ];
    assert(rules@ == plugin_rules(s));
    let mut ai: usize = 0;
    let mut reasons: Vec<String> = Vec::new();
    apply_rules(&rules, &mut ai, &mut reasons);
    assert(strings_view(reasons@) =~= rules_reasons(plugin_rules(s)));
    let summary = build_summary("generated C# plugin profile", ai, 0, &reasons);
    DecompiledProfile {
        ai_features: ai,
        legit_features: 0,
        base_score: 1000,
        cap: 1000,
        ai_positive: true,
        strong_legit: false,
        summary,
    }
}

fn ai_rule_list(s: FileStats) -> (r: [Rule; 6])
    ensures
        r@ == ai_rules(s),
{
    let standalone = s.bep_in_plugin > 0 || s.base_unity_plugin > 0;
    let legit_meta = s.debug_metadata > 0 || s.repository_metadata > 0 || s.security_metadata > 0
        || s.ignores_access_checks > 0 || s.description_metadata > 0;
    let r: [Rule; 6] = [
        (s.config_binds >= 8, 3, "dense config binding"),
        (sum_at_least(s.harmony_patches, s.reflection_markers, 10), 3, "dense Harmony/reflection patching"),
        (s.config_binds >= 3 && s.harmony_patches >= 3, 2, "combined config and patch density"),
        (standalone && !legit_meta && (s.config_binds > 0 || s.harmony_patches > 0), 2,
            "low-metadata standalone mod profile"),
        (s.source_lines < 400 && standalone && !legit_meta && (s.config_binds > 0
            || s.harmony_patches > 0 || s.reflection_markers > 0), 2, "short utility-mod shape"),
        (s.generated_mod_markers >= 6, 1, "generated guard/config idioms"),
    ];
    assert(r@ =~= ai_rules(s));
    r
}

fn legit_rule_list(s: FileStats) -> (r: [Rule; 15])
    ensures
        r@ == legit_rules(s),
{
    let legit_meta = s.debug_metadata > 0 || s.repository_metadata > 0 || s.security_metadata > 0
        || s.ignores_access_checks > 0 || s.description_metadata > 0;
    let r: [Rule; 15] = [
        (s.repository_metadata > 0, 4, "repository metadata"),
        (s.debug_metadata > 0, 2, "debug build metadata"),
        (s.security_metadata > 0 || s.ignores_access_checks > 0, 1,
            "assembly access/security metadata"),
        (s.description_metadata > 0, 1, "descriptive assembly metadata"),
        (s.named_company_metadata > 0 && legit_meta, 1, "named author/company metadata"),
        (s.developer_debug_metadata > 0 && s.title_product_metadata >= 2 && s.config_binds == 0
            && s.reflection_markers == 0 && s.source_lines < 150 && s.harmony_patches <= 5, 5,
            "tiny developer-debug UI patch profile"),
        (s.ignores_access_checks >= 10 && s.informational_version_metadata > 0
            && s.named_company_metadata > 0, 5, "broad assembly access dependency surface"),
        (s.named_company_metadata > 0 && s.title_product_metadata >= 2
            && s.informational_version_metadata > 0 && s.source_lines < 150 && s.config_binds == 0
            && s.harmony_patches == 0 && s.reflection_markers <= 3, 5,
            "compact release-metadata UI hook profile"),
        (s.asset_bundle_markers > 0, 5, "asset/library integration surface"),
        (s.public_static_markers >= 20, 2, "broad public API surface"),
        (s.namespaces >= 4 || s.classes >= 20, 2, "multi-type architecture"),
        (s.source_lines >= 1200 && s.config_binds <= 2 && s.namespaces >= 3, 3,
            "large low-config library/application profile"),
        (s.task_async_markers >= 10 && s.file_io_markers >= 10 && s.config_binds <= 4, 8,
            "async file-workflow implementation"),
        (s.named_company_metadata > 0 && s.source_lines >= 300 && s.config_binds <= 2
            && s.harmony_patches <= 1, 5, "named low-config utility/library profile"),
        (s.named_company_metadata > 0 && s.using_count >= 18 && s.source_lines >= 700 && (
        s.repository_metadata > 0 || s.description_metadata > 0 || s.asset_bundle_markers > 0), 2,
            "broad dependency surface with named metadata"),
    ];
    assert(r@ =~= legit_rules(s));
    r
}

fn assembly_profile(s: FileStats) -> (r: DecompiledProfile)
    requires
        s.decompiled,
    ensures
        r@ == spec_decompiled_profile(s),
{
    let ai_list = ai_rule_list(s);
    let legit_list = legit_rule_list(s);
    let mut ai: usize = 0;
    let mut legit: usize = 0;
    let mut reasons: Vec<String> = Vec::new();
    apply_rules(&ai_list, &mut ai, &mut reasons);
    apply_rules(&legit_list, &mut legit, &mut reasons);
    assert(strings_view(reasons@) =~= rules_reasons(ai_rules(s)) + rules_reasons(legit_rules(s)));
    let strong_legit = legit >= 5 && legit + 1 >= ai;
    let ai_positive = ai >= 4 && !strong_legit;
    let (base_score, cap): (u32, u32) = if strong_legit {
        (10, 20)
    } else if ai_positive {
        (910, 980)
    } else if ai >= 2 {
        (900, 960)
    } else {
        (10, 20)
    };
    let class = if strong_legit {
        "legitimate decompiled profile cap"
    } else if ai_positive {
        "AI-positive decompiled profile"
    } else {
        "ambiguous decompiled profile"
    };
    let summary = build_summary(class, ai, legit, &reasons);
    DecompiledProfile { ai_features: ai, legit_features: legit, base_score, cap, ai_positive, strong_legit, summary }
}

/// Derives the profile of a file from its counters.
pub fn decompiled_profile(stats: &FileStats) -> (r: DecompiledProfile)
    ensures
        r@ == spec_decompiled_profile(*stats),
{
    let s = *stats;
    if !s.decompiled {
        if s.csharp && (s.bep_in_plugin > 0 || s.base_unity_plugin > 0) {
            return plugin_profile(s);
        }
        return DecompiledProfile {
            ai_features: 0,
            legit_features: 0,
            base_score: 0,
            cap: 0,
            ai_positive: false,
            strong_legit: false,
            summary: string_from("normal source file profile"),
        };
    }
    assembly_profile(s)
}

// ---------------------------------------------------------------------------
// Line scores
// ---------------------------------------------------------------------------

pub open spec fn reflection_score_markers() -> Seq<&'static str> {
    seq!["accesstools.", "methodinfo", "fieldinfo", ".invoke(", "typebyname", "findobjectsbytype"]
}

pub open spec fn generated_score_markers() -> Seq<&'static str> {
    seq![
        "config.bind(",
        "configdescription(",
        "acceptablevaluerange",
        "log.logwarning(",
        "fallback",
        "restore",
        "reapply",
    ]
}

pub open spec fn defensive_markers() -> Seq<&'static str> {
    seq!["tryparse", "catch (exception", "?.", "??", "== null", "!= null", "out var", "is not"]
}

pub open spec fn unity_markers() -> Seq<&'static str> {
    seq!["mathf.", "rendersettings.", "unityobject."]
}

/// Per-line pattern rules, weighted in thousandths. In a strongly legitimate
/// decompiled file the pattern weights drop to 0.005.
pub open spec fn score_rules(line: LineView, s: FileStats) -> Seq<Rule> {
    let p = spec_decompiled_profile(s);
    let l = lower(line.normalized);
    let cs = s.csharp || s.decompiled;
    let damp = s.decompiled && p.strong_legit;
    seq![
        (cs && any_contains(l, reflection_score_markers()), if damp { 5usize } else { 350usize },
            "reflection/runtime-discovery pattern"),
        (cs && any_contains(l, generated_score_markers()), if damp { 5usize } else { 250usize },
            "formulaic plugin/configuration pattern"),
        (cs && any_contains(l, defensive_markers()), if damp { 5usize } else { 150usize },
            "broad defensive generated-code pattern"),
        (cs && utf8_len(line.normalized) > 100, 100usize, "long mechanically structured line"),
        (cs && any_contains(l, unity_markers()), if damp { 5usize } else { 100usize },
            "Unity API orchestration pattern"),
    ]
}

/// Reasons reported for a line: firing rules, the file profile when it is
/// decompiled or AI-positive, calibration matches, or a fallback.
pub open spec fn score_reasons(
    line: LineView,
    s: FileStats,
    ai: Set<Seq<char>>,
    human: Set<Seq<char>>,
) -> Seq<Seq<char>> {
    let p = spec_decompiled_profile(s);
    let r = rules_reasons(score_rules(line, s)) + (if s.decompiled || p.ai_positive {
        seq![p.summary]
    } else {
        seq![]
    }) + (if ai.contains(line.normalized) {
        seq!["calibrated generated-code match"@]
    } else {
        seq![]
    }) + (if human.contains(line.normalized) {
        seq!["calibrated authored-code match"@]
    } else {
        seq![]
    });
    if r.len() == 0 {
        seq!["unmatched line with weak AI evidence"@]
    } else {
        r
    }
}

/// Score of a line in thousandths: the file's base score plus the weights of
/// the firing rules, capped by the file's cap; and the joined reasons.
pub open spec fn spec_score_line(
    line: LineView,
    s: FileStats,
    ai: Set<Seq<char>>,
    human: Set<Seq<char>>,
) -> (nat, Seq<char>) {
    let p = spec_decompiled_profile(s);
    let raw = p.base_score + rules_weight(score_rules(line, s));
    (if raw < p.cap { raw } else { p.cap }, join(score_reasons(line, s, ai, human), "; "@))
}

/// How a decompiled file's generated-code weight and authored-code weight
/// decide its profile: it is strongly legitimate only with authored weight
/// at least 5 and at least its generated weight minus one, and then scores
/// 10 capped at 20; when the generated weight is at least 4 and exceeds the
/// authored weight plus one, it is AI-positive and scores 910 capped at 980.
pub proof fn law_decompiled_weights_decide(s: FileStats)
    requires
        s.decompiled,
    ensures
        spec_decompiled_profile(s).strong_legit ==> spec_decompiled_profile(s).legit_features >= 5
            && spec_decompiled_profile(s).legit_features + 1 >= spec_decompiled_profile(s).ai_features,
        spec_decompiled_profile(s).legit_features >= 5 && spec_decompiled_profile(s).legit_features + 1
            >= spec_decompiled_profile(s).ai_features ==> spec_decompiled_profile(s).strong_legit
            && !spec_decompiled_profile(s).ai_positive && spec_decompiled_profile(s).base_score == 10
            && spec_decompiled_profile(s).cap == 20,
        spec_decompiled_profile(s).ai_features >= 4 && spec_decompiled_profile(s).legit_features + 1
            < spec_decompiled_profile(s).ai_features ==> spec_decompiled_profile(s).ai_positive
            && !spec_decompiled_profile(s).strong_legit && spec_decompiled_profile(s).base_score == 910
            && spec_decompiled_profile(s).cap == 980,
        spec_decompiled_profile(s).ai_positive ==> spec_decompiled_profile(s).ai_features >= 4,
{
}

/// The cap of a file profile is at most one (1000 thousandths).
pub proof fn lemma_cap_at_most_one(s: FileStats)
    ensures
        spec_decompiled_profile(s).cap <= 1000,
{
}

fn score_rule_list(line: &CodeLine, s: FileStats, damp: bool) -> (r: [Rule; 5])
    requires
        damp == (s.decompiled && spec_decompiled_profile(s).strong_legit),
    ensures
        r@ == score_rules(line@, s),
{
    let n = chars_of(line.normalized.as_str());
    let l = lower_chars(&n);
    let cs = s.csharp || s.decompiled;
    let reflection = ["accesstools.", "methodinfo", "fieldinfo", ".invoke(", "typebyname", "findobjectsbytype"];
    assert(reflection@ == reflection_score_markers());
    let generated = [
        "config.bind(",
        "configdescription(",
        "acceptablevaluerange",
        "log.logwarning(",
        "fallback",
        "restore",
        "reapply",
    ];
    assert(generated@ == generated_score_markers());
    let defensive = ["tryparse", "catch (exception", "?.", "??", "== null", "!= null", "out var", "is not"];
    assert(defensive@ == defensive_markers());
    let unity = ["mathf.", "rendersettings.", "unityobject."];
    assert(unity@ == unity_markers());
    let long = !utf8_len_at_most(&n, 100);
    let r: [Rule; 5] = [
        (cs && any_contains_chars(&l, &reflection), if damp { 5 } else { 350 },
            "reflection/runtime-discovery pattern"),
        (cs && any_contains_chars(&l, &generated), if damp { 5 } else { 250 },
            "formulaic plugin/configuration pattern"),
        (cs && any_contains_chars(&l, &defensive), if damp { 5 } else { 150 },
            "broad defensive generated-code pattern"),
        (cs && long, 100, "long mechanically structured line"),
        (cs && any_contains_chars(&l, &unity), if damp { 5 } else { 100 },
            "Unity API orchestration pattern"),
    ];
    assert(r@ =~= score_rules(line@, s));
    r
}

/// Scores one line (in thousandths, between 0 and 1000) and explains why.
pub fn score_line(
    line: &CodeLine,
    stats: &FileStats,
    ai_profile: &LineSet,
    human_profile: &LineSet,
) -> (r: (u32, String))
    ensures
        r.0 as nat == spec_score_line(line@, *stats, ai_profile@, human_profile@).0,
        r.1@ == spec_score_line(line@, *stats, ai_profile@, human_profile@).1,
        r.0 <= 1000,
{
    let s = *stats;
    let profile = decompiled_profile(stats);
    let damp = s.decompiled && profile.strong_legit;
    let rules = score_rule_list(line, s, damp);
    let mut weight: usize = 0;
    let mut reasons: Vec<String> = Vec::new();
    apply_rules(&rules, &mut weight, &mut reasons);
    let ghost base_reasons = strings_view(reasons@);
    if s.decompiled || profile.ai_positive {
        let summary = profile.summary;
        reasons.push(summary);
    }
    if ai_profile.contains(line.normalized.as_str()) {
        reasons.push(string_from("calibrated generated-code match"));
    }
    if human_profile.contains(line.normalized.as_str()) {
        reasons.push(string_from("calibrated authored-code match"));
    }
    if reasons.len() == 0 {
        reasons.push(string_from("unmatched line with weak AI evidence"));
    }
    proof {
        assert(strings_view(reasons@) =~= score_reasons(line@, s, ai_profile@, human_profile@));
        lemma_cap_at_most_one(s);
    }
    let raw: u32 = profile.base_score + weight as u32;
    let score = if raw < profile.cap { raw } else { profile.cap };
    let mut reason = String::new();
    push_joined(&mut reason, &reasons, "; ");
    assert(reason@ =~= join(strings_view(reasons@), "; "@));
    (score, reason)
}

} // verus!
