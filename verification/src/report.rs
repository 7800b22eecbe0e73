//! JSON and Markdown reports. Numbers that are not integers arrive already
//! formatted as text.
use vstd::prelude::*;
use crate::order::{lemma_text_lt_irreflexive, lemma_text_lt_total, lemma_text_lt_asymmetric, lemma_text_lt_transitive, str_lt, text_lt};
use crate::kinds::{count_kinds, kind_count, kind_order, lemma_counts_order};
use crate::source::{excluded_views, ExcludedLine, ExcludedView};
use crate::text::{
    chars_of, decimal, is_control, is_control_exec, join, push_decimal, push_str, str_eq, string_of,
    strings_view,
};

verus! {

// ---------------------------------------------------------------------------
// Escaping
// ---------------------------------------------------------------------------

/// Lower-case hexadecimal digit.
pub open spec fn hex_digit(d: nat) -> char {
    if d < 10 {
        (('0' as u32) + d) as char
    } else {
        (('a' as u32) + d - 10) as char
    }
}

/// Four lower-case hexadecimal digits of `n < 65536`.
pub open spec fn hex4(n: nat) -> Seq<char> {
    seq![hex_digit((n / 4096) % 16), hex_digit((n / 256) % 16), hex_digit((n / 16) % 16), hex_digit(n % 16)]
}

/// JSON escape of one character.
pub open spec fn json_escape_char(c: char) -> Seq<char> {
    if c == '"' {
        seq!['\\', '"']
    } else if c == '\\' {
        seq!['\\', '\\']
    } else if c == '\n' {
        seq!['\\', 'n']
    } else if c == '\r' {
        seq!['\\', 'r']
    } else if c == '\t' {
        seq!['\\', 't']
    } else if is_control(c) {
        seq!['\\', 'u'] + hex4(c as nat)
    } else {
        seq![c]
    }
}

pub open spec fn json_escape(s: Seq<char>) -> Seq<char>
    decreases s.len(),
{
    if s.len() == 0 {
        seq![]
    } else {
        json_escape(s.drop_last()) + json_escape_char(s.last())
    }
}

/// A JSON string literal.
pub open spec fn json_quote(s: Seq<char>) -> Seq<char> {
    seq!['"'] + json_escape(s) + seq!['"']
}

fn hex_digit_exec(d: u32) -> (r: char)
    requires
        d < 16,
    ensures
        r == hex_digit(d as nat),
{
    let b: u8 = d as u8;
    if b < 10 {
        (b + 48u8) as char
    } else {
        (b - 10 + 97u8) as char
    }
}

fn push_escaped_char(out: &mut String, c: char)
    ensures
        final(out)@ == old(out)@ + json_escape_char(c),
{
    if c == '"' {
        out.push('\\');
        out.push('"');
    } else if c == '\\' {
        out.push('\\');
        out.push('\\');
    } else if c == '\n' {
        out.push('\\');
        out.push('n');
    } else if c == '\r' {
        out.push('\\');
        out.push('r');
    } else if c == '\t' {
        out.push('\\');
        out.push('t');
    } else if is_control_exec(c) {
        let v: u32 = c as u32;
        out.push('\\');
        out.push('u');
        out.push(hex_digit_exec((v / 4096) % 16));
        out.push(hex_digit_exec((v / 256) % 16));
        out.push(hex_digit_exec((v / 16) % 16));
        out.push(hex_digit_exec(v % 16));
    } else {
        out.push(c);
    }
    assert(out@ =~= old(out)@ + json_escape_char(c));
}

fn push_quoted(out: &mut String, s: &str)
    ensures
        final(out)@ == old(out)@ + json_quote(s@),
{
    let c = chars_of(s);
    out.push('"');
    let ghost start = out@;
    let mut i: usize = 0;
    while i < c.len()
        invariant
            i <= c@.len(),
            c@ == s@,
            out@ == start + json_escape(c@.take(i as int)),
        decreases c@.len() - i,
    {
        proof {
            assert(c@.take(i + 1).drop_last() =~= c@.take(i as int));
        }
        push_escaped_char(out, c[i]);
        i += 1;
        assert(out@ =~= start + json_escape(c@.take(i as int)));
    }
    assert(c@.take(i as int) =~= c@);
    out.push('"');
    assert(out@ =~= old(out)@ + json_quote(s@));
}

/// Quotes and escapes a text as a JSON string.
pub fn j(value: &str) -> (r: String)
    ensures
        r@ == json_quote(value@),
{
    let mut out = String::new();
    push_quoted(&mut out, value);
    out
}

/// `n` spaces.
pub open spec fn spaces(n: nat) -> Seq<char> {
    Seq::new(n, |i: int| ' ')
}

/// Separator before the entry at `index` of a JSON array: `,\n` after the
/// first entry, then the indentation.
pub open spec fn comma_text(index: nat, indent: nat) -> Seq<char> {
    (if index > 0 { seq![',', '\n'] } else { seq![] }) + spaces(indent)
}

pub fn comma(out: &mut String, index: usize, indent: usize)
    ensures
        final(out)@ == old(out)@ + comma_text(index as nat, indent as nat),
{
    if index > 0 {
        out.push(',');
        out.push('\n');
    }
    let ghost start = out@;
    let mut k: usize = 0;
    while k < indent
        invariant
            k <= indent,
            out@ == start + spaces(k as nat),
        decreases indent - k,
    {
        out.push(' ');
        k += 1;
        assert(out@ =~= start + spaces(k as nat));
    }
    assert(out@ =~= old(out)@ + comma_text(index as nat, indent as nat));
}

/// Every `c` replaced by `by`.
pub open spec fn replace_char(s: Seq<char>, c: char, by: Seq<char>) -> Seq<char>
    decreases s.len(),
{
    if s.len() == 0 {
        seq![]
    } else {
        replace_char(s.drop_last(), c, by) + if s.last() == c {
            by
        } else {
            seq![s.last()]
        }
    }
}

fn replace_chars(s: &[char], c: char, by: &str) -> (r: Vec<char>)
    ensures
        r@ == replace_char(s@, c, by@),
{
    let b = chars_of(by);
    let mut r: Vec<char> = Vec::new();
    let mut i: usize = 0;
    while i < s.len()
        invariant
            i <= s@.len(),
            b@ == by@,
            r@ == replace_char(s@.take(i as int), c, by@),
        decreases s@.len() - i,
    {
        proof {
            assert(s@.take(i + 1).drop_last() =~= s@.take(i as int));
        }
        if s[i] == c {
            let mut k: usize = 0;
            let ghost start = r@;
            while k < b.len()
                invariant
                    k <= b@.len(),
                    r@ == start + b@.take(k as int),
                decreases b@.len() - k,
            {
                r.push(b[k]);
                k += 1;
                assert(r@ =~= start + b@.take(k as int));
            }
            assert(b@.take(k as int) =~= b@);
        } else {
            r.push(s[i]);
        }
        i += 1;
        assert(r@ =~= replace_char(s@.take(i as int), c, by@));
    }
    assert(s@.take(i as int) =~= s@);
    r
}

/// Markdown table cell text: `|` escaped, line breaks as spaces.
pub open spec fn spec_escape_md(s: Seq<char>) -> Seq<char> {
    replace_char(replace_char(s, '|', "\\|"@), '\n', " "@)
}

/// Markdown code-span text: table escaping plus escaped backticks.
pub open spec fn spec_escape_code(s: Seq<char>) -> Seq<char> {
    replace_char(spec_escape_md(s), '`', "\\`"@)
}

pub fn escape_md(value: &str) -> (r: String)
    ensures
        r@ == spec_escape_md(value@),
{
    let c = chars_of(value);
    let a = replace_chars(&c, '|', "\\|");
    let b = replace_chars(&a, '\n', " ");
    string_of(&b)
}

pub fn escape_code(value: &str) -> (r: String)
    ensures
        r@ == spec_escape_code(value@),
{
    let c = chars_of(value);
    let a = replace_chars(&c, '|', "\\|");
    let b = replace_chars(&a, '\n', " ");
    let d = replace_chars(&b, '`', "\\`");
    string_of(&d)
}

// ---------------------------------------------------------------------------
// Report contents
// ---------------------------------------------------------------------------

/// One file of the report; the percentage is already formatted.
pub struct FileReport {
    pub path: String,
    pub considered_lines: usize,
    pub excluded_lines: usize,
    pub percentage: String,
    pub is_ai: bool,
    pub decompiled: bool,
    pub ai_features: usize,
    pub legit_features: usize,
    pub ai_positive: bool,
    pub strong_legit: bool,
    pub feature_summary: String,
}

/// One scored line of the report; the score is already formatted.
pub struct LineReport {
    pub file: String,
    pub line: usize,
    pub score: String,
    pub excerpt: String,
    pub normalized: String,
    pub reason: String,
}

/// Everything a report shows; percentages, threshold and scores are
/// already formatted.
pub struct Report {
    pub target: String,
    pub percentage: String,
    pub is_ai: bool,
    pub deem: String,
    /// Reports hold the verdict only.
    pub result_only: bool,
    pub considered_lines: usize,
    pub excluded_lines: usize,
    pub source_files: usize,
    pub skipped_non_source_files: usize,
    pub skipped_dirs: usize,
    pub template_lines: usize,
    pub ai_calibration_enabled: bool,
    pub human_calibration_enabled: bool,
    pub ai_profile_lines: usize,
    pub human_profile_lines: usize,
    pub files: Vec<FileReport>,
    pub lines: Vec<LineReport>,
    pub excluded: Vec<ExcludedLine>,
}

pub open spec fn bool_text(b: bool) -> Seq<char> {
    if b {
        "true"@
    } else {
        "false"@
    }
}

fn push_bool(out: &mut String, b: bool)
    ensures
        final(out)@ == old(out)@ + bool_text(b),
{
    if b {
        push_str(out, "true");
    } else {
        push_str(out, "false");
    }
}

fn push_num(out: &mut String, n: usize)
    ensures
        final(out)@ == old(out)@ + decimal(n as nat),
{
    push_decimal(out, n);
}

/// `"name":value` pairs joined by commas are written piece by piece; these
/// are the JSON objects of the three arrays.
pub open spec fn file_json(f: FileReport) -> Seq<char> {
    file_json_counts(f) + file_json_flags(f) + file_json_features(f)
}

/// Path and line counts of a file entry.
pub open spec fn file_json_counts(f: FileReport) -> Seq<char> {
    "{\"path\":"@ + json_quote(f.path@) + ",\"considered_lines\":"@ + decimal(
        f.considered_lines as nat,
    ) + ",\"excluded_lines\":"@ + decimal(f.excluded_lines as nat)
}

/// Percentage and verdict flags of a file entry.
pub open spec fn file_json_flags(f: FileReport) -> Seq<char> {
    ",\"Percentage\":"@ + f.percentage@ + ",\"IsAI\":"@ + bool_text(f.is_ai) + ",\"decompiled\":"@
        + bool_text(f.decompiled)
}

/// Feature counts and summary of a file entry.
pub open spec fn file_json_features(f: FileReport) -> Seq<char> {
    ",\"ai_features\":"@ + decimal(f.ai_features as nat) + ",\"legit_features\":"@ + decimal(
        f.legit_features as nat,
    ) + ",\"ai_positive\":"@ + bool_text(f.ai_positive) + ",\"strong_legit\":"@ + bool_text(
        f.strong_legit,
    ) + ",\"feature_summary\":"@ + json_quote(f.feature_summary@) + "}"@
}

pub open spec fn line_json(l: LineReport) -> Seq<char> {
    "{\"file\":"@ + json_quote(l.file@) + ",\"line\":"@ + decimal(l.line as nat) + ",\"score\":"@
        + l.score@ + ",\"excerpt\":"@ + json_quote(l.excerpt@) + ",\"normalized\":"@ + json_quote(
        l.normalized@,
    ) + ",\"reason\":"@ + json_quote(l.reason@) + "}"@
}

pub open spec fn excluded_json(e: ExcludedView) -> Seq<char> {
    "{\"file\":"@ + json_quote(e.file) + ",\"line\":"@ + decimal(e.line as nat) + ",\"kind\":"@
        + json_quote(e.kind) + ",\"reason\":"@ + json_quote(e.reason) + "}"@
}

/// Array entries, four spaces in, separated by `,\n`.
pub open spec fn json_items(items: Seq<Seq<char>>) -> Seq<char> {
    join(items.map_values(|x: Seq<char>| spaces(4) + x), ",\n"@)
}

fn push_file_counts(out: &mut String, f: &FileReport)
    ensures
        final(out)@ == old(out)@ + file_json_counts(*f),
{
    push_str(out, "{\"path\":");
    push_quoted(out, f.path.as_str());
    push_str(out, ",\"considered_lines\":");
    push_num(out, f.considered_lines);
    push_str(out, ",\"excluded_lines\":");
    push_num(out, f.excluded_lines);
    assert(out@ =~= old(out)@ + file_json_counts(*f));
}

fn push_file_flags(out: &mut String, f: &FileReport)
    ensures
        final(out)@ == old(out)@ + file_json_flags(*f),
{
    push_str(out, ",\"Percentage\":");
    push_str(out, f.percentage.as_str());
    push_str(out, ",\"IsAI\":");
    push_bool(out, f.is_ai);
    push_str(out, ",\"decompiled\":");
    push_bool(out, f.decompiled);
    assert(out@ =~= old(out)@ + file_json_flags(*f));
}

fn push_file_features(out: &mut String, f: &FileReport)
    ensures
        final(out)@ == old(out)@ + file_json_features(*f),
{
    push_str(out, ",\"ai_features\":");
    push_num(out, f.ai_features);
    push_str(out, ",\"legit_features\":");
    push_num(out, f.legit_features);
    push_str(out, ",\"ai_positive\":");
    push_bool(out, f.ai_positive);
    push_str(out, ",\"strong_legit\":");
    push_bool(out, f.strong_legit);
    push_str(out, ",\"feature_summary\":");
    push_quoted(out, f.feature_summary.as_str());
    push_str(out, "}");
    assert(out@ =~= old(out)@ + file_json_features(*f));
}

fn push_file_json(out: &mut String, f: &FileReport)
    ensures
        final(out)@ == old(out)@ + file_json(*f),
{
    push_file_counts(out, f);
    push_file_flags(out, f);
    push_file_features(out, f);
    assert(out@ =~= old(out)@ + file_json(*f));
}

fn push_line_json(out: &mut String, l: &LineReport)
    ensures
        final(out)@ == old(out)@ + line_json(*l),
{
    push_str(out, "{\"file\":");
    push_quoted(out, l.file.as_str());
    push_str(out, ",\"line\":");
    push_num(out, l.line);
    push_str(out, ",\"score\":");
    push_str(out, l.score.as_str());
    push_str(out, ",\"excerpt\":");
    push_quoted(out, l.excerpt.as_str());
    push_str(out, ",\"normalized\":");
    push_quoted(out, l.normalized.as_str());
    push_str(out, ",\"reason\":");
    push_quoted(out, l.reason.as_str());
    push_str(out, "}");
    assert(out@ =~= old(out)@ + line_json(*l));
}

fn push_excluded_json(out: &mut String, e: &ExcludedLine)
    ensures
        final(out)@ == old(out)@ + excluded_json(e@),
{
    push_str(out, "{\"file\":");
    push_quoted(out, e.file.as_str());
    push_str(out, ",\"line\":");
    push_num(out, e.line);
    push_str(out, ",\"kind\":");
    push_quoted(out, e.kind.as_str());
    push_str(out, ",\"reason\":");
    push_quoted(out, e.reason.as_str());
    push_str(out, "}");
    assert(out@ =~= old(out)@ + excluded_json(e@));
}

proof fn lemma_json_items_step(items: Seq<Seq<char>>, i: int)
    requires
        0 <= i < items.len(),
    ensures
        json_items(items.take(i + 1)) == json_items(items.take(i)) + comma_text(i as nat, 4) + items[i],
{
    let f = |x: Seq<char>| spaces(4) + x;
    let a = items.take(i + 1).map_values(f);
    let b = items.take(i).map_values(f);
    assert(a.drop_last() =~= b);
    assert(a.last() == spaces(4) + items[i]);
    if i == 0 {
        assert(a.len() == 1);
        assert(json_items(items.take(i)) =~= seq![]);
        assert(comma_text(0, 4) =~= spaces(4));
    } else {
        assert(comma_text(i as nat, 4) =~= ",\n"@ + spaces(4)) by {
            reveal_strlit(",\n");
        }
    }
}

pub open spec fn file_items(v: Seq<FileReport>) -> Seq<Seq<char>> {
    v.map_values(|f: FileReport| file_json(f))
}

pub open spec fn line_items(v: Seq<LineReport>) -> Seq<Seq<char>> {
    v.map_values(|l: LineReport| line_json(l))
}

pub open spec fn excluded_items(v: Seq<ExcludedView>) -> Seq<Seq<char>> {
    v.map_values(|e: ExcludedView| excluded_json(e))
}

fn push_file_items(out: &mut String, files: &Vec<FileReport>)
    ensures
        final(out)@ == old(out)@ + json_items(file_items(files@)),
{
    let ghost items = file_items(files@);
    let mut i: usize = 0;
    assert(items.take(0) =~= Seq::<Seq<char>>::empty());
    while i < files.len()
        invariant
            i <= files@.len(),
            items == file_items(files@),
            out@ == old(out)@ + json_items(items.take(i as int)),
        decreases files@.len() - i,
    {
        proof {
            lemma_json_items_step(items, i as int);
        }
        comma(out, i, 4);
        push_file_json(out, &files[i]);
        i += 1;
        assert(out@ =~= old(out)@ + json_items(items.take(i as int)));
    }
    assert(items.take(i as int) =~= items);
}

fn push_line_items(out: &mut String, lines: &Vec<LineReport>)
    ensures
        final(out)@ == old(out)@ + json_items(line_items(lines@)),
{
    let ghost items = line_items(lines@);
    let mut i: usize = 0;
    while i < lines.len()
        invariant
            i <= lines@.len(),
            items == line_items(lines@),
            out@ == old(out)@ + json_items(items.take(i as int)),
        decreases lines@.len() - i,
    {
        proof {
            lemma_json_items_step(items, i as int);
        }
        comma(out, i, 4);
        push_line_json(out, &lines[i]);
        i += 1;
        assert(out@ =~= old(out)@ + json_items(items.take(i as int)));
    }
    assert(items.take(i as int) =~= items);
}

fn push_excluded_items(out: &mut String, excluded: &Vec<ExcludedLine>)
    ensures
        final(out)@ == old(out)@ + json_items(excluded_items(excluded_views(excluded@))),
{
    let ghost items = excluded_items(excluded_views(excluded@));
    let mut i: usize = 0;
    while i < excluded.len()
        invariant
            i <= excluded@.len(),
            items == excluded_items(excluded_views(excluded@)),
            out@ == old(out)@ + json_items(items.take(i as int)),
        decreases excluded@.len() - i,
    {
        proof {
            lemma_json_items_step(items, i as int);
        }
        comma(out, i, 4);
        push_excluded_json(out, &excluded[i]);
        i += 1;
        assert(out@ =~= old(out)@ + json_items(items.take(i as int)));
    }
    assert(items.take(i as int) =~= items);
}

/// One member of the report object, on its own line: the quoted key, `: `,
/// the value, and a comma unless it is the last member.
pub open spec fn json_member(key: Seq<char>, value: Seq<char>, last: bool) -> Seq<char> {
    "  \""@ + key + "\": "@ + value + if last {
        "\n"@
    } else {
        ",\n"@
    }
}

/// A JSON array of the given entries, one per line.
pub open spec fn json_array(items: Seq<Seq<char>>) -> Seq<char> {
    "[\n"@ + json_items(items) + "\n  ]"@
}

/// The `application` object: name and version.
pub open spec fn application_value() -> Seq<char> {
    "{\"name\":"@ + json_quote("ai-code-detector"@) + ",\"version\":"@ + json_quote("0.1.0"@) + "}"@
}

/// The `data` object: the verdict, with the percentage unless only the
/// verdict is asked for.
pub open spec fn data_value(r: Report) -> Seq<char> {
    if r.result_only {
        "{\"IsAI\":"@ + bool_text(r.is_ai) + "}"@
    } else {
        "{\"Percentage\":"@ + r.percentage@ + ",\"IsAI\":"@ + bool_text(r.is_ai) + "}"@
    }
}

/// The fields of the `summary` object.
pub open spec fn summary_fields(r: Report) -> Seq<char> {
    "\"target\":"@ + json_quote(r.target@) + ",\"deem\":"@ + r.deem@ + ",\"considered_lines\":"@ + decimal(
        r.considered_lines as nat,
    ) + ",\"excluded_lines\":"@ + decimal(r.excluded_lines as nat) + ",\"source_files\":"@ + decimal(
        r.source_files as nat,
    ) + ",\"skipped_non_source_files\":"@ + decimal(r.skipped_non_source_files as nat) + ",\"skipped_dirs\":"@
        + decimal(r.skipped_dirs as nat) + ",\"template_lines\":"@ + decimal(r.template_lines as nat)
}

/// The fields of the `calibration` object.
pub open spec fn calibration_fields(r: Report) -> Seq<char> {
    "\"ai_calibration_enabled\":"@ + bool_text(r.ai_calibration_enabled) + ",\"human_calibration_enabled\":"@
        + bool_text(r.human_calibration_enabled) + ",\"ai_profile_lines\":"@ + decimal(
        r.ai_profile_lines as nat,
    ) + ",\"human_profile_lines\":"@ + decimal(r.human_profile_lines as nat)
}

/// The JSON report: one object, one member per line. A full report has
/// the members `application`, `data`, `summary`, `calibration`, `files`,
/// `lines` and `excluded`, in that order; a verdict-only report has
/// `application` and `data` alone.
pub open spec fn json_report(r: Report) -> Seq<char> {
    if r.result_only {
        "{\n"@ + json_member("application"@, application_value(), false) + json_member(
            "data"@,
            data_value(r),
            true,
        ) + "}\n"@
    } else {
        "{\n"@ + json_member("application"@, application_value(), false) + json_member(
            "data"@,
            data_value(r),
            false,
        ) + json_member("summary"@, "{"@ + summary_fields(r) + "}"@, false) + json_member(
            "calibration"@,
            "{"@ + calibration_fields(r) + "}"@,
            false,
        ) + json_member("files"@, json_array(file_items(r.files@)), false) + json_member(
            "lines"@,
            json_array(line_items(r.lines@)),
            false,
        ) + json_member("excluded"@, json_array(excluded_items(excluded_views(r.excluded@))), true) + "}\n"@
    }
}

fn push_member_open(out: &mut String, key: &str)
    ensures
        final(out)@ == old(out)@ + "  \""@ + key@ + "\": "@,
{
    push_str(out, "  \"");
    push_str(out, key);
    push_str(out, "\": ");
}

fn push_member_close(out: &mut String, last: bool)
    ensures
        final(out)@ == old(out)@ + if last {
            "\n"@
        } else {
            ",\n"@
        },
{
    if last {
        push_str(out, "\n");
    } else {
        push_str(out, ",\n");
    }
}

fn push_application(out: &mut String)
    ensures
        final(out)@ == old(out)@ + json_member("application"@, application_value(), false),
{
    push_member_open(out, "application");
    push_str(out, "{\"name\":");
    push_quoted(out, "ai-code-detector");
    push_str(out, ",\"version\":");
    push_quoted(out, "0.1.0");
    push_str(out, "}");
    push_member_close(out, false);
    assert(out@ =~= old(out)@ + json_member("application"@, application_value(), false));
}

fn push_data(out: &mut String, r: &Report)
    ensures
        final(out)@ == old(out)@ + json_member("data"@, data_value(*r), r.result_only),
{
    push_member_open(out, "data");
    if r.result_only {
        push_str(out, "{\"IsAI\":");
        push_bool(out, r.is_ai);
    } else {
        push_str(out, "{\"Percentage\":");
        push_str(out, r.percentage.as_str());
        push_str(out, ",\"IsAI\":");
        push_bool(out, r.is_ai);
    }
    push_str(out, "}");
    push_member_close(out, r.result_only);
    assert(out@ =~= old(out)@ + json_member("data"@, data_value(*r), r.result_only));
}

fn push_summary_fields(out: &mut String, r: &Report)
    ensures
        final(out)@ == old(out)@ + summary_fields(*r),
{
    push_str(out, "\"target\":");
    push_quoted(out, r.target.as_str());
    push_str(out, ",\"deem\":");
    push_str(out, r.deem.as_str());
    push_str(out, ",\"considered_lines\":");
    push_num(out, r.considered_lines);
    push_str(out, ",\"excluded_lines\":");
    push_num(out, r.excluded_lines);
    push_str(out, ",\"source_files\":");
    push_num(out, r.source_files);
    push_str(out, ",\"skipped_non_source_files\":");
    push_num(out, r.skipped_non_source_files);
    push_str(out, ",\"skipped_dirs\":");
    push_num(out, r.skipped_dirs);
    push_str(out, ",\"template_lines\":");
    push_num(out, r.template_lines);
    assert(out@ =~= old(out)@ + summary_fields(*r));
}

fn push_calibration_fields(out: &mut String, r: &Report)
    ensures
        final(out)@ == old(out)@ + calibration_fields(*r),
{
    push_str(out, "\"ai_calibration_enabled\":");
    push_bool(out, r.ai_calibration_enabled);
    push_str(out, ",\"human_calibration_enabled\":");
    push_bool(out, r.human_calibration_enabled);
    push_str(out, ",\"ai_profile_lines\":");
    push_num(out, r.ai_profile_lines);
    push_str(out, ",\"human_profile_lines\":");
    push_num(out, r.human_profile_lines);
    assert(out@ =~= old(out)@ + calibration_fields(*r));
}

fn push_object_member(out: &mut String, r: &Report, summary: bool)
    ensures
        final(out)@ == old(out)@ + if summary {
            json_member("summary"@, "{"@ + summary_fields(*r) + "}"@, false)
        } else {
            json_member("calibration"@, "{"@ + calibration_fields(*r) + "}"@, false)
        },
{
    let ghost start = out@;
    if summary {
        push_member_open(out, "summary");
    } else {
        push_member_open(out, "calibration");
    }
    push_str(out, "{");
    let ghost mid = out@;
    if summary {
        push_summary_fields(out, r);
    } else {
        push_calibration_fields(out, r);
    }
    push_str(out, "}");
    push_member_close(out, false);
    if summary {
        assert(out@ =~= start + json_member("summary"@, "{"@ + summary_fields(*r) + "}"@, false));
    } else {
        assert(out@ =~= start + json_member("calibration"@, "{"@ + calibration_fields(*r) + "}"@, false));
    }
}

fn push_files_member(out: &mut String, files: &Vec<FileReport>)
    ensures
        final(out)@ == old(out)@ + json_member("files"@, json_array(file_items(files@)), false),
{
    push_member_open(out, "files");
    push_str(out, "[\n");
    push_file_items(out, files);
    push_str(out, "\n  ]");
    push_member_close(out, false);
    assert(out@ =~= old(out)@ + json_member("files"@, json_array(file_items(files@)), false));
}

fn push_lines_member(out: &mut String, lines: &Vec<LineReport>)
    ensures
        final(out)@ == old(out)@ + json_member("lines"@, json_array(line_items(lines@)), false),
{
    push_member_open(out, "lines");
    push_str(out, "[\n");
    push_line_items(out, lines);
    push_str(out, "\n  ]");
    push_member_close(out, false);
    assert(out@ =~= old(out)@ + json_member("lines"@, json_array(line_items(lines@)), false));
}

fn push_excluded_member(out: &mut String, excluded: &Vec<ExcludedLine>)
    ensures
        final(out)@ == old(out)@ + json_member(
            "excluded"@,
            json_array(excluded_items(excluded_views(excluded@))),
            true,
        ),
{
    push_member_open(out, "excluded");
    push_str(out, "[\n");
    push_excluded_items(out, excluded);
    push_str(out, "\n  ]");
    push_member_close(out, true);
    assert(out@ =~= old(out)@ + json_member(
        "excluded"@,
        json_array(excluded_items(excluded_views(excluded@))),
        true,
    ));
}

/// Renders the JSON report.
pub fn render_json(r: &Report) -> (s: String)
    ensures
        s@ == json_report(*r),
{
    let mut out = String::new();
    push_str(&mut out, "{\n");
    push_application(&mut out);
    push_data(&mut out, r);
    if r.result_only {
        push_str(&mut out, "}\n");
        assert(out@ =~= json_report(*r));
        return out;
    }
    push_object_member(&mut out, r, true);
    push_object_member(&mut out, r, false);
    push_files_member(&mut out, &r.files);
    push_lines_member(&mut out, &r.lines);
    push_excluded_member(&mut out, &r.excluded);
    push_str(&mut out, "}\n");
    assert(out@ =~= json_report(*r));
    out
}

// ---------------------------------------------------------------------------
// Markdown
// ---------------------------------------------------------------------------

/// A summary bullet: `- label: `value``.
pub open spec fn md_item(label: Seq<char>, value: Seq<char>) -> Seq<char> {
    "- "@ + label + ": `"@ + value + "`\n"@
}

fn push_item_text(out: &mut String, label: &str, value: &str)
    ensures
        final(out)@ == old(out)@ + md_item(label@, value@),
{
    push_str(out, "- ");
    push_str(out, label);
    push_str(out, ": `");
    push_str(out, value);
    push_str(out, "`\n");
    assert(out@ =~= old(out)@ + md_item(label@, value@));
}

fn push_item_num(out: &mut String, label: &str, n: usize)
    ensures
        final(out)@ == old(out)@ + md_item(label@, decimal(n as nat)),
{
    push_str(out, "- ");
    push_str(out, label);
    push_str(out, ": `");
    push_num(out, n);
    push_str(out, "`\n");
    assert(out@ =~= old(out)@ + md_item(label@, decimal(n as nat)));
}

fn push_item_bool(out: &mut String, label: &str, b: bool)
    ensures
        final(out)@ == old(out)@ + md_item(label@, bool_text(b)),
{
    push_str(out, "- ");
    push_str(out, label);
    push_str(out, ": `");
    push_bool(out, b);
    push_str(out, "`\n");
    assert(out@ =~= old(out)@ + md_item(label@, bool_text(b)));
}

/// Title and verdict bullets.
pub open spec fn md_verdict(r: Report) -> Seq<char> {
    "# AI Code Detection Report\n\n"@ + "## Summary\n\n"@ + md_item("Target"@, r.target@) + md_item(
        "Percentage"@,
        r.percentage@,
    ) + md_item("Deem threshold"@, r.deem@) + md_item("IsAI"@, bool_text(r.is_ai))
}

/// Line and file count bullets.
pub open spec fn md_counts(r: Report) -> Seq<char> {
    md_item("Considered lines"@, decimal(r.considered_lines as nat)) + md_item(
        "Excluded lines"@,
        decimal(r.excluded_lines as nat),
    ) + md_item("Source files"@, decimal(r.source_files as nat)) + md_item(
        "Skipped non-source files"@,
        decimal(r.skipped_non_source_files as nat),
    )
}

/// Profile and calibration bullets.
pub open spec fn md_profiles(r: Report) -> Seq<char> {
    md_item("AI profile lines"@, decimal(r.ai_profile_lines as nat)) + md_item(
        "Human profile lines"@,
        decimal(r.human_profile_lines as nat),
    ) + md_item("Shared template lines detected"@, decimal(r.template_lines as nat)) + "\n"@
        + md_item("AI calibration enabled"@, bool_text(r.ai_calibration_enabled)) + md_item(
        "Human calibration enabled"@,
        bool_text(r.human_calibration_enabled),
    ) + "\n"@
}

/// A row of the file table.
pub open spec fn md_file_row(f: FileReport) -> Seq<char> {
    "| `"@ + spec_escape_md(f.path@) + "` | "@ + decimal(f.considered_lines as nat) + " | "@
        + decimal(f.excluded_lines as nat) + " | "@ + f.percentage@ + " | "@ + bool_text(f.is_ai)
        + " | "@ + spec_escape_md(f.feature_summary@) + " |\n"@
}

/// A row of the scored-line table.
pub open spec fn md_line_row(l: LineReport) -> Seq<char> {
    "| `"@ + spec_escape_md(l.file@) + "` | "@ + decimal(l.line as nat) + " | "@ + l.score@ + " | "@
        + spec_escape_md(l.reason@) + " | `"@ + spec_escape_code(l.excerpt@) + "` |\n"@
}

/// A row of the exclusion-kind table.
pub open spec fn md_kind_row(k: Seq<char>, n: nat) -> Seq<char> {
    "| `"@ + k + "` | "@ + decimal(n) + " |\n"@
}

pub open spec fn md_file_rows(v: Seq<FileReport>) -> Seq<char> {
    v.map_values(|f: FileReport| md_file_row(f)).flatten_alt()
}

pub open spec fn md_line_rows(v: Seq<LineReport>) -> Seq<char> {
    v.map_values(|l: LineReport| md_line_row(l)).flatten_alt()
}

/// One row per kind of exclusion, in text order of the kinds.
pub open spec fn md_kind_rows(ex: Seq<ExcludedView>) -> Seq<char> {
    kind_order(ex).map_values(|k: Seq<char>| md_kind_row(k, kind_count(ex, k))).flatten_alt()
}

/// The Markdown report: only the verdict when that is all that is asked
/// for, else summary bullets, the file table, the scored-line table and the
/// count of excluded lines per kind.
pub open spec fn markdown_report(r: Report) -> Seq<char> {
    if r.result_only {
        "# AI Code Detection Report\n\n"@ + md_item("IsAI"@, bool_text(r.is_ai))
    } else {
        md_verdict(r) + md_tables(r) + md_kind_rows(excluded_views(r.excluded@))
    }
}

/// Everything between the verdict bullets and the rows of excluded kinds.
pub open spec fn md_tables(r: Report) -> Seq<char> {
    md_counts(r) + md_profiles(r) + "## File Summary\n\n"@
        + "| File | Considered | Excluded | Percentage | IsAI | Features |\n"@
        + "|---|---:|---:|---:|---|---|\n"@ + md_file_rows(r.files@) + "\n## Considered Lines\n\n"@
        + "| File | Line | Score | Reason | Code |\n"@ + "|---|---:|---:|---|---|\n"@ + md_line_rows(
        r.lines@,
    ) + "\n## Excluded Summary\n\n"@ + "| Kind | Count |\n"@ + "|---|---:|\n"@
}

proof fn lemma_rows_step(rows: Seq<Seq<char>>, i: int)
    requires
        0 <= i < rows.len(),
    ensures
        rows.take(i + 1).flatten_alt() == rows.take(i).flatten_alt() + rows[i],
{
    assert(rows.take(i + 1).drop_last() =~= rows.take(i));
}

fn push_verdict(out: &mut String, r: &Report)
    ensures
        final(out)@ == old(out)@ + md_verdict(*r),
{
    push_str(out, "# AI Code Detection Report\n\n");
    push_str(out, "## Summary\n\n");
    push_item_text(out, "Target", r.target.as_str());
    push_item_text(out, "Percentage", r.percentage.as_str());
    push_item_text(out, "Deem threshold", r.deem.as_str());
    push_item_bool(out, "IsAI", r.is_ai);
    assert(out@ =~= old(out)@ + md_verdict(*r));
}

fn push_counts(out: &mut String, r: &Report)
    ensures
        final(out)@ == old(out)@ + md_counts(*r),
{
    push_item_num(out, "Considered lines", r.considered_lines);
    push_item_num(out, "Excluded lines", r.excluded_lines);
    push_item_num(out, "Source files", r.source_files);
    push_item_num(out, "Skipped non-source files", r.skipped_non_source_files);
    assert(out@ =~= old(out)@ + md_counts(*r));
}

fn push_profiles(out: &mut String, r: &Report)
    ensures
        final(out)@ == old(out)@ + md_profiles(*r),
{
    push_item_num(out, "AI profile lines", r.ai_profile_lines);
    push_item_num(out, "Human profile lines", r.human_profile_lines);
    push_item_num(out, "Shared template lines detected", r.template_lines);
    push_str(out, "\n");
    push_item_bool(out, "AI calibration enabled", r.ai_calibration_enabled);
    push_item_bool(out, "Human calibration enabled", r.human_calibration_enabled);
    push_str(out, "\n");
    assert(out@ =~= old(out)@ + md_profiles(*r));
}

fn push_file_row(out: &mut String, f: &FileReport)
    ensures
        final(out)@ == old(out)@ + md_file_row(*f),
{
    push_str(out, "| `");
    let p = escape_md(f.path.as_str());
    push_str(out, p.as_str());
    push_str(out, "` | ");
    push_num(out, f.considered_lines);
    push_str(out, " | ");
    push_num(out, f.excluded_lines);
    push_str(out, " | ");
    push_str(out, f.percentage.as_str());
    push_str(out, " | ");
    push_bool(out, f.is_ai);
    push_str(out, " | ");
    let m = escape_md(f.feature_summary.as_str());
    push_str(out, m.as_str());
    push_str(out, " |\n");
    assert(out@ =~= old(out)@ + md_file_row(*f));
}

fn push_line_row(out: &mut String, l: &LineReport)
    ensures
        final(out)@ == old(out)@ + md_line_row(*l),
{
    push_str(out, "| `");
    let f = escape_md(l.file.as_str());
    push_str(out, f.as_str());
    push_str(out, "` | ");
    push_num(out, l.line);
    push_str(out, " | ");
    push_str(out, l.score.as_str());
    push_str(out, " | ");
    let reason = escape_md(l.reason.as_str());
    push_str(out, reason.as_str());
    push_str(out, " | `");
    let code = escape_code(l.excerpt.as_str());
    push_str(out, code.as_str());
    push_str(out, "` |\n");
    assert(out@ =~= old(out)@ + md_line_row(*l));
}

fn push_file_rows(out: &mut String, files: &Vec<FileReport>)
    ensures
        final(out)@ == old(out)@ + md_file_rows(files@),
{
    let ghost rows = files@.map_values(|f: FileReport| md_file_row(f));
    let mut i: usize = 0;
    assert(rows.take(0) =~= Seq::<Seq<char>>::empty());
    while i < files.len()
        invariant
            i <= files@.len(),
            rows == files@.map_values(|f: FileReport| md_file_row(f)),
            out@ == old(out)@ + rows.take(i as int).flatten_alt(),
        decreases files@.len() - i,
    {
        proof {
            lemma_rows_step(rows, i as int);
        }
        push_file_row(out, &files[i]);
        i += 1;
        assert(out@ =~= old(out)@ + rows.take(i as int).flatten_alt());
    }
    assert(rows.take(i as int) =~= rows);
}

fn push_line_rows(out: &mut String, lines: &Vec<LineReport>)
    ensures
        final(out)@ == old(out)@ + md_line_rows(lines@),
{
    let ghost rows = lines@.map_values(|l: LineReport| md_line_row(l));
    let mut i: usize = 0;
    assert(rows.take(0) =~= Seq::<Seq<char>>::empty());
    while i < lines.len()
        invariant
            i <= lines@.len(),
            rows == lines@.map_values(|l: LineReport| md_line_row(l)),
            out@ == old(out)@ + rows.take(i as int).flatten_alt(),
        decreases lines@.len() - i,
    {
        proof {
            lemma_rows_step(rows, i as int);
        }
        push_line_row(out, &lines[i]);
        i += 1;
        assert(out@ =~= old(out)@ + rows.take(i as int).flatten_alt());
    }
    assert(rows.take(i as int) =~= rows);
}

fn push_kind_rows(out: &mut String, excluded: &Vec<ExcludedLine>)
    ensures
        final(out)@ == old(out)@ + md_kind_rows(excluded_views(excluded@)),
{
    let ghost ex = excluded_views(excluded@);
    let t = count_kinds(excluded);
    proof {
        lemma_counts_order(t, ex);
    }
    let ghost ks = kind_order(ex);
    let ghost rows = ks.map_values(|k: Seq<char>| md_kind_row(k, kind_count(ex, k)));
    let mut i: usize = 0;
    assert(rows.take(0) =~= Seq::<Seq<char>>::empty());
    while i < t.kinds.len()
        invariant
            i <= t.kinds@.len(),
            t.kinds@.len() == t.counts@.len(),
            crate::text::strings_view(t.kinds@) == ks,
            forall|k: int| 0 <= k < t.kinds@.len() ==> t.counts@[k] == kind_count(ex, #[trigger] t.kinds@[k]@),
            rows == ks.map_values(|k: Seq<char>| md_kind_row(k, kind_count(ex, k))),
            out@ == old(out)@ + rows.take(i as int).flatten_alt(),
        decreases t.kinds@.len() - i,
    {
        proof {
            lemma_rows_step(rows, i as int);
            assert(ks[i as int] == t.kinds@[i as int]@);
        }
        push_str(out, "| `");
        push_str(out, t.kinds[i].as_str());
        push_str(out, "` | ");
        push_num(out, t.counts[i]);
        push_str(out, " |\n");
        i += 1;
        assert(out@ =~= old(out)@ + rows.take(i as int).flatten_alt());
    }
    assert(rows.take(i as int) =~= rows);
}

#[verifier::rlimit(50)]
fn push_tables(out: &mut String, r: &Report)
    ensures
        final(out)@ == old(out)@ + md_tables(*r),
{
    push_counts(out, r);
    push_profiles(out, r);
    push_str(out, "## File Summary\n\n");
    push_str(out, "| File | Considered | Excluded | Percentage | IsAI | Features |\n");
    push_str(out, "|---|---:|---:|---:|---|---|\n");
    push_file_rows(out, &r.files);
    push_str(out, "\n## Considered Lines\n\n");
    push_str(out, "| File | Line | Score | Reason | Code |\n");
    push_str(out, "|---|---:|---:|---|---|\n");
    push_line_rows(out, &r.lines);
    push_str(out, "\n## Excluded Summary\n\n");
    push_str(out, "| Kind | Count |\n");
    push_str(out, "|---|---:|\n");
    assert(out@ =~= old(out)@ + md_tables(*r));
}

/// Renders the Markdown report.
pub fn render_markdown(r: &Report) -> (s: String)
    ensures
        s@ == markdown_report(*r),
{
    let mut out = String::new();
    if r.result_only {
        push_str(&mut out, "# AI Code Detection Report\n\n");
        push_item_bool(&mut out, "IsAI", r.is_ai);
        assert(out@ =~= markdown_report(*r));
        return out;
    }
    push_verdict(&mut out, r);
    push_tables(&mut out, r);
    push_kind_rows(&mut out, &r.excluded);
    assert(out@ =~= markdown_report(*r));
    out
}

} // verus!
