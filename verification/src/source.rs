//! Turning the text of source files into scored-line candidates and
//! exclusion records.
use vstd::prelude::*;
use crate::scaffold::{
    looks_decompiled_chars, scaffold_kind_chars, spec_looks_decompiled_csharp,
    spec_scaffold_kind, spec_starts_generated_block, starts_generated_block_chars,
};
use crate::stats::{inspect_raw_chars, spec_inspect_raw, FileStats};
use crate::syntax::{
    brace_delta_chars, collapse_ws, lemma_brace_delta_bound, normalize_chars, spec_brace_delta,
    spec_normalize_code, spec_strip_comments, spec_syntax_for, strip_comment_chars, strip_from,
    syntax_for, find_block_from, lemma_find_block_from, opt_chars, Syntax, SyntaxView,
};
use crate::text::{
    chars_of, has_char, has_char_exec, lead_ws, lemma_lead_ws_bound, lemma_trail_ws_bound,
    line_fold, lines_of, split_lines, str_eq, string_from, string_of, strip_cr, trail_ws, trim,
    trim_chars,
};

verus! {

/// A code line that survived comment, blank and scaffold filtering.
pub struct CodeLine {
    pub file: String,
    pub project: String,
    pub line: usize,
    pub code: String,
    pub normalized: String,
    pub csharp: bool,
    pub decompiled: bool,
}

/// Mathematical view of [`CodeLine`].
pub struct LineView {
    pub file: Seq<char>,
    pub project: Seq<char>,
    pub line: usize,
    pub code: Seq<char>,
    pub normalized: Seq<char>,
    pub csharp: bool,
    pub decompiled: bool,
}

impl View for CodeLine {
    type V = LineView;

    open spec fn view(&self) -> LineView {
        LineView {
            file: self.file@,
            project: self.project@,
            line: self.line,
            code: self.code@,
            normalized: self.normalized@,
            csharp: self.csharp,
            decompiled: self.decompiled,
        }
    }
}

/// A line (or, with line number zero, a whole file) left out of scoring.
pub struct ExcludedLine {
    pub file: String,
    pub line: usize,
    pub kind: String,
    pub reason: String,
}

/// Mathematical view of [`ExcludedLine`].
pub struct ExcludedView {
    pub file: Seq<char>,
    pub line: usize,
    pub kind: Seq<char>,
    pub reason: Seq<char>,
}

impl View for ExcludedLine {
    type V = ExcludedView;

    open spec fn view(&self) -> ExcludedView {
        ExcludedView { file: self.file@, line: self.line, kind: self.kind@, reason: self.reason@ }
    }
}


// ---------------------------------------------------------------------------
// Length bounds used to rule out overflow of the brace depth
// ---------------------------------------------------------------------------

/// Sum of the lengths of some lines.
pub open spec fn total_len(ls: Seq<Seq<char>>) -> nat
    decreases ls.len(),
{
    if ls.len() == 0 {
        0
    } else {
        total_len(ls.drop_last()) + ls.last().len()
    }
}

proof fn lemma_line_fold_budget(s: Seq<char>)
    ensures
        line_fold(s).0.len() + total_len(line_fold(s).0) + line_fold(s).1.len() <= s.len(),
    decreases s.len(),
{
    if s.len() > 0 {
        lemma_line_fold_budget(s.drop_last());
        let (done, cur) = line_fold(s.drop_last());
        if s.last() == '\n' {
            assert(done.push(strip_cr(cur)).drop_last() =~= done);
        }
    }
}

/// The lines of a text are no more numerous, and no longer in total, than
/// the text itself.
pub proof fn lemma_lines_budget(s: Seq<char>)
    ensures
        lines_of(s).len() <= s.len(),
        total_len(lines_of(s)) <= s.len(),
{
    lemma_line_fold_budget(s);
    let (done, cur) = line_fold(s);
    if cur.len() > 0 {
        assert(done.push(cur).drop_last() =~= done);
    }
}

proof fn lemma_total_len_prefix(ls: Seq<Seq<char>>, j: int)
    requires
        0 <= j < ls.len(),
    ensures
        total_len(ls.take(j + 1)) == total_len(ls.take(j)) + ls[j].len(),
        total_len(ls.take(j + 1)) <= total_len(ls),
    decreases ls.len() - j,
{
    assert(ls.take(j + 1).drop_last() =~= ls.take(j));
    if j + 1 < ls.len() {
        lemma_total_len_prefix(ls, j + 1);
    } else {
        assert(ls.take(j + 1) =~= ls);
    }
}

proof fn lemma_strip_len(
    line: Seq<char>,
    syn: SyntaxView,
    i: int,
    block_end: Option<Seq<char>>,
    quote: Option<char>,
    escaped: bool,
)
    requires
        0 <= i,
    ensures
        strip_from(line, syn, i, block_end, quote, escaped).0.len() <= if i <= line.len() {
            line.len() - i
        } else {
            0
        },
    decreases (line.len() - i) * 2 + (if block_end is Some { 1int } else { 0int }),
{
    if i < line.len() {
        match block_end {
            Some(end) => {
                if crate::text::occurs_at(line, end, i) {
                    lemma_strip_len(line, syn, i + end.len(), None, quote, escaped);
                } else {
                    lemma_strip_len(line, syn, i + 1, block_end, quote, escaped);
                }
            },
            None => {
                let c = line[i];
                match quote {
                    Some(q) => {
                        lemma_strip_len(
                            line,
                            syn,
                            i + 1,
                            None,
                            crate::syntax::quote_after(q, escaped, c),
                            !escaped && c == '\\',
                        );
                    },
                    None => {
                        if c == '"' || c == '\'' || c == '`' {
                            lemma_strip_len(line, syn, i + 1, None, Some(c), escaped);
                        } else {
                            lemma_find_block_from(syn.block_markers, line, i, 0);
                            match find_block_from(syn.block_markers, line, i, 0) {
                                Some(k) => {
                                    lemma_strip_len(
                                        line,
                                        syn,
                                        i + syn.block_markers[k].0.len(),
                                        Some(syn.block_markers[k].1),
                                        None,
                                        escaped,
                                    );
                                },
                                None => {
                                    lemma_strip_len(line, syn, i + 1, None, None, escaped);
                                },
                            }
                        }
                    },
                }
            },
        }
    }
}

/// Removing comments from whitespace leaves whitespace.
proof fn lemma_strip_ws(
    line: Seq<char>,
    syn: SyntaxView,
    i: int,
    block_end: Option<Seq<char>>,
    quote: Option<char>,
    escaped: bool,
)
    requires
        0 <= i,
        forall|j: int| i <= j < line.len() ==> crate::text::is_ws(line[j]),
    ensures
        forall|k: int|
            0 <= k < strip_from(line, syn, i, block_end, quote, escaped).0.len() ==> crate::text::is_ws(
                strip_from(line, syn, i, block_end, quote, escaped).0[k],
            ),
    decreases (line.len() - i) * 2 + (if block_end is Some { 1int } else { 0int }),
{
    if i < line.len() {
        let c = line[i];
        assert(crate::text::is_ws(c));
        assert(c != '"' && c != '\'' && c != '`');
        match block_end {
            Some(end) => {
                if crate::text::occurs_at(line, end, i) {
                    lemma_strip_ws(line, syn, i + end.len(), None, quote, escaped);
                    assert(strip_from(line, syn, i, block_end, quote, escaped) == strip_from(
                        line,
                        syn,
                        i + end.len(),
                        None,
                        quote,
                        escaped,
                    ));
                } else {
                    lemma_strip_ws(line, syn, i + 1, block_end, quote, escaped);
                    assert(strip_from(line, syn, i, block_end, quote, escaped) == strip_from(
                        line,
                        syn,
                        i + 1,
                        block_end,
                        quote,
                        escaped,
                    ));
                }
            },
            None => {
                match quote {
                    Some(q) => {
                        let nq = crate::syntax::quote_after(q, escaped, c);
                        let ne = !escaped && c == '\\';
                        lemma_strip_ws(line, syn, i + 1, None, nq, ne);
                        let r = strip_from(line, syn, i + 1, None, nq, ne).0;
                        let out = strip_from(line, syn, i, block_end, quote, escaped).0;
                        assert(out == seq![c] + r);
                        assert forall|k: int| 0 <= k < out.len() implies crate::text::is_ws(out[k]) by {
                            if k > 0 {
                                assert(out[k] == r[k - 1]);
                            }
                        }
                    },
                    None => {
                        lemma_find_block_from(syn.block_markers, line, i, 0);
                        match find_block_from(syn.block_markers, line, i, 0) {
                            Some(k) => {
                                lemma_strip_ws(
                                    line,
                                    syn,
                                    i + syn.block_markers[k].0.len(),
                                    Some(syn.block_markers[k].1),
                                    None,
                                    escaped,
                                );
                                assert(strip_from(line, syn, i, block_end, quote, escaped) == strip_from(
                                    line,
                                    syn,
                                    i + syn.block_markers[k].0.len(),
                                    Some(syn.block_markers[k].1),
                                    None,
                                    escaped,
                                ));
                            },
                            None => {
                                lemma_strip_ws(line, syn, i + 1, None, None, escaped);
                                if !crate::syntax::line_marker_at(syn.line_markers, line, i) {
                                    let r = strip_from(line, syn, i + 1, None, None, escaped).0;
                                    let out = strip_from(line, syn, i, block_end, quote, escaped).0;
                                    assert(out == seq![c] + r);
                                    assert forall|k: int| 0 <= k < out.len() implies crate::text::is_ws(out[k]) by {
                                        if k > 0 {
                                            assert(out[k] == r[k - 1]);
                                        }
                                    }
                                }
                            },
                        }
                    },
                }
            },
        }
    }
}

/// `a` is `b` with some characters left out.
pub open spec fn is_subsequence(a: Seq<char>, b: Seq<char>) -> bool
    decreases b.len(),
{
    if a.len() == 0 {
        true
    } else if b.len() == 0 {
        false
    } else if a[0] == b[0] {
        is_subsequence(a.drop_first(), b.drop_first())
    } else {
        is_subsequence(a, b.drop_first())
    }
}

proof fn lemma_subsequence_drop(a: Seq<char>, b: Seq<char>)
    requires
        a.len() > 0,
        is_subsequence(a, b),
    ensures
        is_subsequence(a.drop_first(), b),
    decreases b.len(), 1int,
{
    if b.len() > 0 {
        if a[0] != b[0] {
            lemma_subsequence_drop(a, b.drop_first());
        }
        lemma_subsequence_widen(a.drop_first(), b);
    }
}

proof fn lemma_subsequence_widen(a: Seq<char>, b: Seq<char>)
    requires
        b.len() > 0,
        is_subsequence(a, b.drop_first()),
    ensures
        is_subsequence(a, b),
    decreases b.len(), 0int,
{
    if a.len() > 0 && a[0] == b[0] {
        lemma_subsequence_drop(a, b.drop_first());
    }
}

proof fn lemma_subsequence_skip(a: Seq<char>, line: Seq<char>, i: int, j: int)
    requires
        0 <= i <= j <= line.len(),
        is_subsequence(a, line.skip(j)),
    ensures
        is_subsequence(a, line.skip(i)),
    decreases j - i,
{
    if i < j {
        assert(line.skip(j - 1).drop_first() =~= line.skip(j));
        lemma_subsequence_widen(a, line.skip(j - 1));
        lemma_subsequence_skip(a, line, i, j - 1);
    }
}

proof fn lemma_strip_subsequence(
    line: Seq<char>,
    syn: SyntaxView,
    i: int,
    block_end: Option<Seq<char>>,
    quote: Option<char>,
    escaped: bool,
)
    requires
        0 <= i,
    ensures
        is_subsequence(strip_from(line, syn, i, block_end, quote, escaped).0, line.skip(i)),
    decreases (line.len() - i) * 2 + (if block_end is Some { 1int } else { 0int }),
{
    let out = strip_from(line, syn, i, block_end, quote, escaped).0;
    if i < line.len() {
        let c = line[i];
        assert(line.skip(i).drop_first() =~= line.skip(i + 1));
        assert(line.skip(i)[0] == c);
        match block_end {
            Some(end) => {
                if crate::text::occurs_at(line, end, i) {
                    lemma_strip_subsequence(line, syn, i + end.len(), None, quote, escaped);
                    lemma_subsequence_skip(out, line, i, i + end.len());
                } else {
                    lemma_strip_subsequence(line, syn, i + 1, block_end, quote, escaped);
                    lemma_subsequence_skip(out, line, i, i + 1);
                }
            },
            None => {
                match quote {
                    Some(q) => {
                        let nq = crate::syntax::quote_after(q, escaped, c);
                        let ne = !escaped && c == '\\';
                        lemma_strip_subsequence(line, syn, i + 1, None, nq, ne);
                        let r = strip_from(line, syn, i + 1, None, nq, ne).0;
                        assert(out == seq![c] + r);
                        assert((seq![c] + r).drop_first() =~= r);
                    },
                    None => {
                        if c == '"' || c == '\'' || c == '`' {
                            lemma_strip_subsequence(line, syn, i + 1, None, Some(c), escaped);
                            let r = strip_from(line, syn, i + 1, None, Some(c), escaped).0;
                            assert(out == seq![c] + r);
                            assert((seq![c] + r).drop_first() =~= r);
                        } else {
                            lemma_find_block_from(syn.block_markers, line, i, 0);
                            match find_block_from(syn.block_markers, line, i, 0) {
                                Some(k) => {
                                    let j = i + syn.block_markers[k].0.len();
                                    lemma_strip_subsequence(
                                        line,
                                        syn,
                                        j,
                                        Some(syn.block_markers[k].1),
                                        None,
                                        escaped,
                                    );
                                    assert(out == strip_from(
                                        line,
                                        syn,
                                        j,
                                        Some(syn.block_markers[k].1),
                                        None,
                                        escaped,
                                    ).0);
                                    lemma_subsequence_skip(out, line, i, j);
                                },
                                None => {
                                    if !crate::syntax::line_marker_at(syn.line_markers, line, i) {
                                        lemma_strip_subsequence(line, syn, i + 1, None, None, escaped);
                                        let r = strip_from(line, syn, i + 1, None, None, escaped).0;
                                        assert(out == seq![c] + r);
                                        assert((seq![c] + r).drop_first() =~= r);
                                    }
                                },
                            }
                        }
                    },
                }
            },
        }
    }
}

/// Removing comments only leaves characters out: the result is the line
/// with some characters removed, in their order.
pub proof fn law_strip_keeps_a_subsequence(line: Seq<char>, syntax: SyntaxView, block_end: Option<Seq<char>>)
    ensures
        is_subsequence(spec_strip_comments(line, syntax, block_end).0, line),
{
    lemma_strip_subsequence(line, syntax, 0, block_end, None, false);
    assert(line.skip(0) =~= line);
}

proof fn lemma_strip_markerless(
    line: Seq<char>,
    syn: SyntaxView,
    i: int,
    quote: Option<char>,
    escaped: bool,
)
    requires
        0 <= i <= line.len(),
        syn.line_markers.len() == 0,
        syn.block_markers.len() == 0,
    ensures
        strip_from(line, syn, i, None, quote, escaped) == (line.skip(i), None::<Seq<char>>),
    decreases line.len() - i,
{
    if i < line.len() {
        let c = line[i];
        assert(line.skip(i) =~= seq![c] + line.skip(i + 1));
        match quote {
            Some(q) => {
                lemma_strip_markerless(
                    line,
                    syn,
                    i + 1,
                    crate::syntax::quote_after(q, escaped, c),
                    !escaped && c == '\\',
                );
            },
            None => {
                if c == '"' || c == '\'' || c == '`' {
                    lemma_strip_markerless(line, syn, i + 1, Some(c), escaped);
                } else {
                    assert(find_block_from(syn.block_markers, line, i, 0) is None);
                    assert(!crate::syntax::line_marker_at(syn.line_markers, line, i));
                    lemma_strip_markerless(line, syn, i + 1, None, escaped);
                }
            },
        }
    } else {
        assert(line.skip(i) =~= Seq::<char>::empty());
    }
}

/// With plain-text syntax and no open block comment, removing comments
/// returns the line unchanged and opens no block.
pub proof fn law_plain_strip_unchanged(line: Seq<char>)
    ensures
        spec_strip_comments(line, spec_syntax_for("plain"@), None) == (line, None::<Seq<char>>),
{
    reveal_strlit("plain");
    reveal_strlit("lua");
    reveal_strlit("hash");
    reveal_strlit("xml");
    assert("plain"@ != "lua"@ && "plain"@ != "hash"@ && "plain"@ != "xml"@) by {
        assert("plain"@.len() == 5 && "lua"@.len() == 3 && "hash"@.len() == 4 && "xml"@.len() == 3);
    }
    lemma_strip_markerless(line, spec_syntax_for("plain"@), 0, None, false);
    assert(line.skip(0) =~= line);
}

proof fn lemma_inside_quote(line: Seq<char>, syn: SyntaxView, i: int, q: char)
    requires
        0 <= i < line.len(),
        q != '\\',
        line.last() == q,
        forall|j: int| i <= j < line.len() - 1 ==> line[j] != q && line[j] != '\\',
    ensures
        strip_from(line, syn, i, None, Some(q), false) == (line.skip(i), None::<Seq<char>>),
    decreases line.len() - i,
{
    let c = line[i];
    assert(line.skip(i) =~= seq![c] + line.skip(i + 1));
    if i == line.len() - 1 {
        assert(c == q);
        assert(line.skip(i + 1) =~= Seq::<char>::empty());
        assert(crate::syntax::quote_after(q, false, c) == None::<char>);
        let rest = strip_from(line, syn, i + 1, None, None, false);
        assert(rest == (Seq::<char>::empty(), None::<Seq<char>>));
        assert(strip_from(line, syn, i, None, Some(q), false) == (seq![c] + rest.0, rest.1));
    } else {
        assert(c != q && c != '\\');
        assert(crate::syntax::quote_after(q, false, c) == Some(q));
        lemma_inside_quote(line, syn, i + 1, q);
        let rest = strip_from(line, syn, i + 1, None, Some(q), false);
        assert(strip_from(line, syn, i, None, Some(q), false) == (seq![c] + rest.0, rest.1));
    }
}

/// Text between a pair of double quotes, single quotes or backticks is a
/// literal: stripping `q x q` with no open block comment gives it back
/// unchanged, even when `x` holds comment markers, for any comment syntax.
pub proof fn law_quoted_text_kept(q: char, x: Seq<char>, syntax: SyntaxView)
    requires
        q == '"' || q == '\'' || q == '`',
        !x.contains(q),
        !x.contains('\\'),
    ensures
        spec_strip_comments(seq![q] + x + seq![q], syntax, None)
            == (seq![q] + x + seq![q], None::<Seq<char>>),
{
    let line = seq![q] + x + seq![q];
    assert forall|j: int| 1 <= j < line.len() - 1 implies line[j] != q && line[j] != '\\' by {
        assert(line[j] == x[j - 1]);
        assert(x.contains(x[j - 1]));
    }
    assert(line.last() == q);
    lemma_inside_quote(line, syntax, 1, q);
    assert(line[0] == q);
    assert(line.skip(0) =~= line);
    assert(line.skip(1) =~= x + seq![q]);
    assert(line =~= seq![q] + line.skip(1));
    let rest = strip_from(line, syntax, 1, None, Some(q), false);
    assert(strip_from(line, syntax, 0, None, None, false) == (seq![line[0]] + rest.0, rest.1));
    assert(rest.0 == line.skip(1));
    assert(rest.1 == None::<Seq<char>>);
    assert(seq![line[0]] + rest.0 =~= line);
    assert(spec_strip_comments(line, syntax, None) == strip_from(line, syntax, 0, None, None, false));
}

/// Collapsing whitespace keeps a leading non-whitespace character first.
proof fn lemma_collapse_first(s: Seq<char>)
    requires
        s.len() > 0,
        !crate::text::is_ws(s[0]),
    ensures
        collapse_ws(s).len() > 0,
        collapse_ws(s)[0] == s[0],
    decreases s.len(),
{
    if s.len() > 1 {
        assert(s.drop_last()[0] == s[0]);
        lemma_collapse_first(s.drop_last());
        let r = collapse_ws(s.drop_last());
        assert(r.push(' ')[0] == r[0]);
        assert(r.push(s.last())[0] == r[0]);
    } else {
        assert(collapse_ws(s) == collapse_ws(s.drop_last()).push(s.last()));
        assert(collapse_ws(s.drop_last()) =~= Seq::<char>::empty());
    }
}

/// The normalized form of non-empty trimmed code is non-empty.
proof fn lemma_normalized_nonempty(t: Seq<char>)
    requires
        t.len() > 0,
        !crate::text::is_ws(t[0]),
        trim(t) == t,
    ensures
        spec_normalize_code(t).len() > 0,
{
    lemma_collapse_first(t);
    let c = collapse_ws(t);
    crate::text::lemma_trim_facts(c);
    assert(!(forall|k: int| 0 <= k < c.len() ==> crate::text::is_ws(c[k]))) by {
        assert(!crate::text::is_ws(c[0]));
    }
}

proof fn lemma_trim_len(s: Seq<char>)
    ensures
        trim(s).len() <= s.len(),
{
    lemma_lead_ws_bound(s);
    let t = s.skip(lead_ws(s) as int);
    lemma_trail_ws_bound(t);
}

proof fn lemma_collapse_len(s: Seq<char>)
    ensures
        collapse_ws(s).len() <= s.len(),
    decreases s.len(),
{
    if s.len() > 0 {
        lemma_collapse_len(s.drop_last());
    }
}

/// The normalized form of kept code is never longer than the raw line.
proof fn lemma_normalized_len(raw: Seq<char>, syn: SyntaxView, block_end: Option<Seq<char>>)
    ensures
        spec_normalize_code(trim(spec_strip_comments(raw, syn, block_end).0)).len()
            <= trim(spec_strip_comments(raw, syn, block_end).0).len(),
        trim(spec_strip_comments(raw, syn, block_end).0).len() <= raw.len(),
{
    let code = spec_strip_comments(raw, syn, block_end).0;
    lemma_strip_len(raw, syn, 0, block_end, None, false);
    lemma_trim_len(code);
    let t = trim(code);
    lemma_trim_len(t);
    lemma_collapse_len(trim(t));
    lemma_trim_len(collapse_ws(trim(t)));
}

// ---------------------------------------------------------------------------
// Line-by-line scan of one file
// ---------------------------------------------------------------------------

/// What the scan knows about the file being read.
pub struct FileContext {
    pub display: Seq<char>,
    pub project: Seq<char>,
    pub csharp: bool,
    pub decompiled: bool,
    pub syntax: SyntaxView,
}

/// State carried from one line to the next: an unfinished block comment,
/// whether the scan is inside a compiler-support namespace, the brace depth
/// of a compiler-generated block, and whether such a block header has been
/// seen without its opening brace.
pub struct ScanState {
    pub block_end: Option<Seq<char>>,
    pub scaffold_ns: bool,
    pub depth: int,
    pub pending: bool,
}

pub open spec fn initial_scan_state() -> ScanState {
    ScanState { block_end: None, scaffold_ns: false, depth: 0, pending: false }
}

/// What happens to one line.
pub enum LineFate {
    Kept(LineView),
    Skipped(ExcludedView),
}

pub open spec fn excluded_view(ctx: FileContext, n: usize, kind: &str, reason: &str) -> ExcludedView {
    ExcludedView { file: ctx.display, line: n, kind: kind@, reason: reason@ }
}

pub open spec fn closure_reason() -> &'static str {
    "compiler generated closure or async/iterator state machine"
}

pub open spec fn max1(d: int) -> int {
    if d > 1 {
        d
    } else {
        1
    }
}

/// One step of the scan: line number `n` with raw text `raw`.
pub open spec fn scan_step(ctx: FileContext, st: ScanState, n: usize, raw: Seq<char>) -> (
    ScanState,
    LineFate,
) {
    let (code, be) = spec_strip_comments(raw, ctx.syntax, st.block_end);
    let t = trim(code);
    if t.len() == 0 {
        let blank = trim(raw).len() == 0;
        (
            ScanState { block_end: be, ..st },
            LineFate::Skipped(
                excluded_view(
                    ctx,
                    n,
                    if blank { "blank" } else { "comment" },
                    if blank { "blank line" } else { "comment-only after stripping comments" },
                ),
            ),
        )
    } else {
        let norm = spec_normalize_code(t);
        if st.pending || st.depth > 0 {
            let delta = spec_brace_delta(norm);
            let pending = st.pending && !has_char(norm, '{');
            let depth = if st.pending && has_char(norm, '{') {
                max1(delta)
            } else if !st.pending {
                st.depth + delta
            } else {
                st.depth
            };
            let depth = if depth <= 0 && !pending { 0 } else { depth };
            (
                ScanState { block_end: be, pending, depth, ..st },
                LineFate::Skipped(
                    excluded_view(ctx, n, "decompiler_scaffold", closure_reason()),
                ),
            )
        } else if spec_starts_generated_block(norm) {
            let pending = !has_char(norm, '{');
            let depth = if pending { 0 } else { max1(spec_brace_delta(norm)) };
            (
                ScanState { block_end: be, pending, depth, ..st },
                LineFate::Skipped(
                    excluded_view(ctx, n, "decompiler_scaffold", closure_reason()),
                ),
            )
        } else {
            let (reason, ns) = spec_scaffold_kind(norm, st.scaffold_ns);
            let st2 = ScanState { block_end: be, scaffold_ns: ns, ..st };
            match reason {
                Some(r) => (
                    st2,
                    LineFate::Skipped(excluded_view(ctx, n, "decompiler_scaffold", r)),
                ),
                None => (
                    st2,
                    LineFate::Kept(
                        LineView {
                            file: ctx.display,
                            project: ctx.project,
                            line: n,
                            code: t,
                            normalized: norm,
                            csharp: ctx.csharp,
                            decompiled: ctx.decompiled,
                        },
                    ),
                ),
            }
        }
    }
}

/// Result of scanning the lines of a file.
pub struct ScanOut {
    pub state: ScanState,
    pub kept: Seq<LineView>,
    pub excluded: Seq<ExcludedView>,
}

/// The scan of the first `raws.len()` lines, numbered from one.
pub open spec fn scan_fold(ctx: FileContext, raws: Seq<Seq<char>>) -> ScanOut
    decreases raws.len(),
{
    if raws.len() == 0 {
        ScanOut { state: initial_scan_state(), kept: seq![], excluded: seq![] }
    } else {
        let prev = scan_fold(ctx, raws.drop_last());
        let (st, fate) = scan_step(ctx, prev.state, raws.len() as usize, raws.last());
        match fate {
            LineFate::Kept(l) => ScanOut { state: st, kept: prev.kept.push(l), excluded: prev.excluded },
            LineFate::Skipped(e) => ScanOut { state: st, kept: prev.kept, excluded: prev.excluded.push(e) },
        }
    }
}

/// What one step of the scan does with a line: a kept line carries its
/// number, trimmed code with its normalization and the file's context; an
/// excluded line is `blank` exactly when it is whitespace, `comment` exactly
/// when only comment stripping emptied it, and otherwise decompiler
/// scaffolding.
pub open spec fn step_facts(ctx: FileContext, st: ScanState, n: usize, raw: Seq<char>, fate: LineFate) -> bool {
    match fate {
        LineFate::Kept(l) => {
            &&& l.line == n
            &&& l.code.len() > 0
            &&& trim(l.code) == l.code
            &&& l.normalized == spec_normalize_code(l.code)
            &&& l.normalized.len() > 0
            &&& l.file == ctx.display
            &&& l.project == ctx.project
            &&& l.csharp == ctx.csharp
            &&& l.decompiled == ctx.decompiled
        },
        LineFate::Skipped(e) => {
            &&& e.line == n
            &&& e.file == ctx.display
            &&& (e.kind == "blank"@ <==> trim(raw).len() == 0)
            &&& (e.kind == "comment"@ <==> trim(raw).len() > 0 && trim(
                spec_strip_comments(raw, ctx.syntax, st.block_end).0,
            ).len() == 0)
            &&& (e.kind == "blank"@ || e.kind == "comment"@ || e.kind == "decompiler_scaffold"@)
        },
    }
}

proof fn lemma_step_facts(ctx: FileContext, st: ScanState, n: usize, raw: Seq<char>)
    ensures
        step_facts(ctx, st, n, raw, scan_step(ctx, st, n, raw).1),
{
    reveal_strlit("blank");
    reveal_strlit("comment");
    reveal_strlit("decompiler_scaffold");
    let code = spec_strip_comments(raw, ctx.syntax, st.block_end).0;
    let t = trim(code);
    crate::text::lemma_trim_facts(raw);
    crate::text::lemma_trim_facts(code);
    crate::text::lemma_trim_idempotent(code);
    if trim(raw).len() == 0 {
        lemma_strip_ws(raw, ctx.syntax, 0, st.block_end, None, false);
        assert(t.len() == 0);
    }
    if t.len() > 0 {
        lemma_normalized_nonempty(t);
    }
    let fate = scan_step(ctx, st, n, raw).1;
    match fate {
        LineFate::Kept(l) => {
            assert(l.code == t);
            assert(trim(l.code) == l.code);
            assert(l.normalized.len() > 0);
        },
        LineFate::Skipped(e) => {
            assert(e.line == n);
            assert("blank"@.len() == 5 && "comment"@.len() == 7 && "decompiler_scaffold"@.len() == 19);
            assert("blank"@ != "comment"@);
            assert("blank"@ != "decompiler_scaffold"@);
            assert("comment"@ != "decompiler_scaffold"@);
            assert(e.kind == "blank"@ <==> trim(raw).len() == 0);
            assert(e.kind == "blank"@ || e.kind == "comment"@ || e.kind == "decompiler_scaffold"@);
        },
    }
}

/// The scan state in front of line `n` (lines are numbered from one).
pub open spec fn state_before(ctx: FileContext, raws: Seq<Seq<char>>, n: int) -> ScanState {
    scan_fold(ctx, raws.take(n - 1)).state
}

/// Some kept line has number `n`.
pub open spec fn kept_at(out: ScanOut, n: int) -> bool {
    exists|k: int| 0 <= k < out.kept.len() && out.kept[k].line == n
}

/// Some excluded line has number `n`.
pub open spec fn excluded_at(out: ScanOut, n: int) -> bool {
    exists|k: int| 0 <= k < out.excluded.len() && out.excluded[k].line == n
}

/// Inside a compiler-generated block (its header seen, depth above zero),
/// every line with code is excluded as decompiler scaffolding and the
/// depth moves by the line's opening braces minus its closing braces,
/// ending the block at zero once they balance; a line without code leaves
/// the depth as it was. A header still waiting for its opening brace takes
/// the depth of its first line with a `{`, at least one. No line is kept
/// while a block is open.
pub proof fn law_generated_block_depth(ctx: FileContext, st: ScanState, n: usize, raw: Seq<char>)
    ensures
        ({
            let code = trim(spec_strip_comments(raw, ctx.syntax, st.block_end).0);
            let norm = spec_normalize_code(code);
            let opens = crate::syntax::count_char(norm, '{') as int;
            let closes = crate::syntax::count_char(norm, '}') as int;
            let (st2, fate) = scan_step(ctx, st, n, raw);
            &&& (st.pending || st.depth > 0) ==> fate is Skipped
            &&& (st.pending || st.depth > 0) && code.len() > 0 ==> (fate matches LineFate::Skipped(e)
                && e.kind == "decompiler_scaffold"@)
            &&& code.len() == 0 ==> st2.depth == st.depth && st2.pending == st.pending
            &&& !st.pending && st.depth > 0 && code.len() > 0 ==> !st2.pending && st2.depth == if st.depth
                + opens - closes > 0 {
                st.depth + opens - closes
            } else {
                0
            }
            &&& st.pending && code.len() > 0 && opens > 0 ==> !st2.pending && st2.depth == if opens - closes
                > 1 {
                opens - closes
            } else {
                1
            }
        }),
{
    let code = trim(spec_strip_comments(raw, ctx.syntax, st.block_end).0);
    let norm = spec_normalize_code(code);
    crate::syntax::law_brace_delta_counts(norm);
    lemma_has_char_count(norm, '{');
}

proof fn lemma_has_char_count(s: Seq<char>, c: char)
    ensures
        has_char(s, c) <==> crate::syntax::count_char(s, c) > 0,
    decreases s.len(),
{
    if s.len() > 0 {
        lemma_has_char_count(s.drop_last(), c);
        if has_char(s, c) {
            let i = choose|i: int| 0 <= i < s.len() && s[i] == c;
            if i < s.len() - 1 {
                assert(s.drop_last()[i] == c);
            }
        }
        if has_char(s.drop_last(), c) {
            let i = choose|i: int| 0 <= i < s.drop_last().len() && s.drop_last()[i] == c;
            assert(s[i] == c);
        }
        assert(s[s.len() - 1] == s.last());
    }
}

/// Removing comments never makes a line longer.
pub proof fn law_strip_never_lengthens(line: Seq<char>, syntax: SyntaxView, block_end: Option<Seq<char>>)
    ensures
        spec_strip_comments(line, syntax, block_end).0.len() <= line.len(),
{
    lemma_strip_len(line, syntax, 0, block_end, None, false);
}

/// Scanning the lines of a file gives each line exactly one fate: the line
/// numbers of kept and of excluded lines are increasing, disjoint, and
/// together exactly `1..=n`. A kept line has trimmed, non-empty code, its
/// normalization and the file's context; an excluded line is `blank` exactly
/// when the line is whitespace, `comment` exactly when only comment
/// stripping (in the scan state in front of it) emptied it, and decompiler
/// scaffolding otherwise.
pub proof fn law_every_line_kept_or_excluded(ctx: FileContext, raws: Seq<Seq<char>>)
    requires
        raws.len() <= usize::MAX,
    ensures
        scan_fold(ctx, raws).kept.len() + scan_fold(ctx, raws).excluded.len() == raws.len(),
        forall|n: int| 1 <= n <= raws.len() ==> (kept_at(scan_fold(ctx, raws), n) <==> !excluded_at(
            scan_fold(ctx, raws),
            n,
        )),
        forall|i: int, j: int|
            0 <= i < j < scan_fold(ctx, raws).kept.len() ==> scan_fold(ctx, raws).kept[i].line < scan_fold(
                ctx,
                raws,
            ).kept[j].line,
        forall|i: int, j: int|
            0 <= i < j < scan_fold(ctx, raws).excluded.len() ==> scan_fold(ctx, raws).excluded[i].line
                < scan_fold(ctx, raws).excluded[j].line,
        forall|k: int|
            0 <= k < scan_fold(ctx, raws).kept.len() ==> {
                let l = #[trigger] scan_fold(ctx, raws).kept[k];
                &&& 1 <= l.line <= raws.len()
                &&& step_facts(
                    ctx,
                    state_before(ctx, raws, l.line as int),
                    l.line,
                    raws[l.line - 1],
                    LineFate::Kept(l),
                )
            },
        forall|k: int|
            0 <= k < scan_fold(ctx, raws).excluded.len() ==> {
                let e = #[trigger] scan_fold(ctx, raws).excluded[k];
                &&& 1 <= e.line <= raws.len()
                &&& step_facts(
                    ctx,
                    state_before(ctx, raws, e.line as int),
                    e.line,
                    raws[e.line - 1],
                    LineFate::Skipped(e),
                )
            },
    decreases raws.len(),
{
    if raws.len() > 0 {
        let q = raws.drop_last();
        law_every_line_kept_or_excluded(ctx, q);
        let prev = scan_fold(ctx, q);
        let out = scan_fold(ctx, raws);
        let n = raws.len() as usize;
        let (st, fate) = scan_step(ctx, prev.state, n, raws.last());
        lemma_step_facts(ctx, prev.state, n, raws.last());
        assert(raws.take(n - 1) =~= q);
        assert(raws[n - 1] == raws.last());
        assert forall|m: int| 1 <= m < n implies state_before(ctx, q, m) == state_before(ctx, raws, m)
            && q[m - 1] == raws[m - 1] by {
            assert(q.take(m - 1) =~= raws.take(m - 1));
        }
        match fate {
            LineFate::Kept(l) => {
                assert(out.kept == prev.kept.push(l));
                assert(out.excluded == prev.excluded);
                assert forall|k: int| 0 <= k < out.kept.len() implies {
                    let x = #[trigger] out.kept[k];
                    &&& 1 <= x.line <= raws.len()
                    &&& step_facts(ctx, state_before(ctx, raws, x.line as int), x.line, raws[x.line - 1], LineFate::Kept(x))
                } by {
                    if k < prev.kept.len() {
                        assert(out.kept[k] == prev.kept[k]);
                    }
                }
                assert forall|k: int| 0 <= k < out.excluded.len() implies {
                    let x = #[trigger] out.excluded[k];
                    &&& 1 <= x.line <= raws.len()
                    &&& step_facts(ctx, state_before(ctx, raws, x.line as int), x.line, raws[x.line - 1], LineFate::Skipped(x))
                } by {
                    assert(out.excluded[k] == prev.excluded[k]);
                }
                assert forall|i: int, j: int| 0 <= i < j < out.kept.len() implies out.kept[i].line < out.kept[j].line by {
                    assert(out.kept[i] == prev.kept[i]);
                    if j < prev.kept.len() {
                        assert(out.kept[j] == prev.kept[j]);
                    }
                }
                assert forall|m: int| 1 <= m <= raws.len() implies (kept_at(out, m) <==> !excluded_at(out, m)) by {
                    if m < n {
                        if kept_at(out, m) {
                            let k = choose|k: int| 0 <= k < out.kept.len() && out.kept[k].line == m;
                            assert(k < prev.kept.len());
                            assert(prev.kept[k] == out.kept[k]);
                        }
                        if kept_at(prev, m) {
                            let k = choose|k: int| 0 <= k < prev.kept.len() && prev.kept[k].line == m;
                            assert(out.kept[k] == prev.kept[k]);
                        }
                    } else {
                        assert(out.kept[out.kept.len() - 1].line == m);
                        if excluded_at(out, m) {
                            let k = choose|k: int| 0 <= k < out.excluded.len() && out.excluded[k].line == m;
                            assert(prev.excluded[k].line <= q.len());
                        }
                    }
                }
            },
            LineFate::Skipped(e) => {
                assert(out.excluded == prev.excluded.push(e));
                assert(out.kept == prev.kept);
                assert forall|k: int| 0 <= k < out.kept.len() implies {
                    let x = #[trigger] out.kept[k];
                    &&& 1 <= x.line <= raws.len()
                    &&& step_facts(ctx, state_before(ctx, raws, x.line as int), x.line, raws[x.line - 1], LineFate::Kept(x))
                } by {
                    assert(out.kept[k] == prev.kept[k]);
                }
                assert forall|k: int| 0 <= k < out.excluded.len() implies {
                    let x = #[trigger] out.excluded[k];
                    &&& 1 <= x.line <= raws.len()
                    &&& step_facts(ctx, state_before(ctx, raws, x.line as int), x.line, raws[x.line - 1], LineFate::Skipped(x))
                } by {
                    if k < prev.excluded.len() {
                        assert(out.excluded[k] == prev.excluded[k]);
                    }
                }
                assert forall|i: int, j: int| 0 <= i < j < out.excluded.len() implies out.excluded[i].line
                    < out.excluded[j].line by {
                    assert(out.excluded[i] == prev.excluded[i]);
                    if j < prev.excluded.len() {
                        assert(out.excluded[j] == prev.excluded[j]);
                    }
                }
                assert forall|m: int| 1 <= m <= raws.len() implies (kept_at(out, m) <==> !excluded_at(out, m)) by {
                    if m < n {
                        if excluded_at(out, m) {
                            let k = choose|k: int| 0 <= k < out.excluded.len() && out.excluded[k].line == m;
                            assert(k < prev.excluded.len());
                            assert(prev.excluded[k] == out.excluded[k]);
                        }
                        if excluded_at(prev, m) {
                            let k = choose|k: int| 0 <= k < prev.excluded.len() && prev.excluded[k].line == m;
                            assert(out.excluded[k] == prev.excluded[k]);
                        }
                    } else {
                        assert(out.excluded[out.excluded.len() - 1].line == m);
                        if kept_at(out, m) {
                            let k = choose|k: int| 0 <= k < out.kept.len() && out.kept[k].line == m;
                            assert(prev.kept[k].line <= q.len());
                        }
                    }
                }
            },
        }
    }
}

/// Executable scan context.
pub struct ScanContext {
    pub display: String,
    pub project: String,
    pub csharp: bool,
    pub decompiled: bool,
    pub syntax: Syntax,
}

pub open spec fn context_view(c: &ScanContext) -> FileContext {
    FileContext {
        display: c.display@,
        project: c.project@,
        csharp: c.csharp,
        decompiled: c.decompiled,
        syntax: c.syntax@,
    }
}

/// Executable scan state.
pub struct ScanCursor {
    pub block_end: Option<Vec<char>>,
    pub scaffold_ns: bool,
    pub depth: i32,
    pub pending: bool,
}

pub open spec fn cursor_view(c: &ScanCursor) -> ScanState {
    ScanState {
        block_end: opt_chars(c.block_end),
        scaffold_ns: c.scaffold_ns,
        depth: c.depth as int,
        pending: c.pending,
    }
}

/// The executable outcome of one line.
pub enum LineOutcome {
    Kept(CodeLine),
    Skipped(ExcludedLine),
}

pub open spec fn outcome_view(o: &LineOutcome) -> LineFate {
    match o {
        LineOutcome::Kept(l) => LineFate::Kept(l@),
        LineOutcome::Skipped(e) => LineFate::Skipped(e@),
    }
}

fn skipped(ctx: &ScanContext, n: usize, kind: &str, reason: &str) -> (r: LineOutcome)
    ensures
        outcome_view(&r) == LineFate::Skipped(excluded_view(context_view(ctx), n, kind, reason)),
{
    let e = ExcludedLine {
        file: string_of(chars_of(ctx.display.as_str()).as_slice()),
        line: n,
        kind: string_from(kind),
        reason: string_from(reason),
    };
    LineOutcome::Skipped(e)
}

/// Scans one raw line: strips comments, normalizes, and decides whether the
/// line is kept or excluded (blank, comment, or decompiler scaffold).
fn scan_line(ctx: &ScanContext, st: &mut ScanCursor, n: usize, raw: &[char]) -> (r: LineOutcome)
    requires
        0 <= old(st).depth,
        old(st).depth + raw@.len() <= i32::MAX,
    ensures
        (cursor_view(final(st)), outcome_view(&r)) == scan_step(
            context_view(ctx),
            cursor_view(old(st)),
            n,
            raw@,
        ),
        0 <= final(st).depth <= old(st).depth + raw@.len(),
{
    let ghost be0 = opt_chars(st.block_end);
    proof {
        lemma_normalized_len(raw@, ctx.syntax@, be0);
    }
    let code = strip_comment_chars(raw, &ctx.syntax, &mut st.block_end);
    let t = trim_chars(&code);
    if t.len() == 0 {
        let rt = trim_chars(raw);
        if rt.len() == 0 {
            return skipped(ctx, n, "blank", "blank line");
        } else {
            return skipped(ctx, n, "comment", "comment-only after stripping comments");
        }
    }
    let normalized = normalize_chars(&t);
    proof {
        lemma_brace_delta_bound(normalized@);
    }
    if st.pending || st.depth > 0 {
        let delta = brace_delta_chars(&normalized);
        if st.pending && has_char_exec(&normalized, '{') {
            st.pending = false;
            st.depth = if delta > 1 { delta } else { 1 };
        } else if !st.pending {
            st.depth = st.depth + delta;
        }
        if st.depth <= 0 && !st.pending {
            st.depth = 0;
        }
        return skipped(ctx, n, "decompiler_scaffold", "compiler generated closure or async/iterator state machine");
    }
    if starts_generated_block_chars(&normalized) {
        st.pending = !has_char_exec(&normalized, '{');
        st.depth = if st.pending {
            0
        } else {
            let delta = brace_delta_chars(&normalized);
            if delta > 1 { delta } else { 1 }
        };
        return skipped(ctx, n, "decompiler_scaffold", "compiler generated closure or async/iterator state machine");
    }
    match scaffold_kind_chars(&normalized, &mut st.scaffold_ns) {
        Some(reason) => skipped(ctx, n, "decompiler_scaffold", reason),
        None => {
            let line = CodeLine {
                file: string_of(chars_of(ctx.display.as_str()).as_slice()),
                project: string_of(chars_of(ctx.project.as_str()).as_slice()),
                line: n,
                code: string_of(&t),
                normalized: string_of(&normalized),
                csharp: ctx.csharp,
                decompiled: ctx.decompiled,
            };
            LineOutcome::Kept(line)
        },
    }
}


// ---------------------------------------------------------------------------
// Whole files
// ---------------------------------------------------------------------------

/// A file found by the directory walk, with its text when it could be read.
pub struct SourceFile {
    /// Path shown in reports, relative to the scanned root.
    pub display: String,
    /// Name of the top-level directory (project) the file belongs to.
    pub project: String,
    /// Source kind from the file name (`c_family`, `hash`, `lua`, `blob`, ...).
    pub kind: String,
    /// The file has a C# (`.cs` or `.blob`) extension.
    pub csharp: bool,
    /// The text, or `None` when it could not be read as UTF-8.
    pub text: Option<String>,
}

pub open spec fn opt_text(o: Option<String>) -> Option<Seq<char>> {
    match o {
        Some(s) => Some(s@),
        None => None,
    }
}

pub open spec fn lines_view(v: Seq<CodeLine>) -> Seq<LineView> {
    v.map_values(|l: CodeLine| l@)
}

pub open spec fn excluded_views(v: Seq<ExcludedLine>) -> Seq<ExcludedView> {
    v.map_values(|e: ExcludedLine| e@)
}

/// What one file contributes: kept lines, excluded lines, and its raw-text
/// counters when it is scanned as source.
pub struct FileLoad {
    pub kept: Seq<LineView>,
    pub excluded: Seq<ExcludedView>,
    pub stats: Option<FileStats>,
}

pub open spec fn whole_file_excluded(display: Seq<char>, kind: &str, reason: &str) -> ExcludedView {
    ExcludedView { file: display, line: 0, kind: kind@, reason: reason@ }
}

/// Loading one file: unreadable files and blobs that do not look like
/// decompiled C# are excluded as a whole; everything else is scanned line by
/// line with the comment syntax of its kind (blobs read as C-family).
pub open spec fn spec_load_file(
    display: Seq<char>,
    project: Seq<char>,
    kind: Seq<char>,
    csharp: bool,
    text: Option<Seq<char>>,
) -> FileLoad {
    match text {
        None => FileLoad {
            kept: seq![],
            excluded: seq![
                whole_file_excluded(display, "read_error", "file could not be read as UTF-8 text"),
            ],
            stats: None,
        },
        Some(t) => {
            let blob = kind == "blob"@;
            if blob && !spec_looks_decompiled_csharp(t) {
                FileLoad {
                    kept: seq![],
                    excluded: seq![
                        whole_file_excluded(
                            display,
                            "non_source_blob",
                            "blob file does not look like decompiled C# source",
                        ),
                    ],
                    stats: None,
                }
            } else {
                let scan_kind = if blob { "c_family"@ } else { kind };
                let decompiled = blob || (csharp && spec_looks_decompiled_csharp(t));
                let ctx = FileContext {
                    display,
                    project,
                    csharp,
                    decompiled,
                    syntax: spec_syntax_for(scan_kind),
                };
                let out = scan_fold(ctx, lines_of(t));
                FileLoad {
                    kept: out.kept,
                    excluded: out.excluded,
                    stats: Some(spec_inspect_raw(t, csharp, decompiled)),
                }
            }
        },
    }
}

pub open spec fn source_load(f: SourceFile) -> FileLoad {
    spec_load_file(f.display@, f.project@, f.kind@, f.csharp, opt_text(f.text))
}

/// The scan context of a readable file: a blob is scanned as C-family
/// source and counts as decompiled, as does a C# file that looks
/// decompiled.
pub open spec fn load_context(f: SourceFile, t: Seq<char>) -> FileContext {
    let blob = f.kind@ == "blob"@;
    FileContext {
        display: f.display@,
        project: f.project@,
        csharp: f.csharp,
        decompiled: blob || (f.csharp && spec_looks_decompiled_csharp(t)),
        syntax: spec_syntax_for(if blob { "c_family"@ } else { f.kind@ }),
    }
}

/// Loading a file: an unreadable file, or a blob that does not look like
/// decompiled C#, gives one whole-file exclusion (line zero) and no lines;
/// any other file is scanned line by line, so its kept and excluded lines
/// are those of `scan_fold` over its lines, which
/// `law_every_line_kept_or_excluded` describes.
pub proof fn law_file_load(f: SourceFile)
    ensures
        f.text is None ==> source_load(f).kept.len() == 0 && source_load(f).excluded.len() == 1
            && source_load(f).excluded[0].line == 0 && source_load(f).excluded[0].file == f.display@,
        f.text is Some && f.kind@ == "blob"@ && !spec_looks_decompiled_csharp(f.text.unwrap()@) ==> source_load(
            f,
        ).kept.len() == 0 && source_load(f).excluded.len() == 1 && source_load(f).excluded[0].line == 0,
        f.text is Some && !(f.kind@ == "blob"@ && !spec_looks_decompiled_csharp(f.text.unwrap()@)) ==> {
            &&& source_load(f).kept == scan_fold(load_context(f, f.text.unwrap()@), lines_of(f.text.unwrap()@)).kept
            &&& source_load(f).excluded == scan_fold(
                load_context(f, f.text.unwrap()@),
                lines_of(f.text.unwrap()@),
            ).excluded
        },
{
}

/// Text length limit of a file: its brace depth is kept in an `i32`.
pub open spec fn fits_scan(f: SourceFile) -> bool {
    match f.text {
        Some(t) => t@.len() <= i32::MAX,
        None => true,
    }
}

fn whole_file(display: &String, kind: &str, reason: &str) -> (r: ExcludedLine)
    ensures
        r@ == whole_file_excluded(display@, kind, reason),
{
    ExcludedLine {
        file: string_of(chars_of(display.as_str()).as_slice()),
        line: 0,
        kind: string_from(kind),
        reason: string_from(reason),
    }
}

/// Scans all lines of a text in order.
fn scan_text(ctx: &ScanContext, text: &[char]) -> (r: (Vec<CodeLine>, Vec<ExcludedLine>))
    requires
        text@.len() <= i32::MAX,
    ensures
        lines_view(r.0@) == scan_fold(context_view(ctx), lines_of(text@)).kept,
        excluded_views(r.1@) == scan_fold(context_view(ctx), lines_of(text@)).excluded,
{
    let raws = split_lines(text);
    let ghost ls = lines_of(text@);
    proof {
        lemma_lines_budget(text@);
        assert(raws@.map_values(|v: Vec<char>| v@) =~= ls);
    }
    let mut kept: Vec<CodeLine> = Vec::new();
    let mut excluded: Vec<ExcludedLine> = Vec::new();
    let mut st = ScanCursor { block_end: None, scaffold_ns: false, depth: 0, pending: false };
    let mut j: usize = 0;
    while j < raws.len()
        invariant
            j <= raws@.len(),
            raws@.len() == ls.len(),
            forall|k: int| 0 <= k < raws@.len() ==> #[trigger] raws@[k]@ == ls[k],
            ls == lines_of(text@),
            ls.len() <= text@.len() <= i32::MAX,
            total_len(ls) <= text@.len(),
            0 <= st.depth <= total_len(ls.take(j as int)),
            cursor_view(&st) == scan_fold(context_view(ctx), ls.take(j as int)).state,
            lines_view(kept@) == scan_fold(context_view(ctx), ls.take(j as int)).kept,
            excluded_views(excluded@) == scan_fold(context_view(ctx), ls.take(j as int)).excluded,
        decreases raws@.len() - j,
    {
        proof {
            lemma_total_len_prefix(ls, j as int);
            assert(ls.take(j + 1).drop_last() =~= ls.take(j as int));
            assert(ls.take(j + 1).last() == ls[j as int]);
        }
        let n = j + 1;
        let fate = scan_line(ctx, &mut st, n, raws[j].as_slice());
        match fate {
            LineOutcome::Kept(l) => {
                kept.push(l);
                proof {
                    assert(lines_view(kept@) =~= scan_fold(context_view(ctx), ls.take(j + 1)).kept);
                }
            },
            LineOutcome::Skipped(e) => {
                excluded.push(e);
                proof {
                    assert(excluded_views(excluded@) =~= scan_fold(
                        context_view(ctx),
                        ls.take(j + 1),
                    ).excluded);
                }
            },
        }
        j += 1;
    }
    proof {
        assert(ls.take(j as int) =~= ls);
    }
    (kept, excluded)
}

/// The outcome of loading one source file.
pub struct LoadedFile {
    pub lines: Vec<CodeLine>,
    pub excluded: Vec<ExcludedLine>,
    pub raw_stats: Option<FileStats>,
}

/// Loads one file: exclusion of unreadable files and non-source blobs, raw
/// text counters, and the line-by-line scan.
pub fn load_file(file: &SourceFile) -> (r: LoadedFile)
    requires
        fits_scan(*file),
    ensures
        lines_view(r.lines@) == source_load(*file).kept,
        excluded_views(r.excluded@) == source_load(*file).excluded,
        r.raw_stats == source_load(*file).stats,
{
    let text = match &file.text {
        None => {
            let e = whole_file(&file.display, "read_error", "file could not be read as UTF-8 text");
            let excluded = vec![e];
            let lines: Vec<CodeLine> = Vec::new();
            proof {
                assert(excluded_views(excluded@) =~= source_load(*file).excluded);
                assert(lines_view(lines@) =~= seq![]);
            }
            return LoadedFile { lines, excluded, raw_stats: None };
        },
        Some(t) => chars_of(t.as_str()),
    };
    let blob = str_eq(file.kind.as_str(), "blob");
    let looks = looks_decompiled_chars(&text);
    if blob && !looks {
        let e = whole_file(
            &file.display,
            "non_source_blob",
            "blob file does not look like decompiled C# source",
        );
        let excluded = vec![e];
        let lines: Vec<CodeLine> = Vec::new();
        proof {
            assert(excluded_views(excluded@) =~= source_load(*file).excluded);
            assert(lines_view(lines@) =~= seq![]);
        }
        return LoadedFile { lines, excluded, raw_stats: None };
    }
    let syntax = if blob {
        syntax_for("c_family")
    } else {
        syntax_for(file.kind.as_str())
    };
    let decompiled = blob || (file.csharp && looks);
    let stats = inspect_raw_chars(&text, file.csharp, decompiled);
    let ctx = ScanContext {
        display: string_of(chars_of(file.display.as_str()).as_slice()),
        project: string_of(chars_of(file.project.as_str()).as_slice()),
        csharp: file.csharp,
        decompiled,
        syntax,
    };
    let (lines, excluded) = scan_text(&ctx, &text);
    LoadedFile { lines, excluded, raw_stats: Some(stats) }
}

/// All files of a scan, before scoring.
pub struct LoadedSource {
    pub lines: Vec<CodeLine>,
    pub excluded: Vec<ExcludedLine>,
    /// Raw-text counters per displayed path, in scan order.
    pub raw_file_stats: Vec<(String, FileStats)>,
    pub source_files: usize,
    pub skipped_non_source: usize,
    pub skipped_dirs: usize,
}

pub open spec fn stats_entries_view(v: Seq<(String, FileStats)>) -> Seq<(Seq<char>, FileStats)> {
    v.map_values(|e: (String, FileStats)| (e.0@, e.1))
}

/// The files' contributions, concatenated in order.
pub open spec fn load_all(files: Seq<SourceFile>) -> (Seq<LineView>, Seq<ExcludedView>, Seq<(Seq<char>, FileStats)>)
    decreases files.len(),
{
    if files.len() == 0 {
        (seq![], seq![], seq![])
    } else {
        let (k, e, s) = load_all(files.drop_last());
        let f = source_load(files.last());
        (
            k + f.kept,
            e + f.excluded,
            match f.stats {
                Some(st) => s.push((files.last().display@, st)),
                None => s,
            },
        )
    }
}

/// Loads every file found by the walk, in order, and keeps the walk's
/// counters of skipped files and directories.
pub fn load_source(files: &[SourceFile], skipped_non_source: usize, skipped_dirs: usize) -> (r: LoadedSource)
    requires
        forall|k: int| 0 <= k < files@.len() ==> fits_scan(#[trigger] files@[k]),
    ensures
        lines_view(r.lines@) == load_all(files@).0,
        excluded_views(r.excluded@) == load_all(files@).1,
        stats_entries_view(r.raw_file_stats@) == load_all(files@).2,
        r.source_files == files@.len(),
        r.skipped_non_source == skipped_non_source,
        r.skipped_dirs == skipped_dirs,
{
    let mut lines: Vec<CodeLine> = Vec::new();
    let mut excluded: Vec<ExcludedLine> = Vec::new();
    let mut raw: Vec<(String, FileStats)> = Vec::new();
    let mut i: usize = 0;
    while i < files.len()
        invariant
            i <= files@.len(),
            forall|k: int| 0 <= k < files@.len() ==> fits_scan(#[trigger] files@[k]),
            lines_view(lines@) == load_all(files@.take(i as int)).0,
            excluded_views(excluded@) == load_all(files@.take(i as int)).1,
            stats_entries_view(raw@) == load_all(files@.take(i as int)).2,
        decreases files@.len() - i,
    {
        proof {
            assert(files@.take(i + 1).drop_last() =~= files@.take(i as int));
        }
        let mut loaded = load_file(&files[i]);
        let ghost old_lines = lines@;
        let ghost old_excluded = excluded@;
        let ghost new_lines = loaded.lines@;
        let ghost new_excluded = loaded.excluded@;
        lines.append(&mut loaded.lines);
        excluded.append(&mut loaded.excluded);
        proof {
            assert(lines_view(lines@) =~= lines_view(old_lines) + lines_view(new_lines));
            assert(excluded_views(excluded@) =~= excluded_views(old_excluded) + excluded_views(new_excluded));
        }
        match loaded.raw_stats {
            Some(st) => {
                let name = string_of(chars_of(files[i].display.as_str()).as_slice());
                raw.push((name, st));
                proof {
                    assert(stats_entries_view(raw@) =~= load_all(files@.take(i + 1)).2);
                }
            },
            None => {},
        }
        i += 1;
    }
    proof {
        assert(files@.take(i as int) =~= files@);
    }
    LoadedSource {
        lines,
        excluded,
        raw_file_stats: raw,
        source_files: files.len(),
        skipped_non_source,
        skipped_dirs,
    }
}

} // verus!
