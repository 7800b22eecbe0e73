//! Comment syntax per source family, comment stripping, whitespace
//! normalization and the line-level "low information" filter.
use vstd::prelude::*;
use crate::text::{
    chars_eq, chars_of, is_ws, is_ws_exec, matches_at, occurs_at, slice_chars, str_eq,
    string_of, trim, trim_chars,
};

verus! {

/// The comment markers of one family of source languages.
pub struct Syntax {
    line_markers: Vec<Vec<char>>,
    block_markers: Vec<(Vec<char>, Vec<char>)>,
}

/// Mathematical view of [`Syntax`].
pub struct SyntaxView {
    pub line_markers: Seq<Seq<char>>,
    pub block_markers: Seq<(Seq<char>, Seq<char>)>,
}

impl View for Syntax {
    type V = SyntaxView;

    closed spec fn view(&self) -> SyntaxView {
        SyntaxView {
            line_markers: self.line_markers@.map_values(|m: Vec<char>| m@),
            block_markers: self.block_markers@.map_values(
                |m: (Vec<char>, Vec<char>)| (m.0@, m.1@),
            ),
        }
    }
}

/// Comment syntax chosen for a source kind: Lua, hash-comment scripts, XML,
/// plain text, and C-family syntax for every other kind.
pub open spec fn spec_syntax_for(kind: Seq<char>) -> SyntaxView {
    if kind == "lua"@ {
        SyntaxView { line_markers: seq!["--"@], block_markers: seq![("--[["@, "]]"@)] }
    } else if kind == "hash"@ {
        SyntaxView { line_markers: seq!["#"@], block_markers: seq![] }
    } else if kind == "xml"@ {
        SyntaxView { line_markers: seq![], block_markers: seq![("<!--"@, "-->"@)] }
    } else if kind == "plain"@ {
        SyntaxView { line_markers: seq![], block_markers: seq![] }
    } else {
        SyntaxView { line_markers: seq!["//"@], block_markers: seq![("/*"@, "*/"@)] }
    }
}

fn marker(s: &str) -> (r: Vec<char>)
    ensures
        r@ == s@,
{
    chars_of(s)
}

pub fn syntax_for(kind: &str) -> (r: Syntax)
    ensures
        r@ == spec_syntax_for(kind@),
{
    let r = if str_eq(kind, "lua") {
        Syntax { line_markers: vec![marker("--")], block_markers: vec![(marker("--[["), marker("]]"))] }
    } else if str_eq(kind, "hash") {
        Syntax { line_markers: vec![marker("#")], block_markers: vec![] }
    } else if str_eq(kind, "xml") {
        Syntax { line_markers: vec![], block_markers: vec![(marker("<!--"), marker("-->"))] }
    } else if str_eq(kind, "plain") {
        Syntax { line_markers: vec![], block_markers: vec![] }
    } else {
        Syntax { line_markers: vec![marker("//")], block_markers: vec![(marker("/*"), marker("*/"))] }
    };
    assert(r@.line_markers =~= spec_syntax_for(kind@).line_markers);
    assert(r@.block_markers =~= spec_syntax_for(kind@).block_markers);
    r
}

// ---------------------------------------------------------------------------
// Comment stripping
// ---------------------------------------------------------------------------

/// Index of the first block marker, in declaration order, whose (non-empty)
/// opening text starts at position `i` of `line`, searching from marker `k`.
pub open spec fn find_block_from(
    markers: Seq<(Seq<char>, Seq<char>)>,
    line: Seq<char>,
    i: int,
    k: int,
) -> Option<int>
    decreases markers.len() - k,
{
    if k < 0 || k >= markers.len() {
        None
    } else if markers[k].0.len() > 0 && occurs_at(line, markers[k].0, i) {
        Some(k)
    } else {
        find_block_from(markers, line, i, k + 1)
    }
}

pub proof fn lemma_find_block_from(
    markers: Seq<(Seq<char>, Seq<char>)>,
    line: Seq<char>,
    i: int,
    k: int,
)
    ensures
        find_block_from(markers, line, i, k) matches Some(j) ==> {
            &&& k <= j < markers.len()
            &&& markers[j].0.len() > 0
            &&& occurs_at(line, markers[j].0, i)
        },
    decreases markers.len() - k,
{
    if k >= 0 && k < markers.len() && !(markers[k].0.len() > 0 && occurs_at(line, markers[k].0, i)) {
        lemma_find_block_from(markers, line, i, k + 1);
    }
}

/// Some line-comment marker starts at position `i` of `line`.
pub open spec fn line_marker_at(markers: Seq<Seq<char>>, line: Seq<char>, i: int) -> bool {
    exists|k: int| 0 <= k < markers.len() && occurs_at(line, markers[k], i)
}

/// Quote state after reading character `c` inside a literal opened by `q`.
pub open spec fn quote_after(q: char, escaped: bool, c: char) -> Option<char> {
    if !escaped && c != '\\' && c == q {
        None
    } else {
        Some(q)
    }
}

/// Comment stripping of `line` from position `i` on, given the pending block
/// comment terminator, the open quote and whether the previous character
/// escaped this one. Returns the kept text and the terminator still pending
/// at the end of the line.
pub open spec fn strip_from(
    line: Seq<char>,
    syn: SyntaxView,
    i: int,
    block_end: Option<Seq<char>>,
    quote: Option<char>,
    escaped: bool,
) -> (Seq<char>, Option<Seq<char>>)
    decreases (line.len() - i) * 2 + (if block_end is Some { 1int } else { 0int }),
{
    if i < 0 || i >= line.len() {
        (seq![], block_end)
    } else {
        match block_end {
            Some(end) => {
                if occurs_at(line, end, i) {
                    strip_from(line, syn, i + end.len(), None, quote, escaped)
                } else {
                    strip_from(line, syn, i + 1, block_end, quote, escaped)
                }
            },
            None => {
                let c = line[i];
                match quote {
                    Some(q) => {
                        let rest = strip_from(
                            line,
                            syn,
                            i + 1,
                            None,
                            quote_after(q, escaped, c),
                            !escaped && c == '\\',
                        );
                        (seq![c] + rest.0, rest.1)
                    },
                    None => {
                        if c == '"' || c == '\'' || c == '`' {
                            let rest = strip_from(line, syn, i + 1, None, Some(c), escaped);
                            (seq![c] + rest.0, rest.1)
                        } else {
                            match find_block_from(syn.block_markers, line, i, 0) {
                                Some(k) => {
                                    proof {
                                        lemma_find_block_from(syn.block_markers, line, i, 0);
                                    }
                                    strip_from(
                                    line,
                                    syn,
                                    i + syn.block_markers[k].0.len(),
                                    Some(syn.block_markers[k].1),
                                    None,
                                    escaped,
                                )
                                },
                                None => {
                                    if line_marker_at(syn.line_markers, line, i) {
                                        (seq![], None)
                                    } else {
                                        let rest = strip_from(
                                            line,
                                            syn,
                                            i + 1,
                                            None,
                                            None,
                                            escaped,
                                        );
                                        (seq![c] + rest.0, rest.1)
                                    }
                                },
                            }
                        }
                    },
                }
            },
        }
    }
}

/// Comment stripping of a whole line: the kept text and the pending block
/// comment terminator afterwards.
pub open spec fn spec_strip_comments(
    line: Seq<char>,
    syn: SyntaxView,
    block_end: Option<Seq<char>>,
) -> (Seq<char>, Option<Seq<char>>) {
    strip_from(line, syn, 0, block_end, None, false)
}

pub open spec fn opt_chars(o: Option<Vec<char>>) -> Option<Seq<char>> {
    match o {
        Some(v) => Some(v@),
        None => None,
    }
}

pub open spec fn old_is_some(o: Option<Vec<char>>) -> bool {
    o is Some
}

fn find_block_marker(syntax: &Syntax, line: &[char], i: usize) -> (r: Option<usize>)
    ensures
        match r {
            Some(k) => find_block_from(syntax@.block_markers, line@, i as int, 0) == Some(
                k as int,
            ) && k < syntax@.block_markers.len() && syntax@.block_markers[k as int].0.len() > 0
                && occurs_at(line@, syntax@.block_markers[k as int].0, i as int)
                && syntax@.block_markers[k as int].0 == syntax.block_markers@[k as int].0@
                && syntax@.block_markers[k as int].1 == syntax.block_markers@[k as int].1@,
            None => find_block_from(syntax@.block_markers, line@, i as int, 0) is None,
        },
{
    let n = syntax.block_markers.len();
    let mut k: usize = n;
    let mut found: Option<usize> = None;
    // Search from the last marker down so that the first match wins.
    while k > 0
        invariant
            k <= n,
            n == syntax@.block_markers.len(),
            match found {
                Some(f) => k <= f < n && find_block_from(syntax@.block_markers, line@, i as int, k as int)
                    == Some(f as int),
                None => find_block_from(syntax@.block_markers, line@, i as int, k as int) is None,
            },
        decreases k,
    {
        k -= 1;
        let start = &syntax.block_markers[k].0;
        if start.len() > 0 && matches_at(line, start.as_slice(), i) {
            found = Some(k);
        }
    }
    proof {
        lemma_find_block_from(syntax@.block_markers, line@, i as int, 0);
        if let Some(f) = found {
            assert(syntax@.block_markers[f as int] == (
                syntax.block_markers@[f as int].0@,
                syntax.block_markers@[f as int].1@,
            ));
        }
    }
    found
}

fn line_marker_found(syntax: &Syntax, line: &[char], i: usize) -> (r: bool)
    ensures
        r == line_marker_at(syntax@.line_markers, line@, i as int),
{
    let n = syntax.line_markers.len();
    let mut k: usize = 0;
    while k < n
        invariant
            k <= n,
            n == syntax@.line_markers.len(),
            forall|j: int| 0 <= j < k ==> !occurs_at(line@, syntax@.line_markers[j], i as int),
        decreases n - k,
    {
        if matches_at(line, syntax.line_markers[k].as_slice(), i) {
            assert(syntax@.line_markers[k as int] == syntax.line_markers@[k as int]@);
            return true;
        }
        k += 1;
    }
    false
}

/// Removes comments from one line. `block_end` carries an unfinished block
/// comment from one line to the next; quoted text is kept verbatim.
pub fn strip_comments(line: &str, syntax: &Syntax, block_end: &mut Option<Vec<char>>) -> (r: String)
    ensures
        r@ == spec_strip_comments(line@, syntax@, opt_chars(*old(block_end))).0,
        opt_chars(*final(block_end)) == spec_strip_comments(line@, syntax@, opt_chars(*old(block_end))).1,
{
    let chars = chars_of(line);
    let out = strip_comment_chars(&chars, syntax, block_end);
    string_of(&out)
}

/// [`strip_comments`] on a line already split into characters.
pub fn strip_comment_chars(line: &[char], syntax: &Syntax, block_end: &mut Option<Vec<char>>) -> (r: Vec<char>)
    ensures
        r@ == spec_strip_comments(line@, syntax@, opt_chars(*old(block_end))).0,
        opt_chars(*final(block_end)) == spec_strip_comments(line@, syntax@, opt_chars(*old(block_end))).1,
{
    let ghost syn = syntax@;
    let ghost total = spec_strip_comments(line@, syn, opt_chars(*block_end));
    let mut out: Vec<char> = Vec::new();
    let mut i: usize = 0;
    let mut quote: Option<char> = None;
    let mut escaped = false;
    while i < line.len()
        invariant
            i <= line.len(),
            syn == syntax@,
            total == spec_strip_comments(line@, syn, opt_chars(*old(block_end))),
            total.0 == out@ + strip_from(line@, syn, i as int, opt_chars(*block_end), quote, escaped).0,
            total.1 == strip_from(line@, syn, i as int, opt_chars(*block_end), quote, escaped).1,
        decreases (line.len() - i) * 2 + (if old_is_some(*block_end) { 1int } else { 0int }),
    {
        let ghost before = strip_from(line@, syn, i as int, opt_chars(*block_end), quote, escaped);
        let pending: Option<(bool, usize)> = match block_end {
            Some(end) => Some((matches_at(line, end.as_slice(), i), end.len())),
            None => None,
        };
        match pending {
            Some((matched, len)) => {
                if matched {
                    *block_end = None;
                    i += len;
                } else {
                    i += 1;
                }
                continue;
            },
            None => {},
        }
        let current = line[i];
        match quote {
            Some(active) => {
                out.push(current);
                i += 1;
                if escaped {
                    escaped = false;
                } else if current == '\\' {
                    escaped = true;
                } else if current == active {
                    quote = None;
                }
                proof {
                    assert(out@ + strip_from(line@, syn, i as int, opt_chars(*block_end), quote, escaped).0
                        =~= out@.drop_last() + before.0);
                }
                continue;
            },
            None => {},
        }
        if current == '"' || current == '\'' || current == '`' {
            quote = Some(current);
            out.push(current);
            i += 1;
            proof {
                assert(out@ + strip_from(line@, syn, i as int, opt_chars(*block_end), quote, escaped).0
                    =~= out@.drop_last() + before.0);
            }
            continue;
        }
        match find_block_marker(syntax, line, i) {
            Some(k) => {
                let start_len = syntax.block_markers[k].0.len();
                let end = &syntax.block_markers[k].1;
                let copy = slice_chars(end.as_slice(), 0, end.len());
                proof {
                    assert(copy@ =~= end@);
                }
                *block_end = Some(copy);
                i += start_len;
                continue;
            },
            None => {},
        }
        if line_marker_found(syntax, line, i) {
            proof {
                assert(out@ =~= out@ + before.0);
            }
            return out;
        }
        out.push(current);
        i += 1;
        proof {
            assert(out@ + strip_from(line@, syn, i as int, opt_chars(*block_end), quote, escaped).0
                =~= out@.drop_last() + before.0);
        }
    }
    assert(out@ =~= out@ + strip_from(line@, syn, i as int, opt_chars(*block_end), quote, escaped).0);
    out
}

// ---------------------------------------------------------------------------
// Normalization
// ---------------------------------------------------------------------------

/// Runs of whitespace collapsed to one space.
pub open spec fn collapse_ws(s: Seq<char>) -> Seq<char>
    decreases s.len(),
{
    if s.len() == 0 {
        seq![]
    } else {
        let r = collapse_ws(s.drop_last());
        if is_ws(s.last()) {
            if s.len() > 1 && is_ws(s[s.len() - 2]) {
                r
            } else {
                r.push(' ')
            }
        } else {
            r.push(s.last())
        }
    }
}

/// Trimmed code with inner whitespace runs collapsed to one space.
pub open spec fn spec_normalize_code(code: Seq<char>) -> Seq<char> {
    trim(collapse_ws(trim(code)))
}

pub fn normalize_chars(code: &[char]) -> (r: Vec<char>)
    ensures
        r@ == spec_normalize_code(code@),
{
    let t = trim_chars(code);
    let mut normalized: Vec<char> = Vec::new();
    let mut previous_space = false;
    let mut i: usize = 0;
    while i < t.len()
        invariant
            i <= t.len(),
            normalized@ == collapse_ws(t@.take(i as int)),
            previous_space == (i > 0 && is_ws(t@[i - 1])),
        decreases t.len() - i,
    {
        let ch = t[i];
        proof {
            assert(t@.take(i + 1).drop_last() =~= t@.take(i as int));
            if i > 0 {
                assert(t@.take(i as int).last() == t@[i - 1]);
            }
        }
        if is_ws_exec(ch) {
            if !previous_space {
                normalized.push(' ');
                previous_space = true;
            }
        } else {
            normalized.push(ch);
            previous_space = false;
        }
        i += 1;
    }
    assert(t@.take(i as int) =~= t@);
    trim_chars(&normalized)
}

/// Trims code and collapses inner whitespace runs to one space.
pub fn normalize_code(code: &str) -> (r: String)
    ensures
        r@ == spec_normalize_code(code@),
{
    let c = chars_of(code);
    let n = normalize_chars(&c);
    string_of(&n)
}

// ---------------------------------------------------------------------------
// Low-information lines and brace depth
// ---------------------------------------------------------------------------

/// UTF-8 length of one character.
pub open spec fn utf8_char_len(c: char) -> nat {
    if (c as u32) < 0x80 {
        1
    } else if (c as u32) < 0x800 {
        2
    } else if (c as u32) < 0x10000 {
        3
    } else {
        4
    }
}

/// UTF-8 length (`str::len`) of a text.
pub open spec fn utf8_len(s: Seq<char>) -> nat
    decreases s.len(),
{
    if s.len() == 0 {
        0
    } else {
        utf8_len(s.drop_last()) + utf8_char_len(s.last())
    }
}

/// Characters that carry no authorship signal on their own.
pub open spec fn is_punct(c: char) -> bool {
    c == '{' || c == '}' || c == '[' || c == ']' || c == '(' || c == ')' || c == ';' || c == ','
        || c == '.' || c == '=' || c == ':'
}

/// A normalized line with too little authorship signal: at most two bytes
/// long, made of brackets and separators only, or a bare keyword.
pub open spec fn spec_is_low_information(normalized: Seq<char>) -> bool {
    let s = trim(normalized);
    ||| utf8_len(s) <= 2
    ||| (forall|k: int| 0 <= k < s.len() ==> is_punct(#[trigger] s[k]))
    ||| s == "else"@
    ||| s == "try"@
    ||| s == "finally"@
    ||| s == "do"@
    ||| s == "end"@
    ||| s == "{"@
    ||| s == "}"@
    ||| s == ");"@
    ||| s == "};"@
}

fn is_punct_exec(c: char) -> (r: bool)
    ensures
        r == is_punct(c),
{
    c == '{' || c == '}' || c == '[' || c == ']' || c == '(' || c == ')' || c == ';' || c == ','
        || c == '.' || c == '=' || c == ':'
}

proof fn lemma_utf8_len_prefix(s: Seq<char>, i: int)
    requires
        0 <= i <= s.len(),
    ensures
        utf8_len(s.take(i)) <= utf8_len(s),
    decreases s.len() - i,
{
    if i < s.len() {
        assert(s.take(i + 1).drop_last() =~= s.take(i));
        assert(utf8_len(s.take(i + 1)) == utf8_len(s.take(i)) + utf8_char_len(s.take(i + 1).last()));
        lemma_utf8_len_prefix(s, i + 1);
    } else {
        assert(s.take(i) =~= s);
    }
}

/// Whether the UTF-8 length of `s` is at most `limit` bytes.
pub fn utf8_len_at_most(s: &[char], limit: usize) -> (r: bool)
    requires
        limit <= usize::MAX - 4,
    ensures
        r == (utf8_len(s@) <= limit),
{
    let mut total: usize = 0;
    let mut i: usize = 0;
    while i < s.len()
        invariant
            i <= s.len(),
            total == utf8_len(s@.take(i as int)),
            total <= limit <= usize::MAX - 4,
        decreases s.len() - i,
    {
        let v: u32 = s[i] as u32;
        let w: usize = if v < 0x80 {
            1
        } else if v < 0x800 {
            2
        } else if v < 0x10000 {
            3
        } else {
            4
        };
        proof {
            assert(s@.take(i + 1).drop_last() =~= s@.take(i as int));
        }
        if total + w > limit {
            proof {
                lemma_utf8_len_prefix(s@, i + 1);
            }
            return false;
        }
        total = total + w;
        i += 1;
    }
    assert(s@.take(i as int) =~= s@);
    true
}

/// Whether a normalized line carries too little signal to be scored.
pub fn is_low_information(normalized: &str) -> (r: bool)
    ensures
        r == spec_is_low_information(normalized@),
{
    let c = chars_of(normalized);
    is_low_information_chars(&c)
}

pub fn is_low_information_chars(normalized: &[char]) -> (r: bool)
    ensures
        r == spec_is_low_information(normalized@),
{
    let s = trim_chars(normalized);
    if utf8_len_at_most(&s, 2) {
        return true;
    }
    let mut all = true;
    let mut i: usize = 0;
    while i < s.len()
        invariant
            i <= s.len(),
            all == (forall|k: int| 0 <= k < i ==> is_punct(#[trigger] s@[k])),
        decreases s.len() - i,
    {
        if !is_punct_exec(s[i]) {
            all = false;
        }
        i += 1;
    }
    if all {
        return true;
    }
    let words = ["else", "try", "finally", "do", "end", "{", "}", ");", "};"];
    let mut k: usize = 0;
    while k < 9
        invariant
            k <= 9,
            s@ == trim(normalized@),
            words@ == seq!["else", "try", "finally", "do", "end", "{", "}", ");", "};"],
            forall|j: int| 0 <= j < k ==> s@ != words@[j]@,
        decreases 9 - k,
    {
        let w = chars_of(words[k]);
        if chars_eq(&s, &w) {
            proof {
                if k == 0 {
                    assert(s@ == "else"@);
                } else if k == 1 {
                    assert(s@ == "try"@);
                } else if k == 2 {
                    assert(s@ == "finally"@);
                } else if k == 3 {
                    assert(s@ == "do"@);
                } else if k == 4 {
                    assert(s@ == "end"@);
                } else if k == 5 {
                    assert(s@ == "{"@);
                } else if k == 6 {
                    assert(s@ == "}"@);
                } else if k == 7 {
                    assert(s@ == ");"@);
                } else {
                    assert(s@ == "};"@);
                }
            }
            return true;
        }
        k += 1;
    }
    assert(s@ != words@[0]@ && s@ != words@[1]@ && s@ != words@[2]@ && s@ != words@[3]@);
    assert(s@ != words@[4]@ && s@ != words@[5]@ && s@ != words@[6]@ && s@ != words@[7]@);
    assert(s@ != words@[8]@);
    false
}

/// Net change in curly-brace nesting across a text.
pub open spec fn spec_brace_delta(s: Seq<char>) -> int
    decreases s.len(),
{
    if s.len() == 0 {
        0
    } else {
        let d = spec_brace_delta(s.drop_last());
        if s.last() == '{' {
            d + 1
        } else if s.last() == '}' {
            d - 1
        } else {
            d
        }
    }
}

pub proof fn lemma_brace_delta_bound(s: Seq<char>)
    ensures
        -s.len() <= spec_brace_delta(s) <= s.len(),
    decreases s.len(),
{
    if s.len() > 0 {
        lemma_brace_delta_bound(s.drop_last());
    }
}

/// Opening minus closing curly braces.
pub fn brace_delta(normalized: &str) -> (r: i32)
    requires
        normalized@.len() <= i32::MAX,
    ensures
        r == spec_brace_delta(normalized@),
{
    let c = chars_of(normalized);
    brace_delta_chars(&c)
}

pub fn brace_delta_chars(s: &[char]) -> (r: i32)
    requires
        s@.len() <= i32::MAX,
    ensures
        r == spec_brace_delta(s@),
{
    let mut total: i32 = 0;
    let mut i: usize = 0;
    while i < s.len()
        invariant
            i <= s.len() <= i32::MAX,
            total == spec_brace_delta(s@.take(i as int)),
        decreases s.len() - i,
    {
        proof {
            assert(s@.take(i + 1).drop_last() =~= s@.take(i as int));
            lemma_brace_delta_bound(s@.take(i as int));
        }
        if s[i] == '{' {
            total = total + 1;
        } else if s[i] == '}' {
            total = total - 1;
        }
        i += 1;
    }
    assert(s@.take(i as int) =~= s@);
    total
}

/// The brace balance of two pieces of text put together is the sum of
/// their balances.
pub proof fn law_brace_delta_adds(a: Seq<char>, b: Seq<char>)
    ensures
        spec_brace_delta(a + b) == spec_brace_delta(a) + spec_brace_delta(b),
    decreases b.len(),
{
    if b.len() == 0 {
        assert(a + b =~= a);
    } else {
        law_brace_delta_adds(a, b.drop_last());
        assert((a + b).drop_last() =~= a + b.drop_last());
        assert((a + b).last() == b.last());
    }
}

/// The characters of `s` that are not whitespace, in order.
pub open spec fn non_ws(s: Seq<char>) -> Seq<char>
    decreases s.len(),
{
    if s.len() == 0 {
        seq![]
    } else {
        non_ws(s.drop_last()) + if crate::text::is_ws(s.last()) {
            Seq::<char>::empty()
        } else {
            seq![s.last()]
        }
    }
}

/// Whitespace only as single spaces, each with a non-whitespace
/// character on either side.
pub open spec fn single_spaced(s: Seq<char>) -> bool {
    forall|k: int|
        0 <= k < s.len() && crate::text::is_ws(#[trigger] s[k]) ==> s[k] == ' ' && 0 < k < s.len() - 1
            && !crate::text::is_ws(s[k + 1])
}

/// Every whitespace character is a space followed by a non-whitespace
/// character, if any.
spec fn spaces_apart(s: Seq<char>) -> bool {
    forall|k: int|
        0 <= k < s.len() && crate::text::is_ws(#[trigger] s[k]) ==> s[k] == ' ' && (k + 1 < s.len()
            ==> !crate::text::is_ws(s[k + 1]))
}

proof fn lemma_non_ws_add(a: Seq<char>, b: Seq<char>)
    ensures
        non_ws(a + b) == non_ws(a) + non_ws(b),
    decreases b.len(),
{
    if b.len() == 0 {
        assert(a + b =~= a);
        assert(non_ws(a) + non_ws(b) =~= non_ws(a));
    } else {
        lemma_non_ws_add(a, b.drop_last());
        assert((a + b).drop_last() =~= a + b.drop_last());
        assert((a + b).last() == b.last());
        assert(non_ws(a + b) =~= non_ws(a) + non_ws(b));
    }
}

proof fn lemma_non_ws_blank(s: Seq<char>)
    requires
        forall|k: int| 0 <= k < s.len() ==> crate::text::is_ws(s[k]),
    ensures
        non_ws(s) == Seq::<char>::empty(),
    decreases s.len(),
{
    if s.len() > 0 {
        lemma_non_ws_blank(s.drop_last());
        assert(crate::text::is_ws(s[s.len() - 1]));
    }
}

proof fn lemma_collapse_shape(s: Seq<char>)
    ensures
        spaces_apart(collapse_ws(s)),
        s.len() == 0 <==> collapse_ws(s).len() == 0,
        s.len() > 0 ==> (crate::text::is_ws(collapse_ws(s).last()) <==> crate::text::is_ws(s.last())),
        non_ws(collapse_ws(s)) == non_ws(s),
    decreases s.len(),
{
    if s.len() > 0 {
        let q = s.drop_last();
        lemma_collapse_shape(q);
        let cq = collapse_ws(q);
        let c = collapse_ws(s);
        let x = s.last();
        if q.len() > 0 {
            assert(s[s.len() - 2] == q.last());
        }
        if crate::text::is_ws(x) && s.len() > 1 && crate::text::is_ws(s[s.len() - 2]) {
            assert(c == cq);
        } else {
            let y = if crate::text::is_ws(x) { ' ' } else { x };
            assert(c == cq.push(y));
            assert(c.drop_last() =~= cq);
            assert forall|k: int| 0 <= k < c.len() && crate::text::is_ws(#[trigger] c[k]) implies c[k] == ' '
                && (k + 1 < c.len() ==> !crate::text::is_ws(c[k + 1])) by {
                if k < cq.len() {
                    assert(c[k] == cq[k]);
                    if k + 1 < cq.len() {
                        assert(c[k + 1] == cq[k + 1]);
                    } else if k + 1 == cq.len() {
                        assert(cq[k] == cq.last());
                    }
                }
            }
        }
    }
}

proof fn lemma_trim_non_ws(s: Seq<char>)
    ensures
        non_ws(crate::text::trim(s)) == non_ws(s),
{
    crate::text::lemma_trim_facts(s);
    crate::text::lemma_lead_ws_chars(s);
    let a = crate::text::lead_ws(s) as int;
    let t = crate::text::trim(s);
    let u = s.skip(a);
    crate::text::lemma_trail_ws_chars(u);
    let head = s.take(a);
    let tail = s.subrange(a + t.len(), s.len() as int);
    assert(s =~= head + t + tail);
    assert forall|k: int| 0 <= k < head.len() implies crate::text::is_ws(head[k]) by {}
    assert forall|k: int| 0 <= k < tail.len() implies crate::text::is_ws(tail[k]) by {
        assert(tail[k] == u[t.len() + k]);
    }
    lemma_non_ws_blank(head);
    lemma_non_ws_blank(tail);
    lemma_non_ws_add(head + t, tail);
    lemma_non_ws_add(head, t);
    assert(Seq::<char>::empty() + non_ws(t) + Seq::<char>::empty() =~= non_ws(t));
}

proof fn lemma_collapse_spaced(s: Seq<char>)
    requires
        spaces_apart(s),
    ensures
        collapse_ws(s) == s,
    decreases s.len(),
{
    if s.len() > 0 {
        let q = s.drop_last();
        assert(spaces_apart(q)) by {
            assert forall|k: int| 0 <= k < q.len() && crate::text::is_ws(#[trigger] q[k]) implies q[k] == ' '
                && (k + 1 < q.len() ==> !crate::text::is_ws(q[k + 1])) by {
                assert(q[k] == s[k]);
                if k + 1 < q.len() {
                    assert(q[k + 1] == s[k + 1]);
                }
            }
        }
        lemma_collapse_spaced(q);
        if s.len() > 1 && crate::text::is_ws(s.last()) {
            assert(!crate::text::is_ws(s[s.len() - 2])) by {
                if crate::text::is_ws(s[s.len() - 2]) {
                    assert(!crate::text::is_ws(s[s.len() - 1]));
                }
            }
        }
        assert(s.last() == s[s.len() - 1]);
        assert(collapse_ws(s) =~= s);
    }
}

/// Normalization leaves whitespace only as single spaces between other
/// characters, keeps every other character in order, and normalizing again
/// changes nothing.
pub proof fn law_normalize_code(code: Seq<char>)
    ensures
        single_spaced(spec_normalize_code(code)),
        non_ws(spec_normalize_code(code)) == non_ws(code),
        spec_normalize_code(spec_normalize_code(code)) == spec_normalize_code(code),
{
    let t = crate::text::trim(code);
    let c = collapse_ws(t);
    let n = crate::text::trim(c);
    lemma_collapse_shape(t);
    lemma_trim_non_ws(code);
    lemma_trim_non_ws(c);
    crate::text::lemma_trim_facts(c);
    let a = crate::text::lead_ws(c) as int;
    crate::text::lemma_lead_ws_chars(c);
    crate::text::lemma_trail_ws_chars(c.skip(a));
    assert(a + n.len() <= c.len());
    assert forall|k: int| 0 <= k < n.len() && crate::text::is_ws(#[trigger] n[k]) implies n[k] == ' ' && 0 < k
        < n.len() - 1 && !crate::text::is_ws(n[k + 1]) by {
        assert(n[k] == c[a + k]);
        if k + 1 < n.len() {
            assert(n[k + 1] == c[a + k + 1]);
        }
        if k == 0 {
            assert(n[0] == n[k]);
        }
        if k == n.len() - 1 {
            assert(n.last() == n[k]);
        }
    }
    // Normalizing a single-spaced text changes nothing.
    assert(spaces_apart(n));
    if n.len() > 0 {
        crate::text::lemma_lead_ws(n, 0);
        crate::text::lemma_trail_ws(n, n.len() as int);
    }
    assert(crate::text::trim(n) =~= n);
    lemma_collapse_spaced(n);
}

/// Number of occurrences of `c` in `s`.
pub open spec fn count_char(s: Seq<char>, c: char) -> nat
    decreases s.len(),
{
    if s.len() == 0 {
        0
    } else {
        count_char(s.drop_last(), c) + if s.last() == c {
            1nat
        } else {
            0nat
        }
    }
}

/// The brace balance of a text is its number of `{` minus its number of `}`.
pub proof fn law_brace_delta_counts(s: Seq<char>)
    ensures
        spec_brace_delta(s) == count_char(s, '{') - count_char(s, '}'),
    decreases s.len(),
{
    if s.len() > 0 {
        law_brace_delta_counts(s.drop_last());
    }
}

} // verus!
