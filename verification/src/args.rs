//! Command-line arguments: `--Key value`, `--Key` for booleans, `Key=value`
//! assignments, one positional target path.
use vstd::prelude::*;
use crate::text::{
    str_eq, chars_of, lower, lower_chars, push_str, starts_with, starts_with_str, string_from, string_of,
    strings_view, has_char, has_char_exec,
};

verus! {

/// Number of leading `-` characters.
pub open spec fn lead_dashes(s: Seq<char>) -> nat
    decreases s.len(),
{
    if s.len() > 0 && s[0] == '-' {
        1 + lead_dashes(s.drop_first())
    } else {
        0
    }
}

/// `s` without its leading dashes (`trim_start_matches('-')`).
pub open spec fn trim_dashes(s: Seq<char>) -> Seq<char> {
    s.skip(lead_dashes(s) as int)
}

/// Position of the first `c` in `s`.
pub open spec fn first_char(s: Seq<char>, c: char) -> Option<int>
    decreases s.len(),
{
    if s.len() == 0 {
        None
    } else if s.last() == c && first_char(s.drop_last(), c) is None {
        Some(s.len() - 1)
    } else {
        first_char(s.drop_last(), c)
    }
}

/// `key=value` split at the first `=`, leading dashes removed from the key.
pub open spec fn spec_split_assignment(arg: Seq<char>) -> Option<(Seq<char>, Seq<char>)> {
    match first_char(arg, '=') {
        Some(k) => Some((trim_dashes(arg.take(k)), arg.skip(k + 1))),
        None => None,
    }
}

proof fn lemma_lead_dashes(s: Seq<char>, a: int)
    requires
        0 <= a <= s.len(),
        forall|k: int| 0 <= k < a ==> s[k] == '-',
        a == s.len() || s[a] != '-',
    ensures
        lead_dashes(s) == a,
    decreases a,
{
    if a > 0 {
        assert forall|k: int| 0 <= k < a - 1 implies s.drop_first()[k] == '-' by {
            assert(s.drop_first()[k] == s[k + 1]);
        }
        if a - 1 < s.drop_first().len() {
            assert(s.drop_first()[a - 1] == s[a]);
        }
        lemma_lead_dashes(s.drop_first(), a - 1);
    }
}

proof fn lemma_first_char(s: Seq<char>, c: char, k: int)
    requires
        0 <= k <= s.len(),
        forall|j: int| 0 <= j < k ==> s[j] != c,
        k == s.len() || s[k] == c,
    ensures
        first_char(s, c) == if k == s.len() { None::<int> } else { Some(k) },
    decreases s.len(),
{
    if s.len() > 0 {
        if k == s.len() {
            lemma_first_char(s.drop_last(), c, k - 1);
        } else if k < s.len() - 1 {
            assert(s.drop_last()[k] == s[k]);
            lemma_first_char(s.drop_last(), c, k);
        } else {
            lemma_first_char(s.drop_last(), c, k);
        }
    }
}

/// Splits `key=value` at the first `=`; the key loses its leading dashes.
pub fn split_assignment(arg: &str) -> (r: Option<(&str, &str)>)
    ensures
        match r {
            Some((k, v)) => spec_split_assignment(arg@) == Some((k@, v@)),
            None => spec_split_assignment(arg@) is None,
        },
{
    let chars = chars_of(arg);
    let n = chars.len();
    let mut k: usize = 0;
    while k < n && chars[k] != '='
        invariant
            k <= n == arg@.len(),
            chars@ == arg@,
            forall|j: int| 0 <= j < k ==> arg@[j] != '=',
        decreases n - k,
    {
        k += 1;
    }
    proof {
        lemma_first_char(arg@, '=', k as int);
    }
    if k == n {
        return None;
    }
    let mut d: usize = 0;
    while d < k && chars[d] == '-'
        invariant
            d <= k < n,
            n == chars@.len(),
            chars@ == arg@,
            forall|j: int| 0 <= j < d ==> arg@[j] == '-',
        decreases k - d,
    {
        d += 1;
    }
    proof {
        let key = arg@.take(k as int);
        assert forall|j: int| 0 <= j < d implies key[j] == '-' by {}
        if d < k {
            assert(key[d as int] == arg@[d as int]);
        }
        lemma_lead_dashes(key, d as int);
        assert(key.skip(d as int) =~= arg@.subrange(d as int, k as int));
        assert(arg@.skip(k + 1) =~= arg@.subrange(k + 1, n as int));
    }
    let key = arg.substring_char(d, k);
    let value = arg.substring_char(k + 1, n);
    Some((key, value))
}

/// Option names compare without leading dashes, case, `_` and `-`.
pub open spec fn key_filter(s: Seq<char>) -> Seq<char>
    decreases s.len(),
{
    if s.len() == 0 {
        seq![]
    } else if s.last() == '_' || s.last() == '-' {
        key_filter(s.drop_last())
    } else {
        key_filter(s.drop_last()).push(s.last())
    }
}

pub open spec fn spec_canonical_key(key: Seq<char>) -> Seq<char> {
    key_filter(lower(trim_dashes(key)))
}

/// The canonical form of an option name: leading dashes removed, ASCII
/// lower case, `_` and `-` dropped.
pub fn canonical_key(key: &str) -> (r: String)
    ensures
        r@ == spec_canonical_key(key@),
{
    let chars = chars_of(key);
    let c = canonical_chars(&chars);
    string_of(&c)
}

fn canonical_chars(key: &[char]) -> (r: Vec<char>)
    ensures
        r@ == spec_canonical_key(key@),
{
    let n = key.len();
    let mut d: usize = 0;
    while d < n && key[d] == '-'
        invariant
            d <= n == key@.len(),
            forall|j: int| 0 <= j < d ==> key@[j] == '-',
        decreases n - d,
    {
        d += 1;
    }
    proof {
        lemma_lead_dashes(key@, d as int);
    }
    let mut trimmed: Vec<char> = Vec::new();
    let mut i: usize = d;
    while i < n
        invariant
            d <= i <= n == key@.len(),
            trimmed@ == key@.subrange(d as int, i as int),
        decreases n - i,
    {
        trimmed.push(key[i]);
        i += 1;
        assert(trimmed@ =~= key@.subrange(d as int, i as int));
    }
    assert(trimmed@ =~= trim_dashes(key@));
    let l = lower_chars(&trimmed);
    let mut r: Vec<char> = Vec::new();
    let mut i: usize = 0;
    while i < l.len()
        invariant
            i <= l@.len(),
            r@ == key_filter(l@.take(i as int)),
        decreases l@.len() - i,
    {
        proof {
            assert(l@.take(i + 1).drop_last() =~= l@.take(i as int));
        }
        let c = l[i];
        if c != '_' && c != '-' {
            r.push(c);
        }
        i += 1;
    }
    assert(l@.take(i as int) =~= l@);
    r
}

pub open spec fn truthy_words() -> Seq<&'static str> {
    seq!["true", "t", "1", "yes", "y", "on"]
}

pub open spec fn falsy_words() -> Seq<&'static str> {
    seq!["false", "f", "0", "no", "n", "off"]
}

pub open spec fn in_words(s: Seq<char>, words: Seq<&'static str>) -> bool {
    exists|k: int| 0 <= k < words.len() && s == words[k]@
}

/// A boolean option value: `true`, `t`, `1`, `yes`, `y`, `on` and their
/// negations, in any case; anything else is an error.
pub open spec fn spec_parse_bool(value: Seq<char>) -> Result<bool, Seq<char>> {
    let l = lower(value);
    if in_words(l, truthy_words()) {
        Ok(true)
    } else if in_words(l, falsy_words()) {
        Ok(false)
    } else {
        Err("invalid boolean value: "@ + value)
    }
}

fn in_words_exec(s: &[char], words: &[&'static str]) -> (r: bool)
    ensures
        r == in_words(s@, words@),
{
    let mut k: usize = 0;
    while k < words.len()
        invariant
            k <= words@.len(),
            forall|j: int| 0 <= j < k ==> s@ != words@[j]@,
        decreases words@.len() - k,
    {
        let w = chars_of(words[k]);
        if crate::text::chars_eq(s, &w) {
            return true;
        }
        k += 1;
    }
    false
}

/// Reads a boolean option value.
pub fn parse_bool(value: &str) -> (r: Result<bool, String>)
    ensures
        match r {
            Ok(b) => spec_parse_bool(value@) == Ok::<bool, Seq<char>>(b),
            Err(m) => spec_parse_bool(value@) == Err::<bool, Seq<char>>(m@),
        },
{
    let v = chars_of(value);
    let l = lower_chars(&v);
    let truthy = ["true", "t", "1", "yes", "y", "on"];
    assert(truthy@ == truthy_words());
    let falsy = ["false", "f", "0", "no", "n", "off"];
    assert(falsy@ == falsy_words());
    if in_words_exec(&l, &truthy) {
        Ok(true)
    } else if in_words_exec(&l, &falsy) {
        Ok(false)
    } else {
        let mut m = String::new();
        push_str(&mut m, "invalid boolean value: ");
        push_str(&mut m, value);
        Err(m)
    }
}

/// The optional value after a boolean flag: taken when it exists, does not
/// start with `-`, holds no `=`, and reads as a boolean. Returns the value
/// and how many arguments it used.
pub open spec fn spec_optional_bool(raw: Seq<Seq<char>>, index: int) -> (Option<bool>, nat) {
    if index < 0 || index >= raw.len() {
        (None, 0)
    } else {
        let value = raw[index];
        if starts_with(value, "-"@) || has_char(value, '=') {
            (None, 0)
        } else {
            match spec_parse_bool(value) {
                Ok(b) => (Some(b), 1),
                Err(_) => (None, 0),
            }
        }
    }
}

/// Looks for a boolean value after a flag (`--OnlyJSON false`).
pub fn optional_bool(raw: &[String], index: usize) -> (r: Result<(Option<bool>, usize), String>)
    ensures
        r matches Ok((v, n)) && (v, n as nat) == spec_optional_bool(strings_view(raw@), index as int),
{
    if index >= raw.len() {
        return Ok((None, 0));
    }
    let value = raw[index].as_str();
    assert(strings_view(raw@)[index as int] == value@);
    let v = chars_of(value);
    if starts_with_str(&v, "-") || has_char_exec(&v, '=') {
        return Ok((None, 0));
    }
    match parse_bool(value) {
        Ok(parsed) => Ok((Some(parsed), 1)),
        Err(_) => Ok((None, 0)),
    }
}

/// The usage line.
pub open spec fn usage_text() -> Seq<char> {
    "ai-code-detector <target> [--Deem <0-100>] [--OnlyJSON <true|false>] [--OutputFiles <true|false>] [--ResultOnly <true|false>] [--OutputDir <path>] [--OutputName <name>]"@
}

pub fn usage() -> (r: String)
    ensures
        r@ == usage_text(),
{
    string_from(
        "ai-code-detector <target> [--Deem <0-100>] [--OnlyJSON <true|false>] [--OutputFiles <true|false>] [--ResultOnly <true|false>] [--OutputDir <path>] [--OutputName <name>]",
    )
}

/// Options read so far.
pub struct ArgState {
    pub target: Option<Seq<char>>,
    pub deem: Option<Seq<char>>,
    pub only_json: bool,
    pub output_files: bool,
    pub result_only: bool,
    pub output_dir: Seq<char>,
    pub output_name: Seq<char>,
    /// Every threshold value given, in order.
    pub deems: Seq<Seq<char>>,
}

pub open spec fn initial_args() -> ArgState {
    ArgState {
        target: None,
        deem: None,
        only_json: false,
        output_files: true,
        result_only: false,
        output_dir: "."@,
        output_name: "ai_detection_report"@,
        deems: seq![],
    }
}

/// Outcome of reading the argument at one position.
pub enum ArgStep {
    Next(int, ArgState),
    Fail(Seq<char>),
}

pub open spec fn flag_value(v: Option<bool>) -> bool {
    match v {
        Some(b) => b,
        None => true,
    }
}

/// Reads the argument at position `i`.
pub open spec fn arg_step(raw: Seq<Seq<char>>, i: int, st: ArgState) -> ArgStep {
    let arg = raw[i];
    match spec_split_assignment(arg) {
        Some((key, value)) => {
            let c = spec_canonical_key(key);
            if c == "deem"@ {
                ArgStep::Next(i + 1, ArgState { deem: Some(value), deems: st.deems.push(value), ..st })
            } else if c == "onlyjson"@ {
                match spec_parse_bool(value) {
                    Ok(b) => ArgStep::Next(i + 1, ArgState { only_json: b, ..st }),
                    Err(m) => ArgStep::Fail(m),
                }
            } else if c == "outputfiles"@ {
                match spec_parse_bool(value) {
                    Ok(b) => ArgStep::Next(i + 1, ArgState { output_files: b, ..st }),
                    Err(m) => ArgStep::Fail(m),
                }
            } else if c == "resultonly"@ {
                match spec_parse_bool(value) {
                    Ok(b) => ArgStep::Next(i + 1, ArgState { result_only: b, ..st }),
                    Err(m) => ArgStep::Fail(m),
                }
            } else if c == "outputdir"@ {
                ArgStep::Next(i + 1, ArgState { output_dir: value, ..st })
            } else if c == "outputname"@ {
                ArgStep::Next(i + 1, ArgState { output_name: value, ..st })
            } else {
                ArgStep::Fail("unknown argument: "@ + arg)
            }
        },
        None => {
            let c = spec_canonical_key(arg);
            if c == "deem"@ {
                if i + 1 < raw.len() {
                    ArgStep::Next(
                        i + 2,
                        ArgState { deem: Some(raw[i + 1]), deems: st.deems.push(raw[i + 1]), ..st },
                    )
                } else {
                    ArgStep::Fail("--Deem requires a value"@)
                }
            } else if c == "onlyjson"@ {
                let (v, n) = spec_optional_bool(raw, i + 1);
                ArgStep::Next(i + 1 + n, ArgState { only_json: flag_value(v), ..st })
            } else if c == "outputfiles"@ {
                let (v, n) = spec_optional_bool(raw, i + 1);
                ArgStep::Next(i + 1 + n, ArgState { output_files: flag_value(v), ..st })
            } else if c == "resultonly"@ {
                let (v, n) = spec_optional_bool(raw, i + 1);
                ArgStep::Next(i + 1 + n, ArgState { result_only: flag_value(v), ..st })
            } else if c == "outputdir"@ {
                if i + 1 < raw.len() {
                    ArgStep::Next(i + 2, ArgState { output_dir: raw[i + 1], ..st })
                } else {
                    ArgStep::Fail("--OutputDir requires a value"@)
                }
            } else if c == "outputname"@ {
                if i + 1 < raw.len() {
                    ArgStep::Next(i + 2, ArgState { output_name: raw[i + 1], ..st })
                } else {
                    ArgStep::Fail("--OutputName requires a value"@)
                }
            } else if c == "nooutputfiles"@ {
                ArgStep::Next(i + 1, ArgState { output_files: false, ..st })
            } else if starts_with(arg, "-"@) {
                ArgStep::Fail("unknown argument: "@ + arg)
            } else if st.target is Some {
                ArgStep::Fail("unexpected positional argument: "@ + arg)
            } else {
                ArgStep::Next(i + 1, ArgState { target: Some(arg), ..st })
            }
        },
    }
}

/// Reads the arguments from position `i` on. Returns the threshold values
/// seen before reading stopped, and the options or the first error.
pub open spec fn parse_from(raw: Seq<Seq<char>>, i: int, st: ArgState) -> (
    Seq<Seq<char>>,
    Result<ArgState, Seq<char>>,
)
    decreases raw.len() - i,
{
    if i < 0 || i >= raw.len() {
        (st.deems, Ok(st))
    } else {
        match arg_step(raw, i, st) {
            ArgStep::Next(j, st2) => if j > i {
                parse_from(raw, j, st2)
            } else {
                (st.deems, Ok(st))
            },
            ArgStep::Fail(m) => (st.deems, Err(m)),
        }
    }
}

/// A help flag anywhere.
pub open spec fn asks_help(raw: Seq<Seq<char>>) -> bool {
    exists|k: int| 0 <= k < raw.len() && (raw[k] == "-h"@ || raw[k] == "--help"@ || raw[k] == "/?"@)
}

/// The whole command line: a help flag gives an empty error; otherwise the
/// options are read in order, and a missing target is an error.
pub open spec fn spec_parse_args(raw: Seq<Seq<char>>) -> (Seq<Seq<char>>, Result<ArgState, Seq<char>>) {
    if asks_help(raw) {
        (seq![], Err(seq![]))
    } else {
        let (deems, res) = parse_from(raw, 0, initial_args());
        (
            deems,
            match res {
                Ok(st) => if st.target is Some {
                    Ok(st)
                } else {
                    Err("missing target path"@)
                },
                Err(m) => Err(m),
            },
        )
    }
}

/// Options of a run. The threshold is kept as text; reading it as a number
/// belongs to the caller.
pub struct Args {
    pub target: String,
    pub deem: Option<String>,
    pub only_json: bool,
    pub output_files: bool,
    pub result_only: bool,
    pub output_dir: String,
    pub output_name: String,
}

/// Reading of a command line: every threshold value seen, in order, and the
/// options or the first error.
pub struct ArgScan {
    pub deem_values: Vec<String>,
    pub outcome: Result<Args, String>,
}

struct ArgCursor {
    target: Option<String>,
    deem: Option<String>,
    only_json: bool,
    output_files: bool,
    result_only: bool,
    output_dir: String,
    output_name: String,
    deems: Vec<String>,
}

pub open spec fn opt_string(o: Option<String>) -> Option<Seq<char>> {
    match o {
        Some(s) => Some(s@),
        None => None,
    }
}

spec fn cursor_state(c: ArgCursor) -> ArgState {
    ArgState {
        target: opt_string(c.target),
        deem: opt_string(c.deem),
        only_json: c.only_json,
        output_files: c.output_files,
        result_only: c.result_only,
        output_dir: c.output_dir@,
        output_name: c.output_name@,
        deems: strings_view(c.deems@),
    }
}

fn copy(s: &str) -> (r: String)
    ensures
        r@ == s@,
{
    string_of(chars_of(s).as_slice())
}

fn prefixed(prefix: &str, s: &str) -> (r: String)
    ensures
        r@ == prefix@ + s@,
{
    let mut m = String::new();
    push_str(&mut m, prefix);
    push_str(&mut m, s);
    assert(m@ =~= prefix@ + s@);
    m
}

fn push_deem(st: &mut ArgCursor, value: &str)
    ensures
        cursor_state(*final(st)) == (ArgState {
            deem: Some(value@),
            deems: cursor_state(*old(st)).deems.push(value@),
            ..cursor_state(*old(st))
        }),
{
    let ghost before = strings_view(st.deems@);
    st.deem = Some(copy(value));
    st.deems.push(copy(value));
    assert(strings_view(st.deems@) =~= before.push(value@));
}

/// One step of reading; returns the next position or the error.
fn arg_step_exec(raw: &[String], i: usize, st: &mut ArgCursor) -> (r: Result<usize, String>)
    requires
        i < raw@.len(),
    ensures
        match r {
            Ok(j) => arg_step(strings_view(raw@), i as int, cursor_state(*old(st)))
                == ArgStep::Next(j as int, cursor_state(*final(st))),
            Err(m) => arg_step(strings_view(raw@), i as int, cursor_state(*old(st)))
                == ArgStep::Fail(m@) && cursor_state(*final(st)).deems == cursor_state(*old(st)).deems,
        },
{
    let ghost rv = strings_view(raw@);
    let arg = raw[i].as_str();
    assert(rv[i as int] == arg@);
    match split_assignment(arg) {
        Some((key, value)) => {
            let c = canonical_key(key);
            let c = c.as_str();
            if str_eq(c, "deem") {
                push_deem(st, value);
                Ok(i + 1)
            } else if str_eq(c, "onlyjson") {
                match parse_bool(value) {
                    Ok(b) => {
                        st.only_json = b;
                        Ok(i + 1)
                    },
                    Err(m) => Err(m),
                }
            } else if str_eq(c, "outputfiles") {
                match parse_bool(value) {
                    Ok(b) => {
                        st.output_files = b;
                        Ok(i + 1)
                    },
                    Err(m) => Err(m),
                }
            } else if str_eq(c, "resultonly") {
                match parse_bool(value) {
                    Ok(b) => {
                        st.result_only = b;
                        Ok(i + 1)
                    },
                    Err(m) => Err(m),
                }
            } else if str_eq(c, "outputdir") {
                st.output_dir = copy(value);
                Ok(i + 1)
            } else if str_eq(c, "outputname") {
                st.output_name = copy(value);
                Ok(i + 1)
            } else {
                Err(prefixed("unknown argument: ", arg))
            }
        },
        None => {
            let c = canonical_key(arg);
            let c = c.as_str();
            if str_eq(c, "deem") {
                if i + 1 < raw.len() {
                    assert(rv[i + 1] == raw@[i + 1]@);
                    push_deem(st, raw[i + 1].as_str());
                    Ok(i + 2)
                } else {
                    Err(string_from("--Deem requires a value"))
                }
            } else if str_eq(c, "onlyjson") {
                let (v, n) = match optional_bool(raw, i + 1) {
                    Ok(p) => p,
                    Err(_) => (None, 0),
                };
                st.only_json = match v {
                    Some(b) => b,
                    None => true,
                };
                Ok(i + 1 + n)
            } else if str_eq(c, "outputfiles") {
                let (v, n) = match optional_bool(raw, i + 1) {
                    Ok(p) => p,
                    Err(_) => (None, 0),
                };
                st.output_files = match v {
                    Some(b) => b,
                    None => true,
                };
                Ok(i + 1 + n)
            } else if str_eq(c, "resultonly") {
                let (v, n) = match optional_bool(raw, i + 1) {
                    Ok(p) => p,
                    Err(_) => (None, 0),
                };
                st.result_only = match v {
                    Some(b) => b,
                    None => true,
                };
                Ok(i + 1 + n)
            } else if str_eq(c, "outputdir") {
                if i + 1 < raw.len() {
                    assert(rv[i + 1] == raw@[i + 1]@);
                    st.output_dir = copy(raw[i + 1].as_str());
                    Ok(i + 2)
                } else {
                    Err(string_from("--OutputDir requires a value"))
                }
            } else if str_eq(c, "outputname") {
                if i + 1 < raw.len() {
                    assert(rv[i + 1] == raw@[i + 1]@);
                    st.output_name = copy(raw[i + 1].as_str());
                    Ok(i + 2)
                } else {
                    Err(string_from("--OutputName requires a value"))
                }
            } else if str_eq(c, "nooutputfiles") {
                st.output_files = false;
                Ok(i + 1)
            } else if starts_with_str(&chars_of(arg), "-") {
                Err(prefixed("unknown argument: ", arg))
            } else if st.target.is_some() {
                Err(prefixed("unexpected positional argument: ", arg))
            } else {
                st.target = Some(copy(arg));
                Ok(i + 1)
            }
        },
    }
}

fn is_help(raw: &[String]) -> (r: bool)
    ensures
        r == asks_help(strings_view(raw@)),
{
    let mut k: usize = 0;
    while k < raw.len()
        invariant
            k <= raw@.len(),
            forall|j: int| 0 <= j < k ==> !(strings_view(raw@)[j] == "-h"@ || strings_view(raw@)[j]
                == "--help"@ || strings_view(raw@)[j] == "/?"@),
        decreases raw@.len() - k,
    {
        let a = raw[k].as_str();
        assert(strings_view(raw@)[k as int] == a@);
        if str_eq(a, "-h") || str_eq(a, "--help") || str_eq(a, "/?") {
            return true;
        }
        k += 1;
    }
    false
}

/// Reads the command line (program name excluded).
pub fn parse_args(raw: &[String]) -> (r: ArgScan)
    ensures
        strings_view(r.deem_values@) == spec_parse_args(strings_view(raw@)).0,
        match r.outcome {
            Ok(a) => spec_parse_args(strings_view(raw@)).1 == Ok::<ArgState, Seq<char>>(
                ArgState {
                    target: Some(a.target@),
                    deem: opt_string(a.deem),
                    only_json: a.only_json,
                    output_files: a.output_files,
                    result_only: a.result_only,
                    output_dir: a.output_dir@,
                    output_name: a.output_name@,
                    deems: strings_view(r.deem_values@),
                },
            ),
            Err(m) => spec_parse_args(strings_view(raw@)).1 == Err::<ArgState, Seq<char>>(m@),
        },
{
    if is_help(raw) {
        let none: Vec<String> = Vec::new();
        assert(strings_view(none@) =~= Seq::<Seq<char>>::empty());
        return ArgScan { deem_values: none, outcome: Err(String::new()) };
    }
    let ghost rv = strings_view(raw@);
    let mut st = ArgCursor {
        target: None,
        deem: None,
        only_json: false,
        output_files: true,
        result_only: false,
        output_dir: string_from("."),
        output_name: string_from("ai_detection_report"),
        deems: Vec::new(),
    };
    assert(strings_view(st.deems@) =~= Seq::<Seq<char>>::empty());
    assert(cursor_state(st) =~= initial_args());
    let mut i: usize = 0;
    while i < raw.len()
        invariant
            i <= raw@.len(),
            rv == strings_view(raw@),
            !asks_help(rv),
            parse_from(rv, 0, initial_args()) == parse_from(rv, i as int, cursor_state(st)),
        decreases raw@.len() - i,
    {
        let ghost before = cursor_state(st);
        match arg_step_exec(raw, i, &mut st) {
            Ok(j) => {
                assert(j > i);
                if j >= raw.len() {
                    assert(parse_from(rv, j as int, cursor_state(st)) == (cursor_state(st).deems, Ok::<ArgState, Seq<char>>(cursor_state(st))));
                    i = raw.len();
                } else {
                    i = j;
                }
            },
            Err(m) => {
                assert(parse_from(rv, i as int, before) == (before.deems, Err::<ArgState, Seq<char>>(m@)));
                return ArgScan { deem_values: st.deems, outcome: Err(m) };
            },
        }
    }
    let ArgCursor { target, deem, only_json, output_files, result_only, output_dir, output_name, deems } = st;
    match target {
        Some(t) => ArgScan {
            deem_values: deems,
            outcome: Ok(Args { target: t, deem, only_json, output_files, result_only, output_dir, output_name }),
        },
        None => ArgScan { deem_values: deems, outcome: Err(string_from("missing target path")) },
    }
}

/// The canonical names of the options.
pub open spec fn is_option_name(c: Seq<char>) -> bool {
    ||| c == "deem"@
    ||| c == "onlyjson"@
    ||| c == "outputfiles"@
    ||| c == "resultonly"@
    ||| c == "outputdir"@
    ||| c == "outputname"@
    ||| c == "nooutputfiles"@
}

proof fn lemma_option_literals()
    ensures
        spec_canonical_key("OutputDir"@) == "outputdir"@,
        spec_canonical_key("--OutputDir"@) == "outputdir"@,
        spec_canonical_key("OutputName"@) == "outputname"@,
        spec_canonical_key("--OutputName"@) == "outputname"@,
        "deem"@ != "outputdir"@ && "onlyjson"@ != "outputdir"@ && "outputfiles"@ != "outputdir"@
            && "resultonly"@ != "outputdir"@,
        "deem"@ != "outputname"@ && "onlyjson"@ != "outputname"@ && "outputfiles"@ != "outputname"@
            && "resultonly"@ != "outputname"@ && "outputdir"@ != "outputname"@,
        !has_char("OutputDir"@, '=') && !has_char("--OutputDir"@, '=') && !has_char("OutputName"@, '=')
            && !has_char("--OutputName"@, '='),
        "OutputDir"@.len() == 9 && "OutputName"@.len() == 10 && "OutputDir"@[0] == 'O' && "OutputName"@[0] == 'O',
        "--OutputDir"@ == "--"@ + "OutputDir"@ && "--OutputName"@ == "--"@ + "OutputName"@,
{
    reveal_strlit("OutputDir");
    reveal_strlit("--OutputDir");
    reveal_strlit("OutputName");
    reveal_strlit("--OutputName");
    reveal_strlit("outputdir");
    reveal_strlit("outputname");
    reveal_strlit("deem");
    reveal_strlit("onlyjson");
    reveal_strlit("outputfiles");
    reveal_strlit("resultonly");
    reveal_strlit("--");
    reveal_with_fuel(lead_dashes, 3);
    reveal_with_fuel(key_filter, 12);
    let a = "OutputDir"@;
    let b = "--OutputDir"@;
    let c = "OutputName"@;
    let d = "--OutputName"@;
    assert(lead_dashes(a) == 0);
    assert(lead_dashes(b.drop_first().drop_first()) == 0);
    assert(lead_dashes(b) == 2);
    assert(lead_dashes(c) == 0);
    assert(lead_dashes(d.drop_first().drop_first()) == 0);
    assert(lead_dashes(d) == 2);
    assert(trim_dashes(a) =~= a);
    assert(trim_dashes(b) =~= a);
    assert(trim_dashes(c) =~= c);
    assert(trim_dashes(d) =~= c);
    assert(lower(a) =~= "outputdir"@);
    assert(lower(c) =~= "outputname"@);
    assert(key_filter("outputdir"@) =~= "outputdir"@);
    assert(key_filter("outputname"@) =~= "outputname"@);
    assert("deem"@.len() == 4 && "onlyjson"@.len() == 8 && "outputfiles"@.len() == 11 && "resultonly"@.len() == 10);
    assert("outputdir"@.len() == 9 && "outputname"@.len() == 10);
    assert("resultonly"@[0] != "outputname"@[0]);
    assert(b =~= "--"@ + a);
    assert(d =~= "--"@ + c);
}

/// The assignment form and the two-argument form of `OutputDir` and
/// `OutputName` read the same: after a plain target `t`,
/// `OutputDir=v` and `--OutputDir v` both set the output directory to `v`
/// and keep the default report name, and `OutputName=v` and
/// `--OutputName v` both set the report name to `v` and keep the default
/// directory.
pub proof fn law_assignment_matches_two_arguments(t: Seq<char>, v: Seq<char>, dir: bool)
    requires
        !has_char(t, '='),
        !starts_with(t, "-"@),
        t != "/?"@,
        !is_option_name(spec_canonical_key(t)),
        v != "-h"@ && v != "--help"@ && v != "/?"@,
    ensures
        ({
            let key = if dir { "OutputDir"@ } else { "OutputName"@ };
            let joined = spec_parse_args(seq![t, key + "="@ + v]);
            let split = spec_parse_args(seq![t, "--"@ + key, v]);
            &&& joined == split
            &&& joined.1 == Ok::<ArgState, Seq<char>>(
                ArgState {
                    target: Some(t),
                    output_dir: if dir { v } else { "."@ },
                    output_name: if dir { "ai_detection_report"@ } else { v },
                    ..initial_args()
                },
            )
        }),
{
    lemma_option_literals();
    reveal_strlit("=");
    reveal_strlit("-h");
    reveal_strlit("--help");
    reveal_strlit("/?");
    reveal_strlit("-");
    let key = if dir { "OutputDir"@ } else { "OutputName"@ };
    let a = key + "="@ + v;
    let b = "--"@ + key;
    let r1 = seq![t, a];
    let r2 = seq![t, b, v];
    // The target.
    lemma_first_char(t, '=', t.len() as int);
    assert(spec_split_assignment(t) is None);
    let st1 = ArgState { target: Some(t), ..initial_args() };
    assert(arg_step(r1, 0, initial_args()) == ArgStep::Next(1, st1));
    assert(arg_step(r2, 0, initial_args()) == ArgStep::Next(1, st1));
    // The assignment.
    let k = key.len() as int;
    assert forall|j: int| 0 <= j < k implies a[j] != '=' by {
        assert(a[j] == key[j]);
        assert(!has_char(key, '='));
    }
    assert(a[k] == '=');
    lemma_first_char(a, '=', k);
    assert(a.take(k) =~= key);
    lemma_lead_dashes(key, 0);
    assert(key.skip(0) =~= key);
    assert(a.skip(k + 1) =~= v);
    assert(spec_split_assignment(a) == Some((key, v)));
    let st2 = if dir {
        ArgState { output_dir: v, ..st1 }
    } else {
        ArgState { output_name: v, ..st1 }
    };
    assert(arg_step(r1, 1, st1) == ArgStep::Next(2, st2));
    // The flag and its value.
    reveal_strlit("--");
    assert("--"@.len() == 2 && "--"@[0] == '-' && "--"@[1] == '-');
    assert forall|j: int| 0 <= j < b.len() implies b[j] != '=' by {
        if j >= 2 {
            assert(b[j] == key[j - 2]);
            assert(!has_char(key, '='));
        } else {
            assert(b[j] == "--"@[j]);
        }
    }
    lemma_first_char(b, '=', b.len() as int);
    assert(spec_split_assignment(b) is None);
    assert(arg_step(r2, 1, st1) == ArgStep::Next(3, st2));
    // Reading ends.
    assert(parse_from(r1, 2, st2) == (st2.deems, Ok::<ArgState, Seq<char>>(st2)));
    assert(parse_from(r2, 3, st2) == (st2.deems, Ok::<ArgState, Seq<char>>(st2)));
    assert(parse_from(r1, 1, st1) == parse_from(r1, 2, st2));
    assert(parse_from(r2, 1, st1) == parse_from(r2, 3, st2));
    assert(parse_from(r1, 0, initial_args()) == parse_from(r1, 1, st1));
    assert(parse_from(r2, 0, initial_args()) == parse_from(r2, 1, st1));
    assert(!asks_help(r1)) by {
        if asks_help(r1) {
            let m = choose|m: int| 0 <= m < r1.len() && (r1[m] == "-h"@ || r1[m] == "--help"@ || r1[m] == "/?"@);
            if m == 1 {
                assert(a.len() >= 10);
                assert("-h"@.len() == 2 && "--help"@.len() == 6 && "/?"@.len() == 2);
            } else {
                assert("-h"@.subrange(0, 1) =~= "-"@);
                assert("--help"@.subrange(0, 1) =~= "-"@);
                assert(starts_with("-h"@, "-"@) && starts_with("--help"@, "-"@));
            }
        }
    }
    assert(!asks_help(r2)) by {
        if asks_help(r2) {
            let m = choose|m: int| 0 <= m < r2.len() && (r2[m] == "-h"@ || r2[m] == "--help"@ || r2[m] == "/?"@);
            if m == 1 {
                assert(b.len() >= 11);
                assert("-h"@.len() == 2 && "--help"@.len() == 6 && "/?"@.len() == 2);
            } else if m == 0 {
                assert("-h"@.subrange(0, 1) =~= "-"@);
                assert("--help"@.subrange(0, 1) =~= "-"@);
                assert(starts_with("-h"@, "-"@) && starts_with("--help"@, "-"@));
            }
        }
    }
    assert(spec_parse_args(r1) =~= spec_parse_args(r2));
}

} // verus!
