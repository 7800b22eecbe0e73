//! Recognition of decompiled C# text and of the scaffolding that compilers
//! and decompilers emit around authored code.
use vstd::prelude::*;
use crate::text::{
    any_contains, any_contains_chars, chars_of, contains, contains_str, lower, lower_chars,
    starts_with, starts_with_str,
};

verus! {

/// Some marker of the list occurs in `value`.
pub fn has_any(value: &str, markers: &[&str]) -> (r: bool)
    ensures
        r == any_contains(value@, markers@),
{
    let v = chars_of(value);
    any_contains_chars(&v, markers)
}

/// A whole file that carries assembly metadata plus a C#-like feature.
pub open spec fn spec_looks_decompiled_csharp(text: Seq<char>) -> bool {
    let l = lower(text);
    contains(l, "[assembly:"@) && (contains(l, "using system;"@) || contains(l, "bepinplugin"@)
        || contains(l, " class "@) || contains(l, "targetframework"@) || contains(l, "[module:"@))
}

pub fn looks_decompiled_csharp(text: &str) -> (r: bool)
    ensures
        r == spec_looks_decompiled_csharp(text@),
{
    let t = chars_of(text);
    looks_decompiled_chars(&t)
}

pub fn looks_decompiled_chars(text: &[char]) -> (r: bool)
    ensures
        r == spec_looks_decompiled_csharp(text@),
{
    let l = lower_chars(text);
    contains_str(&l, "[assembly:") && (contains_str(&l, "using system;") || contains_str(
        &l,
        "bepinplugin",
    ) || contains_str(&l, " class ") || contains_str(&l, "targetframework") || contains_str(
        &l,
        "[module:",
    ))
}

pub open spec fn compiler_attribute_markers() -> Seq<&'static str> {
    seq![
        "[compilergenerated]",
        "[microsoft.codeanalysis.embedded]",
        "embeddedattribute",
        "nullableattribute",
        "nullablecontextattribute",
        "refsafetyrulesattribute",
        "unverifiablecode",
    ]
}

pub open spec fn state_machine_markers() -> Seq<&'static str> {
    seq!["<>c", "displayclass", ">d__", "iasyncstatemachine"]
}

/// Reason for compiler-support namespaces.
pub open spec fn support_namespace_reason() -> &'static str {
    "compiler support namespace emitted by decompiler"
}

/// Scaffold classification of one normalized line, given whether the scan is
/// inside a compiler-support namespace. Returns the exclusion reason, if any,
/// and the namespace flag for the next line.
pub open spec fn spec_scaffold_kind(normalized: Seq<char>, in_support_ns: bool) -> (
    Option<&'static str>,
    bool,
) {
    let l = lower(normalized);
    if starts_with(l, "namespace "@) {
        let ns = starts_with(l, "namespace microsoft.codeanalysis"@) || starts_with(
            l,
            "namespace system.runtime.compilerservices"@,
        );
        (if ns { Some(support_namespace_reason()) } else { None }, ns)
    } else {
        let ns = if in_support_ns && (starts_with(l, "[bepinplugin"@) || starts_with(
            l,
            "public enum "@,
        ) || starts_with(l, "public class "@)) {
            false
        } else {
            in_support_ns
        };
        if ns {
            (Some(support_namespace_reason()), ns)
        } else if starts_with(l, "[assembly:"@) || starts_with(l, "[module:"@) {
            (Some("assembly/module metadata emitted by decompiler"), ns)
        } else if any_contains(l, compiler_attribute_markers()) {
            (Some("compiler generated attribute scaffold"), ns)
        } else if any_contains(l, state_machine_markers()) {
            (Some("compiler generated closure or async/iterator state machine"), ns)
        } else if contains(l, "yield-return decompiler failed"@) {
            (Some("decompiler failure annotation"), ns)
        } else {
            (None, ns)
        }
    }
}

/// Classifies decompiler scaffolding; `scaffold_namespace` tracks whether the
/// scan is inside a compiler-support namespace.
pub fn decompiled_scaffold_kind(normalized: &str, scaffold_namespace: &mut bool) -> (r: Option<
    &'static str,
>)
    ensures
        (r, *final(scaffold_namespace)) == spec_scaffold_kind(normalized@, *old(scaffold_namespace)),
{
    let n = chars_of(normalized);
    scaffold_kind_chars(&n, scaffold_namespace)
}

pub fn scaffold_kind_chars(normalized: &[char], scaffold_namespace: &mut bool) -> (r: Option<
    &'static str,
>)
    ensures
        (r, *final(scaffold_namespace)) == spec_scaffold_kind(normalized@, *old(scaffold_namespace)),
{
    let l = lower_chars(normalized);
    if starts_with_str(&l, "namespace ") {
        *scaffold_namespace = starts_with_str(&l, "namespace microsoft.codeanalysis")
            || starts_with_str(&l, "namespace system.runtime.compilerservices");
        return if *scaffold_namespace {
            Some("compiler support namespace emitted by decompiler")
        } else {
            None
        };
    }
    if *scaffold_namespace && (starts_with_str(&l, "[bepinplugin") || starts_with_str(
        &l,
        "public enum ",
    ) || starts_with_str(&l, "public class ")) {
        *scaffold_namespace = false;
    }
    if *scaffold_namespace {
        return Some("compiler support namespace emitted by decompiler");
    }
    if starts_with_str(&l, "[assembly:") || starts_with_str(&l, "[module:") {
        return Some("assembly/module metadata emitted by decompiler");
    }
    let attrs = [
        "[compilergenerated]",
        "[microsoft.codeanalysis.embedded]",
        "embeddedattribute",
        "nullableattribute",
        "nullablecontextattribute",
        "refsafetyrulesattribute",
        "unverifiablecode",
    ];
    assert(attrs@ == compiler_attribute_markers());
    if any_contains_chars(&l, &attrs) {
        return Some("compiler generated attribute scaffold");
    }
    let machines = ["<>c", "displayclass", ">d__", "iasyncstatemachine"];
    assert(machines@ == state_machine_markers());
    if any_contains_chars(&l, &machines) {
        return Some("compiler generated closure or async/iterator state machine");
    }
    if contains_str(&l, "yield-return decompiler failed") {
        return Some("decompiler failure annotation");
    }
    None
}

/// The header of a compiler-generated closure class or state-machine type.
pub open spec fn spec_starts_generated_block(normalized: Seq<char>) -> bool {
    let l = lower(normalized);
    (contains(l, " class <>c"@) || contains(l, " class <"@) || contains(l, "displayclass"@)
        || contains(l, ">d__"@)) && (contains(l, "class"@) || contains(l, "struct"@))
}

pub fn starts_generated_block(normalized: &str) -> (r: bool)
    ensures
        r == spec_starts_generated_block(normalized@),
{
    let n = chars_of(normalized);
    starts_generated_block_chars(&n)
}

pub fn starts_generated_block_chars(normalized: &[char]) -> (r: bool)
    ensures
        r == spec_starts_generated_block(normalized@),
{
    let l = lower_chars(normalized);
    (contains_str(&l, " class <>c") || contains_str(&l, " class <") || contains_str(
        &l,
        "displayclass",
    ) || contains_str(&l, ">d__")) && (contains_str(&l, "class") || contains_str(&l, "struct"))
}

} // verus!
