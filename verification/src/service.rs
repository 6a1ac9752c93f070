//! Extract a human-friendly service name from a log line.
//!
//! The causal-chain engine groups events by the service that produced them,
//! so each line needs a stable, cheap service tag. A short, ordered list of
//! conservative patterns is tried; a miss falls back to the ingest source
//! identifier (e.g. `tcp://127.0.0.1:5140`).
//!
//! Recognised shapes, in order:
//!   1. JSON: `"service":"payment-api"` or `"service_name":"…"`
//!   2. Key/value: `svc=payment-api` or `service=payment-api`
//!   3. Structured prefix: `LEVEL service-name: …`, optionally with a
//!      bracketed timestamp after the level
//!   4. Bracketed: `[service-name] …`
//!
//! Shapes 3 and 4 reject a candidate that is itself a log level
//! (`ERROR ERROR:`, `[ERROR]`).

use vstd::prelude::*;
use crate::pattern::{capture_group1, regex_group1};
use crate::text::{
    ascii_lowercase, chars_of, chars_start_with, starts_with, str_eq, string_from, to_ascii_lowercase,
    trim, trim_chars, trim_start, trim_start_chars,
};

verus! {

pub const RE_JSON_SERVICE: &'static str = r#""service(?:_name)?"\s*:\s*"([A-Za-z0-9_.\-]{2,64})""#;

pub const RE_KV_SERVICE: &'static str = r"\b(?:svc|service)=([A-Za-z0-9_.\-]{2,64})\b";

pub const RE_LEVEL_SERVICE: &'static str = r"^[A-Z]+\s+(?:\[[^\]]+\]\s+)?([a-zA-Z][A-Za-z0-9_.\-]{1,63})\s*:";

pub const RE_BRACKETED: &'static str = r"^\[([A-Za-z][A-Za-z0-9_.\-]{1,63})\]";

/// Upper-casing as `str::to_uppercase` computes it (full Unicode case mapping).
pub uninterp spec fn unicode_uppercase(s: Seq<char>) -> Seq<char>;

/// Calls `str::to_uppercase`; the contract names its result.
#[verifier::external_body]
fn to_uppercase(s: &str) -> (r: String)
    ensures
        r@ == unicode_uppercase(s@),
{
    s.to_uppercase()
}

/// The log levels that are never taken for a service name.
pub open spec fn is_level(s: Seq<char>) -> bool {
    ||| s == "TRACE"@
    ||| s == "DEBUG"@
    ||| s == "INFO"@
    ||| s == "WARN"@
    ||| s == "WARNING"@
    ||| s == "ERROR"@
    ||| s == "FATAL"@
    ||| s == "PANIC"@
}

/// A capture is taken as a service name when it is non-empty and, for the
/// prefix and bracket shapes, is not a log level in upper case.
pub open spec fn usable(c: Option<Seq<char>>, reject_levels: bool) -> bool {
    &&& c is Some
    &&& c->0.len() > 0
    &&& reject_levels ==> !is_level(unicode_uppercase(c->0))
}

/// The service name a line itself carries, if any.
pub open spec fn spec_try_extract(line: Seq<char>) -> Option<Seq<char>> {
    let t = trim_start(line);
    let json = regex_group1(RE_JSON_SERVICE@, t);
    let kv = regex_group1(RE_KV_SERVICE@, t);
    let lvl = regex_group1(RE_LEVEL_SERVICE@, t);
    let br = regex_group1(RE_BRACKETED@, t);
    spec_choose_service(json, kv, lvl, br)
}

/// The first usable capture, in the order of the shapes: JSON field, then
/// `svc=`/`service=`, then `LEVEL name:`, then `[name]`; the last two
/// never take a log level.
pub open spec fn spec_choose_service(
    json: Option<Seq<char>>,
    kv: Option<Seq<char>>,
    lvl: Option<Seq<char>>,
    br: Option<Seq<char>>,
) -> Option<Seq<char>> {
    if usable(json, false) {
        json
    } else if usable(kv, false) {
        kv
    } else if usable(lvl, true) {
        lvl
    } else if usable(br, true) {
        br
    } else {
        None
    }
}

/// The trimmed source, or `unknown` when the source is blank.
pub open spec fn spec_fallback(source: Seq<char>) -> Seq<char> {
    if trim(source).len() == 0 {
        "unknown"@
    } else {
        trim(source)
    }
}

pub open spec fn spec_extract(line: Seq<char>, source: Seq<char>) -> Seq<char> {
    match spec_try_extract(line) {
        Some(name) => name,
        None => spec_fallback(source),
    }
}

/// A continuation line: indented, or an un-indented `caused by:`, `at `,
/// `traceback` or `--> ` line (compared in ASCII lower case).
pub open spec fn spec_is_continuation(line: Seq<char>) -> bool {
    let lower = ascii_lowercase(line);
    ||| starts_with(line, " "@)
    ||| starts_with(line, "\t"@)
    ||| starts_with(lower, "caused by:"@)
    ||| starts_with(lower, "at "@)
    ||| starts_with(lower, "traceback"@)
    ||| starts_with(lower, "--> "@)
}

pub open spec fn spec_extract_with_continuation(
    line: Seq<char>,
    source: Seq<char>,
    last: Option<Seq<char>>,
) -> Seq<char> {
    if spec_is_continuation(line) && last is Some && last->0.len() > 0 {
        last->0
    } else {
        spec_extract(line, source)
    }
}

/// A hint counts when something is left of it after trimming.
pub open spec fn hint_applies(hint: Option<Seq<char>>) -> bool {
    hint is Some && trim(hint->0).len() > 0
}

pub open spec fn spec_extract_with_hint(
    line: Seq<char>,
    source: Seq<char>,
    hint: Option<Seq<char>>,
) -> Seq<char> {
    if hint_applies(hint) {
        trim(hint->0)
    } else {
        spec_extract(line, source)
    }
}

pub open spec fn spec_extract_full(
    line: Seq<char>,
    source: Seq<char>,
    hint: Option<Seq<char>>,
    last: Option<Seq<char>>,
) -> Seq<char> {
    if hint_applies(hint) {
        trim(hint->0)
    } else {
        spec_extract_with_continuation(line, source, last)
    }
}

/// The view of an optional string slice.
pub open spec fn opt_view(o: Option<&str>) -> Option<Seq<char>> {
    match o {
        Some(s) => Some(s@),
        None => None,
    }
}

fn upper_is_level(candidate: &str) -> (b: bool)
    ensures
        b == is_level(unicode_uppercase(candidate@)),
{
    let up = to_uppercase(candidate);
    let u = up.as_str();
    str_eq(u, "TRACE") || str_eq(u, "DEBUG") || str_eq(u, "INFO") || str_eq(u, "WARN") || str_eq(
        u,
        "WARNING",
    ) || str_eq(u, "ERROR") || str_eq(u, "FATAL") || str_eq(u, "PANIC")
}

fn take_capture(c: &Option<String>, reject_levels: bool) -> (b: bool)
    ensures
        b == usable(
            match c {
                Some(s) => Some(s@),
                None => None,
            },
            reject_levels,
        ),
{
    match c {
        Some(s) => {
            let n = chars_of(s.as_str());
            if n.len() == 0 {
                false
            } else if reject_levels {
                !upper_is_level(s.as_str())
            } else {
                true
            }
        },
        None => false,
    }
}

/// The service name chosen among the four shapes' captures (group 1 of
/// the JSON, key-value, level-prefix and bracket patterns).
pub fn choose_service(
    json: Option<String>,
    kv: Option<String>,
    lvl: Option<String>,
    br: Option<String>,
) -> (r: Option<String>)
    ensures
        opt_string_view(r) == spec_choose_service(
            opt_string_view(json),
            opt_string_view(kv),
            opt_string_view(lvl),
            opt_string_view(br),
        ),
{
    if take_capture(&json, false) {
        json
    } else if take_capture(&kv, false) {
        kv
    } else if take_capture(&lvl, true) {
        lvl
    } else if take_capture(&br, true) {
        br
    } else {
        None
    }
}

/// The view of an optional owned string.
pub open spec fn opt_string_view(o: Option<String>) -> Option<Seq<char>> {
    match o {
        Some(s) => Some(s@),
        None => None,
    }
}

/// The service name a line itself carries, trying the shapes in order.
pub fn try_extract(line: &str) -> (r: Option<String>)
    ensures
        (match r {
            Some(s) => spec_try_extract(line@) == Some(s@),
            None => spec_try_extract(line@) is None,
        }),
{
    let t = string_from(trim_start_chars(chars_of(line).as_slice()).as_slice());
    let t = t.as_str();
    let json = capture_group1(RE_JSON_SERVICE, t);
    let kv = capture_group1(RE_KV_SERVICE, t);
    let lvl = capture_group1(RE_LEVEL_SERVICE, t);
    let br = capture_group1(RE_BRACKETED, t);
    choose_service(json, kv, lvl, br)
}

/// The trimmed source identifier, or `unknown` when it is blank.
pub fn fallback(source: &str) -> (r: String)
    ensures
        r@ == spec_fallback(source@),
        r@.len() > 0,
{
    let t = trim_chars(chars_of(source).as_slice());
    if t.len() == 0 {
        let u = "unknown";
        proof {
            reveal_strlit("unknown");
        }
        u.to_owned()
    } else {
        string_from(t.as_slice())
    }
}

/// Extract a service name from a log line, falling back to `source`.
///
/// The result is never empty: a blank source yields `unknown`.
pub fn extract(line: &str, source: &str) -> (r: String)
    ensures
        r@ == spec_extract(line@, source@),
        r@.len() > 0,
{
    match try_extract(line) {
        Some(name) => name,
        None => fallback(source),
    }
}

/// True when the line looks like a continuation of the previous entry:
/// a stack-trace frame or a `caused by:` line.
pub fn is_continuation(line: &str) -> (b: bool)
    ensures
        b == spec_is_continuation(line@),
{
    let v = chars_of(line);
    let lower = to_ascii_lowercase(v.as_slice());
    chars_start_with(v.as_slice(), chars_of(" ").as_slice()) || chars_start_with(
        v.as_slice(),
        chars_of("\t").as_slice(),
    ) || chars_start_with(lower.as_slice(), chars_of("caused by:").as_slice())
        || chars_start_with(lower.as_slice(), chars_of("at ").as_slice()) || chars_start_with(
        lower.as_slice(),
        chars_of("traceback").as_slice(),
    ) || chars_start_with(lower.as_slice(), chars_of("--> ").as_slice())
}

/// Like [`extract`], but a continuation line inherits the last service seen
/// for its source, when there is one.
pub fn extract_with_continuation(
    line: &str,
    source: &str,
    last_service_for_source: Option<&str>,
) -> (r: String)
    ensures
        r@ == spec_extract_with_continuation(line@, source@, opt_view(last_service_for_source)),
        r@.len() > 0,
{
    if is_continuation(line) {
        if let Some(prev) = last_service_for_source {
            if chars_of(prev).len() > 0 {
                return prev.to_owned();
            }
        }
    }
    extract(line, source)
}

/// The trimmed hint, when one is given and not blank.
fn applicable_hint(hint: Option<&str>) -> (r: Option<String>)
    ensures
        (match r {
            Some(s) => hint_applies(opt_view(hint)) && s@ == trim(opt_view(hint)->0),
            None => !hint_applies(opt_view(hint)),
        }),
{
    match hint {
        Some(h) => {
            let t = trim_chars(chars_of(h).as_slice());
            if t.len() > 0 {
                Some(string_from(t.as_slice()))
            } else {
                None
            }
        },
        None => None,
    }
}

/// Same as [`extract`], but a caller-provided hint wins over inference.
pub fn extract_with_hint(line: &str, source: &str, hint: Option<&str>) -> (r: String)
    ensures
        r@ == spec_extract_with_hint(line@, source@, opt_view(hint)),
        r@.len() > 0,
{
    match applicable_hint(hint) {
        Some(h) => h,
        None => extract(line, source),
    }
}

/// A config hint first, then inference from the line, then (for
/// continuation lines) the last service seen for the source.
pub fn extract_full(
    line: &str,
    source: &str,
    hint: Option<&str>,
    last_service_for_source: Option<&str>,
) -> (r: String)
    ensures
        r@ == spec_extract_full(line@, source@, opt_view(hint), opt_view(last_service_for_source)),
        r@.len() > 0,
{
    match applicable_hint(hint) {
        Some(h) => h,
        None => extract_with_continuation(line, source, last_service_for_source),
    }
}


/// A service name is never empty: a name found in the line, a pinned hint,
/// an inherited name, the trimmed source or `unknown`.
pub proof fn law_service_never_empty(
    line: Seq<char>,
    source: Seq<char>,
    hint: Option<Seq<char>>,
    last: Option<Seq<char>>,
)
    ensures
        spec_extract(line, source).len() > 0,
        spec_extract_with_hint(line, source, hint).len() > 0,
        spec_extract_with_continuation(line, source, last).len() > 0,
        spec_extract_full(line, source, hint, last).len() > 0,
{
    reveal_strlit("unknown");
}

/// A pinned hint wins over everything the line says; otherwise a
/// continuation line keeps the service of the line before it.
pub proof fn law_hint_then_continuation(
    line: Seq<char>,
    source: Seq<char>,
    hint: Option<Seq<char>>,
    last: Option<Seq<char>>,
)
    ensures
        hint_applies(hint) ==> spec_extract_full(line, source, hint, last) == trim(hint->0),
        !hint_applies(hint) && spec_is_continuation(line) && last is Some && last->0.len() > 0
            ==> spec_extract_full(line, source, hint, last) == last->0,
        !hint_applies(hint) && !spec_is_continuation(line) ==> spec_extract_full(line, source, hint, last)
            == spec_extract(line, source),
{
}


/// Stack-trace lines keep the service of the line before them: a line that
/// is indented, or whose ASCII-lower-cased text starts with `caused by:`,
/// `at `, `traceback` or `--> `, takes the previous service when there is
/// one.
pub proof fn law_stack_lines_inherit(line: Seq<char>, source: Seq<char>, last: Seq<char>)
    requires
        last.len() > 0,
        (line.len() > 0 && (line[0] == ' ' || line[0] == '\t'))
            || starts_with(ascii_lowercase(line), "caused by:"@)
            || starts_with(ascii_lowercase(line), "at "@)
            || starts_with(ascii_lowercase(line), "traceback"@)
            || starts_with(ascii_lowercase(line), "--> "@),
    ensures
        spec_is_continuation(line),
        spec_extract_with_continuation(line, source, Some(last)) == last,
{
    reveal_strlit(" ");
    reveal_strlit("\t");
    if line.len() > 0 && line[0] == ' ' {
        assert(line.take(1) =~= " "@);
    }
    if line.len() > 0 && line[0] == '\t' {
        assert(line.take(1) =~= "\t"@);
    }
}

} // verus!
