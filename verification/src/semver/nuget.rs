//! NuGet to semver translation for C#/.NET versions and version ranges.
//!
//! NuGet versions are close to semver but allow a 4th "revision" segment (`1.0.0.0`)
//! and short forms (`1`, `1.2`); NuGet *constraints* use interval notation
//! (`[1.0,2.0)`, `[1.0]`, `(1.0,)`) and floating wildcards (`1.*`). The 4th revision
//! segment is dropped, which is lossy only when two versions differ solely in that
//! segment.
use super::elixir::with_op;
use super::parts::{
    bump_last, bumped, half_open, numbers, opt_chars, pad_segments, padded, parse_numbers,
    prefixed, write_half_open,
};
use crate::split::{pieces, push_all, push_str, split};
use crate::text::{
    any, before_suffix, begins, chars_of, cut, ends, ends_with, has_any, is_str, opt_string, part,
    split_once, starts_with, string_of, strip_suffix, trim, trimmed, Class,
};
use vstd::prelude::*;

verus! {

/// A text up to the first of a character, and what follows it, where something does.
pub open spec fn halves(s: Seq<char>, c: char) -> (Seq<char>, Seq<char>) {
    match cut(s, Class::Is(c)) {
        Some(p) => p,
        None => (s, seq![]),
    }
}

/// A text after a sign, or nothing where the text is empty.
pub open spec fn tagged(sign: Seq<char>, text: Seq<char>) -> Seq<char> {
    if text.len() == 0 {
        seq![]
    } else {
        sign + text
    }
}

/// A NuGet version as a semver text: three numbers, the pre-release and the build.
pub open spec fn nuget_version(version: Seq<char>) -> Option<Seq<char>> {
    let (rest, build) = halves(trimmed(version), '+');
    let (core, pre) = halves(rest, '-');
    match padded(pieces(core, Class::Is('.'))) {
        Some(numbers) => Some(numbers + tagged("-"@, pre) + tagged("+"@, build)),
        None => None,
    }
}

/// The clauses between two bounds, either of which may be missing; `*` where both are.
/// None where a bound is there and is no version.
pub open spec fn between(
    low: Seq<char>,
    low_version: Option<Seq<char>>,
    low_op: Seq<char>,
    high: Seq<char>,
    high_version: Option<Seq<char>>,
    high_op: Seq<char>,
) -> Option<Seq<char>> {
    if (low.len() > 0 && low_version is None) || (high.len() > 0 && high_version is None) {
        None
    } else if low.len() == 0 && high.len() == 0 {
        Some("*"@)
    } else if low.len() == 0 {
        Some(high_op + high_version->0)
    } else if high.len() == 0 {
        Some(low_op + low_version->0)
    } else {
        Some(low_op + low_version->0 + ", "@ + high_op + high_version->0)
    }
}

/// An interval such as `[1.0,2.0)` / `[1.0]` / `(1.0,)` / `(,2.0]`.
pub open spec fn nuget_interval(c: Seq<char>) -> Option<Seq<char>> {
    if c.len() < 2 || !(ends(c, "]"@) || ends(c, ")"@)) {
        None
    } else {
        let inner = c.subrange(1, c.len() - 1);
        match cut(inner, Class::Is(',')) {
            Some((lo, hi)) => between(
                trimmed(lo),
                nuget_version(trimmed(lo)),
                if begins(c, "["@) {
                    ">="@
                } else {
                    ">"@
                },
                trimmed(hi),
                nuget_version(trimmed(hi)),
                if ends(c, "]"@) {
                    "<="@
                } else {
                    "<"@
                },
            ),
            None => with_op("="@, nuget_version(trimmed(inner))),
        }
    }
}

/// A floating wildcard: `*` is any version, `1.*` is `>=1.0.0, <2.0.0`, `1.0.*` is
/// `>=1.0.0, <1.1.0`.
pub open spec fn nuget_floating(c: Seq<char>) -> Option<Seq<char>> {
    if c == "*"@ {
        Some("*"@)
    } else {
        match before_suffix(c, ".*"@) {
            Some(prefix) => match numbers(pieces(prefix, Class::Is('.'))) {
                Some(nums) => match bumped(nums) {
                    Some(high) => Some(half_open(nums, high)),
                    None => None,
                },
                None => None,
            },
            None => None,
        }
    }
}

/// A text, or none.
pub open spec fn or_nothing(o: Option<Seq<char>>) -> Seq<char> {
    match o {
        Some(s) => s,
        None => seq![],
    }
}

/// A NuGet version range in semver's spelling; empty where it has none. A bare version
/// is an inclusive minimum.
pub open spec fn nuget_requirement(constraint: Seq<char>) -> Seq<char> {
    let c = trimmed(constraint);
    if c.len() == 0 {
        seq![]
    } else if has_any(c, Class::Is('*')) {
        or_nothing(nuget_floating(c))
    } else if begins(c, "["@) || begins(c, "("@) {
        or_nothing(nuget_interval(c))
    } else {
        or_nothing(with_op(">="@, nuget_version(c)))
    }
}

/// Convert a NuGet version.
fn convert(version: &[char]) -> (r: Option<Vec<char>>)
    ensures
        opt_chars(r) == nuget_version(version@),
{
    let v = trim(version);
    let (rest, build): (&[char], Option<&[char]>) = match split_once(v, Class::Is('+')) {
        Some((head, tail)) => (head, Some(tail)),
        None => (v, None),
    };
    let (core, pre): (&[char], Option<&[char]>) = match split_once(rest, Class::Is('-')) {
        Some((head, tail)) => (head, Some(tail)),
        None => (rest, None),
    };
    let segs = split(core, Class::Is('.'));
    match pad_segments(&segs) {
        Some(nums) => {
            let mut out = nums;
            if let Some(p) = pre {
                if p.len() > 0 {
                    push_str(&mut out, "-");
                    push_all(&mut out, p);
                }
            }
            if let Some(b) = build {
                if b.len() > 0 {
                    push_str(&mut out, "+");
                    push_all(&mut out, b);
                }
            }
            assert(out@ =~= nuget_version(version@)->0);
            Some(out)
        },
        None => None,
    }
}

/// Convert a NuGet version into a parseable semver string.
///
/// Normalizes the numeric core to exactly `Major.Minor.Patch` (padding short
/// forms, dropping a 4th revision segment) and preserves the `-prerelease` and
/// `+build` suffixes. Returns `None` if there is no numeric release component.
#[must_use]
pub fn nuget_to_semver(version: &str) -> (r: Option<String>)
    ensures
        opt_string(r) == nuget_version(version@),
{
    let chars = chars_of(version);
    match convert(chars.as_slice()) {
        Some(v) => Some(string_of(v.as_slice())),
        None => None,
    }
}

/// Write the clauses between two bounds.
pub fn write_between(
    low: &[char],
    low_version: &Option<Vec<char>>,
    low_op: &str,
    high: &[char],
    high_version: &Option<Vec<char>>,
    high_op: &str,
) -> (r: Option<Vec<char>>)
    ensures
        opt_chars(r) == between(
            low@,
            opt_chars(*low_version),
            low_op@,
            high@,
            opt_chars(*high_version),
            high_op@,
        ),
{
    if (low.len() > 0 && low_version.is_none()) || (high.len() > 0 && high_version.is_none()) {
        return None;
    }
    if low.len() == 0 && high.len() == 0 {
        return Some(chars_of("*"));
    }
    let mut out: Vec<char> = Vec::new();
    if low.len() > 0 {
        if let Some(v) = low_version {
            push_str(&mut out, low_op);
            push_all(&mut out, v.as_slice());
            if high.len() > 0 {
                push_str(&mut out, ", ");
            }
        }
    }
    if high.len() > 0 {
        if let Some(v) = high_version {
            push_str(&mut out, high_op);
            push_all(&mut out, v.as_slice());
        }
    }
    assert(out@ =~= between(
        low@,
        opt_chars(*low_version),
        low_op@,
        high@,
        opt_chars(*high_version),
        high_op@,
    )->0);
    Some(out)
}

/// Parse an interval.
fn interval_range(c: &[char]) -> (r: Option<Vec<char>>)
    ensures
        opt_chars(r) == nuget_interval(c@),
{
    if c.len() < 2 || !(ends_with(c, "]") || ends_with(c, ")")) {
        return None;
    }
    let inner = part(c, 1, c.len() - 1);
    match split_once(inner, Class::Is(',')) {
        Some((lo, hi)) => {
            let lo = trim(lo);
            let hi = trim(hi);
            let low_op = if starts_with(c, "[") {
                ">="
            } else {
                ">"
            };
            let high_op = if ends_with(c, "]") {
                "<="
            } else {
                "<"
            };
            let low = convert(lo);
            let high = convert(hi);
            write_between(lo, &low, low_op, hi, &high, high_op)
        },
        // No comma: an exact version, e.g. `[1.0]`.
        None => match convert(trim(inner)) {
            Some(v) => Some(prefixed("=", v.as_slice())),
            None => None,
        },
    }
}

/// Expand a floating wildcard.
fn floating_range(c: &[char]) -> (r: Option<Vec<char>>)
    ensures
        opt_chars(r) == nuget_floating(c@),
{
    if is_str(c, "*") {
        return Some(chars_of("*"));
    }
    match strip_suffix(c, ".*") {
        Some(prefix) => {
            let segs = split(prefix, Class::Is('.'));
            match parse_numbers(&segs) {
                Some(nums) => match bump_last(&nums) {
                    Some(high) => Some(write_half_open(&nums, &high)),
                    None => None,
                },
                None => None,
            }
        },
        None => None,
    }
}

/// A string of the given characters, or the empty string.
pub fn string_or_empty(o: Option<Vec<char>>) -> (r: String)
    ensures
        r@ == or_nothing(opt_chars(o)),
{
    match o {
        Some(v) => string_of(v.as_slice()),
        None => {
            let none = String::new();
            assert(none@ =~= seq![]);
            none
        },
    }
}

/// Convert a NuGet version range into a `semver::VersionReq`-compatible string.
///
/// Handles interval notation (`[1.0,2.0)`, `[1.0]`, `(1.0,)`, `(,2.0]`), floating
/// wildcards (`*`, `1.*`, `1.0.*`), and a bare version (`1.0`), which NuGet reads
/// as an inclusive minimum (`>=1.0`). An unreadable version, a malformed interval, or a
/// wildcard shape that is not recognised translates to the empty string.
#[must_use]
pub fn nuget_constraint_to_semver(constraint: &str) -> (r: String)
    ensures
        r@ == nuget_requirement(constraint@),
{
    let chars = chars_of(constraint);
    let c = trim(chars.as_slice());
    if c.len() == 0 {
        return string_or_empty(None);
    }
    if any(c, Class::Is('*')) {
        return string_or_empty(floating_range(c));
    }
    if starts_with(c, "[") || starts_with(c, "(") {
        return string_or_empty(interval_range(c));
    }
    // A bare version is an inclusive minimum in NuGet.
    string_or_empty(
        match convert(c) {
            Some(v) => Some(prefixed(">=", v.as_slice())),
            None => None,
        },
    )
}

} // verus!
