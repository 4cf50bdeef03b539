//! PEP 440 to semver translation for Python versions and constraints.
//!
//! Python versions (`1.0a1`, `1.0.post1`, `1.0.dev2`, `1.2`) and constraints
//! (`>=1.0,<2.0`, `==1.0.*`, `~=1.4`) are translated into the closest semver
//! equivalent so the generic version engine can compare them. The translation is lossy
//! at the edges (epochs, 4+ release segments, `!=` exclusions, post-vs-pre ordering).
use super::elixir::with_op;
use super::maven::{owned, tokenize_plain, tokens_of};
use super::parts::{
    bump_last, bumped, digits, half_open, is_digits, numbers, opt_chars, parse_numbers, prefixed,
    segment, trim_all, write_half_open, all_trimmed,
};
use crate::split::{copy, join, joined, pieces, push_all, push_str, split, texts};
use crate::text::{
    after_prefix, before_suffix, chars_of, count_leading, cut, first, is_str, leading, opt_string,
    position, skip, split_once, string_of, strip_prefix, strip_suffix, take, trim, trimmed, Class,
};
use vstd::prelude::*;

verus! {

/// The texts of a list that are not empty.
pub open spec fn nonempty(parts: Seq<Seq<char>>) -> Seq<Seq<char>>
    decreases parts.len(),
{
    if parts.len() == 0 {
        seq![]
    } else if parts.last().len() > 0 {
        nonempty(parts.drop_last()).push(parts.last())
    } else {
        nonempty(parts.drop_last())
    }
}

/// The semver spelling of a word in a PEP 440 suffix.
pub open spec fn suffix_word(w: Seq<char>) -> Seq<char> {
    if w == "a"@ || w == "alpha"@ {
        "alpha"@
    } else if w == "b"@ || w == "beta"@ {
        "beta"@
    } else if w == "c"@ || w == "rc"@ || w == "pre"@ || w == "preview"@ {
        "rc"@
    } else if w == "post"@ || w == "rev"@ || w == "r"@ {
        "post"@
    } else {
        w
    }
}

/// A PEP 440 pre/post/dev suffix as a semver pre-release identifier (`a1` is `alpha.1`,
/// `rc1` is `rc.1`, `.dev2` is `dev.2`, `.post1` is `post.1`).
pub open spec fn suffix_of(suffix: Seq<char>) -> Seq<char> {
    joined(tokens_of(suffix).map_values(|w: Seq<char>| suffix_word(w)), "."@)
}

/// A version without its epoch (`1!1.0` is `1.0`) and local segment (`1.0+abc` is `1.0`).
pub open spec fn public_part(version: Seq<char>) -> Seq<char> {
    let v = trimmed(version);
    let w = match cut(v, Class::Is('!')) {
        Some((_, rest)) => rest,
        None => v,
    };
    w.take(first(w, Class::Is('+')))
}

/// A PEP 440 version as a semver text. None where there is no number at its start.
pub open spec fn pep440_version(version: Seq<char>) -> Option<Seq<char>> {
    let v = public_part(version);
    let end = leading(v, Class::In("0123456789."));
    let nums = nonempty(pieces(v.take(end), Class::Is('.')));
    let pre = suffix_of(v.skip(end));
    if nums.len() == 0 {
        None
    } else {
        let core = segment(nums, 0) + "."@ + segment(nums, 1) + "."@ + segment(nums, 2);
        if pre.len() == 0 {
            Some(core)
        } else {
            Some(core + "-"@ + pre)
        }
    }
}

/// `==1.0.*` is `>=1.0.0, <1.1.0`: up to the next release of the last given segment.
pub open spec fn pep440_wildcard(prefix: Seq<char>) -> Option<Seq<char>> {
    match numbers(nonempty(pieces(prefix, Class::Is('.')))) {
        Some(nums) => match bumped(nums) {
            Some(high) => Some(half_open(nums, high)),
            None => None,
        },
        None => None,
    }
}

/// The runs of digits at the start of a list.
pub open spec fn leading_digits(parts: Seq<Seq<char>>) -> Seq<Seq<char>>
    decreases parts.len(),
{
    if parts.len() > 0 && is_digits(parts[0]) {
        seq![parts[0]] + leading_digits(parts.drop_first())
    } else {
        seq![]
    }
}

/// `~=1.4` is `>=1.4.0, <2.0.0`; `~=1.4.2` is `>=1.4.2, <1.5.0`: the upper bound drops
/// the last component and enlarges the one before it.
pub open spec fn pep440_compatible(version: Seq<char>) -> Option<Seq<char>> {
    match numbers(leading_digits(all_trimmed(pieces(version, Class::Is('.'))))) {
        Some(nums) => if nums.len() < 2 {
            None
        } else {
            match bumped(nums.drop_last()) {
                Some(high) => Some(half_open(nums, high)),
                None => None,
            }
        },
        None => None,
    }
}

/// An exact match, of one version or of every version under a prefix.
pub open spec fn pep440_exact(version: Seq<char>) -> Option<Seq<char>> {
    match before_suffix(version, ".*"@) {
        Some(prefix) => pep440_wildcard(prefix),
        None => with_op("="@, pep440_version(version)),
    }
}

/// One clause, where it can be translated. Exclusion has no semver spelling; Poetry's
/// `^` and `~` are semver's own; `*` is any version; a bare version reads as a caret
/// range.
pub open spec fn pep440_clause(clause: Seq<char>) -> Option<Seq<char>> {
    if clause == "*"@ {
        Some("*"@)
    } else if let Some(rest) = after_prefix(clause, "==="@) {
        pep440_exact(trimmed(rest))
    } else if let Some(rest) = after_prefix(clause, "=="@) {
        pep440_exact(trimmed(rest))
    } else if let Some(rest) = after_prefix(clause, "~="@) {
        pep440_compatible(trimmed(rest))
    } else if after_prefix(clause, "!="@) is Some {
        None
    } else if let Some(rest) = after_prefix(clause, ">="@) {
        with_op(">="@, pep440_version(trimmed(rest)))
    } else if let Some(rest) = after_prefix(clause, "<="@) {
        with_op("<="@, pep440_version(trimmed(rest)))
    } else if let Some(rest) = after_prefix(clause, "^"@) {
        Some("^"@ + trimmed(rest))
    } else if let Some(rest) = after_prefix(clause, "~"@) {
        Some("~"@ + trimmed(rest))
    } else if let Some(rest) = after_prefix(clause, ">"@) {
        with_op(">"@, pep440_version(trimmed(rest)))
    } else if let Some(rest) = after_prefix(clause, "<"@) {
        with_op("<"@, pep440_version(trimmed(rest)))
    } else if let Some(rest) = after_prefix(clause, "="@) {
        with_op("="@, pep440_version(trimmed(rest)))
    } else {
        pep440_version(clause)
    }
}

/// A clause without its environment marker.
pub open spec fn unmarked(clause: Seq<char>) -> Seq<char> {
    trimmed(clause.take(first(clause, Class::Is(';'))))
}

/// The translations of the clauses that have one.
pub open spec fn pep440_clauses(clauses: Seq<Seq<char>>) -> Seq<Seq<char>>
    decreases clauses.len(),
{
    if clauses.len() == 0 {
        seq![]
    } else {
        let front = pep440_clauses(clauses.drop_last());
        let c = unmarked(clauses.last());
        if c.len() == 0 {
            front
        } else {
            match pep440_clause(c) {
                Some(t) => front.push(t),
                None => front,
            }
        }
    }
}

/// A PEP 440 (or Poetry) constraint in semver's spelling; empty where no clause has one.
pub open spec fn pep440_requirement(constraint: Seq<char>) -> Seq<char> {
    joined(pep440_clauses(pieces(constraint, Class::Is(','))), ", "@)
}

/// The texts of a list that are not empty.
fn keep_nonempty<'a>(parts: &Vec<&'a [char]>) -> (r: Vec<&'a [char]>)
    ensures
        texts(r@) == nonempty(texts(parts@)),
{
    let ghost all = texts(parts@);
    let mut out: Vec<&'a [char]> = Vec::new();
    let mut i: usize = 0;
    assert(texts(out@) =~= nonempty(all.take(0)));
    while i < parts.len()
        invariant
            i <= parts.len(),
            all == texts(parts@),
            texts(out@) == nonempty(all.take(i as int)),
        decreases parts.len() - i,
    {
        proof {
            assert(all.take(i + 1).drop_last() =~= all.take(i as int));
            assert(all.take(i + 1).last() == parts@[i as int]@);
        }
        if parts[i].len() > 0 {
            let ghost before = texts(out@);
            out.push(parts[i]);
            assert(texts(out@) =~= before.push(parts@[i as int]@));
        }
        i = i + 1;
    }
    assert(all.take(i as int) =~= all);
    out
}

/// Convert a PEP 440 pre/post/dev suffix into a semver pre-release identifier.
fn convert_suffix(suffix: &[char]) -> (r: Vec<char>)
    ensures
        r@ == suffix_of(suffix@),
{
    let tokens = tokenize_plain(suffix);
    let ghost want = tokens_of(suffix@).map_values(|w: Seq<char>| suffix_word(w));
    let mut out: Vec<Vec<char>> = Vec::new();
    let mut i: usize = 0;
    while i < tokens.len()
        invariant
            i <= tokens.len(),
            owned(tokens@) == tokens_of(suffix@),
            want == tokens_of(suffix@).map_values(|w: Seq<char>| suffix_word(w)),
            out@.len() == i,
            forall|j: int| 0 <= j < i ==> (#[trigger] out@[j])@ == want[j],
        decreases tokens.len() - i,
    {
        let w = tokens[i].as_slice();
        assert(owned(tokens@)[i as int] == w@);
        let canon = if is_str(w, "a") || is_str(w, "alpha") {
            chars_of("alpha")
        } else if is_str(w, "b") || is_str(w, "beta") {
            chars_of("beta")
        } else if is_str(w, "c") || is_str(w, "rc") || is_str(w, "pre") || is_str(w, "preview") {
            chars_of("rc")
        } else if is_str(w, "post") || is_str(w, "rev") || is_str(w, "r") {
            chars_of("post")
        } else {
            copy(w)
        };
        out.push(canon);
        i = i + 1;
    }
    assert(out@.map_values(|p: Vec<char>| p@) =~= want);
    join(&out, ".")
}

/// A segment, or `0` where there is none.
fn segment_at(segs: &Vec<&[char]>, i: usize) -> (r: Vec<char>)
    ensures
        r@ == segment(texts(segs@), i as int),
{
    if i < segs.len() {
        copy(segs[i])
    } else {
        chars_of("0")
    }
}

/// Convert a PEP 440 version.
fn convert(version: &[char]) -> (r: Option<Vec<char>>)
    ensures
        opt_chars(r) == pep440_version(version@),
{
    let t = trim(version);
    let w: &[char] = match split_once(t, Class::Is('!')) {
        Some((_, rest)) => rest,
        None => t,
    };
    let v = take(w, position(w, Class::Is('+')));
    // The release is the leading run of digits and dots.
    let end: usize = count_leading(v, Class::In("0123456789."));
    let segs = split(take(v, end), Class::Is('.'));
    let nums = keep_nonempty(&segs);
    assert(texts(nums@).len() == nums@.len());
    if nums.len() == 0 {
        return None;
    }
    let major = segment_at(&nums, 0);
    let minor = segment_at(&nums, 1);
    let patch = segment_at(&nums, 2);
    let mut out = copy(major.as_slice());
    push_str(&mut out, ".");
    push_all(&mut out, minor.as_slice());
    push_str(&mut out, ".");
    push_all(&mut out, patch.as_slice());
    let pre = convert_suffix(skip(v, end));
    if pre.len() > 0 {
        push_str(&mut out, "-");
        push_all(&mut out, pre.as_slice());
    }
    assert(out@ =~= pep440_version(version@)->0);
    Some(out)
}

/// Convert a PEP 440 version into a parseable semver string.
///
/// Returns `None` only if there is no numeric release component at all.
#[must_use]
pub fn pep440_to_semver(version: &str) -> (r: Option<String>)
    ensures
        opt_string(r) == pep440_version(version@),
{
    let chars = chars_of(version);
    match convert(chars.as_slice()) {
        Some(v) => Some(string_of(v.as_slice())),
        None => None,
    }
}

/// Expand `==1.0.*`.
fn wildcard_range(prefix: &[char]) -> (r: Option<Vec<char>>)
    ensures
        opt_chars(r) == pep440_wildcard(prefix@),
{
    let segs = split(prefix, Class::Is('.'));
    let parts = keep_nonempty(&segs);
    match parse_numbers(&parts) {
        Some(nums) => match bump_last(&nums) {
            Some(high) => Some(write_half_open(&nums, &high)),
            None => None,
        },
        None => None,
    }
}

/// The runs of digits at the start of a list.
fn keep_leading_digits<'a>(parts: &Vec<&'a [char]>) -> (r: Vec<&'a [char]>)
    ensures
        texts(r@) == leading_digits(texts(parts@)),
{
    let ghost all = texts(parts@);
    let mut out: Vec<&'a [char]> = Vec::new();
    let mut i: usize = 0;
    assert(all.skip(0) =~= all);
    assert(texts(out@) + leading_digits(all) =~= leading_digits(all));
    while i < parts.len() && digits(parts[i])
        invariant
            i <= parts.len(),
            all == texts(parts@),
            texts(out@) + leading_digits(all.skip(i as int)) == leading_digits(all),
        decreases parts.len() - i,
    {
        let ghost before = texts(out@);
        let ghost rest = all.skip(i as int);
        out.push(parts[i]);
        proof {
            assert(rest[0] == parts@[i as int]@);
            assert(rest.drop_first() =~= all.skip(i + 1));
            assert(texts(out@) =~= before.push(rest[0]));
            assert(texts(out@) + leading_digits(all.skip(i + 1)) =~= before + leading_digits(rest));
        }
        i = i + 1;
    }
    proof {
        let rest = all.skip(i as int);
        if i < parts@.len() {
            assert(rest[0] == parts@[i as int]@);
        }
        assert(leading_digits(rest) =~= seq![]);
        assert(texts(out@) + leading_digits(rest) =~= texts(out@));
    }
    out
}

/// Expand `~=1.4`.
fn compatible_release(version: &[char]) -> (r: Option<Vec<char>>)
    ensures
        opt_chars(r) == pep440_compatible(version@),
{
    let segs = split(version, Class::Is('.'));
    let parts = trim_all(&segs);
    let run = keep_leading_digits(&parts);
    match parse_numbers(&run) {
        Some(nums) => {
            if nums.len() < 2 {
                return None;
            }
            let mut front: Vec<u64> = Vec::new();
            let mut i: usize = 0;
            while i < nums.len() - 1
                invariant
                    nums.len() >= 2,
                    i <= nums.len() - 1,
                    front@ == nums@.take(i as int),
                decreases nums.len() - i,
            {
                front.push(nums[i]);
                i = i + 1;
                assert(nums@.take(i as int) =~= nums@.take(i - 1).push(nums@[i - 1]));
            }
            assert(front@ =~= nums@.drop_last());
            match bump_last(&front) {
                Some(high) => Some(write_half_open(&nums, &high)),
                None => None,
            }
        },
        None => None,
    }
}

/// A version after an operator.
fn operand(op: &str, version: &[char]) -> (r: Option<Vec<char>>)
    ensures
        opt_chars(r) == with_op(op@, pep440_version(version@)),
{
    match convert(version) {
        Some(v) => Some(prefixed(op, v.as_slice())),
        None => None,
    }
}

/// An exact match.
fn exact(version: &[char]) -> (r: Option<Vec<char>>)
    ensures
        opt_chars(r) == pep440_exact(version@),
{
    match strip_suffix(version, ".*") {
        Some(prefix) => wildcard_range(prefix),
        None => operand("=", version),
    }
}

/// Translate one clause.
fn convert_clause(clause: &[char]) -> (r: Option<Vec<char>>)
    ensures
        opt_chars(r) == pep440_clause(clause@),
{
    if is_str(clause, "*") {
        return Some(chars_of("*"));
    }
    if let Some(rest) = strip_prefix(clause, "===") {
        return exact(trim(rest));
    }
    if let Some(rest) = strip_prefix(clause, "==") {
        return exact(trim(rest));
    }
    if let Some(rest) = strip_prefix(clause, "~=") {
        return compatible_release(trim(rest));
    }
    if strip_prefix(clause, "!=").is_some() {
        return None;
    }
    if let Some(rest) = strip_prefix(clause, ">=") {
        return operand(">=", trim(rest));
    }
    if let Some(rest) = strip_prefix(clause, "<=") {
        return operand("<=", trim(rest));
    }
    if let Some(rest) = strip_prefix(clause, "^") {
        return Some(prefixed("^", trim(rest)));
    }
    if let Some(rest) = strip_prefix(clause, "~") {
        return Some(prefixed("~", trim(rest)));
    }
    if let Some(rest) = strip_prefix(clause, ">") {
        return operand(">", trim(rest));
    }
    if let Some(rest) = strip_prefix(clause, "<") {
        return operand("<", trim(rest));
    }
    if let Some(rest) = strip_prefix(clause, "=") {
        return operand("=", trim(rest));
    }
    convert(clause)
}

/// Convert a PEP 440 (or Poetry) constraint into a `semver::VersionReq` string.
///
/// Splits on commas, strips `;` environment markers, and converts each clause.
/// Poetry's `^`/`~`/`*` and the comparison operators pass through; `~=` and `==…*`
/// expand to ranges; `!=` is dropped (semver can't express exclusion).
#[must_use]
pub fn pep440_constraint_to_semver(constraint: &str) -> (r: String)
    ensures
        r@ == pep440_requirement(constraint@),
{
    let chars = chars_of(constraint);
    let clauses = split(chars.as_slice(), Class::Is(','));
    let ghost all = texts(clauses@);
    let mut out: Vec<Vec<char>> = Vec::new();
    let mut i: usize = 0;
    assert(owned(out@) =~= pep440_clauses(all.take(0)));
    while i < clauses.len()
        invariant
            i <= clauses.len(),
            all == texts(clauses@),
            owned(out@) == pep440_clauses(all.take(i as int)),
        decreases clauses.len() - i,
    {
        proof {
            assert(all.take(i + 1).drop_last() =~= all.take(i as int));
            assert(all.take(i + 1).last() == clauses@[i as int]@);
        }
        let c = trim(take(clauses[i], position(clauses[i], Class::Is(';'))));
        if c.len() > 0 {
            if let Some(t) = convert_clause(c) {
                let ghost before = owned(out@);
                let ghost text = t@;
                out.push(t);
                assert(owned(out@) =~= before.push(text));
            }
        }
        i = i + 1;
    }
    assert(all.take(i as int) =~= all);
    let joined_text = join(&out, ", ");
    string_of(joined_text.as_slice())
}

} // verus!
