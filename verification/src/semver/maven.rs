//! Maven to semver translation for JVM versions and version ranges.
//!
//! Maven's own order is not semver's. It splits a version on `.`/`-` *and* on every
//! digit↔letter transition, drops trailing null segments so `1.0` and `1.0.0` are the
//! same version, and orders the trailing qualifier by a fixed table rather than
//! lexically:
//!
//! ```text
//! alpha < beta < milestone < rc < snapshot < "" (a release) < sp
//! ```
//!
//! Two facts make that table expressible here. Those qualifier words are already in
//! ASCII order, which is how semver compares alphanumeric pre-release identifiers; and
//! semver ranks *any* pre-release below the release it qualifies, which is Maven's rule
//! for everything up to `snapshot`.
//!
//! What is lost, and why each loss is the cheaper one:
//!
//! - **`sp`** (service pack) sorts *above* a release in Maven and below it here.
//! - **A fourth or later numeric segment** becomes a pre-release identifier
//!   (`1.2.3.4` is `1.2.3-4`), so it sorts below `1.2.3` where Maven sorts it above.
//! - **An unrecognized qualifier** (`1.0-jre`) is ordered lexically among the known
//!   ones instead of after `sp`.
//! - **`ga`/`final`/`release`** are Maven's aliases for "no qualifier", so
//!   `6.4.4.Final` translates to `6.4.4`.
use super::elixir::with_op;
use super::nuget::{between, or_nothing, string_or_empty, write_between};
use super::parts::{
    all_trimmed, bump_last, bumped, digits, half_open, is_digits, numbers, opt_chars,
    parse_numbers, prefixed, trim_all, write_half_open, write_triple,
};
use super::version::triple;
use crate::number::{number_of, parse_u64};
use crate::split::{copy, join, joined, pieces, push_all, push_str, split};
use crate::text::{
    alnum, any, before_suffix, begins, chars_of, count_leading, cut, digit, has_any, is_alnum,
    is_digit, is_str, last, last_position, leading, lemma_last, lemma_leading, lower, lowered,
    opt_string, part, skip, split_once, starts_with, string_of, strip_suffix, take, trim, trim_end,
    trim_end_of, trim_start, trim_start_of, trimmed, Class,
};
use vstd::prelude::*;

verus! {

/// How long the token at the start of a text is: a run of digits, or of letters.
pub open spec fn token_len(s: Seq<char>) -> int {
    if s.len() > 0 && is_digit(s[0]) {
        leading(s, Class::Digit)
    } else {
        leading(s, Class::Alpha)
    }
}

/// The runs of ASCII digits and of ASCII letters in a text, in small letters. Anything
/// else separates, which also keeps every token spellable as a semver identifier.
pub open spec fn tokens_of(s: Seq<char>) -> Seq<Seq<char>>
    decreases s.len(),
    via tokens_decreases
{
    if s.len() == 0 {
        seq![]
    } else if !is_alnum(s[0]) {
        tokens_of(s.drop_first())
    } else {
        seq![lowered(s.take(token_len(s)))] + tokens_of(s.skip(token_len(s)))
    }
}

#[via_fn]
proof fn tokens_decreases(s: Seq<char>) {
    lemma_token_len(s);
}

/// A token is within the text, and is not empty where a letter or digit begins it.
pub proof fn lemma_token_len(s: Seq<char>)
    ensures
        0 <= token_len(s) <= s.len(),
        s.len() > 0 && is_alnum(s[0]) ==> token_len(s) > 0,
{
    lemma_leading(s, Class::Digit);
    lemma_leading(s, Class::Alpha);
    if s.len() > 0 {
        lemma_leading(s.drop_first(), Class::Digit);
        lemma_leading(s.drop_first(), Class::Alpha);
    }
}

/// How many tokens at the start of a list are numbers.
pub open spec fn numeric_prefix(tokens: Seq<Seq<char>>) -> int
    decreases tokens.len(),
{
    if tokens.len() > 0 && is_digits(tokens[0]) {
        1 + numeric_prefix(tokens.drop_first())
    } else {
        0
    }
}

/// A run of digits without leading zeros, which semver forbids in a numeric pre-release
/// identifier.
pub open spec fn without_zeros(token: Seq<char>) -> Seq<char> {
    let t = trim_start_of(token, Class::Is('0'));
    if t.len() == 0 {
        "0"@
    } else {
        t
    }
}

/// The canonical spelling of a qualifier word; none for Maven's aliases for "no
/// qualifier at all".
pub open spec fn canonical(token: Seq<char>) -> Option<Seq<char>> {
    if token == "a"@ || token == "alpha"@ {
        Some("alpha"@)
    } else if token == "b"@ || token == "beta"@ {
        Some("beta"@)
    } else if token == "m"@ || token == "milestone"@ {
        Some("milestone"@)
    } else if token == "cr"@ || token == "rc"@ {
        Some("rc"@)
    } else if token == "ga"@ || token == "final"@ || token == "release"@ {
        None
    } else {
        Some(token)
    }
}

/// The pre-release identifiers of a list of tokens.
pub open spec fn identifiers(tokens: Seq<Seq<char>>) -> Seq<Seq<char>>
    decreases tokens.len(),
{
    if tokens.len() == 0 {
        seq![]
    } else {
        let front = identifiers(tokens.drop_last());
        let t = tokens.last();
        if is_digits(t) {
            front.push(without_zeros(t))
        } else {
            match canonical(t) {
                Some(c) => front.push(c),
                None => front,
            }
        }
    }
}

/// The number of a release segment, or 0 where there is none or it does not fit.
pub open spec fn release_number(tokens: Seq<Seq<char>>, n: int, i: int) -> u64 {
    if i < n {
        match number_of(tokens[i]) {
            Some(v) => v,
            None => 0,
        }
    } else {
        0
    }
}

/// A Maven version as a semver text: the leading numbers are the release, at most three
/// of them, and everything after those is the pre-release. None where the version does
/// not start with a number, or with one that does not fit.
pub open spec fn maven_version(version: Seq<char>) -> Option<Seq<char>> {
    let tokens = tokens_of(trimmed(version));
    let n = numeric_prefix(tokens);
    if n == 0 || number_of(tokens[0]) is None {
        None
    } else {
        let rest = identifiers(
            tokens.skip(
                if n < 3 {
                    n
                } else {
                    3
                },
            ),
        );
        let core = triple(
            release_number(tokens, n, 0),
            release_number(tokens, n, 1),
            release_number(tokens, n, 2),
        );
        if rest.len() == 0 {
            Some(core)
        } else {
            Some(core + "-"@ + joined(rest, "."@))
        }
    }
}

/// Whether a token is a qualifier that comes before a release in Maven's order.
pub open spec fn is_preview(token: Seq<char>) -> bool {
    let c = canonical(token);
    c == Some("alpha"@) || c == Some("beta"@) || c == Some("milestone"@) || c == Some("rc"@) || c
        == Some("snapshot"@)
}

/// Whether a version carries a qualifier that comes before a release.
pub open spec fn is_maven_prerelease(version: Seq<char>) -> bool {
    exists|i: int|
        0 <= i < tokens_of(trimmed(version)).len() && is_preview(
            #[trigger] tokens_of(trimmed(version))[i],
        )
}

/// An interval such as `[1.0,2.0)` / `[1.0]` / `(1.0,)` / `(,2.0]`, the last one of a
/// comma-joined union.
pub open spec fn maven_interval(c: Seq<char>) -> Option<Seq<char>> {
    let open = last(c, Class::In("[("));
    let group = trim_end_of(c.skip(open), Class::Space);
    if open < 0 || group.len() < 2 || !(group.last() == ']' || group.last() == ')') {
        None
    } else {
        let inner = group.subrange(1, group.len() - 1);
        match cut(inner, Class::Is(',')) {
            Some((lo, hi)) => between(
                trimmed(lo),
                maven_version(trimmed(lo)),
                if group[0] == '[' {
                    ">="@
                } else {
                    ">"@
                },
                trimmed(hi),
                maven_version(trimmed(hi)),
                if group.last() == ']' {
                    "<="@
                } else {
                    "<"@
                },
            ),
            None => with_op("="@, maven_version(trimmed(inner))),
        }
    }
}

/// A Gradle wildcard: `+` is any version, `1.+` is `>=1.0.0, <2.0.0`, `1.2.+` is
/// `>=1.2.0, <1.3.0`.
pub open spec fn gradle_wildcard(c: Seq<char>) -> Option<Seq<char>> {
    if c == "+"@ {
        Some("*"@)
    } else {
        match before_suffix(c, ".+"@) {
            Some(prefix) => match numbers(all_trimmed(pieces(prefix, Class::Is('.')))) {
                Some(nums) => match bumped(nums) {
                    Some(high) => Some(half_open(nums, high)),
                    None => None,
                },
                None => None,
            },
            None => None,
        }
    }
}

/// A Maven or Gradle constraint in semver's spelling; empty where it has none. A bare
/// version is exact.
pub open spec fn maven_requirement(constraint: Seq<char>) -> Seq<char> {
    let c = trimmed(constraint);
    if c.len() == 0 {
        seq![]
    } else if lowered(c) == "latest.release"@ || lowered(c) == "latest.integration"@ {
        "*"@
    } else if has_any(c, Class::Is('+')) {
        or_nothing(gradle_wildcard(c))
    } else if begins(c, "["@) || begins(c, "("@) {
        or_nothing(maven_interval(c))
    } else {
        or_nothing(with_op("="@, maven_version(c)))
    }
}

/// The texts of a list of owned texts.
pub open spec fn owned(v: Seq<Vec<char>>) -> Seq<Seq<char>> {
    v.map_values(|p: Vec<char>| p@)
}

/// The runs of digits and of letters in a text.
pub fn tokenize_plain(s: &[char]) -> (r: Vec<Vec<char>>)
    ensures
        owned(r@) == tokens_of(s@),
{
    let mut out: Vec<Vec<char>> = Vec::new();
    let mut rest: &[char] = s;
    assert(owned(out@) + tokens_of(rest@) =~= tokens_of(s@));
    while rest.len() > 0
        invariant
            owned(out@) + tokens_of(rest@) == tokens_of(s@),
        decreases rest.len(),
    {
        let ghost before = owned(out@);
        let ghost old_rest = rest@;
        proof {
            lemma_token_len(rest@);
        }
        if !alnum(rest[0]) {
            rest = skip(rest, 1);
            assert(rest@ =~= old_rest.drop_first());
        } else {
            let n: usize = if digit(rest[0]) {
                count_leading(rest, Class::Digit)
            } else {
                count_leading(rest, Class::Alpha)
            };
            let token = lower(take(rest, n));
            out.push(token);
            rest = skip(rest, n);
            proof {
                assert(owned(out@) =~= before.push(token@));
                assert(owned(out@) + tokens_of(rest@) =~= before + tokens_of(old_rest));
            }
        }
    }
    assert(owned(out@) + tokens_of(rest@) =~= owned(out@));
    out
}

/// Split a version the way Maven does.
fn tokenize(version: &[char]) -> (r: Vec<Vec<char>>)
    ensures
        owned(r@) == tokens_of(trimmed(version@)),
{
    tokenize_plain(trim(version))
}

/// Count the numbers at the start of a list of tokens.
fn count_numeric(tokens: &Vec<Vec<char>>) -> (r: usize)
    ensures
        r == numeric_prefix(owned(tokens@)),
        r <= tokens@.len(),
{
    let ghost all = owned(tokens@);
    let mut i: usize = 0;
    assert(all.skip(0) =~= all);
    while i < tokens.len() && digits(tokens[i].as_slice())
        invariant
            i <= tokens.len(),
            all == owned(tokens@),
            numeric_prefix(all) == i + numeric_prefix(all.skip(i as int)),
        decreases tokens.len() - i,
    {
        assert(all.skip(i as int)[0] == tokens@[i as int]@);
        assert(all.skip(i as int).drop_first() =~= all.skip(i + 1));
        i = i + 1;
    }
    proof {
        if i < tokens@.len() {
            assert(all.skip(i as int)[0] == tokens@[i as int]@);
        }
    }
    i
}

/// Drop leading zeros.
fn strip_leading_zeros(token: &[char]) -> (r: Vec<char>)
    ensures
        r@ == without_zeros(token@),
{
    let t = trim_start(token, Class::Is('0'));
    if t.len() == 0 {
        chars_of("0")
    } else {
        copy(t)
    }
}

/// The canonical spelling of a qualifier word.
fn qualifier_alias(token: &[char]) -> (r: Option<Vec<char>>)
    ensures
        opt_chars(r) == canonical(token@),
{
    if is_str(token, "a") || is_str(token, "alpha") {
        Some(chars_of("alpha"))
    } else if is_str(token, "b") || is_str(token, "beta") {
        Some(chars_of("beta"))
    } else if is_str(token, "m") || is_str(token, "milestone") {
        Some(chars_of("milestone"))
    } else if is_str(token, "cr") || is_str(token, "rc") {
        Some(chars_of("rc"))
    } else if is_str(token, "ga") || is_str(token, "final") || is_str(token, "release") {
        None
    } else {
        Some(copy(token))
    }
}

/// The pre-release identifiers of the tokens from `from` on.
fn collect_identifiers(tokens: &Vec<Vec<char>>, from: usize) -> (r: Vec<Vec<char>>)
    requires
        from <= tokens@.len(),
    ensures
        owned(r@) == identifiers(owned(tokens@).skip(from as int)),
{
    let ghost all = owned(tokens@).skip(from as int);
    let mut out: Vec<Vec<char>> = Vec::new();
    let mut i: usize = from;
    assert(owned(out@) =~= identifiers(all.take(0)));
    while i < tokens.len()
        invariant
            from <= i <= tokens.len(),
            all == owned(tokens@).skip(from as int),
            owned(out@) == identifiers(all.take(i - from)),
        decreases tokens.len() - i,
    {
        let t = tokens[i].as_slice();
        proof {
            assert(all.take(i - from + 1).drop_last() =~= all.take(i - from));
            assert(all.take(i - from + 1).last() == t@);
        }
        let ghost before = owned(out@);
        if digits(t) {
            let z = strip_leading_zeros(t);
            out.push(z);
            assert(owned(out@) =~= before.push(z@));
        } else if let Some(c) = qualifier_alias(t) {
            let ghost text = c@;
            out.push(c);
            assert(owned(out@) =~= before.push(text));
        }
        i = i + 1;
    }
    assert(all.take(i - from) =~= all);
    out
}

/// The number of a release segment.
fn release_segment(tokens: &Vec<Vec<char>>, n: usize, i: usize) -> (r: u64)
    requires
        n <= tokens@.len(),
    ensures
        r == release_number(owned(tokens@), n as int, i as int),
{
    if i < n {
        match parse_u64(tokens[i].as_slice()) {
            Some(v) => v,
            None => 0,
        }
    } else {
        0
    }
}

/// Convert a Maven version.
fn convert(version: &[char]) -> (r: Option<Vec<char>>)
    ensures
        opt_chars(r) == maven_version(version@),
{
    let tokens = tokenize(version);
    let n: usize = count_numeric(&tokens);
    if n == 0 || parse_u64(tokens[0].as_slice()).is_none() {
        return None;
    }
    let from: usize = if n < 3 {
        n
    } else {
        3
    };
    let pre = collect_identifiers(&tokens, from);
    let mut out = write_triple(
        release_segment(&tokens, n, 0),
        release_segment(&tokens, n, 1),
        release_segment(&tokens, n, 2),
    );
    if pre.len() > 0 {
        let ghost core = out@;
        push_str(&mut out, "-");
        let tail = join(&pre, ".");
        push_all(&mut out, tail.as_slice());
        assert(out@ =~= core + "-"@ + joined(owned(pre@), "."@));
    }
    Some(out)
}

/// Convert a Maven version into a parseable semver string.
///
/// The leading run of numeric segments becomes `Major.Minor.Patch` (padded, so
/// `1.0` and `1.0.0` are one version); everything after it, extra numeric segments
/// and the qualifier alike, becomes the pre-release. Returns `None` when the
/// version does not start with a number.
#[must_use]
pub fn maven_to_semver(version: &str) -> (r: Option<String>)
    ensures
        opt_string(r) == maven_version(version@),
{
    let chars = chars_of(version);
    match convert(chars.as_slice()) {
        Some(v) => Some(string_of(v.as_slice())),
        None => None,
    }
}

/// Whether a Maven version carries a qualifier that comes before a release.
///
/// Maven separates a qualifier with a dot as readily as with a hyphen and abbreviates
/// the word, so it is recognised among the tokens. A trailing word that is no such
/// qualifier is a build variant of a release.
#[must_use]
pub fn is_prerelease(version: &str) -> (r: bool)
    ensures
        r == is_maven_prerelease(version@),
{
    let chars = chars_of(version);
    let tokens = tokenize(chars.as_slice());
    let ghost all = tokens_of(trimmed(version@));
    let mut i: usize = 0;
    while i < tokens.len()
        invariant
            i <= tokens.len(),
            owned(tokens@) == all,
            all == tokens_of(trimmed(version@)),
            forall|j: int| 0 <= j < i ==> !is_preview(#[trigger] all[j]),
        decreases tokens.len() - i,
    {
        let t = tokens[i].as_slice();
        assert(all[i as int] == t@);
        if let Some(c) = qualifier_alias(t) {
            let w = c.as_slice();
            if is_str(w, "alpha") || is_str(w, "beta") || is_str(w, "milestone") || is_str(w, "rc")
                || is_str(w, "snapshot") {
                assert(is_preview(all[i as int]));
                return true;
            }
        }
        i = i + 1;
    }
    false
}

/// Parse an interval, keeping the last interval of a comma-joined union.
fn interval_range(c: &[char]) -> (r: Option<Vec<char>>)
    ensures
        opt_chars(r) == maven_interval(c@),
{
    proof {
        lemma_last(c@, Class::In("[("));
    }
    match last_position(c, Class::In("[(")) {
        None => None,
        Some(open) => {
            let group = trim_end(skip(c, open), Class::Space);
            if group.len() < 2 {
                return None;
            }
            let close = group[group.len() - 1];
            if close != ']' && close != ')' {
                return None;
            }
            let inner = part(group, 1, group.len() - 1);
            match split_once(inner, Class::Is(',')) {
                Some((lo, hi)) => {
                    let lo = trim(lo);
                    let hi = trim(hi);
                    let low_op = if group[0] == '[' {
                        ">="
                    } else {
                        ">"
                    };
                    let high_op = if close == ']' {
                        "<="
                    } else {
                        "<"
                    };
                    let low = convert(lo);
                    let high = convert(hi);
                    write_between(lo, &low, low_op, hi, &high, high_op)
                },
                // No comma: an exact version, e.g. `[1.0]`.
                None => match convert(trim(inner)) {
                    Some(v) => Some(prefixed("=", v.as_slice())),
                    None => None,
                },
            }
        },
    }
}

/// Expand a Gradle wildcard.
fn wildcard_range(c: &[char]) -> (r: Option<Vec<char>>)
    ensures
        opt_chars(r) == gradle_wildcard(c@),
{
    if is_str(c, "+") {
        return Some(chars_of("*"));
    }
    match strip_suffix(c, ".+") {
        Some(prefix) => {
            let segs = split(prefix, Class::Is('.'));
            let parts = trim_all(&segs);
            match parse_numbers(&parts) {
                Some(nums) => match bump_last(&nums) {
                    Some(high) => Some(write_half_open(&nums, &high)),
                    None => None,
                },
                None => None,
            }
        },
        None => None,
    }
}

/// Convert a Maven / Gradle version constraint into a
/// `semver::VersionReq`-compatible string.
///
/// Handles Maven's interval notation (`[1.0,2.0)`, `[1.0]`, `(1.0,)`, `(,2.0]`),
/// Gradle's `+` wildcards (`+`, `1.2.+`) and `latest.*` selectors, and a bare
/// version.
///
/// A bare version is read as **exact**. Maven calls it a soft requirement: the version
/// this project gets unless some other dependency in the graph forces a higher one.
///
/// A union (`(,1.0],[1.2,)`) is not expressible; the last (newest-allowing) interval is
/// kept. An unreadable version, a malformed interval, or a wildcard shape that is not
/// recognised translates to the empty string.
#[must_use]
pub fn maven_constraint_to_semver(constraint: &str) -> (r: String)
    ensures
        r@ == maven_requirement(constraint@),
{
    let chars = chars_of(constraint);
    let c = trim(chars.as_slice());
    if c.len() == 0 {
        return string_or_empty(None);
    }
    let low = lower(c);
    // Gradle's dynamic selectors name a channel, not a range.
    if is_str(low.as_slice(), "latest.release") || is_str(low.as_slice(), "latest.integration") {
        return "*".to_owned();
    }
    if any(c, Class::Is('+')) {
        return string_or_empty(wildcard_range(c));
    }
    if starts_with(c, "[") || starts_with(c, "(") {
        return string_or_empty(interval_range(c));
    }
    string_or_empty(
        match convert(c) {
            Some(v) => Some(prefixed("=", v.as_slice())),
            None => None,
        },
    )
}

} // verus!
