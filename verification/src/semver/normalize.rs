//! Version / constraint normalization helpers and pre-release filtering.
use super::elixir::{hex_constraint_to_semver, hex_requirement};
use super::maven::{is_maven_prerelease, maven_constraint_to_semver, maven_requirement, owned};
use super::nuget::{nuget_constraint_to_semver, nuget_requirement};
use super::parts::{numbers, opt_chars, parse_numbers, write_triple};
use super::python::{nonempty, pep440_constraint_to_semver, pep440_requirement};
use super::version::{
    comparator_views, parse_requirement, parse_version, semver_requirement, semver_version, triple,
    Comparator, ComparatorView, Operator, Version, VersionView,
};
use crate::ecosystem::Ecosystem;
use crate::split::{
    concat, copy, join, joined, pieces, pieces_by, push_all, push_str, split, split_str, strings,
    texts,
};
use crate::text::{
    is_space, leading, lemma_leading, lemma_trailing, trailing,
    all, all_in, alnum, alpha, any, chars_of, cut_last, digit, find, find_str, first, has_any,
    is_alnum, is_alpha, is_digit, is_str, lower, lowered, opt_string, opt_text, position,
    rsplit_once, skip, string_of, take, trim, trim_start, trim_start_of, trimmed, Class,
};
use vstd::prelude::*;

verus! {

/// How to treat pre-release / unstable versions when deciding what is available.
#[derive(Debug, Clone, Copy, PartialEq, Eq, Structural)]
#[non_exhaustive]
pub enum UnstableFilter {
    /// Hide pre-releases (default).
    Exclude,
    /// Always consider pre-releases.
    IncludeAlways,
    /// Consider pre-releases only when the current version is itself a pre-release.
    IncludeIfCurrent,
}

impl Default for UnstableFilter {
    fn default() -> (r: Self)
        ensures
            r == UnstableFilter::Exclude,
    {
        UnstableFilter::Exclude
    }
}

/// Whether a text in small letters holds one of the markers that say "pre-release" in
/// every ecosystem.
pub open spec fn has_marker(l: Seq<char>) -> bool {
    ||| find(l, "-alpha"@) >= 0
    ||| find(l, "-beta"@) >= 0
    ||| find(l, "-rc"@) >= 0
    ||| find(l, "-snapshot"@) >= 0
    ||| find(l, "-dev"@) >= 0
    ||| find(l, "-preview"@) >= 0
    ||| find(l, "-experimental"@) >= 0
    ||| find(l, "-canary"@) >= 0
    ||| find(l, "-pre"@) >= 0
    ||| find(l, "-next"@) >= 0
    ||| find(l, "-nightly"@) >= 0
    ||| find(l, "-nullsafety"@) >= 0
    ||| find(l, "-nnbd"@) >= 0
}

/// Whether a text in small letters holds one of the dotted markers of PEP 440.
pub open spec fn has_python_marker(l: Seq<char>) -> bool {
    ||| find(l, ".alpha"@) >= 0
    ||| find(l, ".beta"@) >= 0
    ||| find(l, ".rc"@) >= 0
    ||| find(l, ".dev"@) >= 0
    ||| find(l, ".snapshot"@) >= 0
    ||| find(l, ".preview"@) >= 0
    ||| find(l, ".experimental"@) >= 0
    ||| find(l, ".canary"@) >= 0
    ||| find(l, ".pre"@) >= 0
}

/// Whether a position holds an implicit PEP 440 pre-release segment: `a` or `b` before a
/// digit, or `rc` next to a digit.
pub open spec fn implicit_at(l: Seq<char>, i: int) -> bool {
    ||| (l[i] == 'a' || l[i] == 'b') && i + 1 < l.len() && is_digit(l[i + 1])
    ||| l[i] == 'r' && i + 1 < l.len() && l[i + 1] == 'c' && ((i + 2 < l.len() && is_digit(
        l[i + 2],
    )) || (i > 0 && is_digit(l[i - 1])))
}

/// Whether a text holds an implicit PEP 440 pre-release segment (`1.0a1`, `1.0b2`,
/// `1.0rc1`).
pub open spec fn is_implicit(l: Seq<char>) -> bool {
    exists|i: int| 0 <= i < l.len() && #[trigger] implicit_at(l, i)
}

/// Whether a version looks like a pre-release for an ecosystem.
///
/// A version that is semver answers for itself, except on the JVM, where a trailing word
/// is a build variant of a release and Maven's own tokens decide. The markers are the
/// fallback for the versions that are not semver.
pub open spec fn is_unstable(version: Seq<char>, ecosystem: Ecosystem) -> bool {
    is_unstable_given(
        semver_version(trim_start_of(version, Class::Is('v'))),
        version,
        ecosystem,
    )
}

/// Whether a version looks like a pre-release for an ecosystem, given what it is as
/// semver.
pub open spec fn is_unstable_given(
    parsed: Option<VersionView>,
    version: Seq<char>,
    ecosystem: Ecosystem,
) -> bool {
    if ecosystem != Ecosystem::Jvm && parsed is Some {
        parsed->0.pre.len() > 0
    } else {
        let l = lowered(version);
        has_marker(l) || match ecosystem {
            Ecosystem::Python => has_python_marker(l) || is_implicit(l),
            Ecosystem::Jvm => is_maven_prerelease(version),
            _ => false,
        }
    }
}

/// The versions of a list that are not pre-releases.
pub open spec fn stable_only(versions: Seq<Seq<char>>, ecosystem: Ecosystem) -> Seq<Seq<char>>
    decreases versions.len(),
{
    if versions.len() == 0 {
        seq![]
    } else {
        let front = stable_only(versions.drop_last(), ecosystem);
        if is_unstable(versions.last(), ecosystem) {
            front
        } else {
            front.push(versions.last())
        }
    }
}

impl UnstableFilter {
    /// What is left of a list of candidates.
    pub open spec fn kept(
        self,
        versions: Seq<Seq<char>>,
        current: Option<Seq<char>>,
        ecosystem: Ecosystem,
    ) -> Seq<Seq<char>> {
        let keep_all = match self {
            UnstableFilter::IncludeAlways => true,
            UnstableFilter::Exclude => false,
            UnstableFilter::IncludeIfCurrent => current matches Some(c) && is_unstable(
                c,
                ecosystem,
            ),
        };
        let stable = stable_only(versions, ecosystem);
        if keep_all || stable.len() == 0 {
            versions
        } else {
            stable
        }
    }

    /// Filter a candidate `versions` list according to this mode.
    ///
    /// `current` is the dependency's current version (its locked version, or its
    /// constraint when no lockfile is present), used only by
    /// [`UnstableFilter::IncludeIfCurrent`]. If filtering would remove every
    /// candidate, the original list is returned unchanged so a pre-release-only
    /// package still resolves.
    #[must_use]
    pub fn filter(self, versions: &[String], current: Option<&str>, ecosystem: Ecosystem) -> (r: Vec<
        String,
    >)
        ensures
            strings(r@) == self.kept(
                strings(versions@),
                match current {
                    Some(c) => Some(c@),
                    None => None,
                },
                ecosystem,
            ),
    {
        let keep_all = match self {
            UnstableFilter::IncludeAlways => true,
            UnstableFilter::Exclude => false,
            UnstableFilter::IncludeIfCurrent => match current {
                Some(c) => is_prerelease(c, ecosystem),
                None => false,
            },
        };
        let ghost whole = strings(versions@);
        let mut stable: Vec<String> = Vec::new();
        let mut copies: Vec<String> = Vec::new();
        let mut i: usize = 0;
        assert(strings(stable@) =~= stable_only(whole.take(0), ecosystem));
        while i < versions.len()
            invariant
                i <= versions.len(),
                whole == strings(versions@),
                strings(stable@) == stable_only(whole.take(i as int), ecosystem),
                copies@.len() == i,
                forall|j: int| 0 <= j < i ==> (#[trigger] copies@[j])@ == versions@[j]@,
            decreases versions.len() - i,
        {
            proof {
                assert(whole.take(i + 1).drop_last() =~= whole.take(i as int));
                assert(whole.take(i + 1).last() == versions@[i as int]@);
            }
            copies.push(versions[i].clone());
            if !is_prerelease(versions[i].as_str(), ecosystem) {
                let ghost before = strings(stable@);
                let v = versions[i].clone();
                stable.push(v);
                assert(strings(stable@) =~= before.push(versions@[i as int]@));
            }
            i = i + 1;
        }
        assert(whole.take(i as int) =~= whole);
        assert(strings(copies@) =~= whole);
        if keep_all || stable.len() == 0 {
            copies
        } else {
            stable
        }
    }
}

/// Whether a text holds a string.
fn holds(s: &[char], p: &str) -> (r: bool)
    ensures
        r == (find(s@, p@) >= 0),
{
    find_str(s, p).is_some()
}

/// Whether a text holds one of the universal markers.
fn marked(l: &[char]) -> (r: bool)
    ensures
        r == has_marker(l@),
{
    holds(l, "-alpha") || holds(l, "-beta") || holds(l, "-rc") || holds(l, "-snapshot") || holds(
        l,
        "-dev",
    ) || holds(l, "-preview") || holds(l, "-experimental") || holds(l, "-canary") || holds(
        l,
        "-pre",
    ) || holds(l, "-next") || holds(l, "-nightly") || holds(l, "-nullsafety") || holds(l, "-nnbd")
}

/// Whether a text holds one of the dotted markers of PEP 440.
fn python_marked(l: &[char]) -> (r: bool)
    ensures
        r == has_python_marker(l@),
{
    holds(l, ".alpha") || holds(l, ".beta") || holds(l, ".rc") || holds(l, ".dev") || holds(
        l,
        ".snapshot",
    ) || holds(l, ".preview") || holds(l, ".experimental") || holds(l, ".canary") || holds(
        l,
        ".pre",
    )
}

/// Detect PEP 440 implicit pre-release segments.
fn python_implicit_prerelease(l: &[char]) -> (r: bool)
    ensures
        r == is_implicit(l@),
{
    let mut i: usize = 0;
    while i < l.len()
        invariant
            i <= l.len(),
            forall|j: int| 0 <= j < i ==> !#[trigger] implicit_at(l@, j),
        decreases l.len() - i,
    {
        let c = l[i];
        let more: usize = l.len() - i;
        if (c == 'a' || c == 'b') && more > 1 && digit(l[i + 1]) {
            assert(implicit_at(l@, i as int));
            return true;
        }
        if c == 'r' && more > 1 && l[i + 1] == 'c' {
            let after = more > 2 && digit(l[i + 2]);
            let earlier = i > 0 && digit(l[i - 1]);
            if after || earlier {
                assert(implicit_at(l@, i as int));
                return true;
            }
        }
        i = i + 1;
    }
    false
}

/// Whether `version` looks like a pre-release / unstable version for `ecosystem`.
///
/// A version that parses as semver answers for itself. The marker list is the fallback
/// for the many ecosystem versions that are *not* semver (PEP 440, NuGet's four-part
/// versions, Go's `v` prefix), plus Python's implicit forms (`1.0a1`, `1.0b2`,
/// `1.0rc1`).
///
/// The JVM needs both exceptions. Maven separates a qualifier with a dot as readily as
/// with a hyphen and abbreviates the word, so its own tokens are consulted; and it
/// treats a trailing word as a build variant rather than a preview, so the semver
/// reading is skipped there.
#[must_use]
pub fn is_prerelease(version: &str, ecosystem: Ecosystem) -> (r: bool)
    ensures
        r == is_unstable(version@, ecosystem),
{
    let chars = chars_of(version);
    let bare = string_of(trim_start(chars.as_slice(), Class::Is('v')));
    is_prerelease_given(parse_version(bare.as_str()).as_ref(), version, ecosystem)
}

/// Whether `version` looks like a pre-release for `ecosystem`, given what it is as semver.
#[must_use]
pub fn is_prerelease_given(parsed: Option<&Version>, version: &str, ecosystem: Ecosystem) -> (r:
    bool)
    ensures
        r == is_unstable_given(
            match parsed {
                Some(v) => Some(v@),
                None => None,
            },
            version@,
            ecosystem,
        ),
{
    if let Some(v) = parsed {
        if !matches!(ecosystem, Ecosystem::Jvm) {
            return !v.pre.as_str().is_empty();
        }
    }
    let chars = chars_of(version);
    let low = lower(chars.as_slice());
    if marked(low.as_slice()) {
        return true;
    }
    match ecosystem {
        Ecosystem::Python => python_marked(low.as_slice()) || python_implicit_prerelease(
            low.as_slice(),
        ),
        Ecosystem::Jvm => super::maven::is_prerelease(version),
        _ => false,
    }
}

/// A text without a leading `v` or `V`.
pub open spec fn without_v(s: Seq<char>) -> Seq<char> {
    if s.len() > 0 && (s[0] == 'v' || s[0] == 'V') {
        s.drop_first()
    } else {
        s
    }
}

/// Drop a leading `v` or `V`.
fn strip_v(s: &[char]) -> (r: &[char])
    ensures
        r@ == without_v(s@),
{
    if s.len() > 0 && (s[0] == 'v' || s[0] == 'V') {
        assert(s@.skip(1) =~= s@.drop_first());
        skip(s, 1)
    } else {
        s
    }
}

/// A requirement without white space around it, and without a `v` before a digit.
pub open spec fn normal_constraint(constraint: Seq<char>) -> Seq<char> {
    let t = trimmed(constraint);
    let rest = without_v(t);
    if rest.len() > 0 && is_digit(rest[0]) {
        rest
    } else {
        t
    }
}

/// Trim a requirement, and drop a `v` before a digit.
fn normalized<'a>(constraint: &'a [char]) -> (r: &'a [char])
    ensures
        r@ == normal_constraint(constraint@),
{
    let t = trim(constraint);
    let rest = strip_v(t);
    if rest.len() > 0 && digit(rest[0]) {
        rest
    } else {
        t
    }
}

/// Normalize a version requirement string into something `semver::VersionReq`
/// accepts.
///
/// For Rust this is largely a pass-through. White space is trimmed and a leading
/// `v`/`V` before a digit stripped (Go's `v1.2.3`, some PHP tags).
#[must_use]
pub fn normalize_constraint(constraint: &str) -> (r: String)
    ensures
        r@ == normal_constraint(constraint@),
{
    let chars = chars_of(constraint);
    string_of(normalized(chars.as_slice()))
}

/// A concrete version without a leading `v`, a partial one padded (`1` is `1.0.0`, `1.2`
/// is `1.2.0`).
pub open spec fn normal_version(version: Seq<char>) -> Seq<char> {
    let s = without_v(trimmed(version));
    let n = first(s, Class::In("-+"));
    let segments = pieces(s.take(n), Class::Is('.')).len();
    if segments == 1 {
        s.take(n) + ".0.0"@ + s.skip(n)
    } else if segments == 2 {
        s.take(n) + ".0"@ + s.skip(n)
    } else {
        s
    }
}

/// Normalize a concrete version.
fn padded_version(version: &[char]) -> (r: Vec<char>)
    ensures
        r@ == normal_version(version@),
{
    let s = strip_v(trim(version));
    let n: usize = position(s, Class::In("-+"));
    let core = take(s, n);
    let segments = split(core, Class::Is('.'));
    assert(texts(segments@).len() == segments@.len());
    let mut out = copy(core);
    if segments.len() == 1 {
        push_str(&mut out, ".0.0");
    } else if segments.len() == 2 {
        push_str(&mut out, ".0");
    }
    push_all(&mut out, skip(s, n));
    assert(s@.take(n as int) + s@.skip(n as int) =~= s@);
    assert(out@ =~= normal_version(version@));
    out
}

/// Normalize a concrete version string: strip a leading `v`/`V` and pad partial
/// versions (`1` to `1.0.0`, `1.2` to `1.2.0`) so they parse as `semver::Version`.
#[must_use]
pub fn normalize_version(version: &str) -> (r: String)
    ensures
        r@ == normal_version(version@),
{
    let chars = chars_of(version);
    let out = padded_version(chars.as_slice());
    string_of(out.as_slice())
}

/// Whether a text in small letters is one of Composer's stability flags. They qualify
/// which *stability* of a release the constraint admits, never which versions.
pub open spec fn is_stability(l: Seq<char>) -> bool {
    l == "dev"@ || l == "alpha"@ || l == "beta"@ || l == "rc"@ || l == "stable"@
}

/// A range without its stability flag.
pub open spec fn without_stability(c: Seq<char>) -> Seq<char> {
    match cut_last(c, Class::Is('@')) {
        Some((range, flag)) => if is_stability(lowered(flag)) {
            trimmed(range)
        } else {
            c
        },
        None => c,
    }
}

/// Strip a trailing Composer stability flag, returning the range that carries it.
fn strip_stability_flag<'a>(c: &'a [char]) -> (r: &'a [char])
    ensures
        r@ == without_stability(c@),
{
    match rsplit_once(c, Class::Is('@')) {
        Some((range, flag)) => {
            let low = lower(flag);
            let l = low.as_slice();
            if is_str(l, "dev") || is_str(l, "alpha") || is_str(l, "beta") || is_str(l, "rc")
                || is_str(l, "stable") {
                trim(range)
            } else {
                c
            }
        },
        None => c,
    }
}

/// Whether one triple of numbers comes before another.
pub open spec fn triple_before(a: (u64, u64, u64), b: (u64, u64, u64)) -> bool {
    a.0 < b.0 || (a.0 == b.0 && (a.1 < b.1 || (a.1 == b.1 && a.2 < b.2)))
}

/// The number a comparator states, or 0.
pub open spec fn or_zero(o: Option<u64>) -> u64 {
    match o {
        Some(n) => n,
        None => 0,
    }
}

/// Whether a comparator bounds a version from below.
pub open spec fn is_lower(op: Operator) -> bool {
    op == Operator::Greater || op == Operator::GreaterEq || op == Operator::Exact || op
        == Operator::Caret || op == Operator::Tilde
}

/// The lowest version a requirement admits, for ranking union branches: the largest of
/// its lower bounds.
pub open spec fn lowest(comparators: Seq<ComparatorView>) -> (u64, u64, u64)
    decreases comparators.len(),
{
    if comparators.len() == 0 {
        (0, 0, 0)
    } else {
        let front = lowest(comparators.drop_last());
        let c = comparators.last();
        let here = (c.major, or_zero(c.minor), or_zero(c.patch));
        if is_lower(c.op) && triple_before(front, here) {
            here
        } else {
            front
        }
    }
}

/// Whether one triple of numbers comes before another.
fn comes_first(a: (u64, u64, u64), b: (u64, u64, u64)) -> (r: bool)
    ensures
        r == triple_before(a, b),
{
    a.0 < b.0 || (a.0 == b.0 && (a.1 < b.1 || (a.1 == b.1 && a.2 < b.2)))
}

/// The lowest version a requirement admits, used only to rank union branches.
pub fn lower_bound(comparators: &Vec<Comparator>) -> (r: (u64, u64, u64))
    ensures
        r == lowest(comparator_views(comparators@)),
{
    let ghost whole = comparator_views(comparators@);
    let mut best: (u64, u64, u64) = (0, 0, 0);
    let mut i: usize = 0;
    while i < comparators.len()
        invariant
            i <= comparators.len(),
            whole == comparator_views(comparators@),
            best == lowest(whole.take(i as int)),
        decreases comparators.len() - i,
    {
        let c = &comparators[i];
        proof {
            assert(whole.take(i + 1).drop_last() =~= whole.take(i as int));
            assert(whole.take(i + 1).last() == c@);
        }
        let minor: u64 = match c.minor {
            Some(n) => n,
            None => 0,
        };
        let patch: u64 = match c.patch {
            Some(n) => n,
            None => 0,
        };
        let lower_op = c.op == Operator::Greater || c.op == Operator::GreaterEq || c.op
            == Operator::Exact || c.op == Operator::Caret || c.op == Operator::Tilde;
        if lower_op && comes_first(best, (c.major, minor, patch)) {
            best = (c.major, minor, patch);
        }
        i = i + 1;
    }
    assert(whole.take(i as int) =~= whole);
    best
}

/// npm's hyphen range: `1.2.3 - 2.3.4` admits both endpoints. A partial upper bound
/// bounds the segment it stops at: `1.2.3 - 2.3` admits every `2.3.x`.
pub open spec fn hyphenated(low: Seq<char>, high: Seq<char>) -> Option<Seq<char>> {
    if semver_version(normal_version(low)) is Some {
        bounded(normal_version(low), high)
    } else {
        None
    }
}

/// The range from a version up to a bound that may be partial.
pub open spec fn bounded(l: Seq<char>, high: Seq<char>) -> Option<Seq<char>> {
    match numbers(pieces(without_v(high), Class::Is('.'))) {
        Some(nums) => if has_any(high, Class::Space) {
            None
        } else if nums.len() == 1 && nums[0] < u64::MAX {
            Some(">="@ + l + ", <"@ + triple((nums[0] + 1) as u64, 0, 0))
        } else if nums.len() == 2 && nums[1] < u64::MAX {
            Some(">="@ + l + ", <"@ + triple(nums[0], (nums[1] + 1) as u64, 0))
        } else if nums.len() == 3 {
            Some(">="@ + l + ", <="@ + triple(nums[0], nums[1], nums[2]))
        } else {
            None
        },
        None => None,
    }
}

/// Translate npm's hyphen range.
fn hyphen_range(low: &[char], high: &[char]) -> (r: Option<Vec<char>>)
    ensures
        opt_chars(r) == hyphenated(low@, high@),
{
    let l = padded_version(low);
    if parse_version(string_of(l.as_slice()).as_str()).is_none() {
        return None;
    }
    bounded_range(l.as_slice(), high)
}

/// The range from a version up to a bound that may be partial.
pub fn bounded_range(l: &[char], high: &[char]) -> (r: Option<Vec<char>>)
    ensures
        opt_chars(r) == bounded(l@, high@),
{
    let segs = split(strip_v(high), Class::Is('.'));
    let nums = match parse_numbers(&segs) {
        Some(nums) => nums,
        None => {
            return None;
        },
    };
    if any(high, Class::Space) {
        return None;
    }
    let (op, upper): (&str, Vec<char>) = if nums.len() == 1 && nums[0] < u64::MAX {
        (", <", write_triple(nums[0] + 1, 0, 0))
    } else if nums.len() == 2 && nums[1] < u64::MAX {
        (", <", write_triple(nums[0], nums[1] + 1, 0))
    } else if nums.len() == 3 {
        (", <=", write_triple(nums[0], nums[1], nums[2]))
    } else {
        return None;
    };
    let mut out = chars_of(">=");
    push_all(&mut out, l);
    push_str(&mut out, op);
    push_all(&mut out, upper.as_slice());
    assert(out@ =~= ">="@ + l@ + op@ + upper@);
    Some(out)
}

/// What the tokens of a conjunction come to: the comparators, and an operator still
/// waiting for its version.
pub open spec fn conjuncts(tokens: Seq<Seq<char>>) -> (Seq<Seq<char>>, Option<Seq<char>>)
    decreases tokens.len(),
{
    if tokens.len() == 0 {
        (seq![], None)
    } else {
        let (parts, pending) = conjuncts(tokens.drop_last());
        let t = tokens.last();
        if all_in(t, Class::In("><=^~!")) {
            (parts, Some(t))
        } else {
            match pending {
                Some(op) => (parts.push(op + normal_constraint(t)), None),
                None => (parts.push(normal_constraint(t)), None),
            }
        }
    }
}

/// One branch of a union: an intersection of comparators, which npm and Composer
/// separate with spaces and Cargo with commas, or npm's hyphen range.
pub open spec fn conjunction(branch: Seq<char>) -> Option<Seq<char>> {
    let dash = find(branch, " - "@);
    if dash >= 0 {
        hyphenated(trimmed(branch.take(dash)), trimmed(branch.skip(dash + " - "@.len())))
    } else {
        let (parts, pending) = conjuncts(nonempty(pieces(branch, Class::In(", \t"))));
        if parts.len() > 0 && pending is None {
            Some(joined(parts, ", "@))
        } else {
            None
        }
    }
}

/// Translate one branch of a union.
fn translate_conjunction(branch: &[char]) -> (r: Option<Vec<char>>)
    ensures
        opt_chars(r) == conjunction(branch@),
{
    let dash = chars_of(" - ");
    if let Some(at) = find_str(branch, " - ") {
        let len: usize = branch.len();
        return hyphen_range(trim(take(branch, at)), trim(skip(branch, at + dash.len())));
    }
    let raw = split(branch, Class::In(", \t"));
    let ghost raw_texts = texts(raw@);
    let mut parts: Vec<Vec<char>> = Vec::new();
    let mut pending: Option<&[char]> = None;
    let mut i: usize = 0;
    assert(owned(parts@) =~= seq![]);
    assert(nonempty(raw_texts.take(0)) =~= seq![]);
    while i < raw.len()
        invariant
            i <= raw.len(),
            raw_texts == texts(raw@),
            conjuncts(nonempty(raw_texts.take(i as int))) == (owned(parts@), opt_text(pending)),
        decreases raw.len() - i,
    {
        let t = raw[i];
        let ghost seen = nonempty(raw_texts.take(i as int));
        proof {
            assert(raw_texts.take(i + 1).drop_last() =~= raw_texts.take(i as int));
            assert(raw_texts.take(i + 1).last() == t@);
        }
        if t.len() > 0 {
            assert(seen.push(t@).drop_last() =~= seen);
            if all(t, Class::In("><=^~!")) {
                // `>= 1.2.3` writes the operator and the version as two tokens.
                pending = Some(t);
            } else {
                let ghost before = owned(parts@);
                let version = normalized(t);
                let p = match pending {
                    Some(op) => concat(op, version),
                    None => copy(version),
                };
                let ghost text = p@;
                parts.push(p);
                pending = None;
                assert(owned(parts@) =~= before.push(text));
            }
        }
        i = i + 1;
    }
    assert(raw_texts.take(i as int) =~= raw_texts);
    if parts.len() > 0 && pending.is_none() {
        Some(join(&parts, ", "))
    } else {
        None
    }
}

/// A branch of a union that is a requirement, with its lowest version.
pub open spec fn ranked(branch: Seq<char>) -> Option<((u64, u64, u64), Seq<char>)> {
    let b = trimmed(branch);
    match conjunction(b) {
        Some(t) => match semver_requirement(t) {
            Ok(comparators) => if b.len() > 0 {
                Some((lowest(comparators), t))
            } else {
                None
            },
            Err(_) => None,
        },
        None => None,
    }
}

/// The branch of a union that admits the highest versions, the first where there are
/// several.
pub open spec fn best_of(branches: Seq<Seq<char>>) -> Option<((u64, u64, u64), Seq<char>)>
    decreases branches.len(),
{
    if branches.len() == 0 {
        None
    } else {
        match (best_of(branches.drop_last()), ranked(branches.last())) {
            (Some(b), Some(c)) => if triple_before(b.0, c.0) {
                Some(c)
            } else {
                Some(b)
            },
            (None, c) => c,
            (b, None) => b,
        }
    }
}

/// A union in semver's spelling, where one of its branches has one.
pub open spec fn union_of(core: Seq<char>) -> Option<Seq<char>> {
    match best_of(pieces_by(core, "||"@)) {
        Some((_, t)) => Some(t),
        None => None,
    }
}

/// What a ranked branch says.
pub open spec fn opt_ranked(o: Option<((u64, u64, u64), Vec<char>)>) -> Option<
    ((u64, u64, u64), Seq<char>),
> {
    match o {
        Some((bound, t)) => Some((bound, t@)),
        None => None,
    }
}

/// Pick one branch of a `||` union: the one admitting the highest versions.
///
/// A requirement has no union, so a branch has to be chosen. A union is written to widen
/// what is accepted, so resolving it to the oldest branch would report every release
/// above that branch as out of range.
fn translate_union(core: &[char]) -> (r: Option<Vec<char>>)
    ensures
        opt_chars(r) == union_of(core@),
{
    let branches = split_str(core, "||");
    let ghost whole = texts(branches@);
    let mut best: Option<((u64, u64, u64), Vec<char>)> = None;
    let mut i: usize = 0;
    while i < branches.len()
        invariant
            i <= branches.len(),
            whole == texts(branches@),
            opt_ranked(best) == best_of(whole.take(i as int)),
        decreases branches.len() - i,
    {
        proof {
            assert(whole.take(i + 1).drop_last() =~= whole.take(i as int));
            assert(whole.take(i + 1).last() == branches@[i as int]@);
        }
        let branch = trim(branches[i]);
        if branch.len() > 0 {
            if let Some(t) = translate_conjunction(branch) {
                if let Ok(comparators) = parse_requirement(string_of(t.as_slice()).as_str()) {
                    let bound = lower_bound(&comparators);
                    best = match best {
                        Some(b) => if comes_first(b.0, bound) {
                            Some((bound, t))
                        } else {
                            Some(b)
                        },
                        None => Some((bound, t)),
                    };
                }
            }
        }
        i = i + 1;
    }
    assert(whole.take(i as int) =~= whole);
    match best {
        Some((_, t)) => Some(t),
        None => None,
    }
}

/// A range of the npm / Composer / Dart / Cargo dialect in semver's spelling; unchanged
/// where there is nothing to translate.
pub open spec fn range_requirement(constraint: Seq<char>) -> Seq<char> {
    let t = trimmed(constraint);
    let core = without_stability(t);
    if t.len() == 0 {
        seq![]
    } else if t == "latest"@ {
        t
    } else if core.len() == 0 || lowered(core) == "any"@ || core == "x"@ || core == "X"@ {
        "*"@
    } else {
        match union_of(core) {
            Some(u) => if trimmed(u).len() > 0 {
                u
            } else {
                normal_constraint(constraint)
            },
            None => normal_constraint(constraint),
        }
    }
}

/// Translate a range written in the npm / Composer / Dart / Cargo dialect into a
/// `semver::VersionReq`-compatible string, returning the input unchanged when there
/// is nothing to translate.
///
/// Covered are a `||` union, comparators separated by spaces rather than commas, npm's
/// hyphen range, a Composer stability flag, and Dart's `any`. Only a translation that
/// itself parses is adopted. Anything else is handed back untouched for
/// [`check_version`](super::checker::check_version) to classify, which is what keeps a
/// dist-tag (`latest`, `next`) and genuine garbage (`^^^bogus`) distinguishable.
#[must_use]
pub fn normalize_range_constraint(constraint: &str) -> (r: String)
    ensures
        r@ == range_requirement(constraint@),
{
    let chars = chars_of(constraint);
    let t = trim(chars.as_slice());
    if t.len() == 0 {
        let none = String::new();
        assert(none@ =~= seq![]);
        return none;
    }
    // A dist-tag names a channel rather than a range.
    if is_str(t, "latest") {
        return string_of(t);
    }
    let core = strip_stability_flag(t);
    // A bare `@dev` is "any version, dev stability".
    if core.len() == 0 {
        return "*".to_owned();
    }
    let low = lower(core);
    if is_str(low.as_slice(), "any") || is_str(core, "x") || is_str(core, "X") {
        return "*".to_owned();
    }
    match translate_union(core) {
        Some(u) => if trim(u.as_slice()).len() > 0 {
            string_of(u.as_slice())
        } else {
            normalize_constraint(constraint)
        },
        None => normalize_constraint(constraint),
    }
}

/// Whether a constraint names something rather than stating a range: it opens with a
/// letter and carries no comparison operator anywhere.
pub open spec fn is_name(constraint: Seq<char>) -> bool {
    let c = trimmed(constraint);
    &&& c.len() > 0
    &&& is_alpha(c[0])
    &&& forall|i: int|
        0 <= i < c.len() ==> is_alnum(#[trigger] c[i]) || c[i] == '-' || c[i] == '_' || c[i] == '.'
            || c[i] == '/'
}

/// Whether `constraint` names something (a channel, a branch alias) rather than
/// stating a range badly.
///
/// The two have to be told apart because they call for opposite answers. `^^^bogus`
/// is not a constraint at all; npm's `next`, Composer's `dev-master`, and a Git branch
/// alias are ordinary declarations in dialects that have no semver reading.
#[must_use]
pub fn is_dialect_tag(constraint: &str) -> (r: bool)
    ensures
        r == is_name(constraint@),
{
    let chars = chars_of(constraint);
    let c = trim(chars.as_slice());
    if c.len() == 0 || !alpha(c[0]) {
        return false;
    }
    let mut i: usize = 0;
    while i < c.len()
        invariant
            c@ == trimmed(constraint@),
            i <= c.len(),
            forall|j: int|
                0 <= j < i ==> is_alnum(#[trigger] c@[j]) || c@[j] == '-' || c@[j] == '_' || c@[j]
                    == '.' || c@[j] == '/',
        decreases c.len() - i,
    {
        let ch = c[i];
        if !(alnum(ch) || ch == '-' || ch == '_' || ch == '.' || ch == '/') {
            return false;
        }
        i = i + 1;
    }
    true
}

/// A constraint in semver's spelling, for an ecosystem.
pub open spec fn requirement_of(constraint: Seq<char>, ecosystem: Ecosystem) -> Seq<char> {
    match ecosystem {
        Ecosystem::Python => pep440_requirement(constraint),
        Ecosystem::CSharp => nuget_requirement(constraint),
        Ecosystem::Elixir => hex_requirement(constraint),
        Ecosystem::Jvm => maven_requirement(constraint),
        _ => range_requirement(constraint),
    }
}

/// Convert a constraint into a `semver::VersionReq`-compatible string for the
/// given ecosystem. Python, NuGet, Hex and Maven translate in dedicated modules;
/// every other ecosystem writes a dialect close enough to Cargo's that
/// [`normalize_range_constraint`] covers it.
#[must_use]
pub fn to_semver_constraint(constraint: &str, ecosystem: Ecosystem) -> (r: String)
    ensures
        r@ == requirement_of(constraint@, ecosystem),
{
    match ecosystem {
        Ecosystem::Python => pep440_constraint_to_semver(constraint),
        Ecosystem::CSharp => nuget_constraint_to_semver(constraint),
        Ecosystem::Elixir => hex_constraint_to_semver(constraint),
        Ecosystem::Jvm => maven_constraint_to_semver(constraint),
        _ => normalize_range_constraint(constraint),
    }
}

/// Whether constraints of an ecosystem are translated by a module of their own.
pub open spec fn has_translator(ecosystem: Ecosystem) -> bool {
    ecosystem == Ecosystem::Python || ecosystem == Ecosystem::CSharp || ecosystem
        == Ecosystem::Elixir || ecosystem == Ecosystem::Jvm
}

/// A constraint in semver's spelling, where it could be translated: an empty result from
/// a constraint that is not empty is a failed translation.
pub open spec fn translation(constraint: Seq<char>, ecosystem: Ecosystem) -> Option<Seq<char>> {
    let t = requirement_of(constraint, ecosystem);
    if trimmed(t).len() == 0 && trimmed(constraint).len() > 0 {
        None
    } else {
        Some(t)
    }
}

/// Convert a constraint for semver, or `None` when the ecosystem's dialect could
/// not be expressed as a requirement.
///
/// All four dedicated translators signal failure the same way, by returning an empty
/// string. An empty result is therefore ambiguous on its own, and the two readings are
/// told apart by what went in: an empty result from a **non-empty** input is a failed
/// translation. The remaining ecosystems never signal failure here:
/// [`normalize_range_constraint`] hands an untranslatable range back unchanged.
#[must_use]
pub fn try_to_semver_constraint(constraint: &str, ecosystem: Ecosystem) -> (r: Option<String>)
    ensures
        opt_string(r) == translation(constraint@, ecosystem),
        r is None ==> has_translator(ecosystem),
{
    proof {
        if !has_translator(ecosystem) {
            law_only_translators_fail(constraint@, ecosystem);
        }
    }
    let translated = to_semver_constraint(constraint, ecosystem);
    let t = chars_of(translated.as_str());
    let c = chars_of(constraint);
    if trim(t.as_slice()).len() == 0 && trim(c.as_slice()).len() > 0 {
        return None;
    }
    Some(translated)
}

/// Filtering never empties a list, and keeps only what was there.
pub proof fn law_filter_never_empties(
    filter: UnstableFilter,
    versions: Seq<Seq<char>>,
    current: Option<Seq<char>>,
    ecosystem: Ecosystem,
)
    ensures
        versions.len() > 0 ==> filter.kept(versions, current, ecosystem).len() > 0,
        forall|v: Seq<char>|
            filter.kept(versions, current, ecosystem).contains(v) ==> versions.contains(v),
{
    lemma_stable_only(versions, ecosystem);
}

proof fn lemma_stable_only(versions: Seq<Seq<char>>, ecosystem: Ecosystem)
    ensures
        forall|v: Seq<char>| #[trigger]
            stable_only(versions, ecosystem).contains(v) <==> versions.contains(v) && !is_unstable(
                v,
                ecosystem,
            ),
    decreases versions.len(),
{
    let s = stable_only(versions, ecosystem);
    if versions.len() > 0 {
        let front = versions.drop_last();
        lemma_stable_only(front, ecosystem);
        let t = stable_only(front, ecosystem);
        assert forall|v: Seq<char>| #[trigger] s.contains(v) <==> versions.contains(v)
            && !is_unstable(v, ecosystem) by {
            if front.contains(v) {
                let i = choose|i: int| 0 <= i < front.len() && front[i] == v;
                assert(versions[i] == v);
            }
            if versions.contains(v) && v != versions.last() {
                let i = choose|i: int| 0 <= i < versions.len() && versions[i] == v;
                assert(front[i] == v);
            }
            if v == versions.last() {
                assert(versions[versions.len() - 1] == v);
            }
            if !is_unstable(versions.last(), ecosystem) {
                if t.contains(v) {
                    let i = choose|i: int| 0 <= i < t.len() && t[i] == v;
                    assert(s[i] == v);
                }
                if v == versions.last() {
                    assert(s[t.len() as int] == v);
                }
                if s.contains(v) && v != versions.last() {
                    let i = choose|i: int| 0 <= i < s.len() && s[i] == v;
                    assert(t[i] == v);
                }
            }
            assert(t.contains(v) <==> front.contains(v) && !is_unstable(v, ecosystem));
        }
    }
}

/// By default only releases are kept, where there is one.
pub proof fn law_exclude_keeps_releases(
    versions: Seq<Seq<char>>,
    current: Option<Seq<char>>,
    ecosystem: Ecosystem,
    v: Seq<char>,
)
    requires
        versions.contains(v),
        !is_unstable(v, ecosystem),
    ensures
        UnstableFilter::Exclude.kept(versions, current, ecosystem).contains(v),
        forall|w: Seq<char>|
            UnstableFilter::Exclude.kept(versions, current, ecosystem).contains(w)
                ==> !is_unstable(w, ecosystem),
{
    lemma_stable_only(versions, ecosystem);
    assert(stable_only(versions, ecosystem).contains(v));
}

/// Of a union, the branch that is chosen is one of its branches, itself a requirement, and
/// no other branch that is one has a higher lower bound; none is chosen exactly if no
/// branch is a requirement.
pub proof fn law_union_highest(branches: Seq<Seq<char>>)
    ensures
        match best_of(branches) {
            Some(best) => semver_requirement(best.1) is Ok && (exists|i: int|
                0 <= i < branches.len() && ranked(#[trigger] branches[i]) == Some(best))
                && forall|i: int|
                0 <= i < branches.len() ==> (ranked(#[trigger] branches[i]) matches Some(c)
                    ==> !triple_before(best.0, c.0)),
            None => forall|i: int| 0 <= i < branches.len() ==> ranked(#[trigger] branches[i]) is None,
        },
    decreases branches.len(),
{
    if branches.len() > 0 {
        let front = branches.drop_last();
        law_union_highest(front);
        let n = front.len() as int;
        assert(branches[n] == branches.last());
        assert forall|i: int| 0 <= i < n implies #[trigger] branches[i] == front[i] by {}
        if let Some(best) = best_of(front) {
            let i = choose|i: int| 0 <= i < front.len() && ranked(#[trigger] front[i]) == Some(best);
            assert(ranked(branches[i]) == Some(best));
        }
    }
}

/// A constraint that is not empty and has a translation does not translate to nothing.
pub proof fn law_translation_not_blank(constraint: Seq<char>, ecosystem: Ecosystem)
    requires
        trimmed(constraint).len() > 0,
    ensures
        translation(constraint, ecosystem) matches Some(t) ==> trimmed(t).len() > 0,
{
}

/// A text with a character that is no white space is not blank.
proof fn lemma_not_blank(s: Seq<char>, i: int)
    requires
        0 <= i < s.len(),
        !is_space(s[i]),
    ensures
        trimmed(s).len() > 0,
{
    let t = trim_start_of(s, Class::Space);
    let n = leading(s, Class::Space);
    lemma_leading(s, Class::Space);
    if i < n {
        assert(Class::Space.has(s.take(n)[i]));
    }
    assert(t[i - n] == s[i]);
    lemma_trailing_stops(t, i - n);
    lemma_trailing(t, Class::Space);
}

proof fn lemma_trailing_stops(s: Seq<char>, i: int)
    requires
        0 <= i < s.len(),
        !is_space(s[i]),
    ensures
        trailing(s, Class::Space) < s.len() - i,
    decreases s.len(),
{
    if is_space(s.last()) {
        assert(s.drop_last()[i] == s[i]);
        lemma_trailing_stops(s.drop_last(), i);
    }
}

/// A trimmed text that is not empty begins with a character that is no white space.
proof fn lemma_trimmed_start(s: Seq<char>)
    requires
        trimmed(s).len() > 0,
    ensures
        !is_space(trimmed(s)[0]),
{
    let n = leading(s, Class::Space);
    lemma_leading(s, Class::Space);
    lemma_trailing(trim_start_of(s, Class::Space), Class::Space);
    assert(trimmed(s)[0] == s[n]);
}

/// A constraint of an ecosystem without a translator of its own always translates, and so
/// does a blank constraint of any.
pub proof fn law_only_translators_fail(constraint: Seq<char>, ecosystem: Ecosystem)
    requires
        !has_translator(ecosystem) || trimmed(constraint).len() == 0,
    ensures
        translation(constraint, ecosystem) == Some(requirement_of(constraint, ecosystem)),
{
    let t = trimmed(constraint);
    if t.len() > 0 {
        lemma_trimmed_start(constraint);
        let n = normal_constraint(constraint);
        assert(n.len() > 0 && !is_space(n[0]));
        lemma_not_blank(n, 0);
        lemma_not_blank(t, 0);
        reveal_strlit("*");
        lemma_not_blank("*"@, 0);
    }
}

} // verus!
