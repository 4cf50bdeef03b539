//! Recognizing a constraint that names exactly one release.
//!
//! Most constraints are ranges: they say which releases a project would accept,
//! not which one it uses. A few name a single release outright (Cargo's `=1.2.3`,
//! PEP 440's `==2.28.1`, NuGet's `[1.2.3]`, a bare Maven or Hex version), and for
//! those the manifest has already answered the question a lockfile would otherwise
//! have to. [`exact_pin`] is how a caller with only a manifest in hand tells the two
//! apart.
//!
//! The decision is made by *translation*, not by a per-ecosystem table of spellings: a
//! constraint is a pin exactly when its translation is a single `=` comparator at full
//! precision *and* the declared literal is itself a version.
use super::normalize::{requirement_of, to_semver_constraint};
use super::version::{
    comparator_views, is_exact, parse_requirement, parse_version, semver_admits,
    semver_requirement, semver_version, Comparator, ComparatorView, Operator,
};
use crate::ecosystem::Ecosystem;
use crate::parsers::cargo_package::opt_str;
use crate::text::{
    all_in, any, begins, chars_of, count_leading, count_trailing, ends, ends_with, has_any, part, skip,
    starts_with, take, trim_start_of, trimmed, Class,
};
use crate::writing::{
    is_plain, is_plain_char, lemma_leading_at, lemma_not_begins, lemma_plain, lemma_plain_char,
    lemma_signs, lemma_trimmed_same,
};
use vstd::prelude::*;
use vstd::string::StrSliceExecFns;

verus! {

/// The text within the brackets of an interval that names one version, without white
/// space around it.
pub open spec fn unbracketed(t: Seq<char>) -> Seq<char> {
    if begins(t, "["@) && t.len() > 1 && ends(t, "]"@) {
        trimmed(t.subrange(1, t.len() - 1))
    } else {
        t
    }
}

/// What a constraint is built around: without white space, without the brackets of an
/// interval that names one version, and without a leading exact-match operator.
pub open spec fn pin_core(constraint: Seq<char>) -> Seq<char> {
    trim_start_of(
        trim_start_of(unbracketed(trimmed(constraint)), Class::Is('=')),
        Class::Space,
    )
}

/// Whether a text holds a character that cannot appear inside a single published
/// version: the text is still part of a range, a union, or a build-system expression.
///
/// `-` and `+` are deliberately absent: they open semver's pre-release and build
/// metadata, which are part of the version.
pub open spec fn is_range_text(s: Seq<char>) -> bool {
    has_any(s, Class::In(",[]()=<>~^!*|$\"'")) || has_any(s, Class::Space)
}

/// Whether a text is a requirement of a single `=` comparator at full precision.
pub open spec fn is_single(requirement: Seq<char>) -> bool {
    semver_requirement(requirement) matches Ok(c) && is_one(c)
}

/// Whether comparators are a single `=` at full precision.
pub open spec fn is_one(c: Seq<ComparatorView>) -> bool {
    c.len() == 1 && is_exact(c[0])
}

/// Whether comparators name one release: anything but a single `=` at full precision names
/// a set, however exact it looks.
#[must_use]
pub fn names_one(comparators: &Vec<Comparator>) -> (r: bool)
    ensures
        r == is_one(comparator_views(comparators@)),
{
    if comparators.len() != 1 {
        return false;
    }
    let only = &comparators[0];
    assert(comparator_views(comparators@)[0] == only@);
    only.op == Operator::Exact && only.minor.is_some() && only.patch.is_some()
}

/// The single version that a constraint names.
pub open spec fn pinned_version(constraint: Seq<char>, ecosystem: Ecosystem) -> Option<Seq<char>> {
    let core = pin_core(constraint);
    if core.len() > 0 && !is_range_text(core) && is_single(requirement_of(constraint, ecosystem))
        && semver_version(core) is Some {
        Some(core)
    } else {
        None
    }
}

/// Trim white space off both ends of a part of a text.
fn narrow(s: &[char], from: usize, to: usize) -> (r: (usize, usize))
    requires
        from <= to <= s@.len(),
    ensures
        from <= r.0 <= r.1 <= to,
        s@.subrange(r.0 as int, r.1 as int) == trimmed(s@.subrange(from as int, to as int)),
{
    let p = part(s, from, to);
    let a: usize = count_leading(p, Class::Space);
    let rest = skip(p, a);
    let b: usize = count_trailing(rest, Class::Space);
    assert(s@.subrange(from + a, to - b) =~= rest@.take(rest@.len() - b));
    (from + a, to - b)
}

/// Strip the leading characters of a class off a part of a text.
fn narrow_start(s: &[char], from: usize, to: usize, k: Class) -> (r: usize)
    requires
        from <= to <= s@.len(),
    ensures
        from <= r <= to,
        s@.subrange(r as int, to as int) == trim_start_of(s@.subrange(from as int, to as int), k),
{
    let p = part(s, from, to);
    let a: usize = count_leading(p, k);
    assert(s@.subrange(from + a, to as int) =~= p@.skip(a as int));
    from + a
}

/// Where the version literal that a constraint is built around stands, without
/// interpreting it; `None` when what is left could not be a version.
fn pin_literal(s: &[char]) -> (r: Option<(usize, usize)>)
    ensures
        match r {
            Some(p) => p.0 <= p.1 <= s@.len() && s@.subrange(p.0 as int, p.1 as int) == pin_core(s@)
                && pin_core(s@).len() > 0 && !is_range_text(pin_core(s@)),
            None => pin_core(s@).len() == 0 || is_range_text(pin_core(s@)),
        },
{
    assert(s@.subrange(0, s@.len() as int) =~= s@);
    let (a, b) = narrow(s, 0, s.len());
    let t = part(s, a, b);
    // An interval naming one version rather than a range: `[1.2.3]`.
    let (c, d) = if starts_with(t, "[") && t.len() > 1 && ends_with(t, "]") {
        assert(s@.subrange(a + 1, b - 1) =~= t@.subrange(1, t@.len() - 1));
        narrow(s, a + 1, b - 1)
    } else {
        (a, b)
    };
    // Cargo's `=`, PEP 440's `==` and `===`, Hex's `==`.
    let e: usize = narrow_start(s, c, d, Class::Is('='));
    let f: usize = narrow_start(s, e, d, Class::Space);
    let p = part(s, f, d);
    if p.len() == 0 || any(p, Class::In(",[]()=<>~^!*|$\"'")) || any(p, Class::Space) {
        return None;
    }
    Some((f, d))
}

/// The single version a constraint names, or `None` when it names anything else.
///
/// Returns a slice of `constraint` itself: the version **as the manifest spells
/// it**, with only surrounding white space, an enclosing single-version interval
/// (`[1.2.3]`), and a leading exact-match operator (`=`, `==`, `===`) removed. It
/// is never the translated form.
///
/// `None` for everything that admits more than one release: a range, a union, a wildcard
/// or floating selector, a dist-tag, a partial-precision exact requirement whose
/// ecosystem leaves the rest free (Cargo `=1.2`), an unparseable string, and an
/// unexpanded build-system property (`$(SerilogVersion)`). It is also `None` for a pin
/// whose spelling is no version **as written**, such as a two-segment Maven `4.12`: every
/// consumer compares the declared string, and padding it would name a different artifact.
#[must_use]
pub fn exact_pin(constraint: &str, ecosystem: Ecosystem) -> (r: Option<&str>)
    ensures
        opt_str(r) == pinned_version(constraint@, ecosystem),
        r matches Some(v) ==> exists|i: int, j: int|
            0 <= i <= j <= constraint@.len() && v@ == #[trigger] constraint@.subrange(i, j),
        // Whatever the translated constraint admits, it is one release.
        r is Some ==> forall|v: Seq<char>, w: Seq<char>| #[trigger]
            semver_admits(requirement_of(constraint@, ecosystem), v) && #[trigger] semver_admits(
                requirement_of(constraint@, ecosystem),
                w,
            ) ==> is_same_release(v, w),
{
    let chars = chars_of(constraint);
    let (from, to) = match pin_literal(chars.as_slice()) {
        Some(p) => p,
        None => {
            return None;
        },
    };
    // The ecosystem's own translation decides.
    let translated = to_semver_constraint(constraint, ecosystem);
    let comparators = match parse_requirement(translated.as_str()) {
        Ok(c) => c,
        Err(_) => {
            return None;
        },
    };
    if !names_one(&comparators) {
        return None;
    }
    assert(comparator_views(comparators@)[0] == comparators@[0]@);
    // And the literal has to survive the trip every consumer makes with it.
    let literal = constraint.substring_char(from, to);
    if parse_version(literal).is_none() {
        return None;
    }
    Some(literal)
}

/// Whether two texts are versions that differ in build metadata at most.
pub open spec fn is_same_release(a: Seq<char>, b: Seq<char>) -> bool {
    &&& semver_version(a) matches Some(x)
    &&& semver_version(b) matches Some(y)
    &&& x.major == y.major && x.minor == y.minor && x.patch == y.patch && x.pre == y.pre
}

/// A version on its own, after an exact-match operator with or without a space, or in
/// square brackets, is what a constraint pins, exactly if it is a version and the
/// constraint translates to one exact comparator.
#[verifier::rlimit(60)]
pub proof fn law_pin_is_the_version_written(v: Seq<char>, op: Seq<char>, ecosystem: Ecosystem)
    requires
        is_plain(v),
        op.len() == 0 || op == "="@ || op == "=="@ || op == "==="@,
    ensures
        pinned_version(op + v, ecosystem) == if is_single(requirement_of(op + v, ecosystem))
            && semver_version(v) is Some {
            Some(v)
        } else {
            None
        },
        op.len() > 0 ==> pinned_version(op + " "@ + v, ecosystem) == if is_single(
            requirement_of(op + " "@ + v, ecosystem),
        ) && semver_version(v) is Some {
            Some(v)
        } else {
            None
        },
        pinned_version("["@ + v + "]"@, ecosystem) == if is_single(
            requirement_of("["@ + v + "]"@, ecosystem),
        ) && semver_version(v) is Some {
            Some(v)
        } else {
            None
        },
{
    lemma_signs();
    lemma_plain(v);
    assert(is_plain_char(v[0]) && is_plain_char(v[v.len() - 1]));
    lemma_plain_char(v[0]);
    lemma_plain_char(v.last());
    lemma_not_range(v);
    let a = op + v;
    let b = op + " "@ + v;
    let c = "["@ + v + "]"@;
    assert(a[0] == if op.len() > 0 { '=' } else { v[0] });
    assert(a.last() == v.last() && b.last() == v.last());
    lemma_trimmed_same(a);
    assert(!begins(a, "["@)) by {
        lemma_not_begins(a, "["@, 0);
    }
    assert(all_in(op, Class::Is('=')));
    lemma_leading_at(op, v, Class::Is('='));
    lemma_leading_at(Seq::<char>::empty(), v, Class::Space);
    assert(Seq::<char>::empty() + v =~= v);
    if op.len() > 0 {
        assert(b[0] == '=');
        lemma_trimmed_same(b);
        lemma_not_begins(b, "["@, 0);
        assert(b =~= op + (" "@ + v));
        assert((" "@ + v)[0] == ' ');
        lemma_leading_at(op, " "@ + v, Class::Is('='));
        lemma_leading_at(" "@, v, Class::Space);
    }
    assert(c[0] == '[' && c.last() == ']');
    lemma_trimmed_same(c);
    assert(c.take(1) =~= "["@);
    assert(c.skip(c.len() - 1) =~= "]"@);
    assert(c.subrange(1, c.len() - 1) =~= v);
    lemma_leading_at(Seq::<char>::empty(), v, Class::Is('='));
}

#[verifier::rlimit(60)]
proof fn lemma_not_range(v: Seq<char>)
    requires
        is_plain(v),
    ensures
        !is_range_text(v),
{
    lemma_plain(v);
    reveal_strlit(",[]()=<>~^!*|$\"'");
    let set = ",[]()=<>~^!*|$\"'"@;
    assert forall|i: int| 0 <= i < v.len() implies !set.contains(#[trigger] v[i]) by {
        lemma_plain_char(v[i]);
        if set.contains(v[i]) {
            let j = choose|j: int| 0 <= j < set.len() && set[j] == v[i];
            assert(is_plain_char(set[j]));
        }
    }
}

/// A constraint with a sign of a range inside it pins nothing, whatever it translates to.
#[verifier::rlimit(60)]
pub proof fn law_ranges_pin_nothing(a: Seq<char>, sign: char, b: Seq<char>, ecosystem: Ecosystem)
    requires
        is_plain(a),
        is_plain(b),
        sign == ',' || sign == '<' || sign == '>' || sign == '~' || sign == '^' || sign == '*'
            || sign == '|' || sign == '!' || sign == '$' || sign == ' ',
    ensures
        pinned_version(a + seq![sign] + b, ecosystem) is None,
{
    lemma_signs();
    lemma_plain(a);
    lemma_plain(b);
    assert(is_plain_char(a[0]) && is_plain_char(b[b.len() - 1]));
    lemma_plain_char(a[0]);
    lemma_plain_char(b.last());
    let s = a + seq![sign] + b;
    assert(s[0] == a[0] && s.last() == b.last());
    lemma_trimmed_same(s);
    lemma_not_begins(s, "["@, 0);
    let none = Seq::<char>::empty();
    lemma_leading_at(none, s, Class::Is('='));
    lemma_leading_at(none, s, Class::Space);
    assert(none + s =~= s);
    assert(s[a.len() as int] == sign);
    reveal_strlit(",[]()=<>~^!*|$\"'");
    let set = ",[]()=<>~^!*|$\"'"@;
    assert(set[0] == ',' && set[6] == '<' && set[7] == '>' && set[8] == '~' && set[9] == '^'
        && set[10] == '!' && set[11] == '*' && set[12] == '|' && set[13] == '$');
    if sign == ' ' {
        assert(has_any(s, Class::Space));
    } else {
        assert(set.contains(sign));
        assert(has_any(s, Class::In(",[]()=<>~^!*|$\"'")));
    }
}

} // verus!
