//! Versions and requirements as plain values.
//!
//! The `semver` crate parses, compares and matches them. Everything here that calls it
//! takes and gives plain text and numbers, and every rule elsewhere is stated over those.
use crate::number::decimal;
use vstd::prelude::*;

verus! {

/// A version: three numbers, a pre-release tag, and build metadata.
#[derive(Debug)]
pub struct Version {
    /// The first number.
    pub major: u64,
    /// The second number.
    pub minor: u64,
    /// The third number.
    pub patch: u64,
    /// The pre-release tag, empty for a release.
    pub pre: String,
    /// The build metadata, empty where there is none.
    pub build: String,
}

/// What a [`Version`] says.
pub ghost struct VersionView {
    /// The first number.
    pub major: u64,
    /// The second number.
    pub minor: u64,
    /// The third number.
    pub patch: u64,
    /// The pre-release tag.
    pub pre: Seq<char>,
    /// The build metadata.
    pub build: Seq<char>,
}

impl View for Version {
    type V = VersionView;

    open spec fn view(&self) -> VersionView {
        VersionView {
            major: self.major,
            minor: self.minor,
            patch: self.patch,
            pre: self.pre@,
            build: self.build@,
        }
    }
}

/// Three numbers written as a version.
pub open spec fn triple(major: u64, minor: u64, patch: u64) -> Seq<char> {
    decimal(major as nat) + "."@ + decimal(minor as nat) + "."@ + decimal(patch as nat)
}

impl VersionView {
    /// The version as it is written.
    pub open spec fn written(self) -> Seq<char> {
        let tag = if self.pre.len() == 0 {
            seq![]
        } else {
            "-"@ + self.pre
        };
        let build = if self.build.len() == 0 {
            seq![]
        } else {
            "+"@ + self.build
        };
        triple(self.major, self.minor, self.patch) + tag + build
    }
}

/// What an optional version says.
pub open spec fn opt_version(o: Option<Version>) -> Option<VersionView> {
    match o {
        Some(v) => Some(v@),
        None => None,
    }
}

/// The version that a text is, where it is one.
pub uninterp spec fn semver_version(text: Seq<char>) -> Option<VersionView>;

/// Whether the version that one text is comes before the version that another is.
pub uninterp spec fn semver_before(a: Seq<char>, b: Seq<char>) -> bool;

/// Whether the requirement that one text is admits the version that another is.
pub uninterp spec fn semver_admits(requirement: Seq<char>, version: Seq<char>) -> bool;

/// The comparators of the requirement that a text is, or why it is none.
pub uninterp spec fn semver_requirement(text: Seq<char>) -> Result<Seq<ComparatorView>, Seq<char>>;

/// `semver::Version::parse`. Claimed: the version depends on the text alone, and a text
/// that is a version is exactly how that version is written.
#[verifier::external_body]
pub(crate) fn parse_version(text: &str) -> (r: Option<Version>)
    ensures
        opt_version(r) == semver_version(text@),
        r matches Some(v) ==> text@ == v@.written(),
{
    let v = ::semver::Version::parse(text).ok()?;
    Some(Version {
        major: v.major,
        minor: v.minor,
        patch: v.patch,
        pre: v.pre.as_str().to_owned(),
        build: v.build.as_str().to_owned(),
    })
}

/// Whether the numbers of one version come before those of another, the first that
/// differ deciding.
pub open spec fn core_before(a: VersionView, b: VersionView) -> bool {
    a.major < b.major || (a.major == b.major && (a.minor < b.minor || (a.minor == b.minor
        && a.patch < b.patch)))
}

/// Whether two versions have the same numbers.
pub open spec fn same_core(a: VersionView, b: VersionView) -> bool {
    a.major == b.major && a.minor == b.minor && a.patch == b.patch
}

/// Whether one version comes before another by its numbers, or by being a pre-release of
/// the numbers that the other releases.
pub open spec fn ranks_below(a: VersionView, b: VersionView) -> bool {
    core_before(a, b) || (same_core(a, b) && a.pre.len() > 0 && b.pre.len() == 0)
}

/// The order of `semver::Version`; `false` where one of the texts is no version.
/// Claimed: it is a strict total order of the texts that are versions, in which the
/// numbers decide before the pre-release tag and the build metadata do, and a pre-release
/// comes before its own release.
#[verifier::external_body]
pub(crate) fn is_before(a: &str, b: &str) -> (r: bool)
    ensures
        r == semver_before(a@, b@),
        r ==> semver_version(a@) is Some && semver_version(b@) is Some,
        r ==> !semver_before(b@, a@),
        r ==> forall|c: Seq<char>| semver_before(b@, c) ==> semver_before(a@, c),
        semver_version(a@) is Some && semver_version(b@) is Some ==> r || a@ == b@
            || semver_before(b@, a@),
        semver_version(a@) is Some && semver_version(b@) is Some && ranks_below(
            semver_version(a@)->0,
            semver_version(b@)->0,
        ) ==> r,
        r ==> !ranks_below(semver_version(b@)->0, semver_version(a@)->0),
{
    match (::semver::Version::parse(a), ::semver::Version::parse(b)) {
        (Ok(a), Ok(b)) => a < b,
        _ => false,
    }
}

/// An operator of a requirement.
#[derive(Debug, Clone, Copy, PartialEq, Eq, Structural)]
pub enum Operator {
    /// `=`.
    Exact,
    /// `>`.
    Greater,
    /// `>=`.
    GreaterEq,
    /// `<`.
    Less,
    /// `<=`.
    LessEq,
    /// `~`.
    Tilde,
    /// `^`, and the operator of a bare version.
    Caret,
    /// A `*` in place of a number.
    Wildcard,
}

/// An operator and a version, of which the later numbers may be missing.
#[derive(Debug)]
pub struct Comparator {
    /// The operator.
    pub op: Operator,
    /// The first number.
    pub major: u64,
    /// The second number.
    pub minor: Option<u64>,
    /// The third number.
    pub patch: Option<u64>,
    /// The pre-release tag.
    pub pre: String,
}

/// What a [`Comparator`] says.
pub ghost struct ComparatorView {
    /// The operator.
    pub op: Operator,
    /// The first number.
    pub major: u64,
    /// The second number.
    pub minor: Option<u64>,
    /// The third number.
    pub patch: Option<u64>,
    /// The pre-release tag.
    pub pre: Seq<char>,
}

impl View for Comparator {
    type V = ComparatorView;

    open spec fn view(&self) -> ComparatorView {
        ComparatorView {
            op: self.op,
            major: self.major,
            minor: self.minor,
            patch: self.patch,
            pre: self.pre@,
        }
    }
}

/// What a list of comparators says.
pub open spec fn comparator_views(v: Seq<Comparator>) -> Seq<ComparatorView> {
    v.map_values(|c: Comparator| c@)
}

/// Whether a comparator is `=` and all three numbers.
pub open spec fn is_exact(c: ComparatorView) -> bool {
    c.op == Operator::Exact && c.minor is Some && c.patch is Some
}

/// Whether a version is the release that an exact comparator writes, whatever its build
/// metadata.
pub open spec fn is_release(c: ComparatorView, v: VersionView) -> bool {
    v.major == c.major && Some(v.minor) == c.minor && Some(v.patch) == c.patch && v.pre == c.pre
}

/// `semver::VersionReq::parse`, and the text of the error it gives. Claimed: the
/// comparators, or the error, depend on the text alone; and a requirement of one exact
/// comparator admits (`semver::VersionReq::matches`) the release it writes and no other.
#[verifier::external_body]
pub(crate) fn parse_requirement(text: &str) -> (r: Result<Vec<Comparator>, String>)
    ensures
        match r {
            Ok(v) => semver_requirement(text@) == Ok::<Seq<ComparatorView>, Seq<char>>(
                comparator_views(v@),
            ),
            Err(e) => semver_requirement(text@) == Err::<Seq<ComparatorView>, Seq<char>>(e@),
        },
        r matches Ok(v) ==> v@.len() == 1 && is_exact(v@[0]@) ==> forall|w: Seq<char>| #[trigger]
            semver_admits(text@, w) <==> (semver_version(w) matches Some(x) && is_release(
                v@[0]@,
                x,
            )),
{
    let req = ::semver::VersionReq::parse(text).map_err(|e| e.to_string())?;
    Ok(req.comparators.into_iter().map(|c| Comparator {
        op: match c.op {
            ::semver::Op::Exact => Operator::Exact,
            ::semver::Op::Greater => Operator::Greater,
            ::semver::Op::GreaterEq => Operator::GreaterEq,
            ::semver::Op::Less => Operator::Less,
            ::semver::Op::LessEq => Operator::LessEq,
            ::semver::Op::Tilde => Operator::Tilde,
            ::semver::Op::Caret => Operator::Caret,
            _ => Operator::Wildcard,
        },
        major: c.major, minor: c.minor, patch: c.patch, pre: c.pre.as_str().to_owned(),
    }).collect())
}

/// `semver::VersionReq::matches`; `false` where one of the texts does not parse.
/// Claimed: the answer depends on the two texts alone, and only a requirement admits,
/// and only a version.
#[verifier::external_body]
pub(crate) fn admits(requirement: &str, version: &str) -> (r: bool)
    ensures
        r == semver_admits(requirement@, version@),
        r ==> semver_requirement(requirement@) is Ok && semver_version(version@) is Some,
{
    match (::semver::VersionReq::parse(requirement), ::semver::Version::parse(version)) {
        (Ok(r), Ok(v)) => r.matches(&v),
        _ => false,
    }
}

} // verus!
