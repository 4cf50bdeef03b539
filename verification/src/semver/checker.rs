//! Classify a dependency against the set of available versions.
use super::normalize::{normal_constraint, normalize_constraint};
use super::version::{
    admits, comparator_views, is_before, opt_version, parse_requirement, parse_version,
    ranks_below, semver_admits, semver_before, semver_requirement, semver_version, Comparator,
    ComparatorView, Version, VersionView,
};
use crate::parsers::cargo_package::opt_str;
use crate::result::{DependencyStatus, StatusView};
use crate::split::{strings, text2};
use crate::text::{chars_of, is_str, opt_string, trim, trimmed};
use vstd::prelude::*;

verus! {

/// The outcome of evaluating one constraint against a set of available versions.
#[derive(Debug, Clone, PartialEq, Eq)]
#[non_exhaustive]
pub struct Evaluation {
    /// The classified status.
    pub status: DependencyStatus,
    /// Best version satisfying the declared constraint.
    pub latest_compatible: Option<String>,
    /// Absolute latest available version (may be outside the constraint).
    pub latest_available: Option<String>,
    /// Whether a patch-level update exists within the constraint.
    pub patch_available: bool,
}

/// What an [`Evaluation`] says.
pub ghost struct EvaluationView {
    /// The status.
    pub status: StatusView,
    /// Best version satisfying the constraint.
    pub latest_compatible: Option<Seq<char>>,
    /// Latest available version.
    pub latest_available: Option<Seq<char>>,
    /// Whether there is a patch.
    pub patch_available: bool,
}

impl View for Evaluation {
    type V = EvaluationView;

    open spec fn view(&self) -> EvaluationView {
        EvaluationView {
            status: self.status@,
            latest_compatible: opt_string(self.latest_compatible),
            latest_available: opt_string(self.latest_available),
            patch_available: self.patch_available,
        }
    }
}

/// A version requirement: how it is written, and what that says.
#[derive(Debug)]
pub struct Requirement {
    /// The normalized text.
    pub text: String,
    /// The comparators, all of which have to hold.
    pub comparators: Vec<Comparator>,
}

/// Parse a version-requirement string into a [`Requirement`].
///
/// # Errors
/// The reason, if, and only if, the normalized constraint is not a valid requirement.
pub fn to_version_req(constraint: &str) -> (r: Result<Requirement, String>)
    ensures
        match r {
            Ok(q) => q.text@ == normal_constraint(constraint@) && semver_requirement(q.text@)
                == Ok::<Seq<ComparatorView>, Seq<char>>(comparator_views(q.comparators@)),
            Err(e) => semver_requirement(normal_constraint(constraint@)) == Err::<
                Seq<ComparatorView>,
                Seq<char>,
            >(e@),
        },
{
    let text = normalize_constraint(constraint);
    match parse_requirement(text.as_str()) {
        Ok(comparators) => Ok(Requirement { text, comparators }),
        Err(e) => Err(e),
    }
}

/// The later of two versions, the first where neither comes before the other.
pub open spec fn later(best: Option<Seq<char>>, v: Seq<char>) -> Option<Seq<char>> {
    match best {
        Some(b) => if semver_before(b, v) {
            Some(v)
        } else {
            Some(b)
        },
        None => Some(v),
    }
}

/// The newest of a list of texts, those that are no versions left out.
pub open spec fn newest(versions: Seq<Seq<char>>) -> Option<Seq<char>>
    decreases versions.len(),
{
    if versions.len() == 0 {
        None
    } else {
        let front = newest(versions.drop_last());
        if semver_version(versions.last()) is Some {
            later(front, versions.last())
        } else {
            front
        }
    }
}

/// The newest of a list of texts that a requirement admits.
pub open spec fn newest_admitted(versions: Seq<Seq<char>>, requirement: Seq<char>) -> Option<
    Seq<char>,
>
    decreases versions.len(),
{
    if versions.len() == 0 {
        None
    } else {
        let front = newest_admitted(versions.drop_last(), requirement);
        if semver_admits(requirement, versions.last()) {
            later(front, versions.last())
        } else {
            front
        }
    }
}

/// Whether a constraint states no range at all: it is empty, or npm's dist-tag for the
/// newest release.
pub open spec fn is_any(constraint: Seq<char>) -> bool {
    let t = trimmed(constraint);
    t.len() == 0 || t == "latest"@
}

/// The requirement that a constraint comes to, or why it is none.
pub open spec fn effective(constraint: Seq<char>) -> Result<Seq<char>, Seq<char>> {
    let n = normal_constraint(constraint);
    match semver_requirement(n) {
        Ok(_) => Ok(n),
        Err(e) => if is_any(constraint) {
            Ok("*"@)
        } else {
            Err(e)
        },
    }
}

/// The status of a dependency whose locked version, if there is one, satisfies its
/// constraint.
///
/// Under semver's 0.x rules the leftmost non-zero component is the breaking axis, so on
/// `0.0.z` every bump is breaking and nothing there is a patch.
pub open spec fn status_of(
    current: Option<VersionView>,
    behind: bool,
    compatible: Option<VersionView>,
    newer: bool,
) -> StatusView {
    match current {
        None => StatusView::UpdateAvailable,
        Some(cur) => if !behind {
            StatusView::UpToDate
        } else {
            match compatible {
                Some(lc) => if newer && lc.major == cur.major && lc.minor == cur.minor && !(
                cur.major == 0 && cur.minor == 0) {
                    StatusView::PatchAvailable
                } else {
                    StatusView::UpdateAvailable
                },
                None => StatusView::UpdateAvailable,
            }
        },
    }
}

/// A version of its own.
pub open spec fn parsed(text: Option<Seq<char>>) -> Option<VersionView> {
    match text {
        Some(t) => semver_version(t),
        None => None,
    }
}

/// Whether one version comes before another, where there are two.
pub open spec fn opt_before(a: Option<Seq<char>>, b: Option<Seq<char>>) -> bool {
    match (a, b) {
        (Some(x), Some(y)) => semver_before(x, y),
        _ => false,
    }
}

/// What is found of a dependency with a requirement, a newest release, and a locked
/// version that, if there is one, is a version.
pub open spec fn outcome(
    requirement: Seq<char>,
    versions: Seq<Seq<char>>,
    locked: Option<Seq<char>>,
) -> EvaluationView {
    let available = newest(versions);
    let compatible = newest_admitted(versions, requirement);
    let status = if locked matches Some(l) && !semver_admits(requirement, l) {
        StatusView::Outdated
    } else {
        let current = if locked is Some {
            locked
        } else {
            compatible
        };
        status_of(
            parsed(current),
            opt_before(current, available),
            parsed(compatible),
            opt_before(current, compatible),
        )
    };
    EvaluationView {
        status,
        latest_compatible: compatible,
        latest_available: available,
        patch_available: status == StatusView::PatchAvailable,
    }
}

/// What is found of a dependency.
pub open spec fn evaluation(
    constraint: Seq<char>,
    versions: Seq<Seq<char>>,
    locked_at: Option<Seq<char>>,
) -> EvaluationView {
    if newest(versions) is None {
        EvaluationView {
            status: StatusView::Error("no parseable versions"@),
            latest_compatible: None,
            latest_available: None,
            patch_available: false,
        }
    } else {
        match effective(constraint) {
            Ok(requirement) => outcome(
                requirement,
                versions,
                if parsed(locked_at) is Some {
                    locked_at
                } else {
                    None
                },
            ),
            Err(e) => EvaluationView {
                status: StatusView::Error("unparseable constraint: "@ + e),
                latest_compatible: None,
                latest_available: newest(versions),
                patch_available: false,
            },
        }
    }
}

/// Whether a version is the newest of those that a list holds and a requirement, where
/// there is one, admits: none of them comes after it, none has higher numbers, and none
/// is a release of which it is a pre-release.
pub open spec fn is_newest(
    v: Seq<char>,
    versions: Seq<Seq<char>>,
    requirement: Option<Seq<char>>,
) -> bool {
    &&& versions.contains(v)
    &&& is_candidate(v, requirement)
    &&& forall|i: int|
        0 <= i < versions.len() && is_candidate(#[trigger] versions[i], requirement) ==> versions[i]
            == v || !semver_before(v, versions[i])
    &&& semver_version(v) matches Some(x) && forall|i: int|
        0 <= i < versions.len() && is_candidate(#[trigger] versions[i], requirement) ==> (
        semver_version(versions[i]) matches Some(y) && !ranks_below(x, y))
}

/// Whether a text is a version that a requirement, where there is one, admits.
pub open spec fn is_candidate(v: Seq<char>, requirement: Option<Seq<char>>) -> bool {
    match requirement {
        Some(q) => semver_admits(q, v),
        None => semver_version(v) is Some,
    }
}

/// What [`newest`] or [`newest_admitted`] finds.
pub open spec fn newest_of(versions: Seq<Seq<char>>, requirement: Option<Seq<char>>) -> Option<
    Seq<char>,
> {
    match requirement {
        Some(q) => newest_admitted(versions, q),
        None => newest(versions),
    }
}

/// Find the newest version of a list that a requirement, where there is one, admits.
pub fn find_newest(versions: &[String], requirement: Option<&str>) -> (r: Option<String>)
    ensures
        opt_string(r) == newest_of(strings(versions@), opt_str(requirement)),
        match r {
            Some(v) => is_newest(v@, strings(versions@), opt_str(requirement)),
            None => forall|i: int|
                0 <= i < versions@.len() ==> !is_candidate(
                    #[trigger] strings(versions@)[i],
                    opt_str(requirement),
                ),
        },
        requirement is None ==> (r matches Some(v) ==> semver_version(v@) is Some),
{
    let ghost all = strings(versions@);
    let ghost q = opt_str(requirement);
    let mut best: Option<usize> = None;
    let mut i: usize = 0;
    while i < versions.len()
        invariant
            i <= versions.len(),
            all == strings(versions@),
            q == opt_str(requirement),
            match best {
                Some(b) => {
                    &&& b < i
                    &&& newest_of(all.take(i as int), q) == Some(all[b as int])
                    &&& is_candidate(all[b as int], q)
                    &&& semver_version(all[b as int]) is Some
                    &&& forall|j: int|
                        0 <= j < i && is_candidate(#[trigger] all[j], q) ==> all[j] == all[b as int]
                            || !semver_before(all[b as int], all[j])
                    &&& forall|j: int|
                        0 <= j < i && is_candidate(#[trigger] all[j], q) ==> (semver_version(
                            all[j],
                        ) matches Some(y) && !ranks_below(semver_version(all[b as int])->0, y))
                },
                None => newest_of(all.take(i as int), q) is None && forall|j: int|
                    0 <= j < i ==> !is_candidate(#[trigger] all[j], q),
            },
        decreases versions.len() - i,
    {
        let v = versions[i].as_str();
        proof {
            assert(all.take(i + 1).drop_last() =~= all.take(i as int));
            assert(all.take(i + 1).last() == v@);
            assert(all[i as int] == v@);
        }
        let fits = match requirement {
            Some(text) => admits(text, v),
            None => parse_version(v).is_some(),
        };
        if fits {
            match best {
                Some(b) => {
                    assert(all[b as int] == versions@[b as int]@);
                    if is_before(versions[b].as_str(), v) {
                        best = Some(i);
                    }
                },
                None => {
                    best = Some(i);
                },
            }
        }
        i = i + 1;
    }
    assert(all.take(i as int) =~= all);
    match best {
        Some(b) => {
            let r = versions[b].clone();
            assert(all[b as int] == r@);
            Some(r)
        },
        None => None,
    }
}

/// Whether `constraint` is empty, or an npm dist-tag that tracks the newest release
/// (`latest`) rather than a version range.
fn is_latest_tag(constraint: &str) -> (r: bool)
    ensures
        r == is_any(constraint@),
{
    let chars = chars_of(constraint);
    let t = trim(chars.as_slice());
    t.len() == 0 || is_str(t, "latest")
}

/// The status of a dependency whose locked version, if there is one, satisfies its
/// constraint: from the version in use, whether it is behind the newest release, the
/// newest version that the constraint admits, and whether that is newer than the one in
/// use.
#[must_use]
pub fn classify(
    current: Option<&Version>,
    behind: bool,
    compatible: Option<&Version>,
    newer: bool,
) -> (r: DependencyStatus)
    ensures
        r@ == status_of(
            match current {
                Some(v) => Some(v@),
                None => None,
            },
            behind,
            match compatible {
                Some(v) => Some(v@),
                None => None,
            },
            newer,
        ),
{
    match current {
        // Nothing the constraint allows is available at all.
        None => DependencyStatus::UpdateAvailable,
        Some(cur) => if !behind {
            DependencyStatus::UpToDate
        } else {
            match compatible {
                Some(lc) => if newer && lc.major == cur.major && lc.minor == cur.minor && !(
                cur.major == 0 && cur.minor == 0) {
                    DependencyStatus::PatchAvailable
                } else {
                    DependencyStatus::UpdateAvailable
                },
                None => DependencyStatus::UpdateAvailable,
            }
        },
    }
}

/// The version that a text is, where there is one.
fn read(text: Option<&str>) -> (r: Option<Version>)
    ensures
        opt_version(r) == parsed(opt_str(text)),
{
    match text {
        Some(t) => parse_version(t),
        None => None,
    }
}

/// Whether one version comes before another, where there are two.
fn precedes(a: Option<&str>, b: Option<&str>) -> (r: bool)
    ensures
        r == opt_before(opt_str(a), opt_str(b)),
{
    match (a, b) {
        (Some(x), Some(y)) => is_before(x, y),
        _ => false,
    }
}

/// A text, where there is one.
fn borrow(o: &Option<String>) -> (r: Option<&str>)
    ensures
        opt_str(r) == opt_string(*o),
{
    match o {
        Some(s) => Some(s.as_str()),
        None => None,
    }
}

/// The requirement that a constraint comes to. An absent requirement means "any
/// version": a bare `numpy` in a requirements file, or a manifest entry that names no
/// range. A dist-tag such as `latest` resolves to the newest available release.
///
/// # Errors
/// Why a constraint that states a range is no requirement.
fn requirement_text(constraint: &str) -> (r: Result<String, String>)
    ensures
        match r {
            Ok(t) => effective(constraint@) == Ok::<Seq<char>, Seq<char>>(t@),
            Err(e) => effective(constraint@) == Err::<Seq<char>, Seq<char>>(e@),
        },
{
    match to_version_req(constraint) {
        Ok(q) => Ok(q.text),
        Err(e) => if is_latest_tag(constraint) {
            Ok("*".to_owned())
        } else {
            Err(e)
        },
    }
}

/// Classify a dependency.
///
/// `versions` may be in any order; `locked_at` is the resolved version from a
/// lockfile if known. Without a lockfile, the effective "current" version is the
/// best version the constraint already allows. Vulnerability status is layered on
/// by the caller.
///
/// A constraint that cannot be read is an error, not an upgrade recommendation: what the
/// registry said is still reported.
#[must_use]
pub fn check_version(constraint: &str, versions: &[String], locked_at: Option<&str>) -> (r:
    Evaluation)
    ensures
        r@ == evaluation(constraint@, strings(versions@), opt_str(locked_at)),
        // What is reported as latest is the newest release there is.
        r@.latest_available matches Some(v) ==> is_newest(v, strings(versions@), None),
        r@.latest_available is None ==> forall|i: int|
            0 <= i < versions@.len() ==> semver_version(#[trigger] strings(versions@)[i]) is None,
        // What is reported as compatible is the newest that the constraint admits.
        r@.latest_compatible matches Some(v) ==> effective(constraint@) is Ok && is_newest(
            v,
            strings(versions@),
            Some(effective(constraint@)->Ok_0),
        ),
{
    let available = match find_newest(versions, None) {
        Some(v) => v,
        None => {
            return Evaluation {
                status: DependencyStatus::Error("no parseable versions".to_owned()),
                latest_compatible: None,
                latest_available: None,
                patch_available: false,
            };
        },
    };
    let requirement = match requirement_text(constraint) {
        Ok(t) => t,
        Err(e) => {
            let message = text2("unparseable constraint: ", e.as_str());
            return Evaluation {
                status: DependencyStatus::Error(message),
                latest_compatible: None,
                latest_available: Some(available),
                patch_available: false,
            };
        },
    };
    let compatible = find_newest(versions, Some(requirement.as_str()));
    let locked: Option<&str> = if read(locked_at).is_some() {
        locked_at
    } else {
        None
    };
    // A locked version that no longer satisfies the declared constraint.
    if let Some(l) = locked {
        if !admits(requirement.as_str(), l) {
            return Evaluation {
                status: DependencyStatus::Outdated,
                latest_compatible: compatible,
                latest_available: Some(available),
                patch_available: false,
            };
        }
    }
    let best = borrow(&compatible);
    let current = if locked.is_some() {
        locked
    } else {
        best
    };
    let status = classify(
        read(current).as_ref(),
        precedes(current, Some(available.as_str())),
        read(best).as_ref(),
        precedes(current, best),
    );
    let patch_available = matches!(status, DependencyStatus::PatchAvailable);
    Evaluation {
        status,
        latest_compatible: compatible,
        latest_available: Some(available),
        patch_available,
    }
}

/// A patch is reported as available exactly where the status says so, and then there is
/// a compatible version with the first two numbers of the version in use.
pub proof fn law_patch_available(
    constraint: Seq<char>,
    versions: Seq<Seq<char>>,
    locked_at: Option<Seq<char>>,
)
    ensures
        ({
            let e = evaluation(constraint, versions, locked_at);
            e.patch_available <==> e.status == StatusView::PatchAvailable
        }),
        ({
            let e = evaluation(constraint, versions, locked_at);
            e.patch_available ==> (parsed(locked_at) matches Some(cur) ==> parsed(
                e.latest_compatible,
            ) matches Some(lc) && lc.major == cur.major && lc.minor == cur.minor && (cur.major > 0
                || cur.minor > 0))
        }),
{
}

/// A constraint that cannot be read never yields a recommendation: no compatible version,
/// no patch, and the status is an error, while the newest release is still reported.
pub proof fn law_unreadable_claims_nothing(
    constraint: Seq<char>,
    versions: Seq<Seq<char>>,
    locked_at: Option<Seq<char>>,
)
    requires
        effective(constraint) is Err,
    ensures
        ({
            let e = evaluation(constraint, versions, locked_at);
            e.status is Error && e.latest_compatible is None && !e.patch_available
                && e.latest_available == newest(versions)
        }),
{
}

/// Whether a list of texts holds a version.
pub open spec fn has_version(versions: Seq<Seq<char>>) -> bool {
    exists|i: int| 0 <= i < versions.len() && semver_version(#[trigger] versions[i]) is Some
}

/// Whether a list of texts holds one that a requirement admits.
pub open spec fn has_admitted(versions: Seq<Seq<char>>, requirement: Seq<char>) -> bool {
    exists|i: int| 0 <= i < versions.len() && semver_admits(requirement, #[trigger] versions[i])
}

/// What is newest is in the list, and there is one exactly if the list holds a version,
/// or one that the requirement admits.
#[verifier::rlimit(40)]
pub proof fn law_newest_is_listed(versions: Seq<Seq<char>>, requirement: Seq<char>)
    ensures
        newest(versions) is Some <==> has_version(versions),
        newest(versions) matches Some(v) ==> versions.contains(v) && semver_version(v) is Some,
        newest_admitted(versions, requirement) is Some <==> has_admitted(versions, requirement),
        newest_admitted(versions, requirement) matches Some(v) ==> versions.contains(v)
            && semver_admits(requirement, v),
    decreases versions.len(),
{
    if versions.len() > 0 {
        let front = versions.drop_last();
        let n = front.len() as int;
        law_newest_is_listed(front, requirement);
        assert(versions[n] == versions.last());
        assert forall|i: int| 0 <= i < n implies #[trigger] versions[i] == front[i] by {}
        if has_version(front) {
            let i = choose|i: int| 0 <= i < n && semver_version(#[trigger] front[i]) is Some;
            assert(semver_version(versions[i]) is Some);
        }
        if has_admitted(front, requirement) {
            let i = choose|i: int| 0 <= i < n && semver_admits(requirement, #[trigger] front[i]);
            assert(semver_admits(requirement, versions[i]));
        }
        if has_version(versions) && !has_version(front) {
            let i = choose|i: int| 0 <= i <= n && semver_version(#[trigger] versions[i]) is Some;
            assert(i < n ==> semver_version(front[i]) is Some);
        }
        if has_admitted(versions, requirement) && !has_admitted(front, requirement) {
            let i = choose|i: int| 0 <= i <= n && semver_admits(requirement, #[trigger] versions[i]);
            assert(i < n ==> semver_admits(requirement, front[i]));
        }
        if let Some(v) = newest(front) {
            let i = choose|i: int| 0 <= i < n && front[i] == v;
            assert(versions[i] == v);
        }
        if let Some(v) = newest_admitted(front, requirement) {
            let i = choose|i: int| 0 <= i < n && front[i] == v;
            assert(versions[i] == v);
        }
    }
}

/// Adding a version that comes after the newest makes it the newest, and adding one that
/// does not, or a text that is no version, changes nothing.
pub proof fn law_newest_of_one_more(versions: Seq<Seq<char>>, v: Seq<char>)
    ensures
        semver_version(v) is None ==> newest(versions.push(v)) == newest(versions),
        semver_version(v) is Some && !has_version(versions) ==> newest(versions.push(v)) == Some(v),
        semver_version(v) is Some ==> (newest(versions) matches Some(b) ==> newest(
            versions.push(v),
        ) == Some(
            if semver_before(b, v) {
                v
            } else {
                b
            },
        )),
{
    law_newest_is_listed(versions, v);
    assert(versions.push(v).drop_last() =~= versions);
}

/// Adding a version that the requirement admits and that comes after the newest of those
/// makes it the newest admitted; adding any other changes nothing.
pub proof fn law_newest_admitted_of_one_more(
    versions: Seq<Seq<char>>,
    requirement: Seq<char>,
    v: Seq<char>,
)
    ensures
        !semver_admits(requirement, v) ==> newest_admitted(versions.push(v), requirement)
            == newest_admitted(versions, requirement),
        semver_admits(requirement, v) && !has_admitted(versions, requirement) ==> newest_admitted(
            versions.push(v),
            requirement,
        ) == Some(v),
        semver_admits(requirement, v) ==> (newest_admitted(versions, requirement) matches Some(b)
            ==> newest_admitted(versions.push(v), requirement) == Some(
            if semver_before(b, v) {
                v
            } else {
                b
            },
        )),
{
    law_newest_is_listed(versions, requirement);
    assert(versions.push(v).drop_last() =~= versions);
}

/// A constraint that is a requirement as it is written is taken as it is; one that is
/// blank or `latest` and no requirement admits any version; any other is unreadable.
pub proof fn law_requirement_of_constraint(constraint: Seq<char>)
    requires
        trimmed(constraint) == constraint,
        constraint.len() > 0 ==> constraint[0] != 'v' && constraint[0] != 'V',
    ensures
        semver_requirement(constraint) is Ok ==> effective(constraint) == Ok::<
            Seq<char>,
            Seq<char>,
        >(constraint),
        semver_requirement(constraint) is Err && (constraint.len() == 0 || constraint == "latest"@)
            ==> effective(constraint) == Ok::<Seq<char>, Seq<char>>("*"@),
        semver_requirement(constraint) is Err && constraint.len() > 0 && constraint != "latest"@
            ==> effective(constraint) is Err,
{
}

/// A locked version that the constraint does not admit is outdated, and no other
/// dependency is: neither one whose locked version is admitted, nor one that is not
/// locked at a version.
pub proof fn law_outdated(
    constraint: Seq<char>,
    requirement: Seq<char>,
    versions: Seq<Seq<char>>,
    locked_at: Option<Seq<char>>,
)
    requires
        effective(constraint) == Ok::<Seq<char>, Seq<char>>(requirement),
        has_version(versions),
    ensures
        evaluation(constraint, versions, locked_at).status == StatusView::Outdated <==> (
        locked_at matches Some(l) && semver_version(l) is Some && !semver_admits(requirement, l)),
{
    law_newest_is_listed(versions, requirement);
}

/// What is reported as available does not depend on the constraint or the lock, and what
/// is reported as compatible does not depend on the lock.
pub proof fn law_reports_do_not_depend_on_the_lock(
    constraint: Seq<char>,
    other: Seq<char>,
    versions: Seq<Seq<char>>,
    locked_at: Option<Seq<char>>,
)
    ensures
        evaluation(constraint, versions, locked_at).latest_available == evaluation(
            other,
            versions,
            None,
        ).latest_available,
        evaluation(constraint, versions, locked_at).latest_compatible == evaluation(
            constraint,
            versions,
            None,
        ).latest_compatible,
{
}

/// A lock that is no version is as good as none.
pub proof fn law_unreadable_lock_is_no_lock(
    constraint: Seq<char>,
    versions: Seq<Seq<char>>,
    locked: Seq<char>,
)
    requires
        semver_version(locked) is None,
    ensures
        evaluation(constraint, versions, Some(locked)) == evaluation(constraint, versions, None),
{
}

/// Without a version to go by, the answer is an error that says so, and nothing is
/// reported.
pub proof fn law_no_versions(
    constraint: Seq<char>,
    versions: Seq<Seq<char>>,
    locked_at: Option<Seq<char>>,
)
    requires
        !has_version(versions),
    ensures
        ({
            let e = evaluation(constraint, versions, locked_at);
            &&& e.status == StatusView::Error("no parseable versions"@)
            &&& e.latest_available is None
            &&& e.latest_compatible is None
            &&& !e.patch_available
        }),
{
    law_newest_is_listed(versions, constraint);
}

/// The status of a dependency that is not outdated, with the version in use: the locked
/// one, or else the newest that the constraint admits. It is up to date exactly if the
/// newest release does not come after it. Otherwise a patch is available exactly if a
/// newer admitted version has the same first two numbers, not both of them zero; and
/// anything else is an update. Where nothing is in use at all, there is an update.
pub proof fn law_status_of_the_version_in_use(
    constraint: Seq<char>,
    requirement: Seq<char>,
    versions: Seq<Seq<char>>,
    locked_at: Option<Seq<char>>,
)
    requires
        effective(constraint) == Ok::<Seq<char>, Seq<char>>(requirement),
        has_version(versions),
        locked_at matches Some(l) ==> semver_version(l) is Some && semver_admits(requirement, l),
    ensures
        ({
            let e = evaluation(constraint, versions, locked_at);
            let in_use = if locked_at is Some {
                locked_at
            } else {
                e.latest_compatible
            };
            let newest_release = e.latest_available->0;
            &&& e.latest_available is Some
            &&& in_use is None ==> e.status == StatusView::UpdateAvailable
            &&& in_use matches Some(u) ==> (semver_version(u) matches Some(cur) ==> {
                &&& e.status == StatusView::UpToDate <==> !semver_before(u, newest_release)
                &&& e.status == StatusView::PatchAvailable <==> semver_before(u, newest_release)
                    && (e.latest_compatible matches Some(c) && semver_before(u, c) && (
                semver_version(c) matches Some(lc) && lc.major == cur.major && lc.minor
                    == cur.minor && (cur.major > 0 || cur.minor > 0)))
                &&& e.status == StatusView::UpToDate || e.status == StatusView::PatchAvailable
                    || e.status == StatusView::UpdateAvailable
            })
            &&& e.patch_available <==> e.status == StatusView::PatchAvailable
        }),
{
    law_newest_is_listed(versions, requirement);
}

} // verus!
