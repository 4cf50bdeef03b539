//! The output of the version checker for a single dependency, plus the advisory
//! model the vulnerability data is reported through.
//!
//! The advisory types are plain data. Parsing advisory records and computing CVSS
//! scores is the fetch layer's work.
use crate::item::Item;
use crate::parsers::cargo_package::opt_str;
use crate::semver::checker::Evaluation;
use crate::table::TextTable;
use crate::text::{chars_of, is_str, lower, lowered, opt_string, str_eq, trim, trimmed};
use vstd::prelude::*;

verus! {

/// The result of checking one dependency against the registry and its advisories.
///
/// Construct via [`CheckResult::new`] or [`CheckResult::from_evaluation`].
#[derive(Debug, Clone)]
#[non_exhaustive]
pub struct CheckResult {
    /// The dependency this result describes.
    pub item: Item,
    /// The classified status of the dependency.
    pub status: DependencyStatus,
    /// Best version satisfying the declared constraint.
    pub latest_compatible: Option<String>,
    /// Absolute latest available version (may be outside the constraint).
    pub latest_available: Option<String>,
    /// Whether a patch-level update exists within the constraint.
    pub patch_available: bool,
    /// Vulnerability IDs affecting the current/locked version.
    pub current_vulnerabilities: Vec<String>,
    /// All vulnerabilities by version, for "upgrading fixes N issues" reporting.
    pub all_vulnerabilities: TextTable<Vec<String>>,
    /// Enriched advisory records for [`Self::current_vulnerabilities`].
    ///
    /// Empty unless advisory enrichment was requested. `current_vulnerabilities` stays
    /// the authoritative ID list; an ID with no matching record here simply was not
    /// enriched.
    pub advisories: Vec<Advisory>,
}

impl CheckResult {
    /// Whether nothing is recorded of vulnerabilities.
    pub open spec fn is_unqueried(self) -> bool {
        self.current_vulnerabilities@.len() == 0 && self.all_vulnerabilities@ == Map::<
            Seq<char>,
            Vec<String>,
        >::empty() && self.advisories@.len() == 0
    }

    /// A bare result carrying only an item and a status (the `Local`/`Git`/`Error`
    /// cases, where no version data is available).
    #[must_use]
    pub fn new(item: Item, status: DependencyStatus) -> (r: Self)
        ensures
            r.item == item,
            r.status == status,
            r.latest_compatible is None,
            r.latest_available is None,
            !r.patch_available,
            r.is_unqueried(),
    {
        CheckResult {
            item,
            status,
            latest_compatible: None,
            latest_available: None,
            patch_available: false,
            current_vulnerabilities: Vec::new(),
            all_vulnerabilities: TextTable::new(),
            advisories: Vec::new(),
        }
    }

    /// Build a result from a registry [`Evaluation`]. Vulnerability fields start
    /// empty; the fetch layer fills them.
    #[must_use]
    pub fn from_evaluation(item: Item, eval: Evaluation) -> (r: Self)
        ensures
            r.item == item,
            r.status == eval.status,
            r.latest_compatible == eval.latest_compatible,
            r.latest_available == eval.latest_available,
            r.patch_available == eval.patch_available,
            r.is_unqueried(),
    {
        CheckResult {
            item,
            status: eval.status,
            latest_compatible: eval.latest_compatible,
            latest_available: eval.latest_available,
            patch_available: eval.patch_available,
            current_vulnerabilities: Vec::new(),
            all_vulnerabilities: TextTable::new(),
            advisories: Vec::new(),
        }
    }

    /// The highest CVSS base score across the enriched advisories, if any carries
    /// a computed score. `None` when nothing was enriched or every advisory is
    /// unrated, which is deliberately *not* the same as a score of zero.
    #[must_use]
    pub fn max_cvss(&self) -> (r: Option<Score>)
        ensures
            r == highest_score(self.advisories@),
    {
        Advisory::max_cvss(self.advisories.as_slice())
    }

    /// The highest severity band across the enriched advisories, if any is rated.
    #[must_use]
    pub fn max_severity(&self) -> (r: Option<Severity>)
        ensures
            r == highest_band(self.advisories@),
    {
        Advisory::max_severity(self.advisories.as_slice())
    }

    /// The enriched advisory with this ID, if it was fetched.
    ///
    /// A consumer reporting one row per `(dependency, advisory ID)` walks
    /// [`Self::current_vulnerabilities`] and looks each ID up here, falling back
    /// to the bare ID when no record is present.
    #[must_use]
    pub fn advisory(&self, id: &str) -> (r: Option<&Advisory>)
        ensures
            match r {
                Some(a) => exists|i: int|
                    0 <= i < self.advisories@.len() && *a == #[trigger] self.advisories@[i]
                        && a.id@ == id@ && forall|j: int|
                        0 <= j < i ==> (#[trigger] self.advisories@[j]).id@ != id@,
                None => forall|j: int|
                    0 <= j < self.advisories@.len() ==> (#[trigger] self.advisories@[j]).id@
                        != id@,
            },
    {
        let mut i: usize = 0;
        while i < self.advisories.len()
            invariant
                i <= self.advisories.len(),
                forall|j: int| 0 <= j < i ==> (#[trigger] self.advisories@[j]).id@ != id@,
            decreases self.advisories.len() - i,
        {
            if str_eq(self.advisories[i].id.as_str(), id) {
                return Some(&self.advisories[i]);
            }
            i = i + 1;
        }
        None
    }
}

/// The status of a single dependency.
///
/// Match with a wildcard arm so new statuses are additive.
#[derive(Debug, PartialEq, Eq)]
#[non_exhaustive]
pub enum DependencyStatus {
    /// Nothing newer is available.
    UpToDate,
    /// A newer patch release is admitted by the constraint.
    PatchAvailable,
    /// A newer release is available.
    UpdateAvailable,
    /// The locked version no longer satisfies the constraint.
    Outdated,
    /// The version in use has a known vulnerability.
    Vulnerable,
    /// The dependency could not be checked, and why.
    Error(String),
    /// A local dependency.
    Local,
    /// A dependency from a git repository.
    Git,
    /// There was no version to ask about, or no registry to ask.
    Undetermined,
}

/// What a [`DependencyStatus`] says.
pub ghost enum StatusView {
    /// Nothing newer is available.
    UpToDate,
    /// A newer patch release is admitted.
    PatchAvailable,
    /// A newer release is available.
    UpdateAvailable,
    /// The locked version does not satisfy the constraint.
    Outdated,
    /// There is a known vulnerability.
    Vulnerable,
    /// It could not be checked.
    Error(Seq<char>),
    /// A local dependency.
    Local,
    /// A git dependency.
    Git,
    /// Nothing is known.
    Undetermined,
}

impl View for DependencyStatus {
    type V = StatusView;

    open spec fn view(&self) -> StatusView {
        match self {
            DependencyStatus::UpToDate => StatusView::UpToDate,
            DependencyStatus::PatchAvailable => StatusView::PatchAvailable,
            DependencyStatus::UpdateAvailable => StatusView::UpdateAvailable,
            DependencyStatus::Outdated => StatusView::Outdated,
            DependencyStatus::Vulnerable => StatusView::Vulnerable,
            DependencyStatus::Error(e) => StatusView::Error(e@),
            DependencyStatus::Local => StatusView::Local,
            DependencyStatus::Git => StatusView::Git,
            DependencyStatus::Undetermined => StatusView::Undetermined,
        }
    }
}

impl Clone for DependencyStatus {
    fn clone(&self) -> (r: Self)
        ensures
            r@ == self@,
    {
        match self {
            DependencyStatus::UpToDate => DependencyStatus::UpToDate,
            DependencyStatus::PatchAvailable => DependencyStatus::PatchAvailable,
            DependencyStatus::UpdateAvailable => DependencyStatus::UpdateAvailable,
            DependencyStatus::Outdated => DependencyStatus::Outdated,
            DependencyStatus::Vulnerable => DependencyStatus::Vulnerable,
            DependencyStatus::Error(e) => DependencyStatus::Error(e.clone()),
            DependencyStatus::Local => DependencyStatus::Local,
            DependencyStatus::Git => DependencyStatus::Git,
            DependencyStatus::Undetermined => DependencyStatus::Undetermined,
        }
    }
}

impl StatusView {
    /// The label of a status.
    pub open spec fn words(self) -> &'static str {
        match self {
            StatusView::UpToDate => "up to date",
            StatusView::PatchAvailable => "patch available",
            StatusView::UpdateAvailable => "update available",
            StatusView::Outdated => "outdated",
            StatusView::Vulnerable => "vulnerable",
            StatusView::Error(_) => "error",
            StatusView::Local => "local",
            StatusView::Git => "git",
            StatusView::Undetermined => "undetermined",
        }
    }

    /// The token of a status.
    pub open spec fn code(self) -> &'static str {
        match self {
            StatusView::UpToDate => "OK",
            StatusView::PatchAvailable => "PATCH",
            StatusView::UpdateAvailable => "UPDATE",
            StatusView::Outdated => "OUTDATED",
            StatusView::Vulnerable => "VULN",
            StatusView::Error(_) => "ERROR",
            StatusView::Local => "LOCAL",
            StatusView::Git => "GIT",
            StatusView::Undetermined => "UNDETERMINED",
        }
    }
}

impl DependencyStatus {
    /// A short human-readable label.
    #[must_use]
    pub fn label(&self) -> (r: &str)
        ensures
            r@ == self@.words()@,
    {
        match self {
            DependencyStatus::UpToDate => "up to date",
            DependencyStatus::PatchAvailable => "patch available",
            DependencyStatus::UpdateAvailable => "update available",
            DependencyStatus::Outdated => "outdated",
            DependencyStatus::Vulnerable => "vulnerable",
            DependencyStatus::Error(_) => "error",
            DependencyStatus::Local => "local",
            DependencyStatus::Git => "git",
            DependencyStatus::Undetermined => "undetermined",
        }
    }

    /// A stable uppercase token for machine-readable output.
    #[must_use]
    pub fn token(&self) -> (r: &'static str)
        ensures
            r@ == self@.code()@,
    {
        match self {
            DependencyStatus::UpToDate => "OK",
            DependencyStatus::PatchAvailable => "PATCH",
            DependencyStatus::UpdateAvailable => "UPDATE",
            DependencyStatus::Outdated => "OUTDATED",
            DependencyStatus::Vulnerable => "VULN",
            DependencyStatus::Error(_) => "ERROR",
            DependencyStatus::Local => "LOCAL",
            DependencyStatus::Git => "GIT",
            DependencyStatus::Undetermined => "UNDETERMINED",
        }
    }
}

/// A CVSS base score, as the bits of its IEEE 754 double-precision encoding.
#[derive(Debug, Clone, Copy, PartialEq, Eq, Structural)]
pub struct Score {
    /// The encoding.
    pub bits: u64,
}

impl Score {
    /// The bits without the sign.
    pub open spec fn magnitude(self) -> int {
        if self.bits < 0x8000_0000_0000_0000 {
            self.bits as int
        } else {
            self.bits - 0x8000_0000_0000_0000
        }
    }

    /// Whether this encodes a number, infinities included.
    pub open spec fn is_number(self) -> bool {
        self.magnitude() <= 0x7ff0_0000_0000_0000
    }

    /// The place of the encoded number among all of them: larger for a larger number,
    /// and the same for both zeros.
    pub open spec fn order(self) -> int {
        if self.bits < 0x8000_0000_0000_0000 {
            self.magnitude()
        } else {
            -self.magnitude()
        }
    }

    /// Whether this encodes a number that is less than the one `other` encodes.
    pub fn less(self, other: Score) -> (r: bool)
        ensures
            r == (self.is_number() && other.is_number() && self.order() < other.order()),
    {
        let sign: u64 = 0x8000_0000_0000_0000;
        let limit: u64 = 0x7ff0_0000_0000_0000;
        let a: u64 = if self.bits < sign {
            self.bits
        } else {
            self.bits - sign
        };
        let b: u64 = if other.bits < sign {
            other.bits
        } else {
            other.bits - sign
        };
        if a > limit || b > limit {
            return false;
        }
        if self.bits < sign {
            other.bits < sign && a < b
        } else if other.bits < sign {
            a > 0 || b > 0
        } else {
            a > b
        }
    }

    /// Whether this encodes a number.
    pub fn numeric(self) -> (r: bool)
        ensures
            r == self.is_number(),
    {
        let sign: u64 = 0x8000_0000_0000_0000;
        let limit: u64 = 0x7ff0_0000_0000_0000;
        if self.bits < sign {
            self.bits <= limit
        } else {
            self.bits - sign <= limit
        }
    }
}

/// A CVSS severity band.
///
/// The derived order **is** the severity ordering: `NoImpact < Low < Medium < High <
/// Critical`, so the maximum of a set of bands is the worst of them.
///
/// The band vocabulary is fixed by CVSS, and consumers want exhaustive matches over it.
#[derive(Debug, Clone, Copy, PartialEq, Eq, PartialOrd, Ord, Hash, Structural)]
pub enum Severity {
    /// No impact: a base score of exactly 0.0.
    NoImpact,
    /// 0.1 – 3.9.
    Low,
    /// 4.0 – 6.9.
    Medium,
    /// 7.0 – 8.9.
    High,
    /// 9.0 – 10.0.
    Critical,
}

impl Default for Severity {
    fn default() -> (r: Self)
        ensures
            r == Severity::NoImpact,
    {
        Severity::NoImpact
    }
}

impl Severity {
    /// How severe a band is.
    pub open spec fn rank(self) -> int {
        match self {
            Severity::NoImpact => 0,
            Severity::Low => 1,
            Severity::Medium => 2,
            Severity::High => 3,
            Severity::Critical => 4,
        }
    }

    /// The lowest score of a band: the encodings of 0.0, 0.1, 4.0, 7.0 and 9.0.
    pub open spec fn lowest(self) -> Score {
        match self {
            Severity::NoImpact => Score { bits: 0 },
            Severity::Low => Score { bits: 0x3fb9_9999_9999_999a },
            Severity::Medium => Score { bits: 0x4010_0000_0000_0000 },
            Severity::High => Score { bits: 0x401c_0000_0000_0000 },
            Severity::Critical => Score { bits: 0x4022_0000_0000_0000 },
        }
    }

    /// Whether a score reaches a band.
    pub open spec fn reached_by(self, score: Score) -> bool {
        score.is_number() && score.order() >= self.lowest().order()
    }

    /// The band that a score falls in: the most severe that it reaches.
    pub open spec fn of(score: Score) -> Severity {
        if Severity::Critical.reached_by(score) {
            Severity::Critical
        } else if Severity::High.reached_by(score) {
            Severity::High
        } else if Severity::Medium.reached_by(score) {
            Severity::Medium
        } else if Severity::Low.reached_by(score) {
            Severity::Low
        } else {
            Severity::NoImpact
        }
    }

    /// The band that a label names.
    pub open spec fn named(label: Seq<char>) -> Option<Severity> {
        let l = lowered(trimmed(label));
        if l == "critical"@ {
            Some(Severity::Critical)
        } else if l == "high"@ {
            Some(Severity::High)
        } else if l == "medium"@ || l == "moderate"@ {
            Some(Severity::Medium)
        } else if l == "low"@ {
            Some(Severity::Low)
        } else if l == "none"@ {
            Some(Severity::NoImpact)
        } else {
            None
        }
    }

    /// The label of a band.
    pub open spec fn words(self) -> &'static str {
        match self {
            Severity::NoImpact => "none",
            Severity::Low => "low",
            Severity::Medium => "medium",
            Severity::High => "high",
            Severity::Critical => "critical",
        }
    }

    /// The token of a band.
    pub open spec fn code(self) -> &'static str {
        match self {
            Severity::NoImpact => "NONE",
            Severity::Low => "LOW",
            Severity::Medium => "MEDIUM",
            Severity::High => "HIGH",
            Severity::Critical => "CRITICAL",
        }
    }

    /// The band a CVSS base score falls in. A score out of the range of CVSS, or none
    /// at all, still yields a band rather than a panic.
    #[must_use]
    pub fn from_score(score: Score) -> (r: Self)
        ensures
            r == Severity::of(score),
    {
        if !score.numeric() {
            return Severity::NoImpact;
        }
        if !score.less(Severity::Critical.min_score()) {
            Severity::Critical
        } else if !score.less(Severity::High.min_score()) {
            Severity::High
        } else if !score.less(Severity::Medium.min_score()) {
            Severity::Medium
        } else if !score.less(Severity::Low.min_score()) {
            Severity::Low
        } else {
            Severity::NoImpact
        }
    }

    /// Parse a named band, case-insensitively.
    ///
    /// Accepts the four CVSS band names plus `none`, and the GitHub Security
    /// Advisory alias `moderate` for [`Severity::Medium`]. Returns `None` for
    /// anything else rather than guessing: an unrecognized label must not be
    /// silently downgraded to a real band.
    #[must_use]
    pub fn parse(label: &str) -> (r: Option<Self>)
        ensures
            r == Severity::named(label@),
    {
        let chars = chars_of(label);
        let low = lower(trim(chars.as_slice()));
        let l = low.as_slice();
        if is_str(l, "critical") {
            Some(Severity::Critical)
        } else if is_str(l, "high") {
            Some(Severity::High)
        } else if is_str(l, "medium") || is_str(l, "moderate") {
            Some(Severity::Medium)
        } else if is_str(l, "low") {
            Some(Severity::Low)
        } else if is_str(l, "none") {
            Some(Severity::NoImpact)
        } else {
            None
        }
    }

    /// A short human-readable label.
    #[must_use]
    pub fn label(&self) -> (r: &'static str)
        ensures
            r@ == self.words()@,
    {
        match self {
            Severity::NoImpact => "none",
            Severity::Low => "low",
            Severity::Medium => "medium",
            Severity::High => "high",
            Severity::Critical => "critical",
        }
    }

    /// A stable uppercase token for machine-readable output.
    #[must_use]
    pub fn token(&self) -> (r: &'static str)
        ensures
            r@ == self.code()@,
    {
        match self {
            Severity::NoImpact => "NONE",
            Severity::Low => "LOW",
            Severity::Medium => "MEDIUM",
            Severity::High => "HIGH",
            Severity::Critical => "CRITICAL",
        }
    }

    /// The lowest CVSS base score in this band.
    #[must_use]
    pub fn min_score(&self) -> (r: Score)
        ensures
            r == self.lowest(),
    {
        match self {
            Severity::NoImpact => Score { bits: 0 },
            Severity::Low => Score { bits: 0x3fb9_9999_9999_999a },
            Severity::Medium => Score { bits: 0x4010_0000_0000_0000 },
            Severity::High => Score { bits: 0x401c_0000_0000_0000 },
            Severity::Critical => Score { bits: 0x4022_0000_0000_0000 },
        }
    }

    /// Whether this band is more severe than another.
    fn worse(self, other: Severity) -> (r: bool)
        ensures
            r == (self.rank() > other.rank()),
    {
        match self {
            Severity::NoImpact => false,
            Severity::Low => other == Severity::NoImpact,
            Severity::Medium => other == Severity::NoImpact || other == Severity::Low,
            Severity::High => other != Severity::High && other != Severity::Critical,
            Severity::Critical => other != Severity::Critical,
        }
    }
}

/// Which revision of CVSS a vector string is written in.
#[derive(Debug, Clone, Copy, PartialEq, Eq, Structural)]
#[non_exhaustive]
pub enum CvssVersion {
    /// CVSS v2: a prefix-less vector such as `AV:N/AC:L/Au:N/C:P/I:P/A:P`.
    V2,
    /// CVSS v3.0 or v3.1: a `CVSS:3.x/...` vector.
    V3,
    /// CVSS v4.0: a `CVSS:4.0/...` vector.
    V4,
}

/// How severe an advisory is, as far as its publisher says.
///
/// [`Self::score`] is *computed* from [`Self::vector`] where the vector can be scored. An
/// advisory that carries neither a scorable vector nor a recognized label is **unrated**
/// (see [`Self::is_unrated`]): both `score` and `band` stay `None` rather than being
/// filled in with zero, which would be indistinguishable from a genuinely harmless
/// advisory.
///
/// Build with [`Self::unrated`], [`Self::from_score`], or [`Self::from_label`] and refine
/// with the `with_*` methods.
#[derive(Debug, Clone, PartialEq, Eq)]
#[non_exhaustive]
pub struct AdvisorySeverity {
    /// The computed CVSS base score.
    pub score: Option<Score>,
    /// The band: derived from [`Self::score`] when there is one, else parsed
    /// from [`Self::label`].
    pub band: Option<Severity>,
    /// The CVSS vector [`Self::score`] was computed from, verbatim.
    pub vector: Option<String>,
    /// Which CVSS revision [`Self::vector`] is written in.
    pub cvss_version: Option<CvssVersion>,
    /// The publisher's own severity word, verbatim (`"MODERATE"`), so a report
    /// can show what was actually published rather than a normalized guess.
    pub label: Option<String>,
}

impl Default for AdvisorySeverity {
    fn default() -> (r: Self)
        ensures
            r.score is None,
            r.band is None,
            r.vector is None,
            r.cvss_version is None,
            r.label is None,
    {
        AdvisorySeverity { score: None, band: None, vector: None, cvss_version: None, label: None }
    }
}

impl AdvisorySeverity {
    /// An advisory with no severity information at all.
    #[must_use]
    pub fn unrated() -> (r: Self)
        ensures
            r.score is None,
            r.band is None,
            r.vector is None,
            r.cvss_version is None,
            r.label is None,
    {
        AdvisorySeverity::default()
    }

    /// A severity carrying a computed CVSS base score, with the band derived
    /// from it.
    #[must_use]
    pub fn from_score(score: Score) -> (r: Self)
        ensures
            r.score == Some(score),
            r.band == Some(Severity::of(score)),
            r.vector is None,
            r.cvss_version is None,
            r.label is None,
    {
        let mut r = AdvisorySeverity::default();
        r.score = Some(score);
        r.band = Some(Severity::from_score(score));
        r
    }

    /// A severity known only by its publisher's label. The band is set only if
    /// the label is one [`Severity::parse`] recognizes.
    #[must_use]
    pub fn from_label(label: &str) -> (r: Self)
        ensures
            r.score is None,
            r.band == Severity::named(label@),
            r.vector is None,
            r.cvss_version is None,
            opt_string(r.label) == Some(label@),
    {
        AdvisorySeverity::unrated().with_label(label)
    }

    /// Record the vector the score came from and the revision it is written in.
    #[must_use]
    pub fn with_vector(self, vector: &str, version: CvssVersion) -> (r: Self)
        ensures
            opt_string(r.vector) == Some(vector@),
            r.cvss_version == Some(version),
            r == (AdvisorySeverity { vector: r.vector, cvss_version: Some(version), ..self }),
    {
        let mut r = self;
        r.vector = Some(vector.to_owned());
        r.cvss_version = Some(version);
        r
    }

    /// Record the publisher's severity label verbatim, filling in the band from
    /// it only when no band has been established yet: a computed score always
    /// outranks a published word.
    #[must_use]
    pub fn with_label(self, label: &str) -> (r: Self)
        ensures
            opt_string(r.label) == Some(label@),
            r.band == (if self.band is None {
                Severity::named(label@)
            } else {
                self.band
            }),
            r == (AdvisorySeverity { label: r.label, band: r.band, ..self }),
    {
        let mut r = self;
        if r.band.is_none() {
            r.band = Severity::parse(label);
        }
        r.label = Some(label.to_owned());
        r
    }

    /// Whether there is no usable rating: no computed score and no band.
    pub open spec fn lacks_rating(self) -> bool {
        self.score is None && self.band is None
    }

    /// Whether this advisory carries no usable rating: no computed score and no
    /// band. A report should print "unrated" for these rather than "none".
    #[must_use]
    pub fn is_unrated(&self) -> (r: bool)
        ensures
            r == self.lacks_rating(),
    {
        self.score.is_none() && self.band.is_none()
    }
}

/// One affected version range for the queried package.
///
/// A range is half-open: affected from [`Self::introduced`] (inclusive) up to
/// [`Self::fixed`] (exclusive), or through [`Self::last_affected`] (inclusive).
/// An absent bound means "unbounded in that direction".
#[derive(Debug, Clone, PartialEq, Eq)]
#[non_exhaustive]
pub struct AffectedRange {
    /// First affected version (`"0"` means "from the beginning").
    pub introduced: Option<String>,
    /// First version that is *not* affected.
    pub fixed: Option<String>,
    /// Last version that *is* affected, where the publisher gives one instead of
    /// a fix.
    pub last_affected: Option<String>,
}

impl Default for AffectedRange {
    fn default() -> (r: Self)
        ensures
            r.introduced is None,
            r.fixed is None,
            r.last_affected is None,
    {
        AffectedRange { introduced: None, fixed: None, last_affected: None }
    }
}

impl AffectedRange {
    /// Set the first affected version.
    #[must_use]
    pub fn with_introduced(self, version: &str) -> (r: Self)
        ensures
            opt_string(r.introduced) == Some(version@),
            r == (AffectedRange { introduced: r.introduced, ..self }),
    {
        let mut r = self;
        r.introduced = Some(version.to_owned());
        r
    }

    /// Set the first version that is no longer affected.
    #[must_use]
    pub fn with_fixed(self, version: &str) -> (r: Self)
        ensures
            opt_string(r.fixed) == Some(version@),
            r == (AffectedRange { fixed: r.fixed, ..self }),
    {
        let mut r = self;
        r.fixed = Some(version.to_owned());
        r
    }

    /// Set the last version that is still affected.
    #[must_use]
    pub fn with_last_affected(self, version: &str) -> (r: Self)
        ensures
            opt_string(r.last_affected) == Some(version@),
            r == (AffectedRange { last_affected: r.last_affected, ..self }),
    {
        let mut r = self;
        r.last_affected = Some(version.to_owned());
        r
    }
}

/// What an advisory reference points at.
///
/// Unknown types map to [`ReferenceKind::Web`].
#[derive(Debug, Clone, Copy, PartialEq, Eq, Structural)]
#[non_exhaustive]
pub enum ReferenceKind {
    /// A published security advisory.
    Advisory,
    /// An article or blog post about the issue.
    Article,
    /// A tool or signature that detects the issue.
    Detection,
    /// A discussion thread.
    Discussion,
    /// A vulnerability report (an issue tracker entry).
    Report,
    /// The commit or patch that fixes the issue.
    Fix,
    /// The commit that introduced the issue.
    Introduced,
    /// The package's home on its registry.
    Package,
    /// Evidence of exploitation.
    Evidence,
    /// A source repository.
    Git,
    /// Anything else (the default for an unrecognized type).
    Web,
}

impl Default for ReferenceKind {
    fn default() -> (r: Self)
        ensures
            r == ReferenceKind::Web,
    {
        ReferenceKind::Web
    }
}

impl ReferenceKind {
    /// The token of a kind.
    pub open spec fn code(self) -> &'static str {
        match self {
            ReferenceKind::Advisory => "advisory",
            ReferenceKind::Article => "article",
            ReferenceKind::Detection => "detection",
            ReferenceKind::Discussion => "discussion",
            ReferenceKind::Report => "report",
            ReferenceKind::Fix => "fix",
            ReferenceKind::Introduced => "introduced",
            ReferenceKind::Package => "package",
            ReferenceKind::Evidence => "evidence",
            ReferenceKind::Git => "git",
            ReferenceKind::Web => "web",
        }
    }

    /// A stable lowercase token for machine-readable output.
    #[must_use]
    pub fn token(self) -> (r: &'static str)
        ensures
            r@ == self.code()@,
    {
        match self {
            ReferenceKind::Advisory => "advisory",
            ReferenceKind::Article => "article",
            ReferenceKind::Detection => "detection",
            ReferenceKind::Discussion => "discussion",
            ReferenceKind::Report => "report",
            ReferenceKind::Fix => "fix",
            ReferenceKind::Introduced => "introduced",
            ReferenceKind::Package => "package",
            ReferenceKind::Evidence => "evidence",
            ReferenceKind::Git => "git",
            ReferenceKind::Web => "web",
        }
    }
}

/// One link published with an advisory.
#[derive(Debug, Clone, PartialEq, Eq)]
#[non_exhaustive]
pub struct AdvisoryReference {
    /// What the link points at.
    pub kind: ReferenceKind,
    /// The link itself.
    pub url: String,
}

impl AdvisoryReference {
    /// A reference of `kind` pointing at `url`.
    #[must_use]
    pub fn new(kind: ReferenceKind, url: &str) -> (r: Self)
        ensures
            r.kind == kind,
            r.url@ == url@,
    {
        AdvisoryReference { kind, url: url.to_owned() }
    }
}

/// A full advisory record for one vulnerability affecting one package version.
///
/// This is the enriched form of an ID in [`CheckResult::current_vulnerabilities`]:
/// the same identity, plus everything a report needs to explain and act on it.
/// The version fields describe the **queried package only**.
///
/// Build with [`Advisory::new`] and the `with_*` methods, or assign the public fields
/// directly.
#[derive(Debug, Clone, PartialEq, Eq)]
#[non_exhaustive]
pub struct Advisory {
    /// The advisory's own ID (`RUSTSEC-2020-0071`, `GHSA-xxxx-xxxx-xxxx`).
    pub id: String,
    /// Other IDs naming the same vulnerability (CVE, GHSA, …).
    pub aliases: Vec<String>,
    /// One-line summary.
    pub summary: Option<String>,
    /// Long-form description, as published (Markdown).
    pub details: Option<String>,
    /// How severe the publisher says this is.
    pub severity: AdvisorySeverity,
    /// Affected version ranges for the queried package.
    pub ranges: Vec<AffectedRange>,
    /// The versions that fix this advisory, deduplicated, in record order.
    pub fixed_versions: Vec<String>,
    /// Published links.
    pub references: Vec<AdvisoryReference>,
    /// CWE identifiers (`CWE-416`), where the publisher classifies the weakness.
    pub cwe_ids: Vec<String>,
    /// Publication timestamp, RFC 3339, **unparsed**: a consumer that needs a date
    /// parses it.
    pub published: Option<String>,
    /// Last-modified timestamp, RFC 3339, unparsed.
    pub modified: Option<String>,
    /// Withdrawal timestamp, RFC 3339, unparsed. Present only if withdrawn.
    pub withdrawn: Option<String>,
}

/// The higher of two scores; one that is no number counts for nothing.
pub open spec fn higher(a: Score, b: Score) -> Score {
    if !a.is_number() || (b.is_number() && a.order() < b.order()) {
        b
    } else {
        a
    }
}

/// The highest computed score across advisories, if any is scored.
pub open spec fn highest_score(advisories: Seq<Advisory>) -> Option<Score>
    decreases advisories.len(),
{
    if advisories.len() == 0 {
        None
    } else {
        let front = highest_score(advisories.drop_last());
        match (front, advisories.last().severity.score) {
            (Some(best), Some(s)) => Some(higher(best, s)),
            (None, s) => s,
            (best, None) => best,
        }
    }
}

/// The most severe band across advisories, if any is rated.
pub open spec fn highest_band(advisories: Seq<Advisory>) -> Option<Severity>
    decreases advisories.len(),
{
    if advisories.len() == 0 {
        None
    } else {
        let front = highest_band(advisories.drop_last());
        match (front, advisories.last().severity.band) {
            (Some(best), Some(s)) => if s.rank() > best.rank() {
                Some(s)
            } else {
                Some(best)
            },
            (None, s) => s,
            (best, None) => best,
        }
    }
}

/// How many advisories carry no usable rating.
pub open spec fn unrated_in(advisories: Seq<Advisory>) -> int
    decreases advisories.len(),
{
    if advisories.len() == 0 {
        0
    } else {
        unrated_in(advisories.drop_last()) + if advisories.last().severity.lacks_rating() {
            1int
        } else {
            0
        }
    }
}

/// The first advisory link among references.
pub open spec fn first_page(references: Seq<AdvisoryReference>) -> Option<Seq<char>>
    decreases references.len(),
{
    if references.len() == 0 {
        None
    } else if references[0].kind == ReferenceKind::Advisory {
        Some(references[0].url@)
    } else {
        first_page(references.drop_first())
    }
}

impl Advisory {
    /// An advisory known only by its ID.
    #[must_use]
    pub fn new(id: &str) -> (r: Self)
        ensures
            r.id@ == id@,
            r.aliases@.len() == 0,
            r.summary is None,
            r.details is None,
            r.severity.lacks_rating(),
            r.severity.vector is None,
            r.severity.cvss_version is None,
            r.severity.label is None,
            r.ranges@.len() == 0,
            r.fixed_versions@.len() == 0,
            r.references@.len() == 0,
            r.cwe_ids@.len() == 0,
            r.published is None,
            r.modified is None,
            r.withdrawn is None,
    {
        Advisory {
            id: id.to_owned(),
            aliases: Vec::new(),
            summary: None,
            details: None,
            severity: AdvisorySeverity::unrated(),
            ranges: Vec::new(),
            fixed_versions: Vec::new(),
            references: Vec::new(),
            cwe_ids: Vec::new(),
            published: None,
            modified: None,
            withdrawn: None,
        }
    }

    /// Attach the one-line summary.
    #[must_use]
    pub fn with_summary(self, summary: &str) -> (r: Self)
        ensures
            opt_string(r.summary) == Some(summary@),
            r == (Advisory { summary: r.summary, ..self }),
    {
        let mut r = self;
        r.summary = Some(summary.to_owned());
        r
    }

    /// Attach the long-form description.
    #[must_use]
    pub fn with_details(self, details: &str) -> (r: Self)
        ensures
            opt_string(r.details) == Some(details@),
            r == (Advisory { details: r.details, ..self }),
    {
        let mut r = self;
        r.details = Some(details.to_owned());
        r
    }

    /// Attach the severity.
    #[must_use]
    pub fn with_severity(self, severity: AdvisorySeverity) -> (r: Self)
        ensures
            r == (Advisory { severity, ..self }),
    {
        let mut r = self;
        r.severity = severity;
        r
    }

    /// Attach the fixing versions.
    #[must_use]
    pub fn with_fixed_versions(self, versions: Vec<String>) -> (r: Self)
        ensures
            r == (Advisory { fixed_versions: versions, ..self }),
    {
        let mut r = self;
        r.fixed_versions = versions;
        r
    }

    /// Attach the published links.
    #[must_use]
    pub fn with_references(self, references: Vec<AdvisoryReference>) -> (r: Self)
        ensures
            r == (Advisory { references, ..self }),
    {
        let mut r = self;
        r.references = references;
        r
    }

    /// Attach the alias IDs.
    #[must_use]
    pub fn with_aliases(self, aliases: Vec<String>) -> (r: Self)
        ensures
            r == (Advisory { aliases, ..self }),
    {
        let mut r = self;
        r.aliases = aliases;
        r
    }

    /// Attach the affected version ranges.
    #[must_use]
    pub fn with_ranges(self, ranges: Vec<AffectedRange>) -> (r: Self)
        ensures
            r == (Advisory { ranges, ..self }),
    {
        let mut r = self;
        r.ranges = ranges;
        r
    }

    /// A display title: the summary if there is one, else the ID.
    #[must_use]
    pub fn title(&self) -> (r: &str)
        ensures
            r@ == match self.summary {
                Some(s) => s@,
                None => self.id@,
            },
    {
        match &self.summary {
            Some(s) => s.as_str(),
            None => self.id.as_str(),
        }
    }

    /// The advisory's canonical page: the first [`ReferenceKind::Advisory`] link.
    #[must_use]
    pub fn advisory_url(&self) -> (r: Option<&str>)
        ensures
            opt_str(r) == first_page(self.references@),
    {
        let ghost all = self.references@;
        let mut i: usize = 0;
        assert(all.skip(0) =~= all);
        while i < self.references.len()
            invariant
                i <= self.references.len(),
                all == self.references@,
                first_page(all) == first_page(all.skip(i as int)),
            decreases self.references.len() - i,
        {
            assert(all.skip(i as int).drop_first() =~= all.skip(i + 1));
            if self.references[i].kind == ReferenceKind::Advisory {
                return Some(self.references[i].url.as_str());
            }
            i = i + 1;
        }
        None
    }

    /// Whether the publisher has withdrawn this advisory.
    #[must_use]
    pub fn is_withdrawn(&self) -> (r: bool)
        ensures
            r == (self.withdrawn is Some),
    {
        self.withdrawn.is_some()
    }

    /// The highest computed CVSS base score across `advisories`, if any is
    /// scored.
    #[must_use]
    pub fn max_cvss(advisories: &[Advisory]) -> (r: Option<Score>)
        ensures
            r == highest_score(advisories@),
    {
        let ghost all = advisories@;
        let mut best: Option<Score> = None;
        let mut i: usize = 0;
        while i < advisories.len()
            invariant
                i <= advisories.len(),
                all == advisories@,
                best == highest_score(all.take(i as int)),
            decreases advisories.len() - i,
        {
            proof {
                assert(all.take(i + 1).drop_last() =~= all.take(i as int));
                assert(all.take(i + 1).last() == all[i as int]);
            }
            if let Some(s) = advisories[i].severity.score {
                best = match best {
                    Some(b) => if !b.numeric() || b.less(s) {
                        Some(s)
                    } else {
                        Some(b)
                    },
                    None => Some(s),
                };
            }
            i = i + 1;
        }
        assert(all.take(i as int) =~= all);
        best
    }

    /// The highest severity band across `advisories`, if any is rated.
    #[must_use]
    pub fn max_severity(advisories: &[Advisory]) -> (r: Option<Severity>)
        ensures
            r == highest_band(advisories@),
    {
        let ghost all = advisories@;
        let mut best: Option<Severity> = None;
        let mut i: usize = 0;
        while i < advisories.len()
            invariant
                i <= advisories.len(),
                all == advisories@,
                best == highest_band(all.take(i as int)),
            decreases advisories.len() - i,
        {
            proof {
                assert(all.take(i + 1).drop_last() =~= all.take(i as int));
                assert(all.take(i + 1).last() == all[i as int]);
            }
            if let Some(s) = advisories[i].severity.band {
                best = match best {
                    Some(b) => if s.worse(b) {
                        Some(s)
                    } else {
                        Some(b)
                    },
                    None => Some(s),
                };
            }
            i = i + 1;
        }
        assert(all.take(i as int) =~= all);
        best
    }

    /// How many of `advisories` carry no usable rating.
    #[must_use]
    pub fn unrated_count(advisories: &[Advisory]) -> (r: usize)
        ensures
            r == unrated_in(advisories@),
    {
        let ghost all = advisories@;
        let mut count: usize = 0;
        let mut i: usize = 0;
        while i < advisories.len()
            invariant
                i <= advisories.len(),
                count <= i,
                all == advisories@,
                count == unrated_in(all.take(i as int)),
            decreases advisories.len() - i,
        {
            proof {
                assert(all.take(i + 1).drop_last() =~= all.take(i as int));
                assert(all.take(i + 1).last() == all[i as int]);
            }
            if advisories[i].severity.is_unrated() {
                count = count + 1;
            }
            i = i + 1;
        }
        assert(all.take(i as int) =~= all);
        count
    }
}

/// A higher score is never in a less severe band.
pub proof fn law_bands_monotone(a: Score, b: Score)
    requires
        a.is_number(),
        b.is_number(),
        a.order() <= b.order(),
    ensures
        Severity::of(a).rank() <= Severity::of(b).rank(),
{
}

/// The lowest score of a band is in that band, and whatever is in a band other than the
/// least reaches its lowest score.
pub proof fn law_lowest_in_band(band: Severity, score: Score)
    ensures
        Severity::of(band.lowest()) == band,
        Severity::of(score) == band && band != Severity::NoImpact ==> band.reached_by(score),
{
}

/// The most severe band is that of one of the advisories, and no advisory's is more
/// severe; there is none exactly if no advisory has one.
pub proof fn law_highest_band(advisories: Seq<Advisory>)
    ensures
        match highest_band(advisories) {
            Some(b) => (exists|i: int|
                0 <= i < advisories.len() && (#[trigger] advisories[i]).severity.band == Some(b))
                && forall|i: int|
                0 <= i < advisories.len() ==> ((#[trigger] advisories[i]).severity.band matches Some(
                    s,
                ) ==> s.rank() <= b.rank()),
            None => forall|i: int|
                0 <= i < advisories.len() ==> (#[trigger] advisories[i]).severity.band is None,
        },
    decreases advisories.len(),
{
    if advisories.len() > 0 {
        let front = advisories.drop_last();
        law_highest_band(front);
        let n = front.len() as int;
        assert(advisories[n] == advisories.last());
        assert forall|i: int| 0 <= i < n implies #[trigger] advisories[i] == front[i] by {}
        if let Some(b) = highest_band(front) {
            let i = choose|i: int|
                0 <= i < front.len() && (#[trigger] front[i]).severity.band == Some(b);
            assert(advisories[i].severity.band == Some(b));
        }
    }
}

/// The highest score is that of one of the advisories, and no advisory's is higher; there
/// is none exactly if no advisory has one.
pub proof fn law_highest_score(advisories: Seq<Advisory>)
    ensures
        match highest_score(advisories) {
            Some(b) => (exists|i: int|
                0 <= i < advisories.len() && (#[trigger] advisories[i]).severity.score == Some(b))
                && forall|i: int|
                0 <= i < advisories.len() ==> ((#[trigger] advisories[i]).severity.score matches Some(
                    s,
                ) ==> s.is_number() ==> b.is_number() && s.order() <= b.order()),
            None => forall|i: int|
                0 <= i < advisories.len() ==> (#[trigger] advisories[i]).severity.score is None,
        },
    decreases advisories.len(),
{
    if advisories.len() > 0 {
        let front = advisories.drop_last();
        law_highest_score(front);
        let n = front.len() as int;
        assert(advisories[n] == advisories.last());
        assert forall|i: int| 0 <= i < n implies #[trigger] advisories[i] == front[i] by {}
        if let Some(b) = highest_score(front) {
            let i = choose|i: int|
                0 <= i < front.len() && (#[trigger] front[i]).severity.score == Some(b);
            assert(advisories[i].severity.score == Some(b));
        }
    }
}

} // verus!
