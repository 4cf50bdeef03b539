use dependable_core::result::{Advisory, AdvisorySeverity, AffectedRange, Score, Severity};
use dependable_core::{check_version, parse, CheckResult, DependencyStatus, ManifestKind};

fn score(value: f64) -> Score {
    Score { bits: value.to_bits() }
}

#[test]
fn scores_order_like_the_numbers_they_encode() {
    let values = [f64::NEG_INFINITY, -1.5, -0.0, 0.0, 1e-300, 0.1, 4.0, 10.0, f64::INFINITY];
    for a in values {
        for b in values {
            assert_eq!(score(a).less(score(b)), a < b, "{a} {b}");
        }
        assert!(score(a).numeric());
        assert!(!score(a).less(score(f64::NAN)));
        assert!(!score(f64::NAN).less(score(a)));
    }
    assert!(!score(f64::NAN).numeric());
    assert!(!score(-f64::NAN).numeric());
}

#[test]
fn a_higher_score_is_in_no_lesser_band() {
    let mut last = Severity::NoImpact;
    for tenths in 0..=100 {
        let band = Severity::from_score(score(f64::from(tenths) / 10.0));
        assert!(band >= last, "{tenths}");
        last = band;
    }
    assert_eq!(Severity::from_score(score(f64::NAN)), Severity::NoImpact);
    assert_eq!(Severity::from_score(score(0.09)), Severity::NoImpact);
    assert_eq!(Severity::from_score(score(f64::INFINITY)), Severity::Critical);
}

#[test]
fn a_band_begins_at_its_lowest_score() {
    for band in [
        Severity::NoImpact,
        Severity::Low,
        Severity::Medium,
        Severity::High,
        Severity::Critical,
    ] {
        assert_eq!(Severity::from_score(band.min_score()), band);
        assert_eq!(Severity::parse(band.label()), Some(band));
        assert_eq!(band.token(), band.label().to_uppercase());
    }
    assert_eq!(Severity::default(), Severity::NoImpact);
}

#[test]
fn the_highest_score_leaves_out_what_is_no_number() {
    let rated = |value: f64| Advisory::new("x").with_severity(AdvisorySeverity::from_score(score(value)));
    let list = vec![rated(f64::NAN), rated(1.0), rated(f64::NAN), rated(9.1), rated(3.0)];
    assert_eq!(Advisory::max_cvss(&list), Some(score(9.1)));
    assert_eq!(Advisory::max_severity(&list), Some(Severity::Critical));
    assert_eq!(Advisory::unrated_count(&list), 0);
}

#[test]
fn builders_set_one_field_each() {
    let a = Advisory::new("id")
        .with_summary("s")
        .with_details("d")
        .with_aliases(vec!["alias".to_owned()])
        .with_fixed_versions(vec!["2".to_owned()])
        .with_ranges(vec![AffectedRange::default()
            .with_introduced("0")
            .with_fixed("2")
            .with_last_affected("1")]);
    assert_eq!(a.id, "id");
    assert_eq!(a.details.as_deref(), Some("d"));
    assert_eq!(a.aliases, ["alias"]);
    assert_eq!(a.fixed_versions, ["2"]);
    assert_eq!(a.ranges[0].introduced.as_deref(), Some("0"));
    assert_eq!(a.ranges[0].fixed.as_deref(), Some("2"));
    assert_eq!(a.ranges[0].last_affected.as_deref(), Some("1"));
    assert_eq!(a.clone(), a);
    assert!(a.severity.is_unrated());
}

#[test]
fn statuses_have_labels_and_tokens() {
    let cases = [
        (DependencyStatus::UpToDate, "up to date", "OK"),
        (DependencyStatus::PatchAvailable, "patch available", "PATCH"),
        (DependencyStatus::UpdateAvailable, "update available", "UPDATE"),
        (DependencyStatus::Outdated, "outdated", "OUTDATED"),
        (DependencyStatus::Vulnerable, "vulnerable", "VULN"),
        (DependencyStatus::Error("x".to_owned()), "error", "ERROR"),
        (DependencyStatus::Local, "local", "LOCAL"),
        (DependencyStatus::Git, "git", "GIT"),
        (DependencyStatus::Undetermined, "undetermined", "UNDETERMINED"),
    ];
    for (status, label, token) in cases {
        assert_eq!(status.label(), label);
        assert_eq!(status.token(), token);
    }
}

#[test]
fn a_result_takes_over_an_evaluation() {
    let item = parse(ManifestKind::RequirementsTxt, "a==1\n").unwrap().items.remove(0);
    let versions = vec!["1.4.8".to_owned(), "1.4.9".to_owned()];
    let r = CheckResult::from_evaluation(item, check_version("^1.4", &versions, Some("1.4.8")));
    assert_eq!(r.status, DependencyStatus::PatchAvailable);
    assert_eq!(r.latest_compatible.as_deref(), Some("1.4.9"));
    assert!(r.patch_available);
    assert!(r.all_vulnerabilities.is_empty());
    assert!(r.current_vulnerabilities.is_empty());
}
