use dependable_core::result::{
    Advisory, AdvisoryReference, AdvisorySeverity, CvssVersion, ReferenceKind, Score, Severity,
};
use dependable_core::{
    check_version, parse, CheckResult, DependencyStatus, Item, ManifestKind,
};

fn item(name: &str) -> Item {
    let mut items = parse(ManifestKind::RequirementsTxt, "any
").unwrap().items;
    let mut item = items.remove(0);
    item.name = name.to_string();
    item.version_constraint = "1".to_string();
    item.version_line = 0;
    item.version_col_start = 0;
    item.version_col_end = 0;
    item
}

fn score(value: f64) -> Score {
    Score { bits: value.to_bits() }
}

#[test]
fn severity_bands_follow_the_cvss_boundaries() {
    assert_eq!(Severity::from_score(score(10.0)), Severity::Critical);
    assert_eq!(Severity::from_score(score(9.0)), Severity::Critical);
    assert_eq!(Severity::from_score(score(8.9)), Severity::High);
    assert_eq!(Severity::from_score(score(7.0)), Severity::High);
    assert_eq!(Severity::from_score(score(6.9)), Severity::Medium);
    assert_eq!(Severity::from_score(score(4.0)), Severity::Medium);
    assert_eq!(Severity::from_score(score(3.9)), Severity::Low);
    assert_eq!(Severity::from_score(score(0.1)), Severity::Low);
    assert_eq!(Severity::from_score(score(0.0)), Severity::NoImpact);
}

#[test]
fn severity_from_score_clamps_out_of_range_input() {
    assert_eq!(Severity::from_score(score(99.0)), Severity::Critical);
    assert_eq!(Severity::from_score(score(-1.0)), Severity::NoImpact);
}

#[test]
fn severity_parse_is_case_insensitive_and_knows_moderate() {
    assert_eq!(Severity::parse("HIGH"), Some(Severity::High));
    assert_eq!(Severity::parse("moderate"), Some(Severity::Medium));
    assert_eq!(Severity::parse("Medium"), Some(Severity::Medium));
    assert_eq!(Severity::parse(" critical "), Some(Severity::Critical));
    assert_eq!(Severity::parse("none"), Some(Severity::NoImpact));
    assert_eq!(Severity::parse("nope"), None);
}

#[test]
fn severity_min_scores_match_the_bands() {
    assert!((f64::from_bits(Severity::Critical.min_score().bits) - 9.0).abs() < f64::EPSILON);
    assert!((f64::from_bits(Severity::High.min_score().bits) - 7.0).abs() < f64::EPSILON);
    assert!((f64::from_bits(Severity::Medium.min_score().bits) - 4.0).abs() < f64::EPSILON);
    assert!((f64::from_bits(Severity::Low.min_score().bits) - 0.1).abs() < f64::EPSILON);
    assert!((f64::from_bits(Severity::NoImpact.min_score().bits) - 0.0).abs() < f64::EPSILON);
}

#[test]
fn severity_orders_from_none_up_to_critical() {
    let mut bands = vec![
        Severity::High,
        Severity::NoImpact,
        Severity::Critical,
        Severity::Low,
        Severity::Medium,
    ];
    bands.sort();
    assert_eq!(
        bands,
        vec![
            Severity::NoImpact,
            Severity::Low,
            Severity::Medium,
            Severity::High,
            Severity::Critical,
        ]
    );
    assert_eq!(bands.iter().copied().max(), Some(Severity::Critical));
}

#[test]
fn severity_labels_and_tokens_are_stable() {
    assert_eq!(Severity::Medium.label(), "medium");
    assert_eq!(Severity::Medium.token(), "MEDIUM");
}

#[test]
fn a_computed_score_outranks_a_published_label() {
    let severity = AdvisorySeverity::from_score(score(9.8)).with_label("MODERATE");
    assert_eq!(severity.band, Some(Severity::Critical));
    assert_eq!(severity.label.as_deref(), Some("MODERATE"));
    assert!(!severity.is_unrated());
}

#[test]
fn a_label_alone_still_yields_a_band() {
    let severity = AdvisorySeverity::from_label("MODERATE");
    assert_eq!(severity.score, None);
    assert_eq!(severity.band, Some(Severity::Medium));
    assert!(!severity.is_unrated());
}

#[test]
fn an_unrecognized_label_leaves_the_advisory_unrated() {
    let severity = AdvisorySeverity::from_label("SPICY");
    assert_eq!(severity.band, None);
    assert_eq!(severity.label.as_deref(), Some("SPICY"));
    assert!(severity.is_unrated());
}

#[test]
fn a_recorded_vector_keeps_its_version() {
    let severity =
        AdvisorySeverity::from_score(score(6.2)).with_vector("CVSS:3.1/AV:L", CvssVersion::V3);
    assert_eq!(severity.vector.as_deref(), Some("CVSS:3.1/AV:L"));
    assert_eq!(severity.cvss_version, Some(CvssVersion::V3));
}

#[test]
fn advisory_title_falls_back_to_the_id() {
    assert_eq!(
        Advisory::new("RUSTSEC-2020-0071").title(),
        "RUSTSEC-2020-0071"
    );
    assert_eq!(
        Advisory::new("RUSTSEC-2020-0071")
            .with_summary("Use-after-free")
            .title(),
        "Use-after-free"
    );
}

#[test]
fn advisory_url_picks_the_advisory_reference() {
    let advisory = Advisory::new("X").with_references(vec![
        AdvisoryReference::new(ReferenceKind::Web, "https://example.test/blog"),
        AdvisoryReference::new(ReferenceKind::Advisory, "https://example.test/advisory"),
        AdvisoryReference::new(ReferenceKind::Advisory, "https://example.test/second"),
    ]);
    assert_eq!(
        advisory.advisory_url(),
        Some("https://example.test/advisory")
    );
    assert_eq!(Advisory::new("X").advisory_url(), None);
}

#[test]
fn withdrawal_is_reported_from_the_timestamp() {
    let mut advisory = Advisory::new("X");
    assert!(!advisory.is_withdrawn());
    advisory.withdrawn = Some("2024-01-01T00:00:00Z".to_string());
    assert!(advisory.is_withdrawn());
}

#[test]
fn rollups_ignore_unrated_advisories() {
    let advisories = vec![
        Advisory::new("A").with_severity(AdvisorySeverity::from_score(score(6.2))),
        Advisory::new("B").with_severity(AdvisorySeverity::from_label("CRITICAL")),
        Advisory::new("C"),
    ];
    assert_eq!(Advisory::max_cvss(&advisories), Some(score(6.2)));
    assert_eq!(
        Advisory::max_severity(&advisories),
        Some(Severity::Critical)
    );
    assert_eq!(Advisory::unrated_count(&advisories), 1);
}

#[test]
fn rollups_over_nothing_are_none() {
    assert_eq!(Advisory::max_cvss(&[]), None);
    assert_eq!(Advisory::max_severity(&[]), None);
    assert_eq!(Advisory::unrated_count(&[]), 0);
}

#[test]
fn a_fresh_result_carries_no_advisories() {
    let bare = CheckResult::new(item("serde"), DependencyStatus::Local);
    assert!(bare.advisories.is_empty());
    assert_eq!(bare.max_cvss(), None);
    assert_eq!(bare.max_severity(), None);

    let evaluated = CheckResult::from_evaluation(
        item("serde"),
        check_version("1.0.0", &["1.0.0".to_string()], None),
    );
    assert!(evaluated.advisories.is_empty());
}

#[test]
fn a_result_looks_up_an_advisory_by_id() {
    let mut result = CheckResult::new(item("time"), DependencyStatus::Vulnerable);
    result.advisories = vec![
        Advisory::new("RUSTSEC-2020-0071").with_severity(AdvisorySeverity::from_score(score(6.2))),
    ];
    assert!(result.advisory("RUSTSEC-2020-0071").is_some());
    assert!(result.advisory("GHSA-nope").is_none());
    assert_eq!(result.max_cvss(), Some(score(6.2)));
    assert_eq!(result.max_severity(), Some(Severity::Medium));
}
