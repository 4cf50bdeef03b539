use dependable_core::semver::maven::{maven_constraint_to_semver, maven_to_semver};
use semver::{Version, VersionReq};

fn parsed(version: &str) -> Version {
    let translated = maven_to_semver(version)
        .unwrap_or_else(|| panic!("{version} has no numeric release component"));
    Version::parse(&translated)
        .unwrap_or_else(|e| panic!("{version} → {translated} is not semver: {e}"))
}

#[test]
fn a_short_version_is_the_same_version_as_its_padded_form() {
    assert_eq!(maven_to_semver("1.0").as_deref(), Some("1.0.0"));
    assert_eq!(maven_to_semver("1").as_deref(), Some("1.0.0"));
    assert_eq!(parsed("1.0"), parsed("1.0.0"));
    assert_eq!(parsed("1"), parsed("1.0.0"));
}

#[test]
fn qualifiers_keep_mavens_order() {

    let ascending = [
        "1.0-alpha1",
        "1.0-alpha2",
        "1.0-beta1",
        "1.0-milestone1",
        "1.0-rc1",
        "1.0-SNAPSHOT",
        "1.0",
    ];
    for pair in ascending.windows(2) {
        assert!(
            parsed(pair[0]) < parsed(pair[1]),
            "{} should precede {}",
            pair[0],
            pair[1]
        );
    }
}

#[test]
fn qualifier_aliases_are_canonicalized() {

    assert_eq!(parsed("1.0-a1"), parsed("1.0-alpha1"));
    assert_eq!(parsed("1.0-b2"), parsed("1.0-beta2"));
    assert_eq!(parsed("1.0-m3"), parsed("1.0-milestone3"));
    assert_eq!(parsed("1.0-cr1"), parsed("1.0-rc1"));

    assert_eq!(parsed("6.4.4.Final"), parsed("6.4.4"));
    assert_eq!(parsed("5.3.9.RELEASE"), parsed("5.3.9"));
    assert_eq!(parsed("1.0-ga"), parsed("1.0"));
}

#[test]
fn a_qualifier_number_compares_numerically() {

    assert!(parsed("1.0-rc9") < parsed("1.0-rc10"));
    assert_eq!(maven_to_semver("1.0-rc10").as_deref(), Some("1.0.0-rc.10"));

    assert_eq!(
        maven_to_semver("2.5.6-sec03").as_deref(),
        Some("2.5.6-sec.3")
    );
}

#[test]
fn four_or_more_segments_stay_ordered_among_themselves() {
    assert_eq!(maven_to_semver("1.2.3.4").as_deref(), Some("1.2.3-4"));
    assert!(parsed("1.2.3.4") < parsed("1.2.3.5"));
    assert!(parsed("1.2.3.9") < parsed("1.2.3.10"));
    assert!(parsed("1.2.3.4") < parsed("1.2.4"));

    assert!(parsed("9.4.51.v20230217") < parsed("9.4.53.v20231009"));
}

#[test]
fn a_version_without_a_number_has_nothing_to_anchor() {
    assert_eq!(maven_to_semver("RELEASE"), None);
    assert_eq!(maven_to_semver(""), None);
}

#[test]
fn a_bare_constraint_is_the_version_this_project_resolves() {
    assert_eq!(maven_constraint_to_semver("1.9.24"), "=1.9.24");
    assert_eq!(maven_constraint_to_semver(" 1.0 "), "=1.0.0");
    assert_eq!(maven_constraint_to_semver(""), "");
}

#[test]
fn intervals_translate_to_bounds() {
    assert_eq!(maven_constraint_to_semver("[1.0,2.0)"), ">=1.0.0, <2.0.0");
    assert_eq!(maven_constraint_to_semver("(1.0,2.0]"), ">1.0.0, <=2.0.0");
    assert_eq!(maven_constraint_to_semver("[1.5,)"), ">=1.5.0");
    assert_eq!(maven_constraint_to_semver("(,2.0]"), "<=2.0.0");
    assert_eq!(maven_constraint_to_semver("[1.0]"), "=1.0.0");

    assert_eq!(maven_constraint_to_semver("(,1.0],[1.2,)"), ">=1.2.0");
}

#[test]
fn gradle_wildcards_and_selectors() {
    assert_eq!(maven_constraint_to_semver("+"), "*");
    assert_eq!(maven_constraint_to_semver("1.+"), ">=1.0.0, <2.0.0");
    assert_eq!(maven_constraint_to_semver("1.2.+"), ">=1.2.0, <1.3.0");
    assert_eq!(maven_constraint_to_semver("latest.release"), "*");
}

#[test]
fn every_translated_constraint_is_a_parseable_requirement() {
    for constraint in [
        "1.9.24",
        "[1.0,2.0)",
        "(1.0,2.0]",
        "[1.5,)",
        "(,2.0]",
        "[1.0]",
        "1.2.+",
        "+",
        "latest.release",
        "1.0-rc1",
    ] {
        let translated = maven_constraint_to_semver(constraint);
        VersionReq::parse(&translated)
            .unwrap_or_else(|e| panic!("{constraint} → {translated}: {e}"));
    }
}
