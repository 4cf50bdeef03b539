use dependable_core::semver::elixir::hex_constraint_to_semver;

#[test]
fn tilde_bounds_last_component() {

    assert_eq!(hex_constraint_to_semver("~> 2.1"), ">=2.1.0, <3.0.0");

    assert_eq!(hex_constraint_to_semver("~> 2.1.3"), ">=2.1.3, <2.2.0");
    assert_eq!(hex_constraint_to_semver("~> 1.0.0"), ">=1.0.0, <1.1.0");
}

#[test]
fn comparison_and_exact() {
    assert_eq!(hex_constraint_to_semver(">= 3.0.0"), ">=3.0.0");
    assert_eq!(hex_constraint_to_semver("> 1.2"), ">1.2.0");
    assert_eq!(hex_constraint_to_semver("== 1.2.3"), "=1.2.3");

    assert_eq!(hex_constraint_to_semver("1.2.3"), "=1.2.3");
}

#[test]
fn keeps_last_clause_of_a_union() {
    assert_eq!(
        hex_constraint_to_semver("~> 1.0 or ~> 2.0"),
        ">=2.0.0, <3.0.0"
    );
}

#[test]
fn an_untranslatable_constraint_signals_failure_rather_than_echoing_itself() {
    for constraint in ["~> not.a.version", "@@@", ">= banana", "!= 1.0.0"] {
        assert_eq!(
            hex_constraint_to_semver(constraint),
            "",
            "{constraint} was not reported as a failed translation"
        );
    }
}

#[test]
fn intersections_become_comma_separated_bounds() {
    let converted = hex_constraint_to_semver(">= 1.0.0 and < 2.0.0");
    let req = ::semver::VersionReq::parse(&converted).expect(&converted);
    assert!(req.matches(&::semver::Version::parse("1.5.0").unwrap()));
    assert!(!req.matches(&::semver::Version::parse("2.0.0").unwrap()));
    assert!(!req.matches(&::semver::Version::parse("0.9.0").unwrap()));
}

#[test]
fn a_union_picks_the_newest_clause_regardless_of_order() {
    for constraint in ["~> 2.0 or ~> 1.0", "~> 1.0 or ~> 2.0"] {
        let converted = hex_constraint_to_semver(constraint);
        let req = ::semver::VersionReq::parse(&converted).expect(&converted);
        assert!(
            req.matches(&::semver::Version::parse("2.3.0").unwrap()),
            "{constraint} -> {converted} rejected 2.3.0"
        );
    }
}

#[test]
fn an_enormous_version_component_does_not_overflow() {
    let _ = hex_constraint_to_semver("~> 18446744073709551615.0.0");
    let _ = hex_constraint_to_semver("~> 18446744073709551615.18446744073709551615");
}
