use dependable_core::semver::nuget::{nuget_constraint_to_semver, nuget_to_semver};

#[test]
fn converts_versions() {
    assert_eq!(nuget_to_semver("1.2.3").as_deref(), Some("1.2.3"));
    assert_eq!(nuget_to_semver("1.2").as_deref(), Some("1.2.0"));
    assert_eq!(nuget_to_semver("1").as_deref(), Some("1.0.0"));
    assert_eq!(nuget_to_semver("1.0.0.4").as_deref(), Some("1.0.0"));
    assert_eq!(
        nuget_to_semver("13.0.1-beta1").as_deref(),
        Some("13.0.1-beta1")
    );
    assert_eq!(nuget_to_semver("$(Version)"), None);
}

#[test]
fn converts_interval_ranges() {
    assert_eq!(nuget_constraint_to_semver("[1.0,2.0)"), ">=1.0.0, <2.0.0");
    assert_eq!(nuget_constraint_to_semver("(1.0,2.0]"), ">1.0.0, <=2.0.0");
    assert_eq!(nuget_constraint_to_semver("[1.0]"), "=1.0.0");
    assert_eq!(nuget_constraint_to_semver("[1.0,)"), ">=1.0.0");
    assert_eq!(nuget_constraint_to_semver("(,2.0]"), "<=2.0.0");
}

#[test]
fn converts_bare_and_floating() {

    assert_eq!(nuget_constraint_to_semver("1.0"), ">=1.0.0");
    assert_eq!(nuget_constraint_to_semver("*"), "*");
    assert_eq!(nuget_constraint_to_semver("1.*"), ">=1.0.0, <2.0.0");
    assert_eq!(nuget_constraint_to_semver("1.2.*"), ">=1.2.0, <1.3.0");
}
