use dependable_core::semver::python::{pep440_constraint_to_semver, pep440_to_semver};

#[test]
fn converts_release_versions() {
    assert_eq!(pep440_to_semver("1.2.3").as_deref(), Some("1.2.3"));
    assert_eq!(pep440_to_semver("2.1").as_deref(), Some("2.1.0"));
    assert_eq!(pep440_to_semver("3").as_deref(), Some("3.0.0"));
    assert_eq!(pep440_to_semver("1.0+ubuntu1").as_deref(), Some("1.0.0"));
    assert_eq!(pep440_to_semver("1!2.0").as_deref(), Some("2.0.0"));
}

#[test]
fn converts_pre_post_dev() {
    assert_eq!(pep440_to_semver("1.0a1").as_deref(), Some("1.0.0-alpha.1"));
    assert_eq!(pep440_to_semver("1.0b2").as_deref(), Some("1.0.0-beta.2"));
    assert_eq!(pep440_to_semver("1.0rc1").as_deref(), Some("1.0.0-rc.1"));
    assert_eq!(pep440_to_semver("1.0.dev3").as_deref(), Some("1.0.0-dev.3"));
    assert_eq!(
        pep440_to_semver("1.0.post1").as_deref(),
        Some("1.0.0-post.1")
    );
}

#[test]
fn converts_comparison_constraints() {
    assert_eq!(pep440_constraint_to_semver(">=1.0"), ">=1.0.0");
    assert_eq!(pep440_constraint_to_semver(">=1.0,<2.0"), ">=1.0.0, <2.0.0");
    assert_eq!(pep440_constraint_to_semver("==1.2.3"), "=1.2.3");
}

#[test]
fn strips_environment_markers() {
    assert_eq!(
        pep440_constraint_to_semver(">=2.0 ; python_version < \"3.8\""),
        ">=2.0.0"
    );
}

#[test]
fn expands_wildcards_and_compatible_release() {
    assert_eq!(pep440_constraint_to_semver("==1.0.*"), ">=1.0.0, <1.1.0");
    assert_eq!(pep440_constraint_to_semver("~=1.4"), ">=1.4.0, <2.0.0");
    assert_eq!(pep440_constraint_to_semver("~=1.4.2"), ">=1.4.2, <1.5.0");
}

#[test]
fn passes_through_poetry_operators_and_drops_exclusions() {
    assert_eq!(pep440_constraint_to_semver("^1.2.3"), "^1.2.3");
    assert_eq!(pep440_constraint_to_semver("~1.2"), "~1.2");

    assert_eq!(pep440_constraint_to_semver(">=1.0,!=1.5"), ">=1.0.0");
}
