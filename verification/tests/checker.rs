use dependable_core::{check_version, DependencyStatus};

fn vers(list: &[&str]) -> Vec<String> {
    list.iter().map(|s| (*s).to_string()).collect()
}

#[test]
fn up_to_date_when_constraint_allows_latest() {
    let e = check_version("1", &vers(&["1.0.0", "1.2.0", "1.5.0"]), None);
    assert_eq!(e.status, DependencyStatus::UpToDate);
    assert_eq!(e.latest_available.as_deref(), Some("1.5.0"));
}

#[test]
fn patch_available_within_constraint() {
    let e = check_version("^1.4", &vers(&["1.4.0", "1.4.8", "1.4.9"]), Some("1.4.8"));
    assert_eq!(e.status, DependencyStatus::PatchAvailable);
    assert!(e.patch_available);
    assert_eq!(e.latest_compatible.as_deref(), Some("1.4.9"));
}

#[test]
fn update_available_for_minor_bump() {
    let e = check_version("^1.0", &vers(&["1.0.0", "1.2.0", "1.5.0"]), Some("1.2.0"));
    assert_eq!(e.status, DependencyStatus::UpdateAvailable);
}

#[test]
fn outdated_when_locked_violates_constraint() {
    let e = check_version("=1.2.0", &vers(&["1.1.0", "1.2.0"]), Some("1.1.0"));
    assert_eq!(e.status, DependencyStatus::Outdated);
}

#[test]
fn pinned_with_newer_available_is_update() {
    let e = check_version("=1.2.0", &vers(&["1.2.0", "1.5.0"]), None);
    assert_eq!(e.status, DependencyStatus::UpdateAvailable);
}

#[test]
fn unparseable_versions_yield_error() {
    let e = check_version("1", &vers(&["not-a-version"]), None);
    assert!(matches!(e.status, DependencyStatus::Error(_)));
}

#[test]
fn latest_dist_tag_resolves_to_newest_and_is_up_to_date() {

    let e = check_version("latest", &vers(&["1.0.0", "2.3.0", "2.1.0"]), None);
    assert_eq!(e.status, DependencyStatus::UpToDate);
    assert_eq!(e.latest_compatible.as_deref(), Some("2.3.0"));
    assert_eq!(e.latest_available.as_deref(), Some("2.3.0"));
}

#[test]
fn latest_dist_tag_with_older_lockfile_is_update_available() {

    let e = check_version("latest", &vers(&["1.0.0", "2.3.0"]), Some("1.0.0"));
    assert_eq!(e.status, DependencyStatus::UpdateAvailable);
    assert_eq!(e.latest_compatible.as_deref(), Some("2.3.0"));
}

#[test]
fn latest_dist_tag_with_no_versions_still_errors() {
    let e = check_version("latest", &vers(&["not-a-version"]), None);
    assert!(matches!(e.status, DependencyStatus::Error(_)));
}

#[test]
fn an_unparseable_constraint_is_an_error_not_an_upgrade() {
    let versions = vec!["1.0.0".to_string(), "2.0.0".to_string()];
    for constraint in [
        "^1 || ^2",
        ">=1.0.0 <2.0.0",
        "next",
        "not-a-range",
        "workspace:^",
    ] {
        let ev = check_version(constraint, &versions, None);
        assert!(
            matches!(ev.status, DependencyStatus::Error(_)),
            "{constraint} yielded {:?}",
            ev.status
        );
        assert!(ev.latest_compatible.is_none(), "{constraint}");

        assert_eq!(
            ev.latest_available.as_deref(),
            Some("2.0.0"),
            "{constraint}"
        );
    }
}

#[test]
fn an_empty_constraint_still_resolves() {
    let versions = vec!["1.0.0".to_string(), "2.0.0".to_string()];
    let ev = check_version("", &versions, None);
    assert!(
        !matches!(ev.status, DependencyStatus::Error(_)),
        "{:?}",
        ev.status
    );
    assert_eq!(ev.latest_compatible.as_deref(), Some("2.0.0"));
}

#[test]
fn zero_zero_versions_have_no_patch_axis() {
    let versions = vec!["0.0.3".to_string(), "0.0.4".to_string()];
    let ev = check_version("^0.0.3", &versions, Some("0.0.3"));
    assert_eq!(
        ev.status,
        DependencyStatus::UpdateAvailable,
        "0.0.3 -> 0.0.4 is a breaking bump"
    );
    assert!(!ev.patch_available);

    let versions = vec!["0.2.3".to_string(), "0.2.9".to_string()];
    let ev = check_version("^0.2.3", &versions, Some("0.2.3"));
    assert_eq!(ev.status, DependencyStatus::PatchAvailable);
}

#[test]
fn wildcard_constraint_is_reported_as_upgradable() {
    let e = check_version("1.x", &vers(&["1.0.0", "1.9.0", "2.0.0"]), None);
    assert_eq!(e.status, DependencyStatus::UpdateAvailable);
    assert_eq!(e.latest_compatible.as_deref(), Some("1.9.0"));
    assert_eq!(e.latest_available.as_deref(), Some("2.0.0"));
}
