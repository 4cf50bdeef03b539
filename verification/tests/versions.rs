use dependable_core::semver::checker::classify;
use dependable_core::semver::normalize::lower_bound;
use dependable_core::semver::to_version_req;
use dependable_core::semver::version::{Operator, Version};
use dependable_core::{
    check_version, exact_pin, is_prerelease, to_semver_constraint, DependencyStatus, Ecosystem,
    UnstableFilter,
};

fn vers(list: &[&str]) -> Vec<String> {
    list.iter().map(|s| (*s).to_owned()).collect()
}

fn version(major: u64, minor: u64, patch: u64) -> Version {
    Version { major, minor, patch, pre: String::new(), build: String::new() }
}

#[test]
fn a_patch_keeps_the_first_two_numbers() {
    let old = version(1, 2, 3);
    let new = version(1, 2, 9);
    assert_eq!(classify(None, true, Some(&new), true), DependencyStatus::UpdateAvailable);
    assert_eq!(classify(Some(&new), false, Some(&new), false), DependencyStatus::UpToDate);
    assert_eq!(classify(Some(&old), true, Some(&new), true), DependencyStatus::PatchAvailable);
    assert_eq!(classify(Some(&old), true, Some(&new), false), DependencyStatus::UpdateAvailable);
    assert_eq!(classify(Some(&old), true, None, false), DependencyStatus::UpdateAvailable);
    let minor = version(1, 3, 0);
    assert_eq!(classify(Some(&old), true, Some(&minor), true), DependencyStatus::UpdateAvailable);
    let zero = version(0, 0, 3);
    let next = version(0, 0, 4);
    assert_eq!(classify(Some(&zero), true, Some(&next), true), DependencyStatus::UpdateAvailable);
}

#[test]
fn the_newest_is_found_in_any_order() {
    let list = vers(&["1.10.0", "x", "1.9.0", "1.10.0-rc.1", "2.0.0-alpha", "1.10.0"]);
    let e = check_version("^1", &list, Some("1.9.0"));
    assert_eq!(e.latest_available.as_deref(), Some("2.0.0-alpha"));
    assert_eq!(e.latest_compatible.as_deref(), Some("1.10.0"));
    assert_eq!(e.status, DependencyStatus::UpdateAvailable);
    assert!(!e.patch_available);
}

#[test]
fn a_locked_version_that_is_none_counts_for_nothing() {
    let e = check_version("=1.0.0", &vers(&["1.0.0"]), Some("not a version"));
    assert_eq!(e.status, DependencyStatus::UpToDate);
}

#[test]
fn an_unreadable_constraint_recommends_nothing() {
    let e = check_version("^^^bogus", &vers(&["1.0.0"]), Some("0.9.0"));
    match e.status {
        DependencyStatus::Error(message) => {
            assert!(message.starts_with("unparseable constraint: "));
            assert!(message.len() > "unparseable constraint: ".len());
        }
        other => panic!("{other:?}"),
    }
    assert_eq!(e.latest_compatible, None);
    assert_eq!(e.latest_available.as_deref(), Some("1.0.0"));
    let none = check_version("^1", &[], None);
    assert_eq!(none.status, DependencyStatus::Error("no parseable versions".to_owned()));
    assert_eq!(none.latest_available, None);
}

#[test]
fn a_requirement_says_its_comparators() {
    let q = to_version_req(" v1.2, <3 ").unwrap();
    assert_eq!(q.text, "1.2, <3");
    assert_eq!(q.comparators.len(), 2);
}

#[test]
fn a_requirement_is_read_into_comparators() {
    let q = to_version_req(">=1.2, <3.0.0-beta, ~4, =5.6.7, ^8, 9.*, <=1, >2").unwrap();
    let ops: Vec<Operator> = q.comparators.iter().map(|c| c.op).collect();
    assert_eq!(
        ops,
        [
            Operator::GreaterEq,
            Operator::Less,
            Operator::Tilde,
            Operator::Exact,
            Operator::Caret,
            Operator::Wildcard,
            Operator::LessEq,
            Operator::Greater,
        ]
    );
    assert_eq!(q.comparators[0].minor, Some(2));
    assert_eq!(q.comparators[0].patch, None);
    assert_eq!(q.comparators[1].pre, "beta");
    assert_eq!(lower_bound(&q.comparators), (8, 0, 0));
    assert!(to_version_req("").is_err());
}

#[test]
fn a_union_is_its_highest_branch() {
    assert_eq!(to_semver_constraint("^1 || ^3 || ^2", Ecosystem::Npm), "^3");
    assert_eq!(to_semver_constraint("~> 3.0 or ~> 2.0 or != 9", Ecosystem::Elixir), ">=3.0.0, <4.0.0");
    assert_eq!(to_semver_constraint("bogus || ^1", Ecosystem::Npm), "^1");
    assert_eq!(to_semver_constraint("1.2.3 - 18446744073709551615", Ecosystem::Npm), "1.2.3 - 18446744073709551615");
    assert_eq!(to_semver_constraint(">= 1 <", Ecosystem::Npm), ">= 1 <");
    assert_eq!(to_semver_constraint("1.0 - v2", Ecosystem::Npm), ">=1.0.0, <3.0.0");
}

#[test]
fn a_filter_never_empties_a_list() {
    let only = vers(&["1.0.0-rc1"]);
    for filter in
        [UnstableFilter::Exclude, UnstableFilter::IncludeAlways, UnstableFilter::IncludeIfCurrent]
    {
        assert_eq!(filter.filter(&only, None, Ecosystem::Rust), only);
        assert!(filter.filter(&[], None, Ecosystem::Rust).is_empty());
    }
    assert_eq!(UnstableFilter::default(), UnstableFilter::Exclude);
}

#[test]
fn a_version_with_a_prefix_answers_for_itself() {
    assert!(is_prerelease("vv1.0.0-x", Ecosystem::Go));
    assert!(!is_prerelease("v1.0.0+x-rc", Ecosystem::Go));
    assert!(is_prerelease("1.0.0.0-RC1", Ecosystem::CSharp));
    assert!(is_prerelease("1.0.PRE", Ecosystem::Python));
}

#[test]
fn a_pin_is_a_slice_of_what_is_declared() {
    let declared = "\u{a0}[ == 1.2.3 ]";
    let pin = exact_pin(declared, Ecosystem::Elixir);
    assert_eq!(pin, None);
    assert_eq!(exact_pin(" [1.2.3 ] ", Ecosystem::CSharp), Some("1.2.3"));
    assert_eq!(exact_pin("[]", Ecosystem::CSharp), None);
    assert_eq!(exact_pin("[", Ecosystem::CSharp), None);
}

#[test]
fn a_release_is_newer_than_its_pre_releases() {
    for list in [["2.0.0-rc.9", "2.0.0"], ["2.0.0", "2.0.0-rc.9"]] {
        let versions: Vec<String> = list.iter().map(|v| (*v).to_owned()).collect();
        let e = check_version("1", &versions, None);
        assert_eq!(e.latest_available.as_deref(), Some("2.0.0"));
    }
}
