use dependable_core::pattern::find_matches;
use dependable_core::semver::normalize::{bounded_range, is_prerelease_given};
use dependable_core::semver::pin::names_one;
use dependable_core::semver::to_version_req;
use dependable_core::semver::version::Version;
use dependable_core::text::chars_of;
use dependable_core::Ecosystem;

#[test]
fn a_match_holds_the_groups_that_took_part() {
    let found = find_matches("é(a)|(b)", "béa");
    let groups: Vec<Vec<(&str, usize)>> = found
        .iter()
        .map(|m| m.iter().map(|p| (p.text.as_str(), p.start)).collect())
        .collect();
    assert_eq!(groups, [vec![("b", 0), ("b", 0)], vec![("éa", 1), ("a", 3)]]);
    assert!(find_matches("(", "(").is_empty());
}

#[test]
fn a_partial_upper_bound_bounds_its_segment() {
    let range = |low: &str, high: &str| -> Option<String> {
        bounded_range(&chars_of(low), &chars_of(high)).map(|r| r.iter().collect())
    };
    assert_eq!(range("1.0.0", "2").as_deref(), Some(">=1.0.0, <3.0.0"));
    assert_eq!(range("1.0.0", "2.3").as_deref(), Some(">=1.0.0, <2.4.0"));
    assert_eq!(range("1.0.0", "V2.3.4").as_deref(), Some(">=1.0.0, <=2.3.4"));
    assert_eq!(range("1.0.0", "2.3.4.5"), None);
    assert_eq!(range("1.0.0", "2.x"), None);
    assert_eq!(range("1.0.0", "18446744073709551615"), None);
}

#[test]
fn a_parsed_version_answers_before_its_markers_do() {
    let release = Version {
        major: 1,
        minor: 0,
        patch: 0,
        pre: String::new(),
        build: "x".to_owned(),
    };
    assert!(!is_prerelease_given(Some(&release), "1.0.0-rc", Ecosystem::Rust));
    assert!(is_prerelease_given(Some(&release), "1.0.0-rc", Ecosystem::Jvm));
    assert!(is_prerelease_given(None, "1.0.0-rc", Ecosystem::Rust));
    assert!(!is_prerelease_given(None, "1.0rc1", Ecosystem::Rust));
    assert!(is_prerelease_given(None, "1.0rc1", Ecosystem::Python));
}

#[test]
fn one_full_equals_names_one_release() {
    let one = |text: &str| names_one(&to_version_req(text).unwrap().comparators);
    assert!(one("=1.2.3"));
    assert!(!one("=1.2"));
    assert!(!one("1.2.3"));
    assert!(!one("=1.2.3, =1.2.3"));
    assert!(!one("*"));
}
