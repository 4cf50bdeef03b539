use dependable_core::semver::normalize::is_dialect_tag;
use dependable_core::semver::{
    is_prerelease, normalize_constraint, normalize_version, try_to_semver_constraint, UnstableFilter,
};
use dependable_core::Ecosystem;

#[test]
fn pads_partial_versions() {
    assert_eq!(normalize_version("1"), "1.0.0");
    assert_eq!(normalize_version("1.2"), "1.2.0");
    assert_eq!(normalize_version("1.2.3"), "1.2.3");
}

#[test]
fn strips_v_prefix() {
    assert_eq!(normalize_version("v1.2.3"), "1.2.3");
    assert_eq!(normalize_version("V2.0"), "2.0.0");
}

#[test]
fn trims_constraint() {
    assert_eq!(normalize_constraint("  ^1.0 "), "^1.0");
}

#[test]
fn strips_leading_v_from_constraint() {
    assert_eq!(normalize_constraint("v1.2.3"), "1.2.3");
    assert_eq!(normalize_constraint("V2.0"), "2.0");

    assert_eq!(normalize_constraint("^1.0"), "^1.0");
    assert_eq!(normalize_constraint(">=1, <2"), ">=1, <2");
}

fn vers(list: &[&str]) -> Vec<String> {
    list.iter().map(|s| (*s).to_string()).collect()
}

fn assert_translates(constraint: &str, ecosystem: Ecosystem) -> ::semver::VersionReq {
    let translated = try_to_semver_constraint(constraint, ecosystem)
        .unwrap_or_else(|| panic!("{ecosystem:?} `{constraint}` translated to nothing"));
    ::semver::VersionReq::parse(&translated).unwrap_or_else(|e| {
        panic!("{ecosystem:?} `{constraint}` translated to `{translated}`, which is not a requirement: {e}")
    })
}

#[test]
fn a_constraint_that_states_something_never_translates_to_nothing() {
    let cases: &[(Ecosystem, &str)] = &[
        (Ecosystem::Python, "*"),
        (Ecosystem::Python, ">=1.0"),
        (Ecosystem::Python, "==1.2.3"),
        (Ecosystem::Python, "~=1.4"),
        (Ecosystem::Python, "==1.0.*"),
        (Ecosystem::Python, "^1.2"),
        (Ecosystem::Python, "~1.2"),
        (Ecosystem::Python, ">=1.0,<2.0"),
        (Ecosystem::Python, "1.2.3"),
        (Ecosystem::Python, "===1.0"),
        (Ecosystem::CSharp, "*"),
        (Ecosystem::CSharp, "1.0.0"),
        (Ecosystem::CSharp, "[1.0,2.0)"),
        (Ecosystem::CSharp, "1.*"),
        (Ecosystem::Jvm, "+"),
        (Ecosystem::Jvm, "latest.release"),
        (Ecosystem::Jvm, "1.+"),
        (Ecosystem::Jvm, "[1.0,2.0)"),
        (Ecosystem::Elixir, "~> 1.0"),
        (Ecosystem::Elixir, ">= 1.0.0"),
        (Ecosystem::Rust, "*"),
        (Ecosystem::Npm, "*"),
        (Ecosystem::Npm, "1.x"),
        (Ecosystem::Php, "*"),
        (Ecosystem::Dart, "any"),
    ];
    for (ecosystem, constraint) in cases {
        assert_translates(constraint, *ecosystem);
    }
}

#[test]
fn the_documented_range_dialects_translate_into_something_that_parses() {
    let v = |s: &str| ::semver::Version::parse(s).expect(s);

    let cases: &[(Ecosystem, &str, &[&str], &[&str])] = &[
        (
            Ecosystem::Npm,
            ">=16.8.0 <19.0.0",
            &["16.8.0", "18.3.1"],
            &["16.7.0", "19.0.0"],
        ),
        (
            Ecosystem::Npm,
            "^15.0.0 || ^16.0.0",
            &["16.8.0"],
            &["17.0.0"],
        ),
        (
            Ecosystem::Npm,
            "1.2.3 - 2.3.4",
            &["1.2.3", "2.0.0", "2.3.4"],
            &["1.2.2", "2.3.5"],
        ),

        (
            Ecosystem::Npm,
            "1.2.3 - 2.3",
            &["2.3.9"],
            &["1.2.2", "2.4.0"],
        ),
        (Ecosystem::Npm, ">= 1.2.3", &["1.2.3", "9.0.0"], &["1.2.2"]),

        (Ecosystem::Dart, "any", &["0.0.1", "9.9.9"], &[]),

        (Ecosystem::Php, "2.8.*@dev", &["2.8.0", "2.8.9"], &["2.9.0"]),
        (Ecosystem::Php, "@dev", &["0.1.0", "9.9.9"], &[]),
        (
            Ecosystem::Php,
            "^1.0 || ^2.0",
            &["2.4.0"],
            &["3.0.0", "0.9.0"],
        ),
    ];
    for (ecosystem, constraint, admits, rejects) in cases {
        let req = assert_translates(constraint, *ecosystem);
        for version in *admits {
            assert!(
                req.matches(&v(version)),
                "`{constraint}` rejected {version}"
            );
        }
        for version in *rejects {
            assert!(
                !req.matches(&v(version)),
                "`{constraint}` admitted {version}"
            );
        }
    }
}

#[test]
fn a_dialect_with_no_front_end_is_never_mistaken_for_a_range() {

    for (ecosystem, constraint) in [
        (Ecosystem::Elixir, "!= 1.0.0"),
        (Ecosystem::Python, "!=2.31.0"),
    ] {
        assert_eq!(
            try_to_semver_constraint(constraint, ecosystem),
            None,
            "{ecosystem:?} `{constraint}`"
        );
    }

    for (ecosystem, constraint) in [
        (Ecosystem::Npm, "next"),
        (Ecosystem::Npm, "beta"),
        (Ecosystem::Npm, "canary"),
        (Ecosystem::Php, "dev-master"),
    ] {
        let translated = try_to_semver_constraint(constraint, ecosystem)
            .expect("a name is handed back, not dropped");
        assert!(
            ::semver::VersionReq::parse(&translated).is_err(),
            "{ecosystem:?} `{constraint}` must not be read as a range"
        );
        assert!(is_dialect_tag(&translated), "{ecosystem:?} `{constraint}`");
    }

    assert_eq!(
        try_to_semver_constraint("latest", Ecosystem::Npm).as_deref(),
        Some("latest")
    );
}

#[test]
fn garbage_wearing_range_operators_is_not_a_name() {
    for constraint in ["^^^bogus", ">=<1.0.0", "~~", "1.2.3", "*", "@dev"] {
        assert!(!is_dialect_tag(constraint), "{constraint}");
    }
    for constraint in ["next", "dev-master", "latest", "release/2.x"] {
        assert!(is_dialect_tag(constraint), "{constraint}");
    }
}

#[test]
fn a_constraint_semver_cannot_express_stays_a_failed_translation() {

    for (ecosystem, constraint) in [
        (Ecosystem::Python, "!=1.5"),
        (Ecosystem::CSharp, "$(Version)"),
        (Ecosystem::Jvm, "LATEST"),
        (Ecosystem::Jvm, "RELEASE"),
    ] {
        assert_eq!(
            try_to_semver_constraint(constraint, ecosystem),
            None,
            "{ecosystem:?} `{constraint}`"
        );
    }
}

#[test]
fn universal_prerelease_markers() {
    for v in ["1.0.0-alpha", "1.0.0-RC1", "2.0.0-beta.3", "1.0.0-SNAPSHOT"] {
        assert!(is_prerelease(v, Ecosystem::Rust), "{v}");
    }
    assert!(!is_prerelease("1.0.0", Ecosystem::Rust));
    assert!(!is_prerelease("1.2.3+build.5", Ecosystem::Rust));
}

#[test]
fn python_specific_prereleases() {
    for v in ["1.0a1", "1.0b2", "1.0rc1", "1.0.dev3"] {
        assert!(is_prerelease(v, Ecosystem::Python), "{v}");
    }

    assert!(!is_prerelease("1.0a1", Ecosystem::Rust));

    assert!(!is_prerelease("1.0.0", Ecosystem::Python));
}

#[test]
fn a_python_post_release_is_not_a_prerelease() {
    for v in ["1.0.post1", "1.0.post2", "2.1.post0"] {
        assert!(!is_prerelease(v, Ecosystem::Python), "{v}");
    }

    assert!(is_prerelease("1.0rc1.post1", Ecosystem::Python));
}

#[test]
fn semver_versions_are_classified_by_parsing_not_by_substring() {
    for v in [
        "1.0.0-M1",
        "1.0.0-CR2",
        "1.0.0-unstable.3",
        "1.0.0-0",
        "4.0.0-insiders",
    ] {
        assert!(is_prerelease(v, Ecosystem::Rust), "{v}");
    }
    for v in ["1.2.3+build-rc", "1.2.3+alpha", "1.0.0", "10.20.30"] {
        assert!(!is_prerelease(v, Ecosystem::Rust), "{v}");
    }
}

#[test]
fn jvm_specific_prereleases() {
    for v in ["6.0.0.M1", "8.0.0.Beta1", "5.3.0.RC1", "2.0-M1", "2.0-a1"] {
        assert!(is_prerelease(v, Ecosystem::Jvm), "{v}");

        assert!(!is_prerelease(v, Ecosystem::Rust), "{v}");
    }

    assert!(is_prerelease("1.0-SNAPSHOT", Ecosystem::Jvm));
    for v in [
        "6.4.4.Final",
        "5.3.9.RELEASE",
        "9.4.51.v20230217",
        "32.1.3-android",
    ] {
        assert!(!is_prerelease(v, Ecosystem::Jvm), "{v}");
    }
}

#[test]
fn the_default_filter_keeps_a_jvm_release_over_a_beta() {
    let out = UnstableFilter::Exclude.filter(
        &vers(&["8.0.0.Beta1", "6.6.0.Final", "6.4.4.Final"]),
        Some("6.4.4.Final"),
        Ecosystem::Jvm,
    );
    assert_eq!(out, vers(&["6.6.0.Final", "6.4.4.Final"]));
}

#[test]
fn filter_exclude_drops_prereleases() {
    let out = UnstableFilter::Exclude.filter(
        &vers(&["1.0.0", "1.1.0-rc1", "1.2.0"]),
        None,
        Ecosystem::Rust,
    );
    assert_eq!(out, vers(&["1.0.0", "1.2.0"]));
}

#[test]
fn filter_include_always_keeps_everything() {
    let input = vers(&["1.0.0", "1.1.0-rc1"]);
    let out = UnstableFilter::IncludeAlways.filter(&input, None, Ecosystem::Rust);
    assert_eq!(out, input);
}

#[test]
fn filter_if_current_depends_on_current() {
    let input = vers(&["1.0.0", "1.1.0-rc1"]);

    let stable =
        UnstableFilter::IncludeIfCurrent.filter(&input, Some("1.0.0"), Ecosystem::Rust);
    assert_eq!(stable, vers(&["1.0.0"]));

    let pre =
        UnstableFilter::IncludeIfCurrent.filter(&input, Some("1.0.0-rc1"), Ecosystem::Rust);
    assert_eq!(pre, input);
}

#[test]
fn filter_falls_back_when_only_prereleases() {
    let input = vers(&["1.0.0-rc1", "1.0.0-rc2"]);
    let out = UnstableFilter::Exclude.filter(&input, None, Ecosystem::Rust);
    assert_eq!(out, input);
}

#[test]
fn only_a_dialect_of_its_own_can_fail_to_translate() {
    for ecosystem in [
        Ecosystem::Rust,
        Ecosystem::Go,
        Ecosystem::Npm,
        Ecosystem::Php,
        Ecosystem::Dart,
        Ecosystem::Swift,
    ] {
        for constraint in ["", " ", "v", "v || v", "||", "latest", "^1 || ^2", "dev-main"] {
            assert!(
                try_to_semver_constraint(constraint, ecosystem).is_some(),
                "{constraint:?} {ecosystem:?}"
            );
        }
    }
    assert_eq!(try_to_semver_constraint("not a version", Ecosystem::Python), None);
}
