use dependable_core::{exact_pin, to_semver_constraint, Ecosystem};
use semver::Version;

#[test]
fn recognizes_exactly_the_constraints_that_name_one_release() {
    let cases: &[(&str, Ecosystem, Option<&str>)] = &[

        ("13.0.1", Ecosystem::CSharp, None),
        ("[2.10.0,3.0.0)", Ecosystem::CSharp, None),
        ("[1.2.3]", Ecosystem::CSharp, Some("1.2.3")),
        ("1.*", Ecosystem::CSharp, None),

        ("$(SerilogVersion)", Ecosystem::CSharp, None),

        ("[1.2.3.4]", Ecosystem::CSharp, None),

        ("[1.0]", Ecosystem::CSharp, None),

        ("[1.0],[2.0]", Ecosystem::CSharp, None),

        ("4.12.0", Ecosystem::Jvm, Some("4.12.0")),
        ("1.9.24", Ecosystem::Jvm, Some("1.9.24")),
        ("3.14.0", Ecosystem::Jvm, Some("3.14.0")),

        ("32.1.3-jre", Ecosystem::Jvm, Some("32.1.3-jre")),

        ("1.0.0-RELEASE", Ecosystem::Jvm, Some("1.0.0-RELEASE")),
        ("[1.0,2.0)", Ecosystem::Jvm, None),
        ("1.2.+", Ecosystem::Jvm, None),
        ("latest.release", Ecosystem::Jvm, None),

        ("6.4.4.Final", Ecosystem::Jvm, None),

        ("4.12", Ecosystem::Jvm, None),
        ("1.0", Ecosystem::Jvm, None),

        ("[1.0],[2.0]", Ecosystem::Jvm, None),
        ("(,1.0],[1.2,)", Ecosystem::Jvm, None),

        ("=1.2.3", Ecosystem::Rust, Some("1.2.3")),
        ("= 1.2.3", Ecosystem::Rust, Some("1.2.3")),
        ("1.2.3", Ecosystem::Rust, None),
        ("=1.2", Ecosystem::Rust, None),
        ("^1.2", Ecosystem::Rust, None),
        ("*", Ecosystem::Rust, None),
        (">=1, <2", Ecosystem::Rust, None),
        ("=1.2.3-alpha.1", Ecosystem::Rust, Some("1.2.3-alpha.1")),

        ("^18.0.0", Ecosystem::Npm, None),
        ("latest", Ecosystem::Npm, None),
        ("1.2.3", Ecosystem::Npm, None),
        ("=1.3.0", Ecosystem::Npm, Some("1.3.0")),

        ("==2.28.1", Ecosystem::Python, Some("2.28.1")),

        ("==0.20", Ecosystem::Python, None),

        ("==1.2.3+local", Ecosystem::Python, Some("1.2.3+local")),
        (">=2.0", Ecosystem::Python, None),
        ("==1.0.*", Ecosystem::Python, None),
        ("~=1.4.2", Ecosystem::Python, None),
        (">=1.0,<2.0", Ecosystem::Python, None),

        ("3.10.3", Ecosystem::Elixir, Some("3.10.3")),
        ("== 3.10.3", Ecosystem::Elixir, Some("3.10.3")),
        ("~> 3.10", Ecosystem::Elixir, None),
        (">= 3.0.0", Ecosystem::Elixir, None),

        ("6.0.5", Ecosystem::Dart, None),
        ("^1.1.0", Ecosystem::Dart, None),
        ("v1.6.0", Ecosystem::Go, None),
        ("^2.0", Ecosystem::Php, None),

        ("", Ecosystem::Rust, None),
        ("   ", Ecosystem::Jvm, None),
        ("workspace:*", Ecosystem::Npm, None),
    ];

    for &(constraint, ecosystem, want) in cases {
        assert_eq!(
            exact_pin(constraint, ecosystem),
            want,
            "{constraint:?} ({ecosystem:?})"
        );
    }
}

#[test]
fn reports_the_declared_spelling_and_never_the_translation() {
    for (constraint, ecosystem) in [

        ("1.0.0-RELEASE", Ecosystem::Jvm),

        ("==1.2.3+local", Ecosystem::Python),

        ("==1.2.3-rc1", Ecosystem::Python),
    ] {
        let pin = exact_pin(constraint, ecosystem).expect("a pin");
        assert!(
            constraint.contains(pin),
            "{pin:?} must be a slice of {constraint:?}"
        );
        assert_ne!(
            pin,
            to_semver_constraint(constraint, ecosystem).trim_start_matches('='),
            "{constraint:?} must not be reported in its translated form"
        );
    }
}

#[test]
fn a_reported_pin_is_always_a_usable_version() {
    let probes = [
        "",
        " ",
        "=",
        "==",
        "===",
        "[]",
        "[,]",
        "[1.0,2.0]",
        "[1.0],[2.0]",
        "(,1.0],[1.2,)",
        ">=1",
        "1.x",
        "*",
        "+",
        "1.+",
        "latest",
        "^",
        "~>",
        "$(Prop)",
        "==1.0.*",
        "=1.2.3.4",
        "git+https://example.com/x#v1.2.3",
        "workspace:^1.0.0",
        "1.2.3 || 2.0.0",
        "=1.2.3, =1.2.3",
    ];
    for ecosystem in [
        Ecosystem::Rust,
        Ecosystem::Go,
        Ecosystem::Npm,
        Ecosystem::Python,
        Ecosystem::Php,
        Ecosystem::Dart,
        Ecosystem::CSharp,
        Ecosystem::Elixir,
        Ecosystem::Jvm,
    ] {
        for probe in probes {
            let Some(pin) = exact_pin(probe, ecosystem) else {
                continue;
            };
            assert!(!pin.is_empty(), "{probe:?} ({ecosystem:?})");

            assert!(
                Version::parse(pin).is_ok(),
                "{probe:?} ({ecosystem:?}) yielded {pin:?}"
            );
        }
    }
}
