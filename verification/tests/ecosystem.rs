use dependable_core::Ecosystem;

const ALL: [Ecosystem; 10] = [
    Ecosystem::Rust,
    Ecosystem::Go,
    Ecosystem::Npm,
    Ecosystem::Python,
    Ecosystem::Php,
    Ecosystem::Dart,
    Ecosystem::CSharp,
    Ecosystem::Elixir,
    Ecosystem::Jvm,
    Ecosystem::Swift,
];

#[test]
fn swift_is_the_only_ecosystem_without_a_registry() {
    for ecosystem in ALL {
        let expected = ecosystem != Ecosystem::Swift;
        assert_eq!(ecosystem.has_registry(), expected, "{ecosystem:?}");
        assert_eq!(
            !ecosystem.default_registry().is_empty(),
            expected,
            "{ecosystem:?}: a registry URL and `has_registry` must agree"
        );
    }
}

#[test]
fn swift_advisories_are_keyed_by_repository_url() {
    assert_eq!(Ecosystem::Swift.osv_name(), "SwiftURL");
    assert_eq!(
        Ecosystem::Swift.package_url("github.com/vapor/vapor"),
        "https://github.com/vapor/vapor"
    );

    assert_eq!(
        Ecosystem::Swift.version_url("github.com/vapor/vapor", "4.92.1"),
        Ecosystem::Swift.package_url("github.com/vapor/vapor")
    );
    assert_eq!(
        Ecosystem::Swift.docs_url("github.com/vapor/vapor", "4.92.1"),
        None
    );
}

#[test]
fn every_ecosystem_can_name_a_page_for_a_package() {
    for ecosystem in ALL {
        let url = ecosystem.package_url("serde");
        assert!(url.starts_with("https://"), "{ecosystem:?}: {url}");
        assert!(url.contains("serde"), "{ecosystem:?}: {url}");

        let versioned = ecosystem.version_url("serde", "1.0.219");
        assert!(versioned.starts_with("https://"), "{ecosystem:?}");
        assert!(versioned.contains("serde"), "{ecosystem:?}");
    }
}

#[test]
fn a_package_page_is_the_readable_one_not_the_api() {

    assert_eq!(
        Ecosystem::Rust.package_url("serde"),
        "https://crates.io/crates/serde"
    );
    assert_eq!(
        Ecosystem::Npm.package_url("@types/node"),
        "https://www.npmjs.com/package/@types/node",
        "a scoped name goes in whole"
    );
    assert_eq!(
        Ecosystem::Go.package_url("github.com/spf13/cobra"),
        "https://pkg.go.dev/github.com/spf13/cobra",
        "a module path is the name"
    );
    assert_eq!(
        Ecosystem::Jvm.package_url("com.google.guava:guava"),
        "https://central.sonatype.com/artifact/com.google.guava/guava",
        "a Maven coordinate is one name spelled with a colon"
    );
    assert_eq!(
        Ecosystem::Jvm.version_url("com.google.guava:guava", "33.0.0-jre"),
        "https://central.sonatype.com/artifact/com.google.guava/guava/33.0.0-jre"
    );
}

#[test]
fn a_version_without_a_page_of_its_own_falls_back_to_the_package() {

    assert_eq!(
        Ecosystem::Php.version_url("monolog/monolog", "3.5.0"),
        Ecosystem::Php.package_url("monolog/monolog")
    );
    assert_eq!(
        Ecosystem::Rust.version_url("serde", "1.0.219"),
        "https://crates.io/crates/serde/1.0.219"
    );
}

#[test]
fn only_the_ecosystems_that_build_docs_offer_a_docs_page() {
    assert_eq!(
        Ecosystem::Rust.docs_url("serde", "1.0.219").as_deref(),
        Some("https://docs.rs/serde/1.0.219")
    );
    assert_eq!(
        Ecosystem::Elixir.docs_url("phoenix", "1.7.0").as_deref(),
        Some("https://hexdocs.pm/phoenix/1.7.0")
    );

    for ecosystem in [
        Ecosystem::Go,
        Ecosystem::Npm,
        Ecosystem::Python,
        Ecosystem::Php,
        Ecosystem::CSharp,
        Ecosystem::Jvm,
    ] {
        assert_eq!(ecosystem.docs_url("a", "1.0.0"), None, "{ecosystem:?}");
    }
}

#[test]
fn rust_maps_to_crates_io_for_osv() {
    assert_eq!(Ecosystem::Rust.osv_name(), "crates.io");
    assert_eq!(
        Ecosystem::Rust.default_registry(),
        "https://index.crates.io"
    );
}
