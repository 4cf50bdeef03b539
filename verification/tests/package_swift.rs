use dependable_core::{ManifestKind, PackageSwiftParser, Parser};

const MANIFEST: &str = r#"// swift-tools-version:5.9
import PackageDescription

var deps: [Package.Dependency] = [
    .package(url: "https://github.com/apple/swift-nio.git", from: "2.65.0"),
]
for extra in extraPackages {
    deps.append(.package(url: extra.url, from: extra.version))
}
#if canImport(Darwin)
deps.append(.package(url: "https://github.com/apple/swift-log.git", from: "1.5.0"))
#endif

let package = Package(name: "demo", dependencies: deps)
"#;

#[test]
fn reads_no_dependencies_from_an_executable_manifest() {
    let parsed = PackageSwiftParser.parse(MANIFEST).expect("never fails");
    assert!(
        parsed.items.is_empty(),
        "Package.swift must not be read as text"
    );
    assert_eq!(parsed.kind, ManifestKind::PackageSwift);

    assert!(parsed.notices.is_empty());
}

#[test]
fn even_nonsense_parses_rather_than_failing() {
    assert!(PackageSwiftParser.parse("").is_ok());
    assert!(PackageSwiftParser.parse("{{{ not swift").is_ok());
}
