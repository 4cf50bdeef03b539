use dependable_core::parse_cargo_lock_graph;

const LOCK: &str = r#"
version = 4

[[package]]
name = "app"
version = "0.1.0"
dependencies = [
 "serde",
 "getrandom 0.2.17",
]

[[package]]
name = "serde"
version = "1.0.200"
source = "registry+https://github.com/rust-lang/crates.io-index"
checksum = "abc"

[[package]]
name = "getrandom"
version = "0.2.17"
source = "registry+https://github.com/rust-lang/crates.io-index"

[[package]]
name = "getrandom"
version = "0.3.4"
source = "registry+https://github.com/rust-lang/crates.io-index"
"#;

#[test]
fn captures_source_and_edges() {
    let lock = parse_cargo_lock_graph(LOCK).unwrap();
    assert_eq!(lock.packages.len(), 4);

    let app = &lock.packages[0];
    assert_eq!(app.name, "app");
    assert_eq!(app.source, None);
    assert_eq!(app.dependencies, vec!["serde", "getrandom 0.2.17"]);

    let serde = &lock.packages[1];
    assert_eq!(
        serde.source.as_deref(),
        Some("registry+https://github.com/rust-lang/crates.io-index")
    );
    assert!(serde.dependencies.is_empty());
}

#[test]
fn resolves_bare_name_to_unique_package() {
    let lock = parse_cargo_lock_graph(LOCK).unwrap();
    let idx = lock.resolve("serde").unwrap();
    assert_eq!(lock.packages[idx].name, "serde");
}

#[test]
fn resolves_disambiguated_name_and_version() {
    let lock = parse_cargo_lock_graph(LOCK).unwrap();
    let idx = lock.resolve("getrandom 0.2.17").unwrap();
    assert_eq!(lock.packages[idx].version, "0.2.17");

    let other = lock.resolve("getrandom 0.3.4").unwrap();
    assert_eq!(lock.packages[other].version, "0.3.4");
}

#[test]
fn resolves_three_token_source_form() {
    let lock = parse_cargo_lock_graph(LOCK).unwrap();
    let idx = lock
        .resolve("getrandom 0.2.17 (registry+https://github.com/rust-lang/crates.io-index)")
        .unwrap();
    assert_eq!(lock.packages[idx].version, "0.2.17");
}

#[test]
fn unknown_dependency_resolves_to_none() {
    let lock = parse_cargo_lock_graph(LOCK).unwrap();
    assert_eq!(lock.resolve("nonexistent"), None);
    assert_eq!(lock.resolve("getrandom 9.9.9"), None);
}

#[test]
fn empty_lockfile_is_ok() {
    let lock = parse_cargo_lock_graph("version = 4\n").unwrap();
    assert!(lock.packages.is_empty());
}
