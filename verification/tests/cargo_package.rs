use dependable_core::table::TextTable;
use dependable_core::{
    parse_package_manifest, AutoTargets, CargoPackageManifest, CargoTargetKind, DependencySection,
    PackageField,
};

fn parse(content: &str) -> CargoPackageManifest {
    parse_package_manifest(content).expect("valid TOML")
}

#[test]
fn reads_package_identity_and_inheritance() {
    let manifest = parse(
        r#"
[package]
name = "karet-seam"
version.workspace = true
edition = "2024"
rust-version = "1.92"
"#,
    );
    assert_eq!(manifest.name.as_deref(), Some("karet-seam"));
    assert_eq!(manifest.version, Some(PackageField::Workspace));
    assert_eq!(
        manifest.edition.as_ref().and_then(PackageField::literal),
        Some("2024")
    );
    assert_eq!(
        manifest
            .rust_version
            .as_ref()
            .and_then(PackageField::literal),
        Some("1.92")
    );
}

#[test]
fn inherited_field_resolves_against_workspace_defaults() {
    let manifest = parse("[package]\nname = \"x\"\nversion.workspace = true\n");
    let mut defaults = TextTable::new();
    defaults.insert("version".to_owned(), "0.5.0".to_owned());
    let version = manifest.version.expect("version present");
    assert_eq!(version.resolve(&defaults, "version"), Some("0.5.0"));
    assert_eq!(version.literal(), None);
}

#[test]
fn virtual_manifest_has_no_package_name() {
    let manifest = parse("[workspace]\nmembers = [\"crates/*\"]\n");
    assert_eq!(manifest.name, None);
    assert!(manifest.features.is_empty());
    assert!(manifest.targets.is_empty());

    assert_eq!(manifest.auto_targets, AutoTargets::default());
}

#[test]
fn reads_features_and_their_members() {
    let manifest = parse(
        r#"
[features]
default = ["view"]
view = ["dep:ratatui"]
all-languages = ["lang-rust", "lang-python"]
lang-rust = []
lang-python = []
"#,
    );
    assert_eq!(manifest.default_features(), ["view"]);
    assert_eq!(
        manifest.features.get("all-languages").map(Vec::as_slice),
        Some(&["lang-rust".to_owned(), "lang-python".to_owned()][..])
    );
    assert_eq!(manifest.features.get("lang-rust").map(Vec::len), Some(0));
}

#[test]
fn default_features_is_empty_without_a_default_feature() {
    let manifest = parse("[features]\nview = []\n");
    assert!(manifest.default_features().is_empty());
}

#[test]
fn optional_dependencies_become_implicit_features() {
    let manifest = parse(
        r#"
[dependencies]
serde = { version = "1", optional = true }
ratatui = { version = "0.30", optional = true }
thiserror = "2"

[features]
view = ["dep:ratatui"]
"#,
    );

    assert_eq!(manifest.optional_dependencies, ["ratatui", "serde"]);
    assert_eq!(manifest.feature_names(), ["serde", "view"]);
}

#[test]
fn optional_build_dependencies_count_but_dev_ones_do_not() {
    let manifest = parse(
        r#"
[dev-dependencies]
tempfile = { version = "3", optional = true }

[build-dependencies]
cc = { version = "1", optional = true }
"#,
    );

    assert_eq!(manifest.optional_dependencies, ["cc"]);
    assert_eq!(manifest.feature_names(), ["cc"]);
}

#[test]
fn cfg_gated_optional_dependency_becomes_an_implicit_feature() {
    let manifest = parse(
        r#"
[target.'cfg(unix)'.dependencies]
libc = { version = "0.2", optional = true }

[target.'cfg(windows)'.build-dependencies]
cc = { version = "1", optional = true }

[target.'cfg(windows)'.dev-dependencies]
tempfile = { version = "3", optional = true }
"#,
    );
    assert_eq!(manifest.optional_dependencies, ["cc", "libc"]);
    assert_eq!(manifest.feature_names(), ["cc", "libc"]);
}

#[test]
fn dep_reference_suppresses_a_cfg_gated_implicit_feature() {
    let manifest = parse(
        r#"
[features]
unix-support = ["dep:libc"]

[target.'cfg(unix)'.dependencies]
libc = { version = "0.2", optional = true }
"#,
    );
    assert_eq!(manifest.optional_dependencies, ["libc"]);
    assert_eq!(manifest.feature_names(), ["unix-support"]);
}

#[test]
fn reads_declared_targets_in_manifest_order() {
    let manifest = parse(
        r#"
[package]
name = "karet"
build = "build.rs"

[lib]
name = "karet_lib"
path = "src/lib.rs"

[[bin]]
name = "karet"
path = "src/main.rs"

[[bin]]
name = "karet-helper"
required-features = ["extras"]

[[example]]
name = "demo"

[[bench]]
name = "throughput"

[[test]]
name = "integration"
"#,
    );
    let kinds: Vec<_> = manifest.targets.iter().map(|t| t.kind).collect();
    assert_eq!(
        kinds,
        [
            CargoTargetKind::Lib,
            CargoTargetKind::Bin,
            CargoTargetKind::Bin,
            CargoTargetKind::Test,
            CargoTargetKind::Bench,
            CargoTargetKind::Example,
            CargoTargetKind::BuildScript,
        ]
    );
    let helper = manifest
        .targets
        .iter()
        .find(|t| t.name.as_deref() == Some("karet-helper"))
        .expect("helper bin");
    assert_eq!(helper.required_features, ["extras"]);
    let build = manifest
        .targets
        .iter()
        .find(|t| t.kind == CargoTargetKind::BuildScript)
        .expect("build script");
    assert_eq!(build.path.as_deref(), Some("build.rs"));

    assert!(!manifest.auto_targets.build);
}

#[test]
fn build_false_declares_no_build_script_and_disables_discovery() {
    let manifest = parse("[package]\nname = \"x\"\nbuild = false\n");
    assert!(
        !manifest
            .targets
            .iter()
            .any(|t| t.kind == CargoTargetKind::BuildScript)
    );

    assert!(!manifest.auto_targets.build);
}

#[test]
fn build_discovery_is_enabled_only_when_the_key_is_absent() {
    let script_paths = |manifest: &CargoPackageManifest| -> Vec<Option<String>> {
        manifest
            .targets
            .iter()
            .filter(|t| t.kind == CargoTargetKind::BuildScript)
            .map(|t| t.path.clone())
            .collect()
    };

    let absent = parse("[package]\nname = \"x\"\n");
    assert!(script_paths(&absent).is_empty());
    assert!(absent.auto_targets.build);

    let disabled = parse("[package]\nname = \"x\"\nbuild = false\n");
    assert!(script_paths(&disabled).is_empty());
    assert!(!disabled.auto_targets.build);

    let shorthand = parse("[package]\nname = \"x\"\nbuild = true\n");
    assert_eq!(script_paths(&shorthand), [Some("build.rs".to_owned())]);
    assert!(!shorthand.auto_targets.build);

    let named = parse("[package]\nname = \"x\"\nbuild = \"scripts/build.rs\"\n");
    assert_eq!(script_paths(&named), [Some("scripts/build.rs".to_owned())]);
    assert!(!named.auto_targets.build);

    let several = parse("[package]\nname = \"x\"\nbuild = [\"build.rs\", \"b2.rs\"]\n");
    assert_eq!(
        script_paths(&several),
        [Some("build.rs".to_owned()), Some("b2.rs".to_owned())]
    );
    assert!(!several.auto_targets.build);

    let rejected = parse("[package]\nname = \"x\"\nbuild = 3\n");
    assert!(script_paths(&rejected).is_empty());
}

#[test]
fn auto_target_flags_default_to_enabled_and_can_be_disabled() {
    assert_eq!(
        parse("[package]\nname = \"x\"\n").auto_targets,
        AutoTargets::default()
    );
    let manifest = parse(
        r#"
[package]
name = "x"
autobins = false
autotests = false
"#,
    );
    assert!(!manifest.auto_targets.bins);
    assert!(!manifest.auto_targets.tests);
    assert!(manifest.auto_targets.lib);
    assert!(manifest.auto_targets.benches);
    assert!(manifest.auto_targets.examples);
}

#[test]
fn reads_cfg_gated_dependency_tables() {
    let manifest = parse(
        r#"
[target.'cfg(unix)'.dependencies]
nix = "0.29"

[target.'cfg(windows)'.dev-dependencies]
winapi = "0.3"

[target.x86_64-pc-windows-msvc.build-dependencies]
cc = "1.2"
"#,
    );
    assert_eq!(manifest.cfg_dependency_tables.len(), 3);
    let unix = manifest
        .cfg_dependency_tables
        .iter()
        .find(|t| t.predicate == "cfg(unix)")
        .expect("unix table");
    assert_eq!(unix.section, DependencySection::Normal);
    assert_eq!(unix.items.len(), 1);
    assert_eq!(unix.items[0].name, "nix");
    assert_eq!(unix.items[0].version_constraint, "0.29");

    let sections: Vec<_> = manifest
        .cfg_dependency_tables
        .iter()
        .map(|t| t.section)
        .collect();
    assert!(sections.contains(&DependencySection::Dev));
    assert!(sections.contains(&DependencySection::Build));

    let triple = manifest
        .cfg_dependency_tables
        .iter()
        .find(|t| t.predicate == "x86_64-pc-windows-msvc")
        .expect("triple table");
    assert_eq!(triple.items[0].name, "cc");
}

#[test]
fn cfg_table_records_version_positions_for_fixes() {
    let content = "[target.'cfg(unix)'.dependencies]\nnix = \"0.29\"\n";
    let manifest = parse(content);
    let item = &manifest.cfg_dependency_tables[0].items[0];

    assert_eq!(item.version_line, 1);
    let line = content.lines().nth(1).expect("second line");
    assert_eq!(&line[item.version_col_start..item.version_col_end], "0.29");
}

#[test]
fn malformed_toml_is_an_error() {
    assert!(parse_package_manifest("[package\nname = \"x\"").is_err());
}

#[test]
fn table_name_round_trips_every_kind() {
    assert_eq!(CargoTargetKind::Lib.table_name(), "lib");
    assert_eq!(CargoTargetKind::Bin.table_name(), "bin");
    assert_eq!(CargoTargetKind::Test.table_name(), "test");
    assert_eq!(CargoTargetKind::Bench.table_name(), "bench");
    assert_eq!(CargoTargetKind::Example.table_name(), "example");
    assert_eq!(CargoTargetKind::BuildScript.table_name(), "build");
}
