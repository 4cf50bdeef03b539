use dependable_core::lockfiles::bun_lock::split_descriptor;
use dependable_core::text::chars_of;
use dependable_core::{apply_lockfile, parse, parse_bun_lock, Item, LockfileData, ManifestKind};

fn locked(data: &LockfileData, name: &str) -> Vec<String> {
    data.versions.get(name).cloned().unwrap_or_default()
}

fn item(name: &str, constraint: &str) -> Item {
    let mut items = parse(ManifestKind::RequirementsTxt, "any
").unwrap().items;
    let mut item = items.remove(0);
    item.name = name.to_owned();
    item.version_constraint = constraint.to_owned();
    item.version_line = 0;
    item.version_col_start = 0;
    item.version_col_end = 0;
    item
}

fn descriptor(text: &str) -> Option<(String, String)> {
    let chars = chars_of(text);
    split_descriptor(&chars).map(|(name, version)| (name.iter().collect(), version.iter().collect()))
}

const LOCK: &str = r#"{
  // Bun writes JSONC, comments and all.
  "lockfileVersion": 1,
  "workspaces": {
    "": { "name": "app", "dependencies": { "react": "^19.0.0" } },
  },
  "packages": {
    "react": ["react@19.0.0", "", { "dependencies": { "scheduler": "^0.25.0" } }, "sha512-aaa"],
    "scheduler": ["scheduler@0.25.0", "", {}, "sha512-bbb"],
    "@acme/ui": ["@acme/ui@2.1.0", "", {}, "sha512-ccc"],
    "@acme/lib": ["@acme/lib@workspace:packages/lib"],
  },
}"#;

#[test]
fn reads_versions_from_the_descriptor_array() {
    let data = parse_bun_lock(LOCK).unwrap();
    assert_eq!(locked(&data, "react"), ["19.0.0"]);
    assert_eq!(locked(&data, "scheduler"), ["0.25.0"]);
}

#[test]
fn a_scoped_name_splits_at_its_last_at_sign() {
    let data = parse_bun_lock(LOCK).unwrap();
    assert_eq!(locked(&data, "@acme/ui"), ["2.1.0"]);
}

#[test]
fn a_workspace_link_reports_no_version() {

    let data = parse_bun_lock(LOCK).unwrap();
    assert!(!data.versions.contains_key("@acme/lib"));
}

#[test]
fn a_location_is_not_reported_as_a_version() {
    for text in [
        "a@workspace:packages/a",
        "a@file:../a",
        "a@link:../a",
        "a@github:owner/repo",
    ] {
        assert_eq!(descriptor(text), None, "{text}");
    }
}

#[test]
fn an_alias_is_recorded_against_the_name_it_is_installed_as() {

    assert_eq!(descriptor("a@npm:other@1.0.0"), Some(("a".to_owned(), "1.0.0".to_owned())));
    assert_eq!(
        descriptor("@scope/a@npm:other@2.0.0"),
        Some(("@scope/a".to_owned(), "2.0.0".to_owned()))
    );
}

#[test]
fn a_descriptor_without_a_version_is_ignored() {
    assert_eq!(descriptor("react"), None);
    assert_eq!(descriptor("@scope/name"), None);
    assert_eq!(descriptor(""), None);
    assert_eq!(descriptor("@"), None);
}

#[test]
fn applies_locked_versions_to_declared_items() {
    let mut items = vec![item("react", "^19.0.0")];
    let data = parse_bun_lock(LOCK).unwrap();
    apply_lockfile(&mut items, &data);
    assert_eq!(items[0].locked_version.as_deref(), Some("19.0.0"));
}

#[test]
fn the_npm_shape_yields_nothing_rather_than_wrong_answers() {

    let npm = r#"{"packages":{"node_modules/react":{"version":"19.0.0"}}}"#;
    assert!(parse_bun_lock(npm).unwrap().versions.is_empty());
}
