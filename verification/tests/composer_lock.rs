use dependable_core::{apply_lockfile, parse, parse_composer_lock, Item, LockfileData, ManifestKind};

fn locked(data: &LockfileData, name: &str) -> Vec<String> {
    data.versions.get(name).cloned().unwrap_or_default()
}

fn item(name: &str, constraint: &str) -> Item {
    let mut items = parse(ManifestKind::RequirementsTxt, "any
").unwrap().items;
    let mut item = items.remove(0);
    item.name = name.to_owned();
    item.version_constraint = constraint.to_owned();
    item.version_line = 0;
    item.version_col_start = 0;
    item.version_col_end = 0;
    item
}

#[test]
fn extracts_versions_from_both_sections() {
    let lock = r#"{
  "packages": [
    { "name": "monolog/monolog", "version": "2.1.0" },
    { "name": "psr/log", "version": "v1.1.4" }
  ],
  "packages-dev": [
    { "name": "phpunit/phpunit", "version": "9.5.0" }
  ]
}"#;
    let data = parse_composer_lock(lock).unwrap();
    assert_eq!(locked(&data, "monolog/monolog"), vec!["2.1.0"]);
    assert_eq!(locked(&data, "psr/log"), vec!["1.1.4"]);
    assert_eq!(locked(&data, "phpunit/phpunit"), vec!["9.5.0"]);
}

#[test]
fn composer_lock_applies_locked_version() {
    let lock = r#"{ "packages": [ { "name": "monolog/monolog", "version": "2.1.0" } ] }"#;
    let data = parse_composer_lock(lock).unwrap();
    let mut items = vec![item("monolog/monolog", "^2.0")];
    apply_lockfile(&mut items, &data);
    assert_eq!(items[0].locked_version.as_deref(), Some("2.1.0"));
}
