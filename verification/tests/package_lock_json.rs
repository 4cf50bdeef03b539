use dependable_core::{apply_lockfile, parse, parse_package_lock, Item, LockfileData, ManifestKind};

fn locked(data: &LockfileData, name: &str) -> Vec<String> {
    data.versions.get(name).cloned().unwrap_or_default()
}

fn item(name: &str, constraint: &str) -> Item {
    let mut items = parse(ManifestKind::RequirementsTxt, "any
").unwrap().items;
    let mut item = items.remove(0);
    item.name = name.to_owned();
    item.version_constraint = constraint.to_owned();
    item.version_line = 0;
    item.version_col_start = 0;
    item.version_col_end = 0;
    item
}

#[test]
fn extracts_versions_and_strips_node_modules() {
    let lock = r#"{
  "lockfileVersion": 3,
  "packages": {
    "": { "name": "root", "version": "1.0.0" },
    "node_modules/react": { "version": "18.2.0" },
    "node_modules/@scope/pkg": { "version": "2.1.0" },
    "node_modules/a/node_modules/b": { "version": "3.0.0" }
  }
}"#;
    let data = parse_package_lock(lock).unwrap();
    assert_eq!(locked(&data, "react"), vec!["18.2.0"]);
    assert_eq!(locked(&data, "@scope/pkg"), vec!["2.1.0"]);
    assert_eq!(locked(&data, "b"), vec!["3.0.0"]);

    assert!(!data.versions.contains_key("root"));
}

#[test]
fn applies_locked_version_to_items() {
    let lock = r#"{ "packages": { "node_modules/react": { "version": "18.2.0" } } }"#;
    let data = parse_package_lock(lock).unwrap();
    let mut items = vec![item("react", "^18.0.0")];
    apply_lockfile(&mut items, &data);
    assert_eq!(items[0].locked_version.as_deref(), Some("18.2.0"));
}
