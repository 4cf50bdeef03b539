use dependable_core::{apply_lockfile, parse, parse_cargo_lock, Item, ManifestKind};

fn item(name: &str, constraint: &str) -> Item {
    let mut items = parse(ManifestKind::RequirementsTxt, "any
").unwrap().items;
    let mut item = items.remove(0);
    item.name = name.to_owned();
    item.version_constraint = constraint.to_owned();
    item.version_line = 0;
    item.version_col_start = 0;
    item.version_col_end = 0;
    item
}

#[test]
fn parses_and_applies_locked_versions() {
    let lock = r#"
[[package]]
name = "serde"
version = "1.0.200"

[[package]]
name = "serde"
version = "0.9.15"

[[package]]
name = "tokio"
version = "1.38.0"
"#;
    let data = parse_cargo_lock(lock).unwrap();
    let mut items = vec![item("serde", "^1.0"), item("tokio", "1")];
    apply_lockfile(&mut items, &data);

    assert_eq!(items[0].locked_version.as_deref(), Some("1.0.200"));
    assert_eq!(items[1].locked_version.as_deref(), Some("1.38.0"));
}
