use dependable_core::{apply_lockfile, parse, parse_mix_lock, Item, LockfileData, ManifestKind};

fn locked(data: &LockfileData, name: &str) -> Vec<String> {
    data.versions.get(name).cloned().unwrap_or_default()
}

fn item(name: &str, constraint: &str) -> Item {
    let mut items = parse(ManifestKind::RequirementsTxt, "any
").unwrap().items;
    let mut item = items.remove(0);
    item.name = name.to_owned();
    item.version_constraint = constraint.to_owned();
    item.version_line = 0;
    item.version_col_start = 0;
    item.version_col_end = 0;
    item
}

const LOCK: &str = "%{\n  \"phoenix\": {:hex, :phoenix, \"1.7.10\", \"abc\", [:mix], [{:telemetry, \"~> 1.0\", [hex: :telemetry]}], \"hexpm\", \"def\"},\n  \"telemetry\": {:hex, :telemetry, \"1.2.1\", \"aaa\", [:rebar3], [], \"hexpm\", \"bbb\"},\n  \"forked\": {:git, \"https://example.com/forked.git\", \"a1b2\", []},\n}\n";

#[test]
fn extracts_hex_versions_only() {
    let data = parse_mix_lock(LOCK).unwrap();
    assert_eq!(locked(&data, "phoenix"), vec!["1.7.10"]);
    assert_eq!(locked(&data, "telemetry"), vec!["1.2.1"]);

    assert!(!data.versions.contains_key("forked"));
}

#[test]
fn mix_lock_applies_locked_version() {
    let data = parse_mix_lock(LOCK).unwrap();
    let mut items = vec![item("phoenix", "~> 1.7")];
    apply_lockfile(&mut items, &data);
    assert_eq!(items[0].locked_version.as_deref(), Some("1.7.10"));
}
