use dependable_core::lockfiles::cargo_lock::pick_locked;
use dependable_core::{
    apply_lockfile, parse, parse_dart_pubspec_lock, parse_lockfile, parse_lockfile_kind, Item,
    LockfileKind, ManifestKind, ParseError,
};

fn vers(list: &[&str]) -> Vec<String> {
    list.iter().map(|s| (*s).to_owned()).collect()
}

fn declared(name: &str, constraint: &str) -> Item {
    let mut items = parse(ManifestKind::RequirementsTxt, "any\n").unwrap().items;
    let mut item = items.remove(0);
    item.name = name.to_owned();
    item.version_constraint = constraint.to_owned();
    item
}

#[test]
fn the_newest_locked_version_that_satisfies_is_picked() {
    assert_eq!(pick_locked(&vers(&["1.2.0", "1.10.0", "2.0.0"]), "^1"), Some("1.10.0".to_owned()));
    assert_eq!(pick_locked(&vers(&["1.2.0", "1.10.0", "2.0.0"]), "^^"), Some("2.0.0".to_owned()));
    assert_eq!(pick_locked(&vers(&["3.0.0"]), "^1"), Some("3.0.0".to_owned()));
    assert_eq!(pick_locked(&vers(&["1.2.0", "1.10.0"]), "^9"), Some("1.2.0".to_owned()));
    assert_eq!(pick_locked(&vers(&["b", "a"]), "^9"), Some("b".to_owned()));
    assert_eq!(pick_locked(&vers(&[]), "^9"), None);
}

#[test]
fn a_lockfile_touches_nothing_but_the_locked_version() {
    let lock = "[[package]]\nname = \"a\"\nversion = \"1.0.0\"\n";
    let data = parse_lockfile_kind(LockfileKind::CargoLock, lock).unwrap();
    let mut items = vec![declared("a", "^1"), declared("b", "^1")];
    let before = items.clone();
    apply_lockfile(&mut items, &data);
    assert_eq!(items[0].locked_version.as_deref(), Some("1.0.0"));
    assert_eq!(items[1], before[1]);
    let once = items.clone();
    apply_lockfile(&mut items, &data);
    assert_eq!(items, once);
    items[0].locked_version = None;
    assert_eq!(items, before);
}

#[test]
fn a_pubspec_lock_lists_its_packages() {
    let lock = "# generated\npackages:\n  async:\n    dependency: transitive\n    description:\n      name: async\n      version: \"9\"\n    source: hosted\n    version: \"2.11.0\"\n  \"http\":\n    version: '1.1.0'\nsdks:\n  dart:\n    version: \"3\"\n";
    let data = parse_dart_pubspec_lock(lock).unwrap();
    assert_eq!(data.versions.len(), 2);
    assert_eq!(data.versions.get("async").unwrap(), &["2.11.0"]);
    assert_eq!(data.versions.get("http").unwrap(), &["1.1.0"]);
}

#[test]
fn a_manifest_is_locked_by_its_first_lockfile() {
    assert!(matches!(
        parse_lockfile(ManifestKind::GoMod, ""),
        Err(ParseError::Unsupported(ManifestKind::GoMod))
    ));
    assert!(matches!(parse_lockfile(ManifestKind::CargoToml, "[x"), Err(ParseError::Toml(_))));
    let npm = "{\"packages\": {\"node_modules/a\": {\"version\": \"1.0.0\"}}}";
    let data = parse_lockfile(ManifestKind::PackageJson, npm).unwrap();
    assert_eq!(data.versions.get("a").unwrap(), &["1.0.0"]);
    assert!(parse_lockfile_kind(LockfileKind::BunLock, npm).unwrap().versions.is_empty());
    for kind in [
        LockfileKind::PackageLockJson,
        LockfileKind::BunLock,
        LockfileKind::ComposerLock,
        LockfileKind::PubspecLock,
        LockfileKind::MixLock,
    ] {
        assert!(parse_lockfile_kind(kind, "{{{").is_ok(), "{kind:?}");
    }
}
