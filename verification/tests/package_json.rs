use dependable_core::parsers::package_json::{override_name, override_reference};
use dependable_core::{DependencyKind, Item, PackageJsonParser, PackageSource, ParsedManifest, Parser};


fn parse(content: &str) -> ParsedManifest {
    PackageJsonParser.parse(content).unwrap()
}

fn find<'a>(m: &'a ParsedManifest, name: &str) -> &'a Item {
    m.items
        .iter()
        .find(|i| i.name == name)
        .unwrap_or_else(|| panic!("missing {name}"))
}

fn sliced<'a>(content: &'a str, item: &Item) -> &'a str {
    let line = content.lines().nth(item.version_line).unwrap();
    &line[item.version_col_start..item.version_col_end]
}

#[test]
fn parses_sections_and_records_positions() {
    let content = r#"{
  "dependencies": {
    "react": "^18.2.0",
    "lodash": "4.17.21"
  },
  "devDependencies": {
    "typescript": "~5.4.0"
  }
}"#;
    let m = parse(content);
    let react = find(&m, "react");
    assert_eq!(react.version_constraint, "^18.2.0");
    assert_eq!(sliced(content, react), "^18.2.0");
    assert_eq!(react.source, PackageSource::Registry);
    assert_eq!(sliced(content, find(&m, "typescript")), "~5.4.0");
}

#[test]
fn resolves_npm_and_jsr_aliases_with_version_span() {
    let content = r#"{
  "dependencies": {
    "my-left-pad": "npm:left-pad@1.3.0",
    "path": "jsr:@std/path@^1.0.0"
  }
}"#;
    let m = parse(content);
    let lp = find(&m, "left-pad");
    assert_eq!(lp.version_constraint, "1.3.0");
    assert_eq!(lp.source, PackageSource::Registry);
    assert_eq!(sliced(content, lp), "1.3.0");

    let p = find(&m, "@std/path");
    assert_eq!(p.version_constraint, "^1.0.0");
    assert_eq!(p.source, PackageSource::Jsr);
    assert_eq!(sliced(content, p), "^1.0.0");
}

#[test]
fn classifies_local_and_git_specs() {
    let content = r#"{
  "dependencies": {
    "linked": "link:../linked",
    "wsdep": "workspace:*",
    "fromgit": "git+https://example.com/x.git",
    "catdep": "catalog:"
  }
}"#;
    let m = parse(content);
    assert_eq!(find(&m, "linked").source, PackageSource::Local);
    assert_eq!(find(&m, "wsdep").source, PackageSource::Local);
    assert_eq!(find(&m, "fromgit").source, PackageSource::Git);
    assert_eq!(find(&m, "catdep").source, PackageSource::Local);
    assert!(!find(&m, "linked").is_checkable());
}

#[test]
fn section_determines_dependency_kind() {
    let content = r#"{
  "dependencies": { "react": "^18.0.0" },
  "devDependencies": { "vitest": "^1.0.0" },
  "peerDependencies": { "react-dom": "^18.0.0" },
  "optionalDependencies": { "fsevents": "^2.3.0" },
  "catalog": { "lodash": "^4.17.21" }
}"#;
    let m = parse(content);
    assert_eq!(find(&m, "react").kind, DependencyKind::Normal);
    assert_eq!(find(&m, "vitest").kind, DependencyKind::Dev);
    assert_eq!(find(&m, "react-dom").kind, DependencyKind::Peer);
    assert_eq!(find(&m, "fsevents").kind, DependencyKind::Optional);
    assert_eq!(find(&m, "lodash").kind, DependencyKind::Workspace);
}

#[test]
fn parses_pnpm_catalogs_in_package_json() {
    let content = r#"{
  "catalog": { "react": "^18.0.0" },
  "catalogs": { "legacy": { "react": "^17.0.0" } }
}"#;
    let m = parse(content);

    let reacts: Vec<&str> = m
        .items
        .iter()
        .filter(|i| i.name == "react")
        .map(|i| i.version_constraint.as_str())
        .collect();
    assert!(reacts.contains(&"^18.0.0"));
    assert!(reacts.contains(&"^17.0.0"));
}

#[test]
fn overrides_and_resolutions_are_collected() {
    let content = r#"{
          "dependencies": { "express": "^4.0.0" },
          "overrides": { "minimist": "1.2.6" },
          "resolutions": { "lodash": "4.17.21", "parent/debug": "4.3.4" },
          "pnpm": { "overrides": { "glob-parent": ">=5.1.2" } }
        }"#;
    let m = PackageJsonParser.parse(content).expect("valid JSON");
    let by_name = |n: &str| m.items.iter().find(|i| i.name == n).cloned();

    for name in ["minimist", "lodash", "debug", "glob-parent"] {
        let it = by_name(name).unwrap_or_else(|| panic!("{name} missing"));
        assert_eq!(it.kind, DependencyKind::Override, "{name}");
    }
    assert_eq!(by_name("minimist").unwrap().version_constraint, "1.2.6");
    assert_eq!(by_name("express").unwrap().kind, DependencyKind::Normal);
}

#[test]
fn nested_override_keys_resolve_to_the_package_they_name() {
    let content = r#"{ "overrides": { "foo": { ".": "1.0.0", "bar": "2.0.0" } } }"#;
    let m = PackageJsonParser.parse(content).expect("valid JSON");
    let names: Vec<&str> = m.items.iter().map(|i| i.name.as_str()).collect();
    assert!(names.contains(&"bar"), "got {names:?}");
    assert!(!names.contains(&"."), "got {names:?}");
}

#[test]
fn resolution_key_paths_and_globs_name_the_last_segment() {
    assert_eq!(override_name("parent/child").as_deref(), Some("child"));
    assert_eq!(override_name("**/lodash").as_deref(), Some("lodash"));
    assert_eq!(override_name("@scope/pkg").as_deref(), Some("@scope/pkg"));
    assert_eq!(override_name("lodash@^4").as_deref(), Some("lodash"));
    assert_eq!(override_name("**/@scope/pkg").as_deref(), Some("@scope/pkg"));
    assert_eq!(override_name("parent/@scope/pkg").as_deref(), Some("@scope/pkg"));
    assert_eq!(override_name("@scope/pkg@^1").as_deref(), Some("@scope/pkg"));
    assert_eq!(override_name(".").as_deref(), None);
}

#[test]
fn a_dollar_override_resolves_to_the_dependency_it_names() {
    let content = r#"{
  "dependencies": { "semver": "^7.5.0" },
  "overrides": { "semver": "$semver" }
}"#;
    let m = parse(content);
    let overridden = m
        .items
        .iter()
        .find(|i| i.kind == DependencyKind::Override)
        .expect("an override item");
    assert_eq!(overridden.name, "semver");
    assert_eq!(overridden.version_constraint, "^7.5.0");
    assert_eq!(overridden.source, PackageSource::Registry);

    assert!(!overridden.is_rewritable());
}

#[test]
fn a_dollar_override_naming_nothing_declared_is_unresolvable() {
    let content = r#"{ "overrides": { "semver": "$semver" } }"#;
    let m = parse(content);
    let overridden = m.items.first().expect("an override item");
    assert_eq!(overridden.name, "semver");
    assert_eq!(overridden.source, PackageSource::Unresolved);
    assert!(!overridden.is_checkable());
}

#[test]
fn a_dollar_is_only_a_reference_inside_an_override() {
    assert_eq!(override_reference("$semver").as_deref(), Some("semver"));
    assert_eq!(override_reference("$@scope/pkg").as_deref(), Some("@scope/pkg"));
    assert_eq!(override_reference("$").as_deref(), None);
    assert_eq!(override_reference("^7.5.0").as_deref(), None);

    let content = r#"{ "dependencies": { "weird": "$semver" } }"#;
    let m = parse(content);
    assert_eq!(find(&m, "weird").version_constraint, "$semver");
}

#[test]
fn a_scoped_override_key_names_the_package_after_the_last_arrow() {
    assert_eq!(override_name("foo@2>bar").as_deref(), Some("bar"));
    assert_eq!(override_name("foo>bar").as_deref(), Some("bar"));
    assert_eq!(override_name("a>b>c").as_deref(), Some("c"));
    assert_eq!(
        override_name("@scope/pkg@1>@scope/other").as_deref(),
        Some("@scope/other")
    );
    assert_eq!(override_name("foo").as_deref(), Some("foo"));
}

#[test]
fn a_scoped_pnpm_override_is_checked_as_the_package_it_pins() {
    let content = r#"{ "pnpm": { "overrides": { "foo@2>bar": "3.0.0" } } }"#;
    let m = parse(content);
    let names: Vec<&str> = m.items.iter().map(|i| i.name.as_str()).collect();
    assert_eq!(names, vec!["bar"], "got {names:?}");
    assert_eq!(find(&m, "bar").kind, DependencyKind::Override);
}
