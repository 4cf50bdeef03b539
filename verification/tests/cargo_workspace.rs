use dependable_core::{
    parse, parse_package_name, parse_workspace, resolve_workspace_inheritance, DependencyKind, Item,
    ManifestKind, PackageSource,
};

fn declarations(root: &str) -> Vec<Item> {
    parse(ManifestKind::CargoToml, root)
        .expect("root parses")
        .items
        .into_iter()
        .filter(|item| item.kind == DependencyKind::Workspace)
        .collect()
}

fn member(content: &str) -> Vec<Item> {
    parse(ManifestKind::CargoToml, content)
        .expect("member parses")
        .items
}

fn find<'a>(items: &'a [Item], name: &str) -> &'a Item {
    items
        .iter()
        .find(|item| item.name == name)
        .unwrap_or_else(|| panic!("no item {name}"))
}

#[test]
fn parses_virtual_workspace_root() {
    let toml = r#"
[workspace]
resolver = "2"
members = ["crates/*", "tools/gen"]
default-members = ["crates/app"]
exclude = ["crates/legacy"]
"#;
    let ws = parse_workspace(toml).unwrap();
    assert_eq!(ws.members, ["crates/*", "tools/gen"]);
    assert_eq!(ws.default_members, ["crates/app"]);
    assert_eq!(ws.exclude, ["crates/legacy"]);

    assert_eq!(parse_package_name(toml), None);
}

#[test]
fn parses_package_name() {
    let toml = r#"
[package]
name = "dependable-core"
version = "0.1.0"
"#;
    assert_eq!(parse_package_name(toml).as_deref(), Some("dependable-core"));
    assert_eq!(parse_workspace(toml), None);
}

#[test]
fn handles_root_that_is_both_package_and_workspace() {
    let toml = r#"
[package]
name = "root-crate"

[workspace]
members = ["sub"]
"#;
    assert_eq!(parse_package_name(toml).as_deref(), Some("root-crate"));
    assert_eq!(parse_workspace(toml).unwrap().members, ["sub"]);
}

#[test]
fn missing_tables_default_empty() {
    let toml = "[workspace]\n";
    let ws = parse_workspace(toml).unwrap();
    assert!(ws.members.is_empty());
    assert!(ws.default_members.is_empty());
    assert!(ws.exclude.is_empty());
    assert!(ws.package_defaults.is_empty());
}

#[test]
fn collects_string_valued_workspace_package_defaults() {
    let toml = r#"
[workspace]
members = ["crates/*"]

[workspace.package]
version = "0.5.0"
edition = "2024"
rust-version = "1.92"
license = "MIT OR Apache-2.0"
authors = ["Someone"]
keywords = ["tui", "editor"]
"#;
    let ws = parse_workspace(toml).unwrap();
    assert_eq!(
        ws.package_defaults.get("version").map(String::as_str),
        Some("0.5.0")
    );
    assert_eq!(
        ws.package_defaults.get("edition").map(String::as_str),
        Some("2024")
    );
    assert_eq!(
        ws.package_defaults.get("rust-version").map(String::as_str),
        Some("1.92")
    );
    assert_eq!(
        ws.package_defaults.get("license").map(String::as_str),
        Some("MIT OR Apache-2.0")
    );

    assert!(!ws.package_defaults.contains_key("authors"));
    assert!(!ws.package_defaults.contains_key("keywords"));
}
#[test]
fn a_member_inherits_the_roots_constraint_and_registry() {
    let decls = declarations(
        "[workspace.dependencies]\nserde = { version = \"1.0.200\", registry = \"internal\" }\n",
    );
    let mut items =
        member("[dependencies]\nserde = { workspace = true, features = [\"derive\"] }\n");

    let resolved = resolve_workspace_inheritance(&mut items, &decls);

    assert_eq!(resolved, ["serde"]);
    let serde = find(&items, "serde");
    assert_eq!(serde.version_constraint, "1.0.200");
    assert_eq!(serde.registry.as_deref(), Some("internal"));
    assert_eq!(serde.source, PackageSource::Inherited);
    assert!(
        serde.is_checkable(),
        "a resolved constraint is worth asking about"
    );
}

#[test]
fn inheriting_a_constraint_invents_no_position() {
    let decls = declarations("[workspace.dependencies]\nserde = \"1.0.200\"\n");
    let mut items =
        member("[package]\nname = \"member\"\n\n[dependencies]\nserde.workspace = true\n");

    let _ = resolve_workspace_inheritance(&mut items, &decls);

    let serde = find(&items, "serde");
    assert_eq!(
        (
            serde.version_line,
            serde.version_col_start,
            serde.version_col_end
        ),
        (0, 0, 0)
    );
    assert!(
        !serde.is_rewritable(),
        "nothing in this file may be rewritten"
    );
}

#[test]
fn a_path_dependency_sharing_a_name_is_never_promoted() {
    let decls = declarations("[workspace.dependencies]\nutil = \"1.0.0\"\n");
    let mut items = member("[dependencies]\nutil = { path = \"../util\" }\n");

    let resolved = resolve_workspace_inheritance(&mut items, &decls);

    assert!(resolved.is_empty(), "{resolved:?}");
    let util = find(&items, "util");
    assert_eq!(util.source, PackageSource::Local);
    assert!(util.version_constraint.is_empty());
}

#[test]
fn a_path_or_git_root_declaration_is_inherited_as_such() {
    let decls = declarations(
        "[workspace.dependencies]\nutil = { path = \"crates/util\" }\ngitdep = { git = \"https://example.com/g\" }\n",
    );
    let mut items = member("[dependencies]\nutil.workspace = true\ngitdep.workspace = true\n");

    let resolved = resolve_workspace_inheritance(&mut items, &decls);

    assert_eq!(resolved, ["util", "gitdep"]);
    assert_eq!(find(&items, "util").source, PackageSource::Local);
    assert_eq!(find(&items, "gitdep").source, PackageSource::Git);
    assert!(!find(&items, "util").is_checkable());
    assert!(!find(&items, "gitdep").is_checkable());
}

#[test]
fn only_workspace_kind_declarations_are_consulted() {
    let decls = parse(
        ManifestKind::CargoToml,
        "[dependencies]\nserde = \"1.0.200\"\n",
    )
    .expect("parses")
    .items;
    let mut items = member("[dependencies]\nserde.workspace = true\n");

    assert!(resolve_workspace_inheritance(&mut items, &decls).is_empty());
    assert!(find(&items, "serde").version_constraint.is_empty());
}

#[test]
fn an_undeclared_name_stays_unresolved_and_unchecked() {
    let decls = declarations("[workspace.dependencies]\nserde = \"1\"\n");
    let mut items = member("[dependencies]\ntokio.workspace = true\n");

    assert!(resolve_workspace_inheritance(&mut items, &decls).is_empty());
    let tokio = find(&items, "tokio");
    assert_eq!(tokio.source, PackageSource::Inherited);
    assert!(
        !tokio.is_checkable(),
        "no constraint means nothing to ask for"
    );
    assert!(!tokio.is_rewritable());
}

#[test]
fn a_declaration_that_supplies_nothing_resolves_nothing() {
    let decls = declarations("[workspace.dependencies]\nserde = { workspace = true }\n");
    let mut items = member("[dependencies]\nserde.workspace = true\n");

    assert!(resolve_workspace_inheritance(&mut items, &decls).is_empty());
    assert!(resolve_workspace_inheritance(&mut items, &decls).is_empty());
    assert!(find(&items, "serde").version_constraint.is_empty());
}

#[test]
fn resolution_is_idempotent() {
    let decls = declarations("[workspace.dependencies]\nserde = \"1.0.200\"\n");
    let mut items = member("[dependencies]\nserde.workspace = true\n");

    assert_eq!(resolve_workspace_inheritance(&mut items, &decls), ["serde"]);
    assert!(resolve_workspace_inheritance(&mut items, &decls).is_empty());
    assert_eq!(find(&items, "serde").version_constraint, "1.0.200");
}
