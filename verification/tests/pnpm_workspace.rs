use dependable_core::{Item, PackageSource, ParsedManifest, Parser, PnpmWorkspaceParser};

fn parse(content: &str) -> ParsedManifest {
    PnpmWorkspaceParser.parse(content).unwrap()
}

fn sliced<'a>(content: &'a str, item: &Item) -> &'a str {
    let line = content.lines().nth(item.version_line).unwrap();
    &line[item.version_col_start..item.version_col_end]
}

#[test]
fn parses_default_catalog_and_named_catalogs() {
    let content = "packages:\n  - 'pkgs/*'\n\ncatalog:\n  react: ^18.2.0\n  lodash: \"4.17.21\"  # pinned\n\ncatalogs:\n  legacy:\n    react: ^17.0.0\n";
    let m = parse(content);

    let react: Vec<&str> = m
        .items
        .iter()
        .filter(|i| i.name == "react")
        .map(|i| i.version_constraint.as_str())
        .collect();
    assert!(react.contains(&"^18.2.0"));
    assert!(react.contains(&"^17.0.0"));

    let lodash = m.items.iter().find(|i| i.name == "lodash").unwrap();
    assert_eq!(lodash.version_constraint, "4.17.21");
    assert_eq!(sliced(content, lodash), "4.17.21");
    assert_eq!(lodash.source, PackageSource::Registry);
}

#[test]
fn records_unquoted_value_position() {
    let content = "catalog:\n  react: ^18.2.0\n";
    let m = parse(content);
    let react = m.items.iter().find(|i| i.name == "react").unwrap();
    assert_eq!(sliced(content, react), "^18.2.0");
}

#[test]
fn ignores_non_catalog_sections() {
    let content = "packages:\n  - 'pkgs/*'\nonlyBuiltDependencies:\n  - esbuild\n";
    let m = parse(content);
    assert!(m.items.is_empty());
}
