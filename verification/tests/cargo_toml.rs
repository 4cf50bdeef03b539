use dependable_core::{parse_cargo_config, CargoTomlParser, Item, PackageSource, ParsedManifest, Parser};

fn parse(content: &str) -> ParsedManifest {
    CargoTomlParser.parse(content).unwrap()
}

fn sliced<'a>(content: &'a str, item: &Item) -> &'a str {
    let line = content.lines().nth(item.version_line).unwrap();
    &line[item.version_col_start..item.version_col_end]
}

fn find<'a>(m: &'a ParsedManifest, name: &str) -> &'a Item {
    m.items.iter().find(|i| i.name == name).unwrap()
}

#[test]
fn string_dependency_records_position() {
    let content = "[dependencies]\nserde = \"1.0\"\n";
    let m = parse(content);
    let it = find(&m, "serde");
    assert_eq!(it.version_constraint, "1.0");
    assert_eq!(it.source, PackageSource::Registry);
    assert_eq!(sliced(content, it), "1.0");
}

#[test]
fn inline_table_with_features() {
    let content = "[dependencies]\ntokio = { version = \"1.35\", features = [\"full\"] }\n";
    let m = parse(content);
    let it = find(&m, "tokio");
    assert_eq!(it.version_constraint, "1.35");
    assert_eq!(sliced(content, it), "1.35");
}

#[test]
fn expanded_table_form() {
    let content = "[dependencies.reqwest]\nversion = \"0.12\"\nfeatures = [\"json\"]\n";
    let m = parse(content);
    let it = find(&m, "reqwest");
    assert_eq!(it.version_constraint, "0.12");
    assert_eq!(sliced(content, it), "0.12");
}

#[test]
fn path_and_git_and_workspace_are_classified() {
    let content = "[dependencies]\nlocal = { path = \"../local\" }\nfromgit = { git = \"https://example.com/x\" }\nshared = { workspace = true }\n";
    let m = parse(content);
    assert_eq!(find(&m, "local").source, PackageSource::Local);
    assert_eq!(find(&m, "fromgit").source, PackageSource::Git);
    assert_eq!(find(&m, "shared").source, PackageSource::Inherited);
}

#[test]
fn dev_and_build_sections_and_registry() {
    let content = "[dev-dependencies]\ncriterion = \"0.5\"\n\n[build-dependencies]\ncc = \"1\"\n\n[dependencies]\nprivate = { version = \"2.0\", registry = \"my-registry\" }\n";
    let m = parse(content);
    assert_eq!(find(&m, "criterion").version_constraint, "0.5");
    assert_eq!(find(&m, "cc").version_constraint, "1");
    assert_eq!(find(&m, "private").registry.as_deref(), Some("my-registry"));
}

#[test]
fn parses_alternate_registry_decl() {
    let content = "[registries.my-registry]\nindex = \"https://example.com/index\"\n";
    let m = parse(content);
    assert_eq!(m.alternate_registries.len(), 1);
    assert_eq!(m.alternate_registries[0].name, "my-registry");
    assert_eq!(
        m.alternate_registries[0].index_url.as_deref(),
        Some("https://example.com/index")
    );
}

#[test]
fn cargo_config_merges_index_from_config_and_token_from_credentials() {
    let config = "[registries.corp]\nindex = \"sparse+https://corp.example/index/\"\n";
    let credentials = "[registries.corp]\ntoken = \"Bearer sekret\"\n";
    let decls = parse_cargo_config(config, Some(credentials));
    assert_eq!(decls.len(), 1);
    assert_eq!(decls[0].name, "corp");
    assert_eq!(
        decls[0].index_url.as_deref(),
        Some("sparse+https://corp.example/index/")
    );
    assert_eq!(decls[0].auth_token.as_deref(), Some("Bearer sekret"));
}

#[test]
fn cargo_config_credentials_token_overrides_inline_config_token() {
    let config = "[registries.corp]\nindex = \"https://corp.example/i\"\ntoken = \"inline\"\n";
    let credentials = "[registries.corp]\ntoken = \"from-credentials\"\n";
    let decls = parse_cargo_config(config, Some(credentials));
    assert_eq!(decls[0].auth_token.as_deref(), Some("from-credentials"));
}

#[test]
fn cargo_config_without_credentials_has_index_but_no_token() {
    let config = "[registries.corp]\nindex = \"https://corp.example/i\"\n";
    let decls = parse_cargo_config(config, None);
    assert_eq!(decls.len(), 1);
    assert_eq!(
        decls[0].index_url.as_deref(),
        Some("https://corp.example/i")
    );
    assert_eq!(decls[0].auth_token, None);
}

#[test]
fn cargo_config_ignores_malformed_and_unrelated_input() {

    assert!(parse_cargo_config("[registries.corp\nindex = \"x\"", None).is_empty());

    assert!(parse_cargo_config("[net]\nretry = 2\n", None).is_empty());
}
