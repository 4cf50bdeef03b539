use dependable_core::{DenoJsonParser, Item, PackageSource, ParsedManifest, Parser};

fn parse(content: &str) -> ParsedManifest {
    DenoJsonParser.parse(content).unwrap()
}

fn find<'a>(m: &'a ParsedManifest, name: &str) -> &'a Item {
    m.items
        .iter()
        .find(|i| i.name == name)
        .unwrap_or_else(|| panic!("missing {name}"))
}

fn sliced<'a>(content: &'a str, item: &Item) -> &'a str {
    let line = content.lines().nth(item.version_line).unwrap();
    &line[item.version_col_start..item.version_col_end]
}

#[test]
fn parses_imports_keeping_only_jsr_and_npm() {
    let content = r#"{
  // import map
  "imports": {
    "@std/path": "jsr:@std/path@^1.0.0",
    "chalk": "npm:chalk@5.3.0",
    "local": "./local.ts",
    "remote": "https://deno.land/x/foo@1.0.0/mod.ts"
  }
}"#;
    let m = parse(content);
    assert_eq!(m.items.len(), 2);
    let path = find(&m, "@std/path");
    assert_eq!(path.source, PackageSource::Jsr);
    assert_eq!(path.version_constraint, "^1.0.0");
    assert_eq!(sliced(content, path), "^1.0.0");
    let chalk = find(&m, "chalk");
    assert_eq!(chalk.source, PackageSource::Registry);
    assert_eq!(sliced(content, chalk), "5.3.0");
}

#[test]
fn parses_scopes() {
    let content = r#"{
  "scopes": {
    "https://example.com/": {
      "@std/assert": "jsr:@std/assert@^1.0.0"
    }
  }
}"#;
    let m = parse(content);
    assert_eq!(find(&m, "@std/assert").source, PackageSource::Jsr);
    assert_eq!(find(&m, "@std/assert").version_constraint, "^1.0.0");
}
