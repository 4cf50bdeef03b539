use dependable_core::{ComposerJsonParser, Item, ParsedManifest, Parser};

fn parse(content: &str) -> ParsedManifest {
    ComposerJsonParser.parse(content).unwrap()
}

fn find<'a>(m: &'a ParsedManifest, name: &str) -> &'a Item {
    m.items
        .iter()
        .find(|i| i.name == name)
        .unwrap_or_else(|| panic!("missing {name}"))
}

fn sliced<'a>(content: &'a str, item: &Item) -> &'a str {
    let line = content.lines().nth(item.version_line).unwrap();
    &line[item.version_col_start..item.version_col_end]
}

#[test]
fn parses_require_and_skips_platform_packages() {
    let content = r#"{
  "require": {
    "php": ">=8.1",
    "monolog/monolog": "^2.0",
    "ext-mbstring": "*"
  },
  "require-dev": {
    "phpunit/phpunit": "^9.5"
  }
}"#;
    let m = parse(content);
    assert_eq!(m.items.len(), 2);
    let monolog = find(&m, "monolog/monolog");
    assert_eq!(monolog.version_constraint, "^2.0");
    assert_eq!(sliced(content, monolog), "^2.0");
    assert_eq!(find(&m, "phpunit/phpunit").version_constraint, "^9.5");
}
