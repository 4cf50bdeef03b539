use dependable_core::{Item, PackageSource, ParsedManifest, Parser, PubspecYamlParser};

fn parse(content: &str) -> ParsedManifest {
    PubspecYamlParser.parse(content).unwrap()
}

fn sliced<'a>(content: &'a str, item: &Item) -> &'a str {
    let line = content.lines().nth(item.version_line).unwrap();
    &line[item.version_col_start..item.version_col_end]
}

#[test]
fn parses_dependencies_and_dev_dependencies() {
    let content = "name: my_app\nversion: 1.0.0\n\nenvironment:\n  sdk: \">=2.12.0 <3.0.0\"\n\ndependencies:\n  flutter:\n    sdk: flutter\n  http: ^1.1.0\n  provider: \"6.0.5\"\n\ndev_dependencies:\n  flutter_test:\n    sdk: flutter\n  test: ^1.24.0\n";
    let m = parse(content);

    let names: Vec<&str> = m.items.iter().map(|i| i.name.as_str()).collect();
    assert_eq!(names, vec!["http", "provider", "test"]);

    let http = m.items.iter().find(|i| i.name == "http").unwrap();
    assert_eq!(http.version_constraint, "^1.1.0");
    assert_eq!(sliced(content, http), "^1.1.0");
    assert_eq!(http.source, PackageSource::Registry);

    let provider = m.items.iter().find(|i| i.name == "provider").unwrap();
    assert_eq!(provider.version_constraint, "6.0.5");
    assert_eq!(sliced(content, provider), "6.0.5");
}

#[test]
fn skips_path_and_git_dependencies() {
    let content = "dependencies:\n  http: ^1.1.0\n  local_pkg:\n    path: ../local_pkg\n  git_pkg:\n    git:\n      url: https://example.com/pkg.git\n";
    let m = parse(content);
    let names: Vec<&str> = m.items.iter().map(|i| i.name.as_str()).collect();
    assert_eq!(names, vec!["http"]);
}

#[test]
fn accepts_any_and_ignores_comments() {
    let content = "dependencies:\n  meta: any  # provided transitively\n  http: ^1.1.0\n";
    let m = parse(content);
    let meta = m.items.iter().find(|i| i.name == "meta").unwrap();
    assert_eq!(meta.version_constraint, "any");
    assert_eq!(sliced(content, meta), "any");
}

#[test]
fn ignores_non_dependency_sections() {
    let content = "name: my_app\ndescription: demo\nflutter:\n  uses-material-design: true\n";
    let m = parse(content);
    assert!(m.items.is_empty());
}

#[test]
fn a_version_has_a_digit_after_each_point() {
    for value in ["1.", "1..2", "1.x", "1.0.", "1.0.0-", "1.0.0-beta."] {
        let m = parse(&format!("dependencies:\n  a: {value}\n"));
        assert!(m.items.is_empty(), "{value}");
    }
    for value in ["1", "1.2", "1.0.0-beta.1+5", "^1.2.3"] {
        let content = format!("dependencies:\n  a: {value}\n");
        let m = parse(&content);
        assert_eq!(m.items.len(), 1, "{value}");
        assert_eq!(sliced(&content, &m.items[0]), value);
    }
}
