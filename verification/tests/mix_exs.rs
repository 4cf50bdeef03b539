use dependable_core::{Item, MixExsParser, PackageSource, ParsedManifest, Parser};

fn parse(content: &str) -> ParsedManifest {
    MixExsParser.parse(content).unwrap()
}

fn sliced<'a>(content: &'a str, item: &Item) -> &'a str {
    let line = content.lines().nth(item.version_line).unwrap();
    &line[item.version_col_start..item.version_col_end]
}

#[test]
fn parses_registry_deps_and_positions() {
    let content = "  defp deps do\n    [\n      {:phoenix, \"~> 1.7.10\"},\n      {:ecto_sql, \"~> 3.10\", only: :test},\n      {:jason, \">= 1.0.0\"}\n    ]\n  end\n";
    let m = parse(content);
    let names: Vec<&str> = m.items.iter().map(|i| i.name.as_str()).collect();
    assert_eq!(names, vec!["phoenix", "ecto_sql", "jason"]);

    let phoenix = m.items.iter().find(|i| i.name == "phoenix").unwrap();
    assert_eq!(phoenix.version_constraint, "~> 1.7.10");
    assert_eq!(sliced(content, phoenix), "~> 1.7.10");
    assert_eq!(phoenix.source, PackageSource::Registry);
}

#[test]
fn skips_path_git_and_umbrella_deps() {
    let content = "[\n  {:phoenix, \"~> 1.7\"},\n  {:local, path: \"../local\"},\n  {:remote, git: \"https://example.com/r.git\"},\n  {:forked, github: \"org/repo\"},\n  {:sibling, in_umbrella: true}\n]\n";
    let m = parse(content);
    let names: Vec<&str> = m.items.iter().map(|i| i.name.as_str()).collect();
    assert_eq!(names, vec!["phoenix"]);
}
