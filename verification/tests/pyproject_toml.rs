use dependable_core::{Item, PackageSource, ParsedManifest, Parser, PyprojectTomlParser};

fn parse(content: &str) -> ParsedManifest {
    PyprojectTomlParser.parse(content).unwrap()
}

fn find<'a>(m: &'a ParsedManifest, name: &str) -> &'a Item {
    m.items
        .iter()
        .find(|i| i.name == name)
        .unwrap_or_else(|| panic!("missing {name}"))
}

fn sliced<'a>(content: &'a str, item: &Item) -> &'a str {
    let line = content.lines().nth(item.version_line).unwrap();
    &line[item.version_col_start..item.version_col_end]
}

#[test]
fn parses_poetry_dependencies() {
    let content = "[tool.poetry.dependencies]\npython = \"^3.10\"\nrequests = \"^2.28\"\nrich = { version = \">=13.0\", optional = true }\nlocal = { path = \"../local\" }\n";
    let m = parse(content);
    assert!(m.items.iter().all(|i| i.name != "python"));
    assert_eq!(find(&m, "requests").version_constraint, "^2.28");
    assert_eq!(sliced(content, find(&m, "requests")), "^2.28");
    assert_eq!(find(&m, "rich").version_constraint, ">=13.0");
    assert_eq!(sliced(content, find(&m, "rich")), ">=13.0");
    assert_eq!(find(&m, "local").source, PackageSource::Local);
}

#[test]
fn parses_pep621_project_dependencies() {
    let content = "[project]\nname = \"app\"\ndependencies = [\n  \"flask>=2.0\",\n  \"requests==2.28.1\",\n]\n\n[project.optional-dependencies]\ndev = [\"pytest>=7.0\"]\n";
    let m = parse(content);
    assert_eq!(find(&m, "flask").version_constraint, ">=2.0");
    assert_eq!(sliced(content, find(&m, "flask")), ">=2.0");
    assert_eq!(find(&m, "requests").version_constraint, "==2.28.1");
    assert_eq!(sliced(content, find(&m, "requests")), "==2.28.1");
    assert_eq!(find(&m, "pytest").version_constraint, ">=7.0");
}

#[test]
fn parses_dependency_groups() {
    let content = "[dependency-groups]\ntest = [\"pytest>=7.0\", \"coverage>=6.0\"]\n";
    let m = parse(content);
    assert_eq!(find(&m, "pytest").version_constraint, ">=7.0");
    assert_eq!(sliced(content, find(&m, "coverage")), ">=6.0");
}
