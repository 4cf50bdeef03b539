use dependable_core::{GoModParser, Item, PackageSource, ParsedManifest, Parser};

fn parse(content: &str) -> ParsedManifest {
    GoModParser.parse(content).unwrap()
}

fn find<'a>(m: &'a ParsedManifest, name: &str) -> &'a Item {
    m.items.iter().find(|i| i.name == name).unwrap()
}

fn sliced<'a>(content: &'a str, item: &Item) -> &'a str {
    let line = content.lines().nth(item.version_line).unwrap();
    &line[item.version_col_start..item.version_col_end]
}

#[test]
fn parses_block_and_single_require() {
    let content = "module example.com/m\n\ngo 1.21\n\nrequire github.com/foo/bar v1.2.3\n\nrequire (\n\tgithub.com/baz/qux v0.4.5\n\tgolang.org/x/sync v0.7.0 // indirect\n)\n";
    let m = parse(content);
    assert_eq!(m.items.len(), 3);
    assert_eq!(find(&m, "github.com/foo/bar").version_constraint, "v1.2.3");
    assert_eq!(find(&m, "github.com/baz/qux").version_constraint, "v0.4.5");
    assert_eq!(find(&m, "golang.org/x/sync").version_constraint, "v0.7.0");
    assert_eq!(
        find(&m, "github.com/foo/bar").source,
        PackageSource::Registry
    );
}

#[test]
fn records_version_positions() {
    let content = "require (\n\tgithub.com/foo/bar/v2 v2.3.4\n)\n";
    let m = parse(content);
    let it = find(&m, "github.com/foo/bar/v2");
    assert_eq!(it.version_constraint, "v2.3.4");
    assert_eq!(sliced(content, it), "v2.3.4");
}

#[test]
fn records_resolved_version_as_locked() {
    let content = "require github.com/foo/bar v1.2.3\n";
    let m = parse(content);

    assert_eq!(find(&m, "github.com/foo/bar").version_constraint, "v1.2.3");
    assert_eq!(
        find(&m, "github.com/foo/bar").locked_version.as_deref(),
        Some("1.2.3")
    );
}

#[test]
fn ignores_replace_exclude_and_comments() {
    let content = "require github.com/foo/bar v1.0.0\nreplace github.com/foo/bar => ../local\nexclude github.com/bad/pkg v1.0.0\n// a comment\n";
    let m = parse(content);
    assert_eq!(m.items.len(), 1);
    assert_eq!(find(&m, "github.com/foo/bar").version_constraint, "v1.0.0");
}

#[test]
fn ignores_replace_block() {
    let content = "require (\n\tgithub.com/foo/bar v1.0.0\n)\n\nreplace (\n\tgithub.com/foo/bar => ../local\n)\n";
    let m = parse(content);
    assert_eq!(m.items.len(), 1);
    assert_eq!(find(&m, "github.com/foo/bar").version_constraint, "v1.0.0");
}
