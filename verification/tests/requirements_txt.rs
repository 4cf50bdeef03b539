use dependable_core::{Item, ParsedManifest, Parser, RequirementsTxtParser};

fn parse(content: &str) -> ParsedManifest {
    RequirementsTxtParser.parse(content).unwrap()
}

fn find<'a>(m: &'a ParsedManifest, name: &str) -> &'a Item {
    m.items
        .iter()
        .find(|i| i.name == name)
        .unwrap_or_else(|| panic!("missing {name}"))
}

fn sliced<'a>(content: &'a str, item: &Item) -> &'a str {
    let line = content.lines().nth(item.version_line).unwrap();
    &line[item.version_col_start..item.version_col_end]
}

#[test]
fn parses_requirements_and_records_spans() {
    let content = "flask>=2.0\nrequests==2.28.1\ndjango>=3.2,<4.0\n";
    let m = parse(content);
    assert_eq!(find(&m, "flask").version_constraint, ">=2.0");
    assert_eq!(sliced(content, find(&m, "flask")), ">=2.0");
    assert_eq!(find(&m, "requests").version_constraint, "==2.28.1");
    assert_eq!(find(&m, "django").version_constraint, ">=3.2,<4.0");
    assert_eq!(sliced(content, find(&m, "django")), ">=3.2,<4.0");
}

#[test]
fn strips_extras_and_markers() {
    let content = "celery[redis]>=5.0\nuvicorn==0.20 ; python_version >= \"3.8\"\n";
    let m = parse(content);
    assert_eq!(find(&m, "celery").version_constraint, ">=5.0");
    assert_eq!(sliced(content, find(&m, "celery")), ">=5.0");
    assert_eq!(find(&m, "uvicorn").version_constraint, "==0.20");
    assert_eq!(sliced(content, find(&m, "uvicorn")), "==0.20");
}

#[test]
fn skips_comments_options_paths_and_directives() {
    let content = "# a comment\n-r other.txt\n-e .\n./local/pkg\ngit+https://example.com/x.git#egg=x\nflask>=2.0  # dependable: disable-check\nrequests==2.0\n";
    let m = parse(content);
    assert_eq!(m.items.len(), 1);
    assert_eq!(find(&m, "requests").version_constraint, "==2.0");
}

#[test]
fn bare_requirement_has_empty_constraint() {
    let content = "numpy\n";
    let m = parse(content);
    assert_eq!(find(&m, "numpy").version_constraint, "");
    assert!(find(&m, "numpy").is_checkable());
}
