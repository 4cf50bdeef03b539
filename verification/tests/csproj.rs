use dependable_core::{CsprojParser, Item, PackageSource, ParsedManifest, Parser};

fn parse(content: &str) -> ParsedManifest {
    CsprojParser.parse(content).unwrap()
}

fn sliced<'a>(content: &'a str, item: &Item) -> &'a str {
    let line = content.lines().nth(item.version_line).unwrap();
    &line[item.version_col_start..item.version_col_end]
}

#[test]
fn parses_package_references_with_positions() {
    let content = "<Project Sdk=\"Microsoft.NET.Sdk\">\n  <ItemGroup>\n    <PackageReference Include=\"Newtonsoft.Json\" Version=\"13.0.1\" />\n    <PackageReference Include=\"Serilog\" Version=\"[2.10.0,3.0.0)\" />\n  </ItemGroup>\n</Project>\n";
    let m = parse(content);
    assert_eq!(m.items.len(), 2);

    let json = m
        .items
        .iter()
        .find(|i| i.name == "Newtonsoft.Json")
        .unwrap();
    assert_eq!(json.version_constraint, "13.0.1");
    assert_eq!(sliced(content, json), "13.0.1");
    assert_eq!(json.source, PackageSource::Registry);

    let serilog = m.items.iter().find(|i| i.name == "Serilog").unwrap();
    assert_eq!(serilog.version_constraint, "[2.10.0,3.0.0)");
    assert_eq!(sliced(content, serilog), "[2.10.0,3.0.0)");
}

#[test]
fn skips_property_versions_and_missing_versions() {
    let content = "<Project>\n  <ItemGroup>\n    <PackageReference Include=\"Managed\" />\n    <PackageReference Include=\"FromProp\" Version=\"$(SerilogVersion)\" />\n    <PackageReference Include=\"Real\" Version=\"1.2.3\" />\n  </ItemGroup>\n</Project>\n";
    let m = parse(content);
    let names: Vec<&str> = m.items.iter().map(|i| i.name.as_str()).collect();
    assert_eq!(names, vec!["Real"]);
}

#[test]
fn parses_central_package_versions() {
    let content = "<Project>\n  <ItemGroup>\n    <PackageVersion Include=\"xunit\" Version=\"2.6.1\" />\n  </ItemGroup>\n</Project>\n";
    let m = parse(content);
    let xunit = m.items.iter().find(|i| i.name == "xunit").unwrap();
    assert_eq!(xunit.version_constraint, "2.6.1");
    assert_eq!(sliced(content, xunit), "2.6.1");
}
