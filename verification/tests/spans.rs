use dependable_core::{parse, DependencyKind, Item, ManifestKind, PackageSource, ParseError};

fn items(kind: ManifestKind, content: &str) -> Vec<Item> {
    let manifest = parse(kind, content).unwrap();
    assert_eq!(manifest.kind, kind);
    manifest.items
}

fn sliced<'a>(content: &'a str, item: &Item) -> &'a str {
    let line = content.split('\n').nth(item.version_line).unwrap();
    &line[item.version_col_start..item.version_col_end]
}

fn rewritable_slice_back(kind: ManifestKind, content: &str, expected: &[(&str, &str)]) {
    let found = items(kind, content);
    let rewritable: Vec<&Item> = found.iter().filter(|i| i.is_rewritable()).collect();
    let pairs: Vec<(&str, &str)> = rewritable
        .iter()
        .map(|i| (i.name.as_str(), i.version_constraint.as_str()))
        .collect();
    assert_eq!(pairs, expected);
    for item in rewritable {
        assert_eq!(sliced(content, item), item.version_constraint, "{}", item.name);
    }
}

#[test]
fn cargo_spans_count_bytes() {
    rewritable_slice_back(
        ManifestKind::CargoToml,
        "# größe\r\n[dependencies]\r\n\"ä\" = '1.0' # ö\r\nb = { \"ü\" = \"ß\", version = \"2\" }\r\n",
        &[("ä", "1.0"), ("b", "2")],
    );
}

#[test]
fn pyproject_spans_count_bytes() {
    rewritable_slice_back(
        ManifestKind::PyprojectToml,
        "[project]\ndependencies = [\"größe\", \"größe[ä]>=2.0 ; x\"]\n[tool.poetry.dependencies]\nb = \"^2\"\n",
        &[("b", "^2"), ("größe", ">=2.0")],
    );
}

#[test]
fn catalog_spans_count_bytes() {
    rewritable_slice_back(
        ManifestKind::GradleVersionCatalog,
        "[versions]\n\"ä\" = { strictly = \"1\", prefer = \"0\" }\n[libraries]\na = \"ö:ü:3\"\nb = { module = \"x:y\", version.ref = \"ä\" }\n",
        &[("ö:ü", "3"), ("x:y", "1")],
    );
}

#[test]
fn package_json_spans_count_bytes() {
    rewritable_slice_back(
        ManifestKind::PackageJson,
        "{\"dependencies\": {\"ä\": \"^1\", \"x\": \"npm:@ö/ü@2\", \"esc\": \"\\u005e3\"}}",
        &[("ä", "^1"), ("@ö/ü", "2")],
    );
}

#[test]
fn deno_spans_count_bytes() {
    rewritable_slice_back(
        ManifestKind::DenoJson,
        "{ /* ä */ \"imports\": {\"ö\": \"jsr:@ü/x@^1\"}}",
        &[("@ü/x", "^1")],
    );
}

#[test]
fn composer_spans_count_bytes() {
    rewritable_slice_back(
        ManifestKind::ComposerJson,
        "{\"require\": {\"ä/b\": \"^2\"},\n \"require-dev\": {\"c/d\": \"~1\"}}",
        &[("ä/b", "^2"), ("c/d", "~1")],
    );
}

#[test]
fn go_spans_count_bytes() {
    rewritable_slice_back(
        ManifestKind::GoMod,
        "module m\r\nrequire (\r\n\tä.org/b v1.0.0 // indirect\r\n)\r\n",
        &[("ä.org/b", "v1.0.0")],
    );
}

#[test]
fn requirements_spans_count_bytes() {
    rewritable_slice_back(
        ManifestKind::RequirementsTxt,
        "  größe [ä] >= 2.0 # ö\r\n\u{a0}b==1\n",
        &[("größe", ">= 2.0"), ("b", "==1")],
    );
}

#[test]
fn yaml_spans_count_bytes() {
    rewritable_slice_back(
        ManifestKind::PnpmWorkspaceYaml,
        "catalog:\n  ä: '^1'  # ö\n  \"ü\": 2\n",
        &[("ä", "^1"), ("\"ü\"", "2")],
    );
    rewritable_slice_back(
        ManifestKind::PubspecYaml,
        "dependencies:\n  ä: ^1.0\n    b: 2\n  c: flutter\ndev_dependencies:\n  d: any\n",
        &[("ä", "^1.0"), ("d", "any")],
    );
}

#[test]
fn mix_spans_count_bytes() {
    rewritable_slice_back(
        ManifestKind::MixExs,
        "# ä\n[ {:é, \"~> 1.0\"}, { :b ,\n \">= 2\" } ]",
        &[("é", "~> 1.0"), ("b", ">= 2")],
    );
}

#[test]
fn xml_spans_count_bytes() {
    rewritable_slice_back(
        ManifestKind::Csproj,
        "<P>\n<PackageReference ä='ö' Include='x' Version = '1.0'/>\n<PackageVersion Update=\"y\" Version=\"2\"/></P>",
        &[("x", "1.0"), ("y", "2")],
    );
    rewritable_slice_back(
        ManifestKind::PomXml,
        "<p><!-- ä --><dependencies><dependency><groupId>ö</groupId><artifactId>b</artifactId><version>\n 1.0 </version></dependency></dependencies></p>",
        &[("ö:b", "1.0")],
    );
}

#[test]
fn text_with_a_reference_has_no_place() {
    let found = items(
        ManifestKind::PomXml,
        "<p><dependencies><dependency><groupId>g</groupId><artifactId>a</artifactId><version>1&#46;0</version></dependency></dependencies></p>",
    );
    assert_eq!(found[0].version_constraint, "1.0");
    assert_eq!(found[0].source, PackageSource::Inherited);
    assert!(!found[0].is_rewritable());
}

#[test]
fn a_system_jar_is_local_wherever_its_version_is() {
    let found = items(
        ManifestKind::PomXml,
        "<p><dependencies><dependency><groupId>g</groupId><artifactId>a</artifactId><scope>system</scope></dependency></dependencies></p>",
    );
    assert_eq!(found[0].source, PackageSource::Local);
    assert!(!found[0].is_checkable());
}

#[test]
fn sections_name_the_kind() {
    let kinds = |kind: ManifestKind, content: &str| -> Vec<(String, DependencyKind)> {
        items(kind, content).into_iter().map(|i| (i.name, i.kind)).collect()
    };
    assert_eq!(
        kinds(
            ManifestKind::GoMod,
            "require a v1\nrequire (\n b v2 // indirect\n c v3 // direct\n)\nrequirements d v4\n"
        ),
        [
            ("a".to_owned(), DependencyKind::Normal),
            ("b".to_owned(), DependencyKind::Indirect),
            ("c".to_owned(), DependencyKind::Normal),
        ]
    );
    assert_eq!(
        kinds(
            ManifestKind::PyprojectToml,
            "[tool.poetry.group.g.dependencies]\na = \"1\"\n[tool.poetry.dev-dependencies]\nb = \"1\"\n[project.optional-dependencies]\nx = [\"c>1\"]\n[dependency-groups]\ny = [\"d>1\", { u = \"v\" }]\n[dependencies]\ne = \"1\"\n"
        ),
        [
            ("a".to_owned(), DependencyKind::Dev),
            ("b".to_owned(), DependencyKind::Dev),
            ("c".to_owned(), DependencyKind::Optional),
            ("d".to_owned(), DependencyKind::Dev),
            ("e".to_owned(), DependencyKind::Normal),
        ]
    );
    assert_eq!(
        kinds(
            ManifestKind::Csproj,
            "<P><PackageReference Include='a' Version='1'/><PackageVersion Include='b' Version='1'/></P>"
        ),
        [("a".to_owned(), DependencyKind::Normal), ("b".to_owned(), DependencyKind::Workspace)]
    );
    assert_eq!(
        kinds(
            ManifestKind::ComposerJson,
            "{\"require\": {\"a/b\": \"1\", \"php\": \"8\"}, \"require-dev\": {\"c/d\": \"1\"}}"
        ),
        [("a/b".to_owned(), DependencyKind::Normal), ("c/d".to_owned(), DependencyKind::Dev)]
    );
    assert_eq!(
        kinds(ManifestKind::PubspecYaml, "dependencies:\n  a: 1\ndev_dependencies:\n  b: 1\n"),
        [("a".to_owned(), DependencyKind::Normal), ("b".to_owned(), DependencyKind::Dev)]
    );
    assert_eq!(
        kinds(ManifestKind::PnpmWorkspaceYaml, "catalog:\n  a: 1\n"),
        [("a".to_owned(), DependencyKind::Workspace)]
    );
}

#[test]
fn cargo_sources_are_classified() {
    let found = items(
        ManifestKind::CargoToml,
        "[dependencies]\nlocal = { path = \"../local\" }\nfromgit = { git = \"https://example.com/x\" }\nshared = { workspace = true }\n",
    );
    let sources: Vec<PackageSource> = found.iter().map(|i| i.source).collect();
    assert_eq!(sources, [PackageSource::Local, PackageSource::Git, PackageSource::Inherited]);
}

#[test]
fn a_requirement_with_a_url_is_no_registry_version() {
    let found = items(
        ManifestKind::RequirementsTxt,
        "a @ file.whl\nb[x] @ y\nc[x>=1\n>=2\n--hash=x\nd ; marker\n",
    );
    let pairs: Vec<(&str, &str)> =
        found.iter().map(|i| (i.name.as_str(), i.version_constraint.as_str())).collect();
    assert_eq!(pairs, [("c", "[x>=1"), ("d", "")]);
}

#[test]
fn every_error_has_its_manifest() {
    for kind in [
        ManifestKind::CargoToml,
        ManifestKind::PyprojectToml,
        ManifestKind::GradleVersionCatalog,
    ] {
        assert!(matches!(parse(kind, "[a"), Err(ParseError::Toml(_))), "{kind:?}");
    }
    for kind in [ManifestKind::Csproj, ManifestKind::PomXml] {
        match parse(kind, "<a>") {
            Err(ParseError::Malformed(message)) => assert!(!message.is_empty()),
            other => panic!("{kind:?}: {other:?}"),
        }
    }
    for kind in [
        ManifestKind::GoMod,
        ManifestKind::PackageJson,
        ManifestKind::DenoJson,
        ManifestKind::PnpmWorkspaceYaml,
        ManifestKind::ComposerJson,
        ManifestKind::RequirementsTxt,
        ManifestKind::PubspecYaml,
        ManifestKind::MixExs,
        ManifestKind::PackageSwift,
    ] {
        assert!(parse(kind, "<[{").is_ok(), "{kind:?}");
    }
}

#[test]
fn the_last_dependency_section_answers_a_reference() {
    let found = items(
        ManifestKind::PackageJson,
        "{\"devDependencies\": {\"a\": \"^1\"}, \"dependencies\": {\"a\": \"^2\"}, \"overrides\": {\"b\": \"$a\"}}",
    );
    assert_eq!(found[2].version_constraint, "^2");
    assert_eq!(found[2].version_col_start, found[2].version_col_end);
}
