use dependable_core::npmrc::nerf_dart;
use dependable_core::toml::{parse_document, TomlNode};
use dependable_core::{parse_npmrc, parse_project, ManifestKind, ProjectRole};

#[test]
fn a_registry_has_one_key() {
    for url in ["https://host:8080/p", "http://host:8080/p/", "//host:8080/p", "//host:8080/p//"] {
        assert_eq!(nerf_dart(url), "//host:8080/p/", "{url}");
    }
    let c = parse_npmrc("//host/p:_authToken = \"t\"\n//host/p/:_authToken=\n");
    assert_eq!(c.token_for("https://host/p"), Some("t"));
    assert_eq!(c.token_for("https://host"), None);
}

#[test]
fn merging_is_associative() {
    let a = parse_npmrc("registry=a\n@x:registry=a\n@y:registry=a\n");
    let b = parse_npmrc("@x:registry=b\n//h/:_authToken=b\n");
    let c = parse_npmrc("registry=c\n//h/:_authToken=c\n");
    let left = a.clone().merge(b.clone()).merge(c.clone());
    let right = a.merge(b.merge(c));
    assert_eq!(left, right);
    assert_eq!(left.default_registry.as_deref(), Some("c"));
    assert_eq!(left.scope_registries.get("@x").map(String::as_str), Some("b"));
    assert_eq!(left.scope_registries.get("@y").map(String::as_str), Some("a"));
    assert_eq!(left.token_for("h"), Some("c"));
}

#[test]
fn an_atom_ends_where_no_letter_or_digit_stands() {
    let m = parse_project(ManifestKind::MixExs, "[app: :größe_1, version: \"\"]");
    assert_eq!(m.name.as_deref(), Some("größe_1"));
    assert_eq!(m.version, None);
    let none = parse_project(ManifestKind::MixExs, "[app: :-x]");
    assert_eq!(none.role, ProjectRole::Unnamed);
}

#[test]
fn a_role_says_whether_there_is_a_name() {
    for (kind, content) in [
        (ManifestKind::GoMod, "module \"m\"\n"),
        (ManifestKind::PubspecYaml, "  name: no\nname: 'x' # y\n"),
        (ManifestKind::PyprojectToml, "project = 1\n[tool.poetry]\nname = \"p\"\n"),
        (ManifestKind::PackageSwift, "name"),
        (ManifestKind::PomXml, "<p><artifactId>${x}</artifactId></p>"),
    ] {
        let m = parse_project(kind, content);
        assert_eq!(m.role == ProjectRole::Package, m.name.is_some(), "{kind:?}");
    }
    assert_eq!(parse_project(ManifestKind::GoMod, "module // x\nmodule y\n").name.as_deref(), Some("y"));
    assert_eq!(
        parse_project(ManifestKind::PyprojectToml, "project = 1\n[tool.poetry]\nname = \"p\"\n").name.as_deref(),
        Some("p")
    );
    assert_eq!(parse_project(ManifestKind::PomXml, "<p><artifactId>${x}</artifactId></p>").name, None);
}

#[test]
fn a_toml_document_is_a_plain_tree() {
    let text = "a = \"é\"\nb = [true, 'x', 1]\n[[c]]\nd = { e = \"\\u0041\" }\n";
    let root = parse_document(text).unwrap();
    match root.get("a") {
        Some(TomlNode::Text { value, span: Some(at) }) => {
            assert_eq!(value, "é");
            assert_eq!(&text[at.0..at.1], "\"é\"");
        }
        other => panic!("{other:?}"),
    }
    let list = root.get("b").and_then(|b| b.list()).unwrap();
    assert_eq!(list.len(), 3);
    assert_eq!(list[0].flag(), Some(true));
    assert_eq!(list[1].text().map(String::as_str), Some("x"));
    assert!(list[2].text().is_none() && list[2].flag().is_none());
    let tables = root.get("c").and_then(|c| c.tables()).unwrap();
    let e = tables[0].get("d").and_then(|d| d.get("e")).and_then(|e| e.text());
    assert_eq!(e.map(String::as_str), Some("A"));
    assert!(root.get("b").unwrap().entries().is_none());
    assert!(parse_document("a = ").is_err());
}

#[test]
fn central_versions_alone_are_no_project() {
    let role = |content: &str| parse_project(ManifestKind::Csproj, content).role;
    assert_eq!(role("<P><PackageVersion Include='a' Version='1'/></P>"), ProjectRole::Workspace);
    assert_eq!(
        role("<P><PackageVersion Include='a' Version='1'/><PackageReference Include='a'/></P>"),
        ProjectRole::Unnamed
    );
    assert_eq!(role("<P>"), ProjectRole::Unnamed);
}
