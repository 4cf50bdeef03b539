use dependable_core::{parse_project, ManifestKind, PackageField, ProjectMeta, ProjectRole};

fn meta(kind: ManifestKind, content: &str) -> ProjectMeta {
    parse_project(kind, content)
}

#[test]
fn cargo_package_reports_name_and_version() {
    let m = meta(
        ManifestKind::CargoToml,
        "[package]\nname = \"my-crate\"\nversion = \"1.2.3\"\n",
    );
    assert_eq!(m.name.as_deref(), Some("my-crate"));
    assert_eq!(m.literal_version(), Some("1.2.3"));
    assert_eq!(m.role, ProjectRole::Package);
}

#[test]
fn cargo_inherited_version_is_reported_as_inherited() {
    let m = meta(
        ManifestKind::CargoToml,
        "[package]\nname = \"member\"\nversion.workspace = true\n",
    );
    assert_eq!(m.version, Some(PackageField::Workspace));
    assert_eq!(m.literal_version(), None);
}

#[test]
fn virtual_cargo_workspace_root_is_a_workspace() {
    let m = meta(
        ManifestKind::CargoToml,
        "[workspace]\nmembers = [\"crates/*\"]\n\n[workspace.dependencies]\nserde = \"1\"\n",
    );
    assert_eq!(m.role, ProjectRole::Workspace);
    assert_eq!(m.name, None);
}

#[test]
fn cargo_root_package_with_workspace_is_a_package() {
    let m = meta(
        ManifestKind::CargoToml,
        "[package]\nname = \"root\"\nversion = \"0.1.0\"\n\n[workspace]\nmembers = []\n",
    );
    assert_eq!(m.role, ProjectRole::Package);
    assert_eq!(m.name.as_deref(), Some("root"));
}

#[test]
fn json_manifests_report_top_level_identity() {
    let m = meta(
        ManifestKind::PackageJson,
        r#"{"name": "@scope/app", "version": "2.0.0", "dependencies": {"react": "^18"}}"#,
    );
    assert_eq!(m.name.as_deref(), Some("@scope/app"));
    assert_eq!(m.literal_version(), Some("2.0.0"));

    let nested = meta(
        ManifestKind::PackageJson,
        r#"{"dependencies": {"react": "^18"}, "engines": {"name": "nope"}}"#,
    );
    assert_eq!(nested.name, None);
    assert_eq!(nested.role, ProjectRole::Unnamed);
}

#[test]
fn composer_and_deno_identity() {
    let composer = meta(
        ManifestKind::ComposerJson,
        r#"{"name": "vendor/pkg", "require": {"monolog/monolog": "^3.0"}}"#,
    );
    assert_eq!(composer.name.as_deref(), Some("vendor/pkg"));
    assert_eq!(composer.literal_version(), None);

    let deno = meta(
        ManifestKind::DenoJson,
        r#"{"name": "@scope/mod", "version": "0.3.0", "imports": {"x": "jsr:@std/fs@^1"}}"#,
    );
    assert_eq!(deno.name.as_deref(), Some("@scope/mod"));
    assert_eq!(deno.literal_version(), Some("0.3.0"));
}

#[test]
fn pyproject_prefers_pep621_then_poetry() {
    let pep621 = meta(
        ManifestKind::PyprojectToml,
        "[project]\nname = \"app\"\nversion = \"1.0.0\"\n",
    );
    assert_eq!(pep621.name.as_deref(), Some("app"));
    assert_eq!(pep621.literal_version(), Some("1.0.0"));

    let poetry = meta(
        ManifestKind::PyprojectToml,
        "[tool.poetry]\nname = \"legacy\"\nversion = \"0.9.0\"\n",
    );
    assert_eq!(poetry.name.as_deref(), Some("legacy"));
    assert_eq!(poetry.literal_version(), Some("0.9.0"));
}

#[test]
fn go_module_path_is_the_name() {
    let m = meta(
        ManifestKind::GoMod,
        "module example.com/m/v2 // comment\n\ngo 1.21\n",
    );
    assert_eq!(m.name.as_deref(), Some("example.com/m/v2"));
    assert_eq!(m.version, None);
}

#[test]
fn pubspec_reads_only_top_level_scalars() {
    let m = meta(
        ManifestKind::PubspecYaml,
        "name: my_app\nversion: 1.0.0+3\n\ndependencies:\n  http: ^1.1.0\n",
    );
    assert_eq!(m.name.as_deref(), Some("my_app"));
    assert_eq!(m.literal_version(), Some("1.0.0+3"));
}

#[test]
fn mix_reads_app_and_version() {
    let content = "defmodule Sample.MixProject do\n  use Mix.Project\n  def project do\n    [app: :sample_app, version: \"0.4.2\"]\n  end\nend\n";
    let m = meta(ManifestKind::MixExs, content);
    assert_eq!(m.name.as_deref(), Some("sample_app"));
    assert_eq!(m.literal_version(), Some("0.4.2"));
}

#[test]
fn central_version_manifests_are_workspaces() {
    let m = meta(
        ManifestKind::PnpmWorkspaceYaml,
        "catalog:\n  react: ^18.0.0\n",
    );
    assert_eq!(m.role, ProjectRole::Workspace);
    assert_eq!(
        meta(
            ManifestKind::GradleVersionCatalog,
            "[versions]\nkotlin = \"1.9.24\"\n",
        )
        .role,
        ProjectRole::Workspace
    );
}

#[test]
fn a_pom_is_named_by_its_coordinate() {
    let meta = parse_project(
        ManifestKind::PomXml,
        "<project>\n  <groupId>org.example</groupId>\n  \
             <artifactId>demo</artifactId>\n  <version>1.4.0</version>\n</project>\n",
    );
    assert_eq!(meta.name.as_deref(), Some("org.example:demo"));
    assert_eq!(meta.literal_version(), Some("1.4.0"));
    assert_eq!(meta.role, ProjectRole::Package);

    let inheriting = parse_project(
        ManifestKind::PomXml,
        "<project>\n  <parent>\n    <groupId>org.parent</groupId>\n    \
             <artifactId>parent</artifactId>\n    <version>9.9.9</version>\n  \
             </parent>\n  <artifactId>child</artifactId>\n</project>\n",
    );
    assert_eq!(inheriting.name.as_deref(), Some("child"));
    assert_eq!(inheriting.literal_version(), None);

    let templated = parse_project(
        ManifestKind::PomXml,
        "<project>\n  <artifactId>demo</artifactId>\n  \
             <version>${revision}</version>\n</project>\n",
    );
    assert_eq!(templated.literal_version(), None);

    assert_eq!(
        parse_project(ManifestKind::PomXml, "<not xml").role,
        ProjectRole::Unnamed
    );
}

#[test]
fn manifests_named_by_their_file_are_unnamed() {
    assert_eq!(
        meta(ManifestKind::RequirementsTxt, "flask>=2.0\n").role,
        ProjectRole::Unnamed
    );
    assert_eq!(
        meta(ManifestKind::Csproj, "<Project></Project>\n").role,
        ProjectRole::Unnamed
    );
}

#[test]
fn malformed_content_is_unnamed() {
    assert_eq!(
        meta(ManifestKind::CargoToml, "[package\nname = ").role,
        ProjectRole::Unnamed
    );
    assert_eq!(
        meta(ManifestKind::PyprojectToml, "[[[").role,
        ProjectRole::Unnamed
    );
}
