use dependable_core::manifest::all_unreadable_manifests;
use dependable_core::{parse_workspace, LockfileKind, ManifestKind};

#[test]
fn detects_known_manifest_filenames() {
    let cases = [
        ("a/b/Cargo.toml", ManifestKind::CargoToml),
        ("go.mod", ManifestKind::GoMod),
        ("package.json", ManifestKind::PackageJson),
        ("deno.json", ManifestKind::DenoJson),
        ("deno.jsonc", ManifestKind::DenoJson),
        ("pnpm-workspace.yaml", ManifestKind::PnpmWorkspaceYaml),
        ("composer.json", ManifestKind::ComposerJson),
        ("requirements.txt", ManifestKind::RequirementsTxt),
        ("requirements-dev.txt", ManifestKind::RequirementsTxt),
        ("requirements.in", ManifestKind::RequirementsTxt),
        ("pyproject.toml", ManifestKind::PyprojectToml),
        ("pixi.toml", ManifestKind::PyprojectToml),
        ("pubspec.yaml", ManifestKind::PubspecYaml),
        ("mix.exs", ManifestKind::MixExs),
        ("App.csproj", ManifestKind::Csproj),
        ("Directory.Packages.props", ManifestKind::Csproj),
        (
            "gradle/libs.versions.toml",
            ManifestKind::GradleVersionCatalog,
        ),
        (
            "gradle/deps.versions.toml",
            ManifestKind::GradleVersionCatalog,
        ),
        ("services/api/pom.xml", ManifestKind::PomXml),
    ];
    for (path, expected) in cases {
        assert_eq!(
            ManifestKind::detect(path),
            Some(expected),
            "{path}"
        );
    }
}

#[test]
fn ignores_unknown_files() {
    assert_eq!(ManifestKind::detect("README.md"), None);
    assert_eq!(ManifestKind::detect("notes.in"), None);
    assert_eq!(ManifestKind::detect("setup.py"), None);
}

fn names(kind: ManifestKind) -> Vec<&'static str> {
    kind.lockfiles()
        .iter()
        .map(|lockfile| lockfile.file_name())
        .collect()
}

#[test]
fn lockfile_names() {
    assert_eq!(names(ManifestKind::CargoToml), ["Cargo.lock"]);
    assert_eq!(
        names(ManifestKind::PackageJson),
        ["package-lock.json", "bun.lock"]
    );
    assert_eq!(names(ManifestKind::ComposerJson), ["composer.lock"]);
    assert_eq!(names(ManifestKind::PubspecYaml), ["pubspec.lock"]);
    assert_eq!(names(ManifestKind::MixExs), ["mix.lock"]);
    assert!(names(ManifestKind::GoMod).is_empty());
    assert!(!ManifestKind::GoMod.has_lockfile_support());
}

#[test]
fn only_cargo_looks_for_a_workspace_root() {
    let cargo = ManifestKind::CargoToml
        .workspace_roots()
        .expect("Cargo inherits");
    assert_eq!(cargo.root_names, ["Cargo.toml"]);
    assert_eq!(cargo.root_kind, ManifestKind::CargoToml);
    assert!(cargo.self_governing, "a Cargo root may be a package too");

    for kind in [
        ManifestKind::GoMod,
        ManifestKind::PackageJson,
        ManifestKind::DenoJson,
        ManifestKind::PnpmWorkspaceYaml,
        ManifestKind::ComposerJson,
        ManifestKind::RequirementsTxt,
        ManifestKind::PyprojectToml,
        ManifestKind::PubspecYaml,
        ManifestKind::MixExs,
        ManifestKind::Csproj,
        ManifestKind::GradleVersionCatalog,
        ManifestKind::PomXml,
    ] {
        assert!(kind.workspace_roots().is_none(), "{kind:?}");
        assert!(
            !kind.declares_workspace("[workspace]\nmembers = []\n"),
            "{kind:?} recognised a Cargo workspace table"
        );
    }
}

#[test]
fn declaring_a_workspace_is_exactly_what_the_cargo_parser_sees() {
    let fixtures = [
        "[workspace]\nmembers = [\"sub\"]\n",
        "[workspace]\nmembers = []\n\n[workspace.dependencies]\nserde = \"1\"\n",
        "[package]\nname = \"root\"\n\n[workspace]\nmembers = []\n",
        "[package]\nname = \"solo\"\n\n[dependencies]\nserde = \"1\"\n",
        "",
        "this is not toml at all {{{",
    ];
    for content in fixtures {
        assert_eq!(
            ManifestKind::CargoToml.declares_workspace(content),
            parse_workspace(content).is_some(),
            "{content:?}"
        );
    }
}

#[test]
fn a_gradle_build_script_is_recognised_but_unreadable() {
    let scripts = ManifestKind::GradleVersionCatalog.unreadable_manifests();
    let names: Vec<&str> = scripts.iter().map(|m| m.file_name).collect();
    assert_eq!(names, ["build.gradle.kts", "build.gradle"]);
    for script in scripts {
        assert_eq!(script.superseded_by, ["gradle/libs.versions.toml"]);
        assert!(script.reason.contains("libs.versions.toml"), "{script:?}");
    }

    for script in scripts {
        assert!(
            all_unreadable_manifests().contains(script),
            "{script:?} is unreachable from a directory scan"
        );
    }
    assert!(ManifestKind::CargoToml.unreadable_manifests().is_empty());

    assert!(ManifestKind::PomXml.unreadable_manifests().is_empty());
}

#[test]
fn a_lockfile_is_recognised_by_its_name() {
    assert_eq!(
        LockfileKind::detect("/a/b/Cargo.lock"),
        Some(LockfileKind::CargoLock)
    );
    assert_eq!(
        LockfileKind::detect("package-lock.json"),
        Some(LockfileKind::PackageLockJson)
    );
    assert_eq!(LockfileKind::detect("Cargo.toml"), None);
    assert_eq!(LockfileKind::detect(""), None);
}

#[test]
fn every_lockfile_a_manifest_names_round_trips_through_detection() {

    for kind in [
        ManifestKind::CargoToml,
        ManifestKind::PackageJson,
        ManifestKind::ComposerJson,
        ManifestKind::PubspecYaml,
        ManifestKind::MixExs,
    ] {
        for lockfile in kind.lockfiles() {
            assert_eq!(
                LockfileKind::detect(lockfile.file_name()),
                Some(*lockfile),
                "{lockfile:?} is not recognised by its own name"
            );
        }
    }
}
