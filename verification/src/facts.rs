//! What the fixed names and addresses are.
use crate::ecosystem::{as_directories, Ecosystem};
use crate::item::{DependencyKind, ItemView, PackageSource};
use crate::manifest::{is_requirements, kind_named, LockfileKind, ManifestKind};
use crate::result::{Score, Severity, StatusView};
use crate::text::{ends, lowered, trimmed, Class};
use crate::writing::{
    is_plain, lemma_after, lemma_ahead, lemma_leading_at, lemma_not_begins, lemma_plain,
    lemma_signs, lemma_trimmed_same,
};
use crate::lockfiles::bun_lock::bun_pairs;
use crate::lockfiles::composer_lock::composer_pairs;
use crate::lockfiles::composer_lock_graph::element_keys;
use crate::lockfiles::dart_pubspec_lock::pubspec_scan;
use crate::lockfiles::listed;
use crate::lockfiles::mix_lock::{mix_pairs, LOCK_PATTERN};
use crate::lockfiles::package_lock_json::npm_pairs;
use crate::parsers::cargo_toml::CargoTomlParser;
use crate::parsers::composer_json::ComposerJsonParser;
use crate::parsers::csproj::CsprojParser;
use crate::parsers::deno_json::DenoJsonParser;
use crate::parsers::go_mod::GoModParser;
use crate::parsers::gradle_catalog::GradleCatalogParser;
use crate::parsers::json_scan::document_scan;
use crate::parsers::mix_exs::MixExsParser;
use crate::parsers::package_json::PackageJsonParser;
use crate::parsers::package_swift::PackageSwiftParser;
use crate::parsers::pnpm_workspace::PnpmWorkspaceParser;
use crate::parsers::pom_xml::PomXmlParser;
use crate::parsers::pubspec_yaml::PubspecYamlParser;
use crate::parsers::pyproject_toml::PyprojectTomlParser;
use crate::parsers::requirements_txt::RequirementsTxtParser;
use crate::parsers::{reading, Parser, Reading};
use crate::pattern::regex_matches;
use crate::split::lines_of;
use crate::toml::toml_document;
use crate::xml::xml_document;
use vstd::prelude::*;

verus! {

/// The name by which OSV knows each ecosystem.
pub proof fn law_osv_names()
    ensures
        Ecosystem::Rust.osv()@ == "crates.io"@,
        Ecosystem::Go.osv()@ == "Go"@,
        Ecosystem::Npm.osv()@ == "npm"@,
        Ecosystem::Python.osv()@ == "PyPI"@,
        Ecosystem::Php.osv()@ == "Packagist"@,
        Ecosystem::Dart.osv()@ == "Pub"@,
        Ecosystem::CSharp.osv()@ == "NuGet"@,
        Ecosystem::Elixir.osv()@ == "Hex"@,
        Ecosystem::Jvm.osv()@ == "Maven"@,
        Ecosystem::Swift.osv()@ == "SwiftURL"@,
{
}

/// The registry that each ecosystem is looked up in.
pub proof fn law_registries()
    ensures
        Ecosystem::Rust.registry()@ == "https://index.crates.io"@,
        Ecosystem::Go.registry()@ == "https://proxy.golang.org"@,
        Ecosystem::Npm.registry()@ == "https://registry.npmjs.org"@,
        Ecosystem::Python.registry()@ == "https://pypi.org/pypi"@,
        Ecosystem::Php.registry()@ == "https://repo.packagist.org"@,
        Ecosystem::Dart.registry()@ == "https://pub.dev"@,
        Ecosystem::CSharp.registry()@ == "https://api.nuget.org"@,
        Ecosystem::Elixir.registry()@ == "https://hex.pm"@,
        Ecosystem::Jvm.registry()@ == "https://repo1.maven.org/maven2"@,
        Ecosystem::Swift.registry()@ == ""@,
{
}

/// How each ecosystem is called.
pub proof fn law_display_names()
    ensures
        Ecosystem::Rust.shown()@ == "Rust"@,
        Ecosystem::Go.shown()@ == "Go"@,
        Ecosystem::Npm.shown()@ == "npm"@,
        Ecosystem::Python.shown()@ == "Python"@,
        Ecosystem::Php.shown()@ == "PHP"@,
        Ecosystem::Dart.shown()@ == "Dart"@,
        Ecosystem::CSharp.shown()@ == "C#"@,
        Ecosystem::Elixir.shown()@ == "Elixir"@,
        Ecosystem::Jvm.shown()@ == "JVM"@,
        Ecosystem::Swift.shown()@ == "Swift"@,
{
}

/// The page of a package, of a version of it, and of its documentation.
#[verifier::rlimit(60)]
pub proof fn law_pages(name: Seq<char>, version: Seq<char>)
    ensures
        Ecosystem::Rust.page(name) == "https://crates.io/crates/"@ + name,
        Ecosystem::Go.page(name) == "https://pkg.go.dev/"@ + name,
        Ecosystem::Npm.page(name) == "https://www.npmjs.com/package/"@ + name,
        Ecosystem::Python.page(name) == "https://pypi.org/project/"@ + name + "/"@,
        Ecosystem::Php.page(name) == "https://packagist.org/packages/"@ + name,
        Ecosystem::Dart.page(name) == "https://pub.dev/packages/"@ + name,
        Ecosystem::CSharp.page(name) == "https://www.nuget.org/packages/"@ + name,
        Ecosystem::Elixir.page(name) == "https://hex.pm/packages/"@ + name,
        Ecosystem::Swift.page(name) == "https://"@ + name,
        Ecosystem::Rust.version_page(name, version) == Ecosystem::Rust.page(name) + "/"@ + version,
        Ecosystem::Go.version_page(name, version) == Ecosystem::Go.page(name) + "@"@ + version,
        Ecosystem::Npm.version_page(name, version) == Ecosystem::Npm.page(name) + "/v/"@ + version,
        Ecosystem::Python.version_page(name, version) == Ecosystem::Python.page(name) + version
            + "/"@,
        Ecosystem::Dart.version_page(name, version) == Ecosystem::Dart.page(name) + "/versions/"@
            + version,
        Ecosystem::CSharp.version_page(name, version) == Ecosystem::CSharp.page(name) + "/"@
            + version,
        Ecosystem::Elixir.version_page(name, version) == Ecosystem::Elixir.page(name) + "/"@
            + version,
        Ecosystem::Jvm.version_page(name, version) == Ecosystem::Jvm.page(name) + "/"@ + version,
        Ecosystem::Rust.docs_page(name, version) == Some(
            "https://docs.rs/"@ + name + "/"@ + version,
        ),
        Ecosystem::Elixir.docs_page(name, version) == Some(
            "https://hexdocs.pm/"@ + name + "/"@ + version,
        ),
        Ecosystem::Dart.docs_page(name, version) == Some(
            "https://pub.dev/documentation/"@ + name + "/"@ + version + "/"@,
        ),
        forall|e: Ecosystem|
            e != Ecosystem::Rust && e != Ecosystem::Elixir && e != Ecosystem::Dart
                ==> #[trigger] e.docs_page(name, version) is None,
{
    reveal_strlit("");
    let none = ""@;
    assert(none =~= Seq::<char>::empty());
    assert(Ecosystem::Rust.version_page(name, version) =~= Ecosystem::Rust.page(name) + "/"@
        + version);
    assert(Ecosystem::Go.version_page(name, version) =~= Ecosystem::Go.page(name) + "@"@ + version);
    assert(Ecosystem::Npm.version_page(name, version) =~= Ecosystem::Npm.page(name) + "/v/"@
        + version);
    assert(Ecosystem::Python.version_page(name, version) =~= Ecosystem::Python.page(name) + version
        + "/"@);
    assert(Ecosystem::Dart.version_page(name, version) =~= Ecosystem::Dart.page(name)
        + "/versions/"@ + version);
    assert(Ecosystem::CSharp.version_page(name, version) =~= Ecosystem::CSharp.page(name) + "/"@
        + version);
    assert(Ecosystem::Elixir.version_page(name, version) =~= Ecosystem::Elixir.page(name) + "/"@
        + version);
    assert(Ecosystem::Jvm.version_page(name, version) =~= Ecosystem::Jvm.page(name) + "/"@ + version);
    assert("https://docs.rs/"@ + name + "/"@ + version + none =~= "https://docs.rs/"@ + name + "/"@
        + version);
    assert("https://hexdocs.pm/"@ + name + "/"@ + version + none =~= "https://hexdocs.pm/"@ + name
        + "/"@ + version);
}

/// The page of a Maven artifact has its group and name as directories.
#[verifier::rlimit(60)]
pub proof fn law_maven_page(group: Seq<char>, name: Seq<char>)
    requires
        is_plain(group),
        is_plain(name),
    ensures
        Ecosystem::Jvm.page(group + ":"@ + name) == "https://central.sonatype.com/artifact/"@ + (
        group + "/"@ + name),
{
    reveal_strlit(":");
    reveal_strlit("/");
    lemma_plain(group);
    lemma_plain(name);
    let s = group + ":"@ + name;
    let t = group + "/"@ + name;
    assert forall|i: int| 0 <= i < s.len() implies #[trigger] as_directories(s)[i] == t[i] by {
        if i < group.len() {
            assert(s[i] == group[i] && t[i] == group[i]);
        } else if i > group.len() {
            assert(s[i] == name[i - group.len() - 1] && t[i] == name[i - group.len() - 1]);
        }
    }
    assert(as_directories(s) =~= t);
}

/// The kind of a manifest by the name of its file.
#[verifier::rlimit(60)]
pub proof fn law_manifest_names()
    ensures
        kind_named("Cargo.toml"@) == Some(ManifestKind::CargoToml),
        kind_named("go.mod"@) == Some(ManifestKind::GoMod),
        kind_named("package.json"@) == Some(ManifestKind::PackageJson),
        kind_named("deno.json"@) == Some(ManifestKind::DenoJson),
        kind_named("deno.jsonc"@) == Some(ManifestKind::DenoJson),
        kind_named("pnpm-workspace.yaml"@) == Some(ManifestKind::PnpmWorkspaceYaml),
        kind_named("pnpm-workspace.yml"@) == Some(ManifestKind::PnpmWorkspaceYaml),
        kind_named("composer.json"@) == Some(ManifestKind::ComposerJson),
        kind_named("pyproject.toml"@) == Some(ManifestKind::PyprojectToml),
        kind_named("pixi.toml"@) == Some(ManifestKind::PyprojectToml),
        kind_named("pubspec.yaml"@) == Some(ManifestKind::PubspecYaml),
        kind_named("mix.exs"@) == Some(ManifestKind::MixExs),
        kind_named("Directory.Packages.props"@) == Some(ManifestKind::Csproj),
        kind_named("pom.xml"@) == Some(ManifestKind::PomXml),
{
    reveal_strlit("Cargo.toml");
    reveal_strlit("go.mod");
    reveal_strlit("package.json");
    reveal_strlit("deno.json");
    reveal_strlit("deno.jsonc");
    reveal_strlit("pnpm-workspace.yaml");
    reveal_strlit("pnpm-workspace.yml");
    reveal_strlit("composer.json");
    reveal_strlit("pyproject.toml");
    reveal_strlit("pixi.toml");
    reveal_strlit("pubspec.yaml");
    reveal_strlit("mix.exs");
    reveal_strlit("Directory.Packages.props");
    reveal_strlit("pom.xml");
    assert("Cargo.toml"@.len() == 10 && "Cargo.toml"@[0] == 'C' && "Cargo.toml"@[1] == 'a' && "go.mod"@.len() == 6 && "go.mod"@[0] == 'g' && "go.mod"@[1] == 'o' && "package.json"@.len() == 12 && "package.json"@[0] == 'p' && "package.json"@[1] == 'a' && "deno.json"@.len() == 9 && "deno.json"@[0] == 'd' && "deno.json"@[1] == 'e' && "deno.jsonc"@.len() == 10 && "deno.jsonc"@[0] == 'd' && "deno.jsonc"@[1] == 'e' && "pnpm-workspace.yaml"@.len() == 19 && "pnpm-workspace.yaml"@[0] == 'p' && "pnpm-workspace.yaml"@[1] == 'n' && "pnpm-workspace.yml"@.len() == 18 && "pnpm-workspace.yml"@[0] == 'p' && "pnpm-workspace.yml"@[1] == 'n' && "composer.json"@.len() == 13 && "composer.json"@[0] == 'c' && "composer.json"@[1] == 'o' && "pyproject.toml"@.len() == 14 && "pyproject.toml"@[0] == 'p' && "pyproject.toml"@[1] == 'y' && "pixi.toml"@.len() == 9 && "pixi.toml"@[0] == 'p' && "pixi.toml"@[1] == 'i' && "pubspec.yaml"@.len() == 12 && "pubspec.yaml"@[0] == 'p' && "pubspec.yaml"@[1] == 'u' && "mix.exs"@.len() == 7 && "mix.exs"@[0] == 'm' && "mix.exs"@[1] == 'i' && "Directory.Packages.props"@.len() == 24 && "Directory.Packages.props"@[0] == 'D' && "Directory.Packages.props"@[1] == 'i' && "pom.xml"@.len() == 7 && "pom.xml"@[0] == 'p' && "pom.xml"@[1] == 'o');
}

/// The kinds that go by the end of a name: a Gradle catalog, a .NET project, and a Python
/// requirements file, which also has to begin so.
#[verifier::rlimit(60)]
pub proof fn law_manifest_name_endings(x: Seq<char>)
    ensures
        kind_named(x + ".csproj"@) == Some(ManifestKind::Csproj),
        kind_named(x + ".versions.toml"@) == Some(ManifestKind::GradleVersionCatalog),
        kind_named("requirements"@ + x + ".txt"@) == Some(ManifestKind::RequirementsTxt),
        kind_named("requirements"@ + x + ".in"@) == Some(ManifestKind::RequirementsTxt),
{
    lemma_ahead(x, ".csproj"@);
    lemma_ahead(x, ".versions.toml"@);
    lemma_ahead("requirements"@ + x, ".txt"@);
    lemma_ahead("requirements"@ + x, ".in"@);
    lemma_after("requirements"@, x + ".txt"@);
    lemma_after("requirements"@, x + ".in"@);
    assert("requirements"@ + x + ".txt"@ =~= "requirements"@ + (x + ".txt"@));
    assert("requirements"@ + x + ".in"@ =~= "requirements"@ + (x + ".in"@));
    let (a, b, c, d) = (
        x + ".csproj"@,
        x + ".versions.toml"@,
        "requirements"@ + x + ".txt"@,
        "requirements"@ + x + ".in"@,
    );
    lemma_not_a_fixed_name(x, a, b, c, d);
}

#[verifier::rlimit(60)]
proof fn lemma_not_a_fixed_name(
    x: Seq<char>,
    a: Seq<char>,
    b: Seq<char>,
    c: Seq<char>,
    d: Seq<char>,
)
    requires
        a == x + ".csproj"@,
        b == x + ".versions.toml"@,
        c == "requirements"@ + x + ".txt"@,
        d == "requirements"@ + x + ".in"@,
    ensures
        !ends(a, ".versions.toml"@) && !is_requirements(a),
        !ends(c, ".versions.toml"@) && !ends(d, ".versions.toml"@),
        a != "Cargo.toml"@ && b != "Cargo.toml"@ && c != "Cargo.toml"@ && d != "Cargo.toml"@,
        a != "go.mod"@ && b != "go.mod"@ && c != "go.mod"@ && d != "go.mod"@,
        a != "package.json"@ && b != "package.json"@ && c != "package.json"@ && d != "package.json"@,
        a != "deno.json"@ && b != "deno.json"@ && c != "deno.json"@ && d != "deno.json"@,
        a != "deno.jsonc"@ && b != "deno.jsonc"@ && c != "deno.jsonc"@ && d != "deno.jsonc"@,
        a != "pnpm-workspace.yaml"@ && b != "pnpm-workspace.yaml"@ && c != "pnpm-workspace.yaml"@ && d != "pnpm-workspace.yaml"@,
        a != "pnpm-workspace.yml"@ && b != "pnpm-workspace.yml"@ && c != "pnpm-workspace.yml"@ && d != "pnpm-workspace.yml"@,
        a != "composer.json"@ && b != "composer.json"@ && c != "composer.json"@ && d != "composer.json"@,
        a != "pyproject.toml"@ && b != "pyproject.toml"@ && c != "pyproject.toml"@ && d != "pyproject.toml"@,
        a != "pixi.toml"@ && b != "pixi.toml"@ && c != "pixi.toml"@ && d != "pixi.toml"@,
        a != "pubspec.yaml"@ && b != "pubspec.yaml"@ && c != "pubspec.yaml"@ && d != "pubspec.yaml"@,
        a != "mix.exs"@ && b != "mix.exs"@ && c != "mix.exs"@ && d != "mix.exs"@,
        a != "Directory.Packages.props"@ && b != "Directory.Packages.props"@ && c != "Directory.Packages.props"@ && d != "Directory.Packages.props"@,
        a != "pom.xml"@ && b != "pom.xml"@ && c != "pom.xml"@ && d != "pom.xml"@,
{
    reveal_strlit("Cargo.toml");
    reveal_strlit("go.mod");
    reveal_strlit("package.json");
    reveal_strlit("deno.json");
    reveal_strlit("deno.jsonc");
    reveal_strlit("pnpm-workspace.yaml");
    reveal_strlit("pnpm-workspace.yml");
    reveal_strlit("composer.json");
    reveal_strlit("pyproject.toml");
    reveal_strlit("pixi.toml");
    reveal_strlit("pubspec.yaml");
    reveal_strlit("mix.exs");
    reveal_strlit("Directory.Packages.props");
    reveal_strlit("pom.xml");
    reveal_strlit(".csproj");
    reveal_strlit(".versions.toml");
    reveal_strlit("requirements");
    reveal_strlit(".txt");
    reveal_strlit(".in");
    assert(a.last() == 'j' && a.len() >= 7);
    assert(b.last() == 'l' && b[b.len() - 6] == 's' && b[b.len() - 5] == '.');
    assert(c[0] == 'r' && d[0] == 'r' && c.last() == 't' && d.last() == 'n');
    if ends(a, ".versions.toml"@) {
        assert(a.skip(a.len() - 14)[13] == a.last());
    }
    if ends(a, ".txt"@) {
        assert(a.skip(a.len() - 4)[3] == a.last());
    }
    if ends(a, ".in"@) {
        assert(a.skip(a.len() - 3)[2] == a.last());
    }
    if ends(c, ".versions.toml"@) {
        assert(c.skip(c.len() - 14)[13] == c.last());
    }
    if ends(d, ".versions.toml"@) {
        assert(d.skip(d.len() - 14)[13] == d.last());
    }
}

/// The ecosystem of each kind of manifest.
pub proof fn law_manifest_ecosystems()
    ensures
        ManifestKind::CargoToml.belongs_to() == Ecosystem::Rust,
        ManifestKind::GoMod.belongs_to() == Ecosystem::Go,
        ManifestKind::PackageJson.belongs_to() == Ecosystem::Npm,
        ManifestKind::DenoJson.belongs_to() == Ecosystem::Npm,
        ManifestKind::PnpmWorkspaceYaml.belongs_to() == Ecosystem::Npm,
        ManifestKind::ComposerJson.belongs_to() == Ecosystem::Php,
        ManifestKind::RequirementsTxt.belongs_to() == Ecosystem::Python,
        ManifestKind::PyprojectToml.belongs_to() == Ecosystem::Python,
        ManifestKind::PubspecYaml.belongs_to() == Ecosystem::Dart,
        ManifestKind::MixExs.belongs_to() == Ecosystem::Elixir,
        ManifestKind::Csproj.belongs_to() == Ecosystem::CSharp,
        ManifestKind::GradleVersionCatalog.belongs_to() == Ecosystem::Jvm,
        ManifestKind::PomXml.belongs_to() == Ecosystem::Jvm,
        ManifestKind::PackageSwift.belongs_to() == Ecosystem::Swift,
{
}

/// The lockfiles of each kind of manifest, the one to prefer first, and what they are
/// called. Every lockfile is that of one kind of manifest.
pub proof fn law_lockfiles()
    ensures
        ManifestKind::CargoToml.locked_by() == seq![LockfileKind::CargoLock],
        ManifestKind::PackageJson.locked_by() == seq![
            LockfileKind::PackageLockJson,
            LockfileKind::BunLock,
        ],
        ManifestKind::ComposerJson.locked_by() == seq![LockfileKind::ComposerLock],
        ManifestKind::PubspecYaml.locked_by() == seq![LockfileKind::PubspecLock],
        ManifestKind::MixExs.locked_by() == seq![LockfileKind::MixLock],
        forall|k: ManifestKind|
            k != ManifestKind::CargoToml && k != ManifestKind::PackageJson && k
                != ManifestKind::ComposerJson && k != ManifestKind::PubspecYaml && k
                != ManifestKind::MixExs ==> (#[trigger] k.locked_by()).len() == 0,
        LockfileKind::CargoLock.written_to()@ == "Cargo.lock"@,
        LockfileKind::PackageLockJson.written_to()@ == "package-lock.json"@,
        LockfileKind::BunLock.written_to()@ == "bun.lock"@,
        LockfileKind::ComposerLock.written_to()@ == "composer.lock"@,
        LockfileKind::PubspecLock.written_to()@ == "pubspec.lock"@,
        LockfileKind::MixLock.written_to()@ == "mix.lock"@,
{
}

/// Which dependencies are looked up, which have a place, and which are rewritten: those of
/// a registry, and with a constraint of their own; an inherited or locked one is looked up
/// without a place; a local, git or unresolved one not at all.
pub proof fn law_sources(i: ItemView)
    ensures
        i.source == PackageSource::Registry || i.source == PackageSource::Jsr ==> i.checkable()
            && i.positioned(),
        i.source == PackageSource::Local || i.source == PackageSource::Git || i.source
            == PackageSource::Unresolved ==> !i.checkable() && !i.positioned(),
        i.source == PackageSource::Locked ==> i.checkable() && !i.positioned(),
        i.source == PackageSource::Inherited ==> !i.positioned() && (i.checkable()
            <==> i.version_constraint.len() > 0),
        i.rewritable() <==> (i.source == PackageSource::Registry || i.source
            == PackageSource::Jsr) && i.version_constraint.len() > 0 && i.version_col_start
            < i.version_col_end,
{
}

/// A constraint is pinned by one `=` before it, after any white space, and not by two.
#[verifier::rlimit(60)]
pub proof fn law_pinned(i: ItemView, rest: Seq<char>)
    requires
        rest.len() > 0 ==> rest[0] != '=',
    ensures
        i.version_constraint == "="@ + rest ==> i.pinned(),
        i.version_constraint == " "@ + ("="@ + rest) ==> i.pinned(),
        i.version_constraint == "=="@ + rest ==> !i.pinned(),
        i.version_constraint == "^"@ + rest ==> !i.pinned(),
{
    lemma_signs();
    lemma_after("="@, rest);
    lemma_after("=="@, rest);
    let none = Seq::<char>::empty();
    let a = "="@ + rest;
    assert(a[0] == '=');
    assert(rest.len() > 0 ==> a[1] == rest[0]);
    lemma_not_begins(a, "=="@, 1);
    lemma_leading_at(none, a, Class::Space);
    lemma_leading_at(" "@, a, Class::Space);
    assert(none + a =~= a);
    let b = "=="@ + rest;
    assert(b[0] == '=');
    lemma_leading_at(none, b, Class::Space);
    assert(none + b =~= b);
    let c = "^"@ + rest;
    assert(c[0] == '^');
    lemma_leading_at(none, c, Class::Space);
    assert(none + c =~= c);
    lemma_not_begins(c, "="@, 0);
}

/// The bands of a score: from 9.0 it is critical, from 7.0 high, from 4.0 medium, from 0.1
/// low, and below that, or where it is no number, it has no impact. The scores are written
/// as the bits of the numbers.
pub proof fn law_bands(s: Score)
    requires
        s.bits < 0x8000_0000_0000_0000,
        s.bits <= 0x7ff0_0000_0000_0000,
    ensures
        Severity::of(s) == Severity::Critical <==> s.bits >= 0x4022_0000_0000_0000,
        Severity::of(s) == Severity::High <==> 0x401c_0000_0000_0000 <= s.bits
            < 0x4022_0000_0000_0000,
        Severity::of(s) == Severity::Medium <==> 0x4010_0000_0000_0000 <= s.bits
            < 0x401c_0000_0000_0000,
        Severity::of(s) == Severity::Low <==> 0x3fb9_9999_9999_999a <= s.bits
            < 0x4010_0000_0000_0000,
        Severity::of(s) == Severity::NoImpact <==> s.bits < 0x3fb9_9999_9999_999a,
{
}

/// A label names its band in any case of letters; OSV's `moderate` is medium; and another
/// word is none.
#[verifier::rlimit(60)]
pub proof fn law_labels(label: Seq<char>)
    requires
        trimmed(label) == label,
    ensures
        lowered(label) == "critical"@ <==> Severity::named(label) == Some(Severity::Critical),
        lowered(label) == "high"@ <==> Severity::named(label) == Some(Severity::High),
        lowered(label) == "medium"@ || lowered(label) == "moderate"@ <==> Severity::named(label)
            == Some(Severity::Medium),
        lowered(label) == "low"@ <==> Severity::named(label) == Some(Severity::Low),
        lowered(label) == "none"@ <==> Severity::named(label) == Some(Severity::NoImpact),
{
    reveal_strlit("critical");
    reveal_strlit("high");
    reveal_strlit("medium");
    reveal_strlit("moderate");
    reveal_strlit("low");
    reveal_strlit("none");
    assert("critical"@.len() == 8 && "high"@.len() == 4 && "medium"@.len() == 6
        && "moderate"@.len() == 8 && "low"@.len() == 3 && "none"@.len() == 4);
    assert("critical"@[0] == 'c' && "moderate"@[0] == 'm' && "high"@[0] == 'h' && "none"@[0]
        == 'n');
}

/// The bands and their words are told apart, and a word names its band back.
#[verifier::rlimit(60)]
pub proof fn law_band_words(band: Severity)
    ensures
        Severity::named(band.words()@) == Some(band),
        Severity::NoImpact.rank() < Severity::Low.rank() < Severity::Medium.rank()
            < Severity::High.rank() < Severity::Critical.rank(),
        Severity::NoImpact.code()@ == "NONE"@,
        Severity::Low.code()@ == "LOW"@,
        Severity::Medium.code()@ == "MEDIUM"@,
        Severity::High.code()@ == "HIGH"@,
        Severity::Critical.code()@ == "CRITICAL"@,
{
    reveal_strlit("critical");
    reveal_strlit("high");
    reveal_strlit("medium");
    reveal_strlit("low");
    reveal_strlit("none");
    let w = band.words()@;
    assert(lowered(w) =~= w);
    lemma_trimmed_same(w);
    law_labels(w);
}

/// What each status is called, in words and as a code.
pub proof fn law_status_words(why: Seq<char>)
    ensures
        StatusView::UpToDate.words()@ == "up to date"@,
        StatusView::PatchAvailable.words()@ == "patch available"@,
        StatusView::UpdateAvailable.words()@ == "update available"@,
        StatusView::Outdated.words()@ == "outdated"@,
        StatusView::Vulnerable.words()@ == "vulnerable"@,
        StatusView::Error(why).words()@ == "error"@,
        StatusView::Local.words()@ == "local"@,
        StatusView::Git.words()@ == "git"@,
        StatusView::Undetermined.words()@ == "undetermined"@,
        StatusView::UpToDate.code()@ == "OK"@,
        StatusView::PatchAvailable.code()@ == "PATCH"@,
        StatusView::UpdateAvailable.code()@ == "UPDATE"@,
        StatusView::Outdated.code()@ == "OUTDATED"@,
        StatusView::Vulnerable.code()@ == "VULN"@,
        StatusView::Error(why).code()@ == "ERROR"@,
        StatusView::Local.code()@ == "LOCAL"@,
        StatusView::Git.code()@ == "GIT"@,
        StatusView::Undetermined.code()@ == "UNDETERMINED"@,
{
}

/// What each kind of dependency is called.
pub proof fn law_kind_names()
    ensures
        DependencyKind::Normal.name()@ == "normal"@,
        DependencyKind::Dev.name()@ == "dev"@,
        DependencyKind::Build.name()@ == "build"@,
        DependencyKind::Optional.name()@ == "optional"@,
        DependencyKind::Peer.name()@ == "peer"@,
        DependencyKind::Workspace.name()@ == "workspace"@,
        DependencyKind::Indirect.name()@ == "indirect"@,
        DependencyKind::Override.name()@ == "override"@,
{
}

/// The limits of a walk and of a chain of properties.
pub proof fn law_limits()
    ensures
        crate::graph::walk::MAX_WALK_DEPTH == 512,
        crate::graph::walk::DEFAULT_MAX_VISITS == 1_000_000,
        crate::parsers::pom_xml::MAX_PROPERTY_HOPS == 8,
{
}

/// Each kind of manifest is read by the reader of its format.
pub proof fn law_readers(content: Seq<char>)
    ensures
        reading(ManifestKind::CargoToml, content) == CargoTomlParser.reads(content),
        reading(ManifestKind::GoMod, content) == GoModParser.reads(content),
        reading(ManifestKind::PackageJson, content) == PackageJsonParser.reads(content),
        reading(ManifestKind::DenoJson, content) == DenoJsonParser.reads(content),
        reading(ManifestKind::PnpmWorkspaceYaml, content) == PnpmWorkspaceParser.reads(content),
        reading(ManifestKind::ComposerJson, content) == ComposerJsonParser.reads(content),
        reading(ManifestKind::RequirementsTxt, content) == RequirementsTxtParser.reads(content),
        reading(ManifestKind::PyprojectToml, content) == PyprojectTomlParser.reads(content),
        reading(ManifestKind::PubspecYaml, content) == PubspecYamlParser.reads(content),
        reading(ManifestKind::Csproj, content) == CsprojParser.reads(content),
        reading(ManifestKind::MixExs, content) == MixExsParser.reads(content),
        reading(ManifestKind::GradleVersionCatalog, content) == GradleCatalogParser.reads(content),
        reading(ManifestKind::PomXml, content) == PomXmlParser.reads(content),
        reading(ManifestKind::PackageSwift, content) == PackageSwiftParser.reads(content),
{
}

/// Each kind of lockfile lists what the reader of its format finds.
pub proof fn law_lockfile_readers(content: Seq<char>)
    ensures
        ({
            let found = document_scan(content).found;
            &&& listed(LockfileKind::PackageLockJson, content) == Some(npm_pairs(found))
            &&& listed(LockfileKind::BunLock, content) == Some(bun_pairs(found))
            &&& listed(LockfileKind::ComposerLock, content) == Some(
                composer_pairs(found, element_keys(found)),
            )
            &&& listed(LockfileKind::PubspecLock, content) == Some(
                pubspec_scan(lines_of(content)).pairs,
            )
            &&& listed(LockfileKind::MixLock, content) == Some(
                mix_pairs(regex_matches(LOCK_PATTERN@, content)),
            )
        }),
{
}

/// What is read is of the kind it is read as. A TOML manifest reads exactly if it is valid
/// TOML, an XML manifest exactly if it is well-formed, and any other always.
pub proof fn law_what_reads(kind: ManifestKind, content: Seq<char>)
    ensures
        reading(kind, content) matches Reading::Read(m) ==> m.kind == kind && m.notices.len() == 0,
        kind == ManifestKind::CargoToml || kind == ManifestKind::PyprojectToml || kind
            == ManifestKind::GradleVersionCatalog ==> if toml_document(content) is Some {
            reading(kind, content) is Read
        } else {
            reading(kind, content) == Reading::NotToml
        },
        kind == ManifestKind::Csproj || kind == ManifestKind::PomXml ==> match xml_document(
            content,
        ) {
            Ok(_) => reading(kind, content) is Read,
            Err(e) => reading(kind, content) == Reading::Malformed(e),
        },
        kind != ManifestKind::CargoToml && kind != ManifestKind::PyprojectToml && kind
            != ManifestKind::GradleVersionCatalog && kind != ManifestKind::Csproj && kind
            != ManifestKind::PomXml ==> reading(kind, content) is Read,
        kind == ManifestKind::PackageSwift ==> (reading(kind, content) matches Reading::Read(m)
            && m.items.len() == 0),
{
}

} // verus!
