//! Manifest-level types: what kind of manifest, and the result of parsing one.
use crate::ecosystem::Ecosystem;
use crate::item::{copy_option, item_views, Item, ItemView};
use crate::parsers::cargo_workspace::{parse_workspace, workspace_of};
use crate::split::{pieces, split, strings, texts};
use crate::text::{
    begins, chars_of, ends, ends_with, is_str, opt_string, opt_text, starts_with, Class,
};
use crate::toml::toml_document;
use vstd::prelude::*;

verus! {

/// The result of parsing a manifest: its kind and the dependencies it declares.
#[derive(Debug, Clone)]
#[non_exhaustive]
pub struct ParsedManifest {
    /// The kind of manifest that was parsed.
    pub kind: ManifestKind,
    /// The dependencies declared in the manifest, in source order.
    pub items: Vec<Item>,
    /// Alternate registry declarations (Rust `[registries.*]`).
    pub alternate_registries: Vec<AlternateRegistryDecl>,
    /// What the reader has to tell about the manifest as a whole.
    pub notices: Vec<String>,
}

/// What a [`ParsedManifest`] says.
pub ghost struct ManifestView {
    /// The kind of manifest.
    pub kind: ManifestKind,
    /// The dependencies, in source order.
    pub items: Seq<ItemView>,
    /// The alternate registries.
    pub alternate_registries: Seq<RegistryView>,
    /// The notices.
    pub notices: Seq<Seq<char>>,
}

impl View for ParsedManifest {
    type V = ManifestView;

    open spec fn view(&self) -> ManifestView {
        ManifestView {
            kind: self.kind,
            items: item_views(self.items@),
            alternate_registries: registry_views(self.alternate_registries@),
            notices: strings(self.notices@),
        }
    }
}

/// A manifest that says nothing but its items.
pub open spec fn items_only(kind: ManifestKind, items: Seq<ItemView>) -> ManifestView {
    ManifestView { kind, items, alternate_registries: seq![], notices: seq![] }
}

impl ParsedManifest {
    /// A manifest that says nothing but its items.
    pub fn of_items(kind: ManifestKind, items: Vec<Item>) -> (r: Self)
        ensures
            r@ == items_only(kind, item_views(items@)),
    {
        let r = ParsedManifest {
            kind,
            items,
            alternate_registries: Vec::new(),
            notices: Vec::new(),
        };
        assert(r@.alternate_registries =~= seq![]);
        assert(r@.notices =~= seq![]);
        r
    }
}

/// A declared alternate registry (Rust only).
#[derive(Debug, PartialEq, Eq)]
#[non_exhaustive]
pub struct AlternateRegistryDecl {
    /// The registry alias used by `registry = "..."` entries.
    pub name: String,
    /// The sparse-index URL, if declared.
    pub index_url: Option<String>,
    /// An auth token for the registry, if declared.
    pub auth_token: Option<String>,
}

/// What an [`AlternateRegistryDecl`] says.
pub ghost struct RegistryView {
    /// The alias.
    pub name: Seq<char>,
    /// The index URL.
    pub index_url: Option<Seq<char>>,
    /// The auth token.
    pub auth_token: Option<Seq<char>>,
}

impl View for AlternateRegistryDecl {
    type V = RegistryView;

    open spec fn view(&self) -> RegistryView {
        RegistryView {
            name: self.name@,
            index_url: opt_string(self.index_url),
            auth_token: opt_string(self.auth_token),
        }
    }
}

impl Clone for AlternateRegistryDecl {
    fn clone(&self) -> (r: Self)
        ensures
            r@ == self@,
    {
        AlternateRegistryDecl {
            name: self.name.clone(),
            index_url: copy_option(&self.index_url),
            auth_token: copy_option(&self.auth_token),
        }
    }
}

/// What a list of declarations says.
pub open spec fn registry_views(v: Seq<AlternateRegistryDecl>) -> Seq<RegistryView> {
    v.map_values(|d: AlternateRegistryDecl| d@)
}

/// Distinguishes manifest files. Every variant has a reader; the mapping to
/// [`Ecosystem`] is many-to-one, since several manifest formats can belong to one
/// registry.
#[derive(Debug, Clone, Copy, PartialEq, Eq, Structural)]
#[non_exhaustive]
pub enum ManifestKind {
    /// `Cargo.toml`.
    CargoToml,
    /// `go.mod`.
    GoMod,
    /// `package.json`.
    PackageJson,
    /// `deno.json` and `deno.jsonc`.
    DenoJson,
    /// `pnpm-workspace.yaml`.
    PnpmWorkspaceYaml,
    /// `composer.json`.
    ComposerJson,
    /// `requirements*.txt` and `requirements*.in`.
    RequirementsTxt,
    /// `pyproject.toml` and `pixi.toml`.
    PyprojectToml,
    /// `pubspec.yaml`.
    PubspecYaml,
    /// `mix.exs`.
    MixExs,
    /// `*.csproj` and `Directory.Packages.props`.
    Csproj,
    /// `*.versions.toml`.
    GradleVersionCatalog,
    /// `pom.xml`.
    PomXml,
    /// `Package.swift`.
    PackageSwift,
}

/// A text without the separators and the `.` components at the end of a path, and the
/// component that is left: the name of the file a `/`-separated path leads to. A path
/// that ends in `..`, or has no component, leads to no named file.
pub open spec fn file_name(path: Seq<char>) -> Option<Seq<char>> {
    last_component(pieces(path, Class::Is('/')))
}

/// The last component that names something.
pub open spec fn last_component(parts: Seq<Seq<char>>) -> Option<Seq<char>>
    decreases parts.len(),
{
    if parts.len() == 0 {
        None
    } else if parts.last().len() == 0 || parts.last() == "."@ {
        last_component(parts.drop_last())
    } else if parts.last() == ".."@ {
        None
    } else {
        Some(parts.last())
    }
}

/// The name of the file a path leads to.
fn find_file_name<'a>(path: &'a [char]) -> (r: Option<&'a [char]>)
    ensures
        opt_text(r) == file_name(path@),
{
    let parts = split(path, Class::Is('/'));
    let ghost all = texts(parts@);
    let mut i: usize = parts.len();
    assert(all.take(i as int) =~= all);
    while i > 0
        invariant
            i <= parts.len(),
            all == texts(parts@),
            all == pieces(path@, Class::Is('/')),
            last_component(all) == last_component(all.take(i as int)),
        decreases i,
    {
        let part: &'a [char] = parts[i - 1];
        proof {
            assert(all.take(i as int).last() == part@);
            assert(all.take(i as int).drop_last() =~= all.take(i - 1));
        }
        if part.len() == 0 || is_str(part, ".") {
            i = i - 1;
        } else if is_str(part, "..") {
            return None;
        } else {
            return Some(part);
        }
    }
    None
}

/// Whether a file name is that of a Python requirements file (`requirements.txt`,
/// `requirements-dev.txt`, `requirements.in`, …).
pub open spec fn is_requirements(name: Seq<char>) -> bool {
    begins(name, "requirements"@) && (ends(name, ".txt"@) || ends(name, ".in"@))
}

/// Whether `name` is a Python requirements file.
fn is_requirements_file(name: &[char]) -> (r: bool)
    ensures
        r == is_requirements(name@),
{
    starts_with(name, "requirements") && (ends_with(name, ".txt") || ends_with(name, ".in"))
}

/// The kind a file name means.
pub open spec fn kind_named(name: Seq<char>) -> Option<ManifestKind> {
    if name == "Cargo.toml"@ {
        Some(ManifestKind::CargoToml)
    } else if name == "go.mod"@ {
        Some(ManifestKind::GoMod)
    } else if name == "package.json"@ {
        Some(ManifestKind::PackageJson)
    } else if name == "deno.json"@ || name == "deno.jsonc"@ {
        Some(ManifestKind::DenoJson)
    } else if name == "pnpm-workspace.yaml"@ || name == "pnpm-workspace.yml"@ {
        Some(ManifestKind::PnpmWorkspaceYaml)
    } else if name == "composer.json"@ {
        Some(ManifestKind::ComposerJson)
    } else if name == "pyproject.toml"@ || name == "pixi.toml"@ {
        Some(ManifestKind::PyprojectToml)
    } else if name == "pubspec.yaml"@ {
        Some(ManifestKind::PubspecYaml)
    } else if name == "mix.exs"@ {
        Some(ManifestKind::MixExs)
    } else if name == "Directory.Packages.props"@ {
        Some(ManifestKind::Csproj)
    } else if name == "pom.xml"@ {
        Some(ManifestKind::PomXml)
    } else if ends(name, ".versions.toml"@) {
        Some(ManifestKind::GradleVersionCatalog)
    } else if is_requirements(name) {
        Some(ManifestKind::RequirementsTxt)
    } else if ends(name, ".csproj"@) {
        Some(ManifestKind::Csproj)
    } else {
        None
    }
}

impl ManifestKind {
    /// The ecosystem of a kind.
    pub open spec fn belongs_to(self) -> Ecosystem {
        match self {
            ManifestKind::CargoToml => Ecosystem::Rust,
            ManifestKind::GoMod => Ecosystem::Go,
            ManifestKind::PackageJson
            | ManifestKind::DenoJson
            | ManifestKind::PnpmWorkspaceYaml => Ecosystem::Npm,
            ManifestKind::ComposerJson => Ecosystem::Php,
            ManifestKind::RequirementsTxt | ManifestKind::PyprojectToml => Ecosystem::Python,
            ManifestKind::PubspecYaml => Ecosystem::Dart,
            ManifestKind::MixExs => Ecosystem::Elixir,
            ManifestKind::Csproj => Ecosystem::CSharp,
            ManifestKind::GradleVersionCatalog | ManifestKind::PomXml => Ecosystem::Jvm,
            ManifestKind::PackageSwift => Ecosystem::Swift,
        }
    }

    /// The lockfiles of a kind, in precedence order.
    pub open spec fn locked_by(self) -> Seq<LockfileKind> {
        match self {
            ManifestKind::CargoToml => seq![LockfileKind::CargoLock],
            ManifestKind::PackageJson => seq![
                LockfileKind::PackageLockJson,
                LockfileKind::BunLock,
            ],
            ManifestKind::ComposerJson => seq![LockfileKind::ComposerLock],
            ManifestKind::PubspecYaml => seq![LockfileKind::PubspecLock],
            ManifestKind::MixExs => seq![LockfileKind::MixLock],
            _ => seq![],
        }
    }

    /// The ecosystem this manifest belongs to.
    #[must_use]
    pub fn ecosystem(self) -> (r: Ecosystem)
        ensures
            r == self.belongs_to(),
    {
        match self {
            ManifestKind::CargoToml => Ecosystem::Rust,
            ManifestKind::GoMod => Ecosystem::Go,
            ManifestKind::PackageJson
            | ManifestKind::DenoJson
            | ManifestKind::PnpmWorkspaceYaml => Ecosystem::Npm,
            ManifestKind::ComposerJson => Ecosystem::Php,
            ManifestKind::RequirementsTxt | ManifestKind::PyprojectToml => Ecosystem::Python,
            ManifestKind::PubspecYaml => Ecosystem::Dart,
            ManifestKind::MixExs => Ecosystem::Elixir,
            ManifestKind::Csproj => Ecosystem::CSharp,
            ManifestKind::GradleVersionCatalog | ManifestKind::PomXml => Ecosystem::Jvm,
            ManifestKind::PackageSwift => Ecosystem::Swift,
        }
    }

    /// The sibling lockfiles this manifest kind may have, in precedence order.
    ///
    /// A manifest is not tied to one lockfile: a `package.json` is governed by
    /// whichever of several a package manager wrote, and the first one actually
    /// present wins. Ecosystems where only one exists simply list one.
    #[must_use]
    pub fn lockfiles(self) -> (r: &'static [LockfileKind])
        ensures
            r@ == self.locked_by(),
    {
        match self {
            ManifestKind::CargoToml => &[LockfileKind::CargoLock],
            // `package-lock.json` first: a repository carrying both has been
            // through a migration. A bun-only project has only `bun.lock`, so
            // the order costs it nothing.
            ManifestKind::PackageJson => &[LockfileKind::PackageLockJson, LockfileKind::BunLock],
            ManifestKind::ComposerJson => &[LockfileKind::ComposerLock],
            ManifestKind::PubspecYaml => &[LockfileKind::PubspecLock],
            ManifestKind::MixExs => &[LockfileKind::MixLock],
            _ => &[],
        }
    }

    /// Whether a sibling lockfile is read for this manifest kind.
    #[must_use]
    pub fn has_lockfile_support(self) -> (r: bool)
        ensures
            r == (self.locked_by().len() > 0),
    {
        self.lockfiles().len() > 0
    }

    /// Lockfiles this ecosystem produces that are recognised but cannot be read.
    ///
    /// Listed so their presence can be reported rather than mistaken for a
    /// missing lockfile.
    #[must_use]
    pub fn unreadable_lockfiles(self) -> (r: &'static [UnreadableLockfile])
        ensures
            self == ManifestKind::PackageJson ==> r@.len() == 1 && r@[0].file_name@
                == "bun.lockb"@ && r@[0].reason@ == BUN_LOCKB_REASON@,
            self != ManifestKind::PackageJson ==> r@.len() == 0,
    {
        match self {
            ManifestKind::PackageJson => &[
                UnreadableLockfile { file_name: "bun.lockb", reason: BUN_LOCKB_REASON },
            ],
            _ => &[],
        }
    }
}

/// Why a binary Bun lockfile cannot be read.
pub const BUN_LOCKB_REASON: &'static str = "Bun's legacy binary lockfile, which cannot be read as text. Run `bun install --save-text-lockfile` to migrate it to bun.lock.";

/// A lockfile format that is recognised but cannot be read, and what to do about it.
///
/// Recognising these is what separates "no lockfile here" from "a lockfile that cannot
/// be used". The second is the one a user can act on.
#[derive(Debug, Clone, Copy, PartialEq, Eq)]
#[non_exhaustive]
pub struct UnreadableLockfile {
    /// The file name to look for.
    pub file_name: &'static str,
    /// Why it cannot be read, phrased for the person who has to fix it.
    pub reason: &'static str,
}

/// A lockfile format that can be read.
///
/// Separate from [`ManifestKind`] because the mapping is not one to one in
/// either direction: one manifest may be governed by any of several lockfiles.
#[derive(Debug, Clone, Copy, PartialEq, Eq, Hash, Structural)]
#[non_exhaustive]
pub enum LockfileKind {
    /// Cargo's `Cargo.lock`.
    CargoLock,
    /// npm's `package-lock.json`.
    PackageLockJson,
    /// Bun's text lockfile, `bun.lock`.
    ///
    /// Bun's older binary format, `bun.lockb`, is deliberately absent: it is not
    /// a text format and cannot be read.
    BunLock,
    /// Composer's `composer.lock`.
    ComposerLock,
    /// Dart's `pubspec.lock`.
    PubspecLock,
    /// Mix's `mix.lock`.
    MixLock,
}

impl LockfileKind {
    /// The file name of a kind.
    pub open spec fn written_to(self) -> &'static str {
        match self {
            LockfileKind::CargoLock => "Cargo.lock",
            LockfileKind::PackageLockJson => "package-lock.json",
            LockfileKind::BunLock => "bun.lock",
            LockfileKind::ComposerLock => "composer.lock",
            LockfileKind::PubspecLock => "pubspec.lock",
            LockfileKind::MixLock => "mix.lock",
        }
    }

    /// The file name this kind is written to.
    #[must_use]
    pub fn file_name(self) -> (r: &'static str)
        ensures
            r == self.written_to(),
    {
        match self {
            LockfileKind::CargoLock => "Cargo.lock",
            LockfileKind::PackageLockJson => "package-lock.json",
            LockfileKind::BunLock => "bun.lock",
            LockfileKind::ComposerLock => "composer.lock",
            LockfileKind::PubspecLock => "pubspec.lock",
            LockfileKind::MixLock => "mix.lock",
        }
    }

    /// Recognise a lockfile by the name of the file that a `/`-separated path leads to.
    #[must_use]
    pub fn detect(path: &str) -> (r: Option<Self>)
        ensures
            r == match file_name(path@) {
                Some(name) => lockfile_named(name),
                None => None,
            },
    {
        let chars = chars_of(path);
        match find_file_name(chars.as_slice()) {
            Some(name) => if is_str(name, "Cargo.lock") {
                Some(LockfileKind::CargoLock)
            } else if is_str(name, "package-lock.json") {
                Some(LockfileKind::PackageLockJson)
            } else if is_str(name, "bun.lock") {
                Some(LockfileKind::BunLock)
            } else if is_str(name, "composer.lock") {
                Some(LockfileKind::ComposerLock)
            } else if is_str(name, "pubspec.lock") {
                Some(LockfileKind::PubspecLock)
            } else if is_str(name, "mix.lock") {
                Some(LockfileKind::MixLock)
            } else {
                None
            },
            None => None,
        }
    }

    /// A lockfile is recognised by its own name, in any directory.
    pub proof fn law_recognised_by_name(self)
        ensures
            lockfile_named(self.written_to()@) == Some(self),
    {
        reveal_strlit("Cargo.lock");
        reveal_strlit("package-lock.json");
        reveal_strlit("bun.lock");
        reveal_strlit("composer.lock");
        reveal_strlit("pubspec.lock");
        reveal_strlit("mix.lock");
        assert("Cargo.lock"@[0] == 'C');
        assert("package-lock.json"@.len() == 17);
        assert("bun.lock"@[0] == 'b');
        assert("composer.lock"@[0] == 'c');
        assert("pubspec.lock"@[1] == 'u');
        assert("package-lock.json"@[1] == 'a');
        assert("mix.lock"@[0] == 'm');
        assert("pubspec.lock"@[0] == 'p');
    }
}

/// The lockfile a file name means.
pub open spec fn lockfile_named(name: Seq<char>) -> Option<LockfileKind> {
    if name == "Cargo.lock"@ {
        Some(LockfileKind::CargoLock)
    } else if name == "package-lock.json"@ {
        Some(LockfileKind::PackageLockJson)
    } else if name == "bun.lock"@ {
        Some(LockfileKind::BunLock)
    } else if name == "composer.lock"@ {
        Some(LockfileKind::ComposerLock)
    } else if name == "pubspec.lock"@ {
        Some(LockfileKind::PubspecLock)
    } else if name == "mix.lock"@ {
        Some(LockfileKind::MixLock)
    } else {
        None
    }
}

/// A name without a separator is the file name of a path that is just the name.
pub proof fn law_file_name_of_name(name: Seq<char>)
    requires
        name.len() > 0,
        name != "."@,
        name != ".."@,
        !name.contains('/'),
    ensures
        file_name(name) == Some(name),
{
    crate::text::lemma_first(name, Class::Is('/'));
    let n = crate::text::first(name, Class::Is('/'));
    if n < name.len() {
        assert(name[n] == '/');
    }
    assert(pieces(name, Class::Is('/')) =~= seq![name]);
    assert(seq![name].last() == name);
}

/// Why a Gradle build script cannot be read.
pub const BUILD_SCRIPT_REASON: &'static str = "a Gradle build script, which cannot be read without executing it. Declare dependencies in `gradle/libs.versions.toml` to have them checked.";

/// A manifest format that is recognised but cannot be read, and what to do about it.
///
/// The manifest-level counterpart of [`UnreadableLockfile`], with one field it does
/// not need: an unreadable manifest may have a readable *alternative* elsewhere in
/// the project, and where that alternative is present nothing was missed.
#[derive(Debug, Clone, Copy, PartialEq, Eq)]
#[non_exhaustive]
pub struct UnreadableManifest {
    /// The file name to look for.
    pub file_name: &'static str,
    /// Why it cannot be read, phrased for the person who has to fix it.
    pub reason: &'static str,
    /// Paths, relative to the directory holding it, whose presence means the
    /// dependencies are declared somewhere readable after all.
    pub superseded_by: &'static [&'static str],
}

/// Whether an entry is that of a Gradle build script of a name.
pub open spec fn is_build_script(m: UnreadableManifest, name: Seq<char>) -> bool {
    &&& m.file_name@ == name
    &&& m.reason@ == BUILD_SCRIPT_REASON@
    &&& m.superseded_by@.len() == 1
    &&& m.superseded_by@[0]@ == "gradle/libs.versions.toml"@
}

/// Whether a list is that of Gradle's build scripts, which are programs rather than
/// data: both spellings, because a project may use either.
pub open spec fn are_build_scripts(list: Seq<UnreadableManifest>) -> bool {
    &&& list.len() == 2
    &&& is_build_script(list[0], "build.gradle.kts"@)
    &&& is_build_script(list[1], "build.gradle"@)
}

/// Every manifest format recognised but unreadable, whichever ecosystem produces it.
///
/// What a directory scan looks for, since it is asking about files on disk rather
/// than about a manifest kind it has already identified.
#[must_use]
pub fn all_unreadable_manifests() -> (r: &'static [UnreadableManifest])
    ensures
        are_build_scripts(r@),
{
    &[
        UnreadableManifest {
            file_name: "build.gradle.kts",
            reason: BUILD_SCRIPT_REASON,
            superseded_by: &["gradle/libs.versions.toml"],
        },
        UnreadableManifest {
            file_name: "build.gradle",
            reason: BUILD_SCRIPT_REASON,
            superseded_by: &["gradle/libs.versions.toml"],
        },
    ]
}

/// Where a manifest kind's central dependency declarations live, and how the
/// manifest holding them is recognized.
///
/// A Cargo member's `serde.workspace = true` resolving against a root's
/// `[workspace.dependencies]` is a dependency whose version literal is written
/// somewhere other than the dependency itself. Describing that per kind keeps the walk
/// that finds the root out of any single ecosystem's shape.
#[derive(Debug, Clone, Copy, PartialEq, Eq)]
#[non_exhaustive]
pub struct WorkspaceRoots {
    /// Candidate file names for a root, tried in order within each directory.
    pub root_names: &'static [&'static str],
    /// The kind a located root is parsed as. Not necessarily the kind that went
    /// looking.
    pub root_kind: ManifestKind,
    /// Whether a manifest may be its own root.
    pub self_governing: bool,
}

impl ManifestKind {
    /// Manifest formats this ecosystem produces that are recognised but cannot be read.
    ///
    /// The sibling of [`ManifestKind::unreadable_lockfiles`], with more at stake: an
    /// unread *lockfile* costs the resolved versions, while an unread *manifest* costs
    /// the dependencies themselves.
    #[must_use]
    pub fn unreadable_manifests(self) -> (r: &'static [UnreadableManifest])
        ensures
            self == ManifestKind::GradleVersionCatalog ==> are_build_scripts(r@),
            self != ManifestKind::GradleVersionCatalog ==> r@.len() == 0,
    {
        match self {
            ManifestKind::GradleVersionCatalog => all_unreadable_manifests(),
            _ => &[],
        }
    }

    /// Where a manifest of this kind looks for the manifest holding its central
    /// dependency declarations, or `None` for a kind that has no such indirection.
    ///
    /// `None` is the answer for every kind whose dependencies declare their own
    /// versions in place.
    #[must_use]
    pub fn workspace_roots(self) -> (r: Option<WorkspaceRoots>)
        ensures
            r is Some <==> self == ManifestKind::CargoToml,
            r matches Some(w) ==> w.root_names@.len() == 1 && w.root_names@[0]@ == "Cargo.toml"@
                && w.root_kind == ManifestKind::CargoToml && w.self_governing,
    {
        match self {
            ManifestKind::CargoToml => Some(
                WorkspaceRoots {
                    root_names: &["Cargo.toml"],
                    root_kind: ManifestKind::CargoToml,
                    self_governing: true,
                },
            ),
            _ => None,
        }
    }

    /// Whether `content`, read as this kind, offers central dependency
    /// declarations: that is, whether it is a workspace root.
    ///
    /// A candidate found by name still has to say so in its content, because a
    /// `Cargo.toml` above a member is far more often just another package.
    #[must_use]
    pub fn declares_workspace(self, content: &str) -> (r: bool)
        ensures
            r == (self == ManifestKind::CargoToml && match toml_document(content@) {
                Some(root) => workspace_of(root) is Some,
                None => false,
            }),
    {
        match self {
            ManifestKind::CargoToml => parse_workspace(content).is_some(),
            _ => false,
        }
    }

    /// Detect a manifest kind from the name of the file that a `/`-separated path leads
    /// to.
    #[must_use]
    pub fn detect(path: &str) -> (r: Option<Self>)
        ensures
            r == match file_name(path@) {
                Some(name) => kind_named(name),
                None => None,
            },
    {
        let chars = chars_of(path);
        match find_file_name(chars.as_slice()) {
            Some(name) => Self::detect_name(name),
            None => None,
        }
    }

    /// Detect a manifest kind from a file name.
    fn detect_name(name: &[char]) -> (r: Option<Self>)
        ensures
            r == kind_named(name@),
    {
        if is_str(name, "Cargo.toml") {
            Some(ManifestKind::CargoToml)
        } else if is_str(name, "go.mod") {
            Some(ManifestKind::GoMod)
        } else if is_str(name, "package.json") {
            Some(ManifestKind::PackageJson)
        } else if is_str(name, "deno.json") || is_str(name, "deno.jsonc") {
            Some(ManifestKind::DenoJson)
        } else if is_str(name, "pnpm-workspace.yaml") || is_str(name, "pnpm-workspace.yml") {
            Some(ManifestKind::PnpmWorkspaceYaml)
        } else if is_str(name, "composer.json") {
            Some(ManifestKind::ComposerJson)
        } else if is_str(name, "pyproject.toml") || is_str(name, "pixi.toml") {
            Some(ManifestKind::PyprojectToml)
        } else if is_str(name, "pubspec.yaml") {
            Some(ManifestKind::PubspecYaml)
        } else if is_str(name, "mix.exs") {
            Some(ManifestKind::MixExs)
        } else if is_str(name, "Directory.Packages.props") {
            Some(ManifestKind::Csproj)
        } else if is_str(name, "pom.xml") {
            Some(ManifestKind::PomXml)
        } else if ends_with(name, ".versions.toml") {
            // Gradle reads every `*.versions.toml` under `gradle/` as a catalog;
            // `libs` is only the conventional name of the default one.
            Some(ManifestKind::GradleVersionCatalog)
        } else if is_requirements_file(name) {
            Some(ManifestKind::RequirementsTxt)
        } else if ends_with(name, ".csproj") {
            Some(ManifestKind::Csproj)
        } else {
            None
        }
    }
}

} // verus!
