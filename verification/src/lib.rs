//! Dependency manifests, lockfiles and version rules, verified.
pub mod ecosystem;
pub mod error;
pub mod facts;
pub mod graph;
pub mod item;
pub mod lockfiles;
pub mod manifest;
pub mod npmrc;
pub mod number;
pub mod parsers;
pub mod pattern;
pub mod result;
pub mod semver;
pub mod split;
pub mod table;
pub mod text;
pub mod text_laws;
pub mod toml;
pub mod width;
pub mod writing;
pub mod xml;

pub use ecosystem::Ecosystem;
pub use error::ParseError;
pub use graph::{
    DependencyGraph, Node, NodeKind, PathPredicate, Placement, Tree, TreeNode, TreeOptions, Visit,
    Visitor, WalkOptions,
};
pub use item::{DependencyKind, Item, PackageSource};
pub use lockfiles::{
    apply_lockfile, parse_bun_lock, parse_bun_lock_graph, parse_cargo_lock, parse_cargo_lock_graph,
    parse_composer_lock, parse_composer_lock_graph, parse_dart_pubspec_lock, parse_lockfile,
    parse_lockfile_kind, parse_mix_lock, parse_mix_lock_graph, parse_package_lock,
    parse_package_lock_graph, parse_swift_package_resolved, swift_package_name,
    swift_package_name_variants, swift_package_resolved_items, LockedPackage, LockfileData,
    ResolvedLockfile,
};
pub use manifest::{
    AlternateRegistryDecl, LockfileKind, ManifestKind, ParsedManifest, UnreadableLockfile,
    UnreadableManifest, WorkspaceRoots,
};
pub use npmrc::{parse_npmrc, NpmrcConfig};
pub use parsers::{
    parse, parse_cargo_config, parse_package_manifest, parse_package_name, parse_project,
    parse_workspace, resolve_workspace_inheritance, AutoTargets, CargoPackageManifest, CargoTarget,
    CargoTargetKind, CargoTomlParser, CfgDependencyTable, ComposerJsonParser, CsprojParser,
    DenoJsonParser, DependencySection, GoModParser, GradleCatalogParser, MixExsParser,
    PackageField, PackageJsonParser, PackageSwiftParser, Parser, PnpmWorkspaceParser, PomXmlParser,
    ProjectMeta, ProjectRole, PubspecYamlParser, PyprojectTomlParser, RequirementsTxtParser,
    WorkspaceDecl,
};
pub use result::{CheckResult, DependencyStatus};
pub use semver::{check_version, is_prerelease, to_semver_constraint, Evaluation, UnstableFilter};
pub use semver::pin::exact_pin;
