//! Manifest readers and per-kind dispatch.
pub mod alias;
pub mod cargo_package;
pub mod cargo_toml;
pub mod cargo_workspace;
pub mod composer_json;
pub mod csproj;
pub mod deno_json;
pub mod go_mod;
pub mod gradle_catalog;
pub mod json_laws;
pub mod json_scan;
pub mod json_spans;
pub mod laws;
pub mod line_laws;
pub mod list_laws;
pub mod mix_exs;
pub mod package_json;
pub mod package_swift;
pub mod place;
pub mod pnpm_workspace;
pub mod pom_xml;
pub mod position;
pub mod project;
pub mod project_laws;
pub mod pubspec_yaml;
pub mod pyproject_toml;
pub mod requirements_txt;
pub mod spans;
pub mod yaml_block;
pub mod yaml_laws;

use crate::error::ParseError;
use crate::manifest::{ManifestKind, ManifestView, ParsedManifest};
use spans::told;
use vstd::prelude::*;

pub use cargo_package::{
    parse_package_manifest, AutoTargets, CargoPackageManifest, CargoTarget, CargoTargetKind,
    CfgDependencyTable, DependencySection, PackageField,
};
pub use cargo_toml::{parse_cargo_config, CargoTomlParser};
pub use cargo_workspace::{
    parse_package_name, parse_workspace, resolve_workspace_inheritance, WorkspaceDecl,
};
pub use composer_json::ComposerJsonParser;
pub use csproj::CsprojParser;
pub use deno_json::DenoJsonParser;
pub use go_mod::GoModParser;
pub use gradle_catalog::GradleCatalogParser;
pub use mix_exs::MixExsParser;
pub use package_json::PackageJsonParser;
pub use package_swift::PackageSwiftParser;
pub use pnpm_workspace::PnpmWorkspaceParser;
pub use pom_xml::PomXmlParser;
pub use project::{parse_project, ProjectMeta, ProjectRole};
pub use pubspec_yaml::PubspecYamlParser;
pub use pyproject_toml::PyprojectTomlParser;
pub use requirements_txt::RequirementsTxtParser;

verus! {

/// What reading a manifest comes to.
pub ghost enum Reading {
    /// It reads.
    Read(ManifestView),
    /// It is not valid TOML.
    NotToml,
    /// It is otherwise malformed, and why.
    Malformed(Seq<char>),
    /// There is no reader for it.
    Unsupported,
}

/// What a result says.
pub open spec fn reading_of(r: Result<ParsedManifest, ParseError>) -> Reading {
    match r {
        Ok(m) => Reading::Read(m@),
        Err(ParseError::Toml(_)) => Reading::NotToml,
        Err(ParseError::Unsupported(_)) => Reading::Unsupported,
        Err(ParseError::Malformed(e)) => Reading::Malformed(e@),
    }
}

/// A pure manifest reader: text in, structured data out, no side effects.
pub trait Parser {
    /// What reading `content` comes to.
    spec fn reads(&self, content: Seq<char>) -> Reading;

    /// Which of the items that reading `content` gives are written plainly: on one line,
    /// in one pair of quotes or in none, without an escape, and not as a reference.
    spec fn plain(&self, content: Seq<char>) -> Seq<bool>;

    /// Parse manifest `content` into a [`ParsedManifest`].
    fn parse(&self, content: &str) -> (r: Result<ParsedManifest, ParseError>)
        ensures
            reading_of(r) == self.reads(content@),
            // What is written plainly stands at the line and columns recorded for it.
            r matches Ok(m) ==> told(content@, m@.items, self.plain(content@)),
    ;
}

/// What reading `content` as a manifest of a kind comes to.
pub open spec fn reading(kind: ManifestKind, content: Seq<char>) -> Reading {
    match kind {
        ManifestKind::CargoToml => CargoTomlParser.reads(content),
        ManifestKind::GoMod => GoModParser.reads(content),
        ManifestKind::PackageJson => PackageJsonParser.reads(content),
        ManifestKind::DenoJson => DenoJsonParser.reads(content),
        ManifestKind::PnpmWorkspaceYaml => PnpmWorkspaceParser.reads(content),
        ManifestKind::ComposerJson => ComposerJsonParser.reads(content),
        ManifestKind::RequirementsTxt => RequirementsTxtParser.reads(content),
        ManifestKind::PyprojectToml => PyprojectTomlParser.reads(content),
        ManifestKind::PubspecYaml => PubspecYamlParser.reads(content),
        ManifestKind::Csproj => CsprojParser.reads(content),
        ManifestKind::MixExs => MixExsParser.reads(content),
        ManifestKind::GradleVersionCatalog => GradleCatalogParser.reads(content),
        ManifestKind::PomXml => PomXmlParser.reads(content),
        ManifestKind::PackageSwift => PackageSwiftParser.reads(content),
    }
}

/// Which of the items that reading `content` as a manifest of a kind gives are written
/// plainly.
pub open spec fn plain_items(kind: ManifestKind, content: Seq<char>) -> Seq<bool> {
    match kind {
        ManifestKind::CargoToml => CargoTomlParser.plain(content),
        ManifestKind::GoMod => GoModParser.plain(content),
        ManifestKind::PackageJson => PackageJsonParser.plain(content),
        ManifestKind::DenoJson => DenoJsonParser.plain(content),
        ManifestKind::PnpmWorkspaceYaml => PnpmWorkspaceParser.plain(content),
        ManifestKind::ComposerJson => ComposerJsonParser.plain(content),
        ManifestKind::RequirementsTxt => RequirementsTxtParser.plain(content),
        ManifestKind::PyprojectToml => PyprojectTomlParser.plain(content),
        ManifestKind::PubspecYaml => PubspecYamlParser.plain(content),
        ManifestKind::Csproj => CsprojParser.plain(content),
        ManifestKind::MixExs => MixExsParser.plain(content),
        ManifestKind::GradleVersionCatalog => GradleCatalogParser.plain(content),
        ManifestKind::PomXml => PomXmlParser.plain(content),
        ManifestKind::PackageSwift => PackageSwiftParser.plain(content),
    }
}

/// Parse `content` for a given manifest `kind`, dispatching to the right parser.
///
/// # Errors
/// [`ParseError::Toml`] for a TOML manifest that is not valid TOML, and
/// [`ParseError::Malformed`] for an XML manifest that is not well-formed. Every kind has a
/// reader, and no other manifest is refused.
pub fn parse(kind: ManifestKind, content: &str) -> (r: Result<ParsedManifest, ParseError>)
    ensures
        reading_of(r) == reading(kind, content@),
        r matches Ok(m) ==> m.kind == kind,
        // Every item with a position whose version is written plainly stands at the line
        // and columns recorded for it.
        r matches Ok(m) ==> told(content@, m@.items, plain_items(kind, content@)),
        !(r matches Err(ParseError::Unsupported(_))),
{
    match kind {
        ManifestKind::CargoToml => CargoTomlParser.parse(content),
        ManifestKind::GoMod => GoModParser.parse(content),
        ManifestKind::PackageJson => PackageJsonParser.parse(content),
        ManifestKind::DenoJson => DenoJsonParser.parse(content),
        ManifestKind::PnpmWorkspaceYaml => PnpmWorkspaceParser.parse(content),
        ManifestKind::ComposerJson => ComposerJsonParser.parse(content),
        ManifestKind::RequirementsTxt => RequirementsTxtParser.parse(content),
        ManifestKind::PyprojectToml => PyprojectTomlParser.parse(content),
        ManifestKind::PubspecYaml => PubspecYamlParser.parse(content),
        ManifestKind::Csproj => CsprojParser.parse(content),
        ManifestKind::MixExs => MixExsParser.parse(content),
        ManifestKind::GradleVersionCatalog => GradleCatalogParser.parse(content),
        ManifestKind::PomXml => PomXmlParser.parse(content),
        ManifestKind::PackageSwift => PackageSwiftParser.parse(content),
    }
}

} // verus!
