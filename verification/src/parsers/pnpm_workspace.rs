//! Reader of `pnpm-workspace.yaml` catalogs.
//!
//! Reads the default `catalog:` map and the named `catalogs:` maps, recording each
//! version value's position. Only block style is supported, the universal format for
//! pnpm catalogs. Catalog entries resolve from the npm registry, so the items belong to
//! the npm ecosystem.
use super::yaml_block::{law_yaml_written, Dialect};
use super::spans::{all_plain, lemma_all_told};
use super::{Parser, Reading};
use crate::error::ParseError;
use crate::manifest::{items_only, ManifestKind, ParsedManifest};
use crate::split::lines_of;
use crate::width::str_bytes;
use vstd::prelude::*;

verus! {

/// Parses `pnpm-workspace.yaml`.
pub struct PnpmWorkspaceParser;

impl Parser for PnpmWorkspaceParser {
    open spec fn reads(&self, content: Seq<char>) -> Reading {
        Reading::Read(
            items_only(ManifestKind::PnpmWorkspaceYaml, Dialect::Pnpm.items(lines_of(content))),
        )
    }

    open spec fn plain(&self, content: Seq<char>) -> Seq<bool> {
        all_plain(Dialect::Pnpm.items(lines_of(content)))
    }

    fn parse(&self, content: &str) -> (r: Result<ParsedManifest, ParseError>) {
        let items = Dialect::Pnpm.read(content);
        let total: usize = str_bytes(content);
        proof {
            law_yaml_written(content@, Dialect::Pnpm);
            lemma_all_told(content@, Dialect::Pnpm.items(lines_of(content@)));
        }
        Ok(ParsedManifest::of_items(ManifestKind::PnpmWorkspaceYaml, items))
    }
}

} // verus!
