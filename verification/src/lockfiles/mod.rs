//! Lockfile readers and per-kind dispatch.
use crate::error::ParseError;
use crate::manifest::{LockfileKind, ManifestKind};
use crate::parsers::json_scan::document_scan;
use crate::pattern::regex_matches;
use crate::split::lines_of;
use crate::toml::toml_document;
use bun_lock::bun_pairs;
use cargo_lock::{cargo_pairs, collected};
use cargo_lock_graph::package_tables;
use composer_lock::composer_pairs;
use composer_lock_graph::element_keys;
use dart_pubspec_lock::pubspec_scan;
use mix_lock::{mix_pairs, LOCK_PATTERN};
use package_lock_json::npm_pairs;
use vstd::prelude::*;

pub mod bun_lock;
pub mod bun_lock_graph;
pub mod cargo_lock;
pub mod cargo_lock_graph;
pub mod composer_lock;
pub mod composer_lock_graph;
pub mod dart_pubspec_lock;
pub mod entries;
pub mod laws;
pub mod mix_lock;
pub mod mix_lock_graph;
pub mod package_lock_graph;
pub mod package_lock_json;
pub mod swift_laws;
pub mod swift_package_resolved;

pub use bun_lock::parse_bun_lock;
pub use bun_lock_graph::parse_bun_lock_graph;
pub use cargo_lock::{apply_lockfile, parse_cargo_lock, LockfileData};
pub use cargo_lock_graph::{parse_cargo_lock_graph, LockedPackage, ResolvedLockfile};
pub use composer_lock::parse_composer_lock;
pub use composer_lock_graph::parse_composer_lock_graph;
pub use dart_pubspec_lock::parse_dart_pubspec_lock;
pub use mix_lock::parse_mix_lock;
pub use mix_lock_graph::parse_mix_lock_graph;
pub use package_lock_graph::parse_package_lock_graph;
pub use package_lock_json::parse_package_lock;
pub use swift_package_resolved::{
    parse_swift_package_resolved, swift_package_name, swift_package_name_variants,
    swift_package_resolved_items,
};

verus! {

/// The names and versions that a lockfile lists, in order; `None` where it cannot be
/// read.
pub open spec fn listed(kind: LockfileKind, content: Seq<char>) -> Option<
    Seq<(Seq<char>, Seq<char>)>,
> {
    let found = document_scan(content).found;
    match kind {
        LockfileKind::CargoLock => match toml_document(content) {
            Some(root) => Some(cargo_pairs(package_tables(root))),
            None => None,
        },
        LockfileKind::PackageLockJson => Some(npm_pairs(found)),
        LockfileKind::BunLock => Some(bun_pairs(found)),
        LockfileKind::ComposerLock => Some(composer_pairs(found, element_keys(found))),
        LockfileKind::PubspecLock => Some(pubspec_scan(lines_of(content)).pairs),
        LockfileKind::MixLock => Some(mix_pairs(regex_matches(LOCK_PATTERN@, content))),
    }
}

/// Parse lockfile `content` with the parser for the file that was found.
///
/// Dispatching on the lockfile rather than on the manifest beside it is what
/// lets one ecosystem have several: a `package.json` says nothing about which
/// package manager wrote the lockfile next to it.
///
/// # Errors
/// Never fails on the kind itself: every [`LockfileKind`] has a parser. Returns
/// the parser's own error when the content does not read, which only a `Cargo.lock` that
/// is not valid TOML does not.
pub fn parse_lockfile_kind(kind: LockfileKind, content: &str) -> (r: Result<
    LockfileData,
    ParseError,
>)
    ensures
        match r {
            Ok(d) => listed(kind, content@) matches Some(pairs) && d@ == collected(pairs),
            Err(e) => e is Toml && listed(kind, content@) is None,
        },
{
    match kind {
        LockfileKind::CargoLock => parse_cargo_lock(content),
        LockfileKind::PackageLockJson => parse_package_lock(content),
        LockfileKind::BunLock => parse_bun_lock(content),
        LockfileKind::ComposerLock => parse_composer_lock(content),
        LockfileKind::PubspecLock => parse_dart_pubspec_lock(content),
        LockfileKind::MixLock => parse_mix_lock(content),
    }
}

/// Parse lockfile `content` for a manifest `kind`, using its first lockfile.
///
/// For callers that have a manifest and no particular lockfile in
/// hand. Prefer [`parse_lockfile_kind`] where the file is actually known.
///
/// # Errors
/// Returns [`ParseError::Unsupported`] for exactly the manifest kinds with no lockfile
/// that is read (callers treat that as "no locked versions").
pub fn parse_lockfile(kind: ManifestKind, content: &str) -> (r: Result<LockfileData, ParseError>)
    ensures
        match r {
            Ok(d) => kind.locked_by().len() > 0 && (listed(
                kind.locked_by()[0],
                content@,
            ) matches Some(pairs) && d@ == collected(pairs)),
            Err(ParseError::Unsupported(k)) => k == kind && kind.locked_by().len() == 0,
            Err(e) => e is Toml && kind.locked_by().len() > 0 && listed(
                kind.locked_by()[0],
                content@,
            ) is None,
        },
{
    let lockfiles = kind.lockfiles();
    if lockfiles.len() == 0 {
        return Err(ParseError::Unsupported(kind));
    }
    parse_lockfile_kind(lockfiles[0], content)
}

} // verus!
