//! Reader of `Package.swift`, which reads nothing, on purpose.
//!
//! `Package.swift` is not a manifest format. It is a Swift program whose output
//! happens to be a package description: dependencies are routinely assembled in
//! loops, appended behind `#if` conditionals, and built from variables and
//! functions defined elsewhere in the file. Extracting them with a pattern does not
//! produce an *incomplete* list, it produces a *wrong* one.
//!
//! So the parser declines. The dependency list comes from `Package.resolved`
//! instead ([`crate::lockfiles::swift_package_resolved_items`]), which is plain
//! JSON and records the full flattened pin set.
use super::{Parser, Reading};
use crate::error::ParseError;
use crate::item::{item_views, Item};
use crate::manifest::{items_only, ManifestKind, ParsedManifest};
use vstd::prelude::*;

verus! {

/// Reads a `Package.swift` and returns no dependencies, deliberately.
pub struct PackageSwiftParser;

impl Parser for PackageSwiftParser {
    open spec fn reads(&self, content: Seq<char>) -> Reading {
        Reading::Read(items_only(ManifestKind::PackageSwift, seq![]))
    }

    open spec fn plain(&self, content: Seq<char>) -> Seq<bool> {
        seq![]
    }

    /// Always succeeds with an empty item list.
    ///
    /// Not an error: the file is a legitimate, correctly-formed Swift manifest, and
    /// failing here would be reported as "this file is broken" rather than "this
    /// file is a program".
    fn parse(&self, _content: &str) -> (r: Result<ParsedManifest, ParseError>) {
        let items: Vec<Item> = Vec::new();
        assert(item_views(items@) =~= seq![]);
        Ok(ParsedManifest::of_items(ManifestKind::PackageSwift, items))
    }
}

} // verus!
