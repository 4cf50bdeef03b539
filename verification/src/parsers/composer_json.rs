//! Reader of PHP `composer.json`.
//!
//! Reads `require` and `require-dev` via the JSON scanner. Platform packages
//! (`php`, `ext-*`, `lib-*`, `composer-*`) have no `vendor/name` form and are
//! skipped: only real Packagist packages are version-checked.
use super::json_spans::lemma_composer_told;
use super::json_scan::{document_scan, scan_strings, values_of, JsonStringValue, StringView};
use super::place::{add_item, item_between, make_between, opt_item, with_item};
use super::position::{is_starts, line_starts, starts_of};
use super::spans::with_note;
use super::{Parser, Reading};
use crate::error::ParseError;
use crate::item::{item_views, DependencyKind, Item, ItemView, PackageSource};
use crate::manifest::{items_only, ManifestKind, ParsedManifest};
use crate::text::{any, chars_of, has_any, str_eq, Class};
use crate::width::str_bytes;
use vstd::prelude::*;

verus! {

/// Parses `composer.json`.
pub struct ComposerJsonParser;

/// The kind of what a section declares.
pub open spec fn composer_kind(section: Seq<char>) -> Option<DependencyKind> {
    if section == "require"@ {
        Some(DependencyKind::Normal)
    } else if section == "require-dev"@ {
        Some(DependencyKind::Dev)
    } else {
        None
    }
}

/// The dependency that a string value declares. A name without a `/` is a platform
/// requirement (`php`, `ext-mbstring`, `composer-runtime-api`, …).
pub open spec fn composer_item(starts: Seq<usize>, entry: StringView) -> Option<ItemView> {
    if entry.path.len() == 2 && has_any(entry.path[1], Class::Is('/')) {
        match composer_kind(entry.path[0]) {
            Some(kind) => Some(
                item_between(
                    starts,
                    entry.path[1],
                    entry.value,
                    PackageSource::Registry,
                    kind,
                    entry.content_start,
                    entry.content_end,
                ),
            ),
            None => None,
        }
    } else {
        None
    }
}

/// The dependencies that a document's string values declare, in order.
pub open spec fn composer_items(starts: Seq<usize>, found: Seq<StringView>) -> Seq<ItemView>
    decreases found.len(),
{
    if found.len() == 0 {
        seq![]
    } else {
        with_item(composer_items(starts, found.drop_last()), composer_item(starts, found.last()))
    }
}

/// Which of those dependencies are written without escapes.
pub open spec fn composer_plain(starts: Seq<usize>, found: Seq<StringView>) -> Seq<bool>
    decreases found.len(),
{
    if found.len() == 0 {
        seq![]
    } else {
        with_note(
            composer_plain(starts, found.drop_last()),
            composer_item(starts, found.last()),
            !found.last().escaped,
        )
    }
}

/// Whether `name` is a real Packagist package (`vendor/name`).
fn is_packagist_package(name: &str) -> (r: bool)
    ensures
        r == has_any(name@, Class::Is('/')),
{
    let chars = chars_of(name);
    any(chars.as_slice(), Class::Is('/'))
}

/// Build the item of a string value.
fn build_item(entry: &JsonStringValue, starts: &[usize]) -> (r: Option<Item>)
    requires
        is_starts(starts@),
    ensures
        opt_item(r) == composer_item(starts@, entry@),
{
    if entry.path.len() != 2 || !is_packagist_package(entry.path[1].as_str()) {
        return None;
    }
    let kind = if str_eq(entry.path[0].as_str(), "require") {
        DependencyKind::Normal
    } else if str_eq(entry.path[0].as_str(), "require-dev") {
        DependencyKind::Dev
    } else {
        return None;
    };
    Some(
        make_between(
            starts,
            entry.path[1].clone(),
            entry.value.clone(),
            PackageSource::Registry,
            kind,
            entry.content_start,
            entry.content_end,
        ),
    )
}

impl Parser for ComposerJsonParser {
    open spec fn reads(&self, content: Seq<char>) -> Reading {
        Reading::Read(
            items_only(
                ManifestKind::ComposerJson,
                composer_items(starts_of(content), document_scan(content).found),
            ),
        )
    }

    open spec fn plain(&self, content: Seq<char>) -> Seq<bool> {
        composer_plain(starts_of(content), document_scan(content).found)
    }

    fn parse(&self, content: &str) -> (r: Result<ParsedManifest, ParseError>) {
        let starts = line_starts(content);
        let entries = scan_strings(content);
        let ghost all = values_of(entries@);
        let mut items: Vec<Item> = Vec::new();
        let mut i: usize = 0;
        assert(item_views(items@) =~= composer_items(starts@, all.take(0)));
        while i < entries.len()
            invariant
                i <= entries.len(),
                is_starts(starts@),
                all == values_of(entries@),
                item_views(items@) == composer_items(starts@, all.take(i as int)),
            decreases entries.len() - i,
        {
            proof {
                assert(all.take(i + 1).drop_last() =~= all.take(i as int));
                assert(all.take(i + 1).last() == entries@[i as int]@);
            }
            let item = build_item(&entries[i], starts.as_slice());
            add_item(&mut items, item);
            i = i + 1;
        }
        assert(all.take(i as int) =~= all);
        let total: usize = str_bytes(content);
        proof {
            lemma_composer_told(content@);
        }
        Ok(ParsedManifest::of_items(ManifestKind::ComposerJson, items))
    }
}

} // verus!
