//! Reader of Deno `deno.json` / `deno.jsonc`.
//!
//! Reads the `imports` and `scopes` maps via the JSON(C) scanner (which skips
//! comments), keeping only `jsr:` and `npm:` specifiers. URL/relative/`node:`/
//! `file:` imports are not registry dependencies and are dropped.
use super::alias::{alias_item, alias_registry, make_alias, registry_of};
use super::json_spans::lemma_deno_told;
use super::json_scan::{document_scan, scan_strings, values_of, JsonStringValue, StringView};
use super::place::{add_item, opt_item, with_item};
use super::position::{is_starts, line_starts, starts_of};
use super::spans::with_note;
use super::{Parser, Reading};
use crate::error::ParseError;
use crate::item::{item_views, DependencyKind, Item, ItemView};
use crate::manifest::{items_only, ManifestKind, ParsedManifest};
use crate::split::strings;
use crate::text::str_eq;
use crate::width::str_bytes;
use vstd::prelude::*;

verus! {

/// Parses `deno.json` and `deno.jsonc`.
pub struct DenoJsonParser;

/// Whether a path is that of an `imports.<key>` or `scopes.<scope>.<key>` entry.
pub open spec fn is_import(path: Seq<Seq<char>>) -> bool {
    (path.len() == 2 && path[0] == "imports"@) || (path.len() == 3 && path[0] == "scopes"@)
}

/// The dependency that a string value declares.
pub open spec fn deno_item(starts: Seq<usize>, entry: StringView) -> Option<ItemView> {
    match registry_of(entry.value) {
        Some(source) => if is_import(entry.path) {
            Some(alias_item(starts, entry, source, DependencyKind::Normal, true))
        } else {
            None
        },
        None => None,
    }
}

/// The dependencies that a document's string values declare, in order.
pub open spec fn deno_items(starts: Seq<usize>, found: Seq<StringView>) -> Seq<ItemView>
    decreases found.len(),
{
    if found.len() == 0 {
        seq![]
    } else {
        with_item(deno_items(starts, found.drop_last()), deno_item(starts, found.last()))
    }
}

/// Which of those dependencies are written without escapes.
pub open spec fn deno_plain(starts: Seq<usize>, found: Seq<StringView>) -> Seq<bool>
    decreases found.len(),
{
    if found.len() == 0 {
        seq![]
    } else {
        with_note(
            deno_plain(starts, found.drop_last()),
            deno_item(starts, found.last()),
            !found.last().escaped,
        )
    }
}

/// Whether `path` points at an `imports.<key>` or `scopes.<scope>.<key>` entry.
fn is_import_entry(path: &Vec<String>) -> (r: bool)
    ensures
        r == is_import(strings(path@)),
{
    (path.len() == 2 && str_eq(path[0].as_str(), "imports")) || (path.len() == 3 && str_eq(
        path[0].as_str(),
        "scopes",
    ))
}

/// Build an [`Item`] from an import spec, or `None` for non-registry specifiers
/// (URLs, relative paths, `node:`, `file:`, `data:`, …).
fn build_item(entry: &JsonStringValue, starts: &[usize]) -> (r: Option<Item>)
    requires
        is_starts(starts@),
    ensures
        opt_item(r) == deno_item(starts@, entry@),
{
    if !is_import_entry(&entry.path) {
        return None;
    }
    match alias_registry(entry.value.as_str()) {
        Some(source) => Some(make_alias(starts, entry, source, DependencyKind::Normal, true)),
        None => None,
    }
}

impl Parser for DenoJsonParser {
    open spec fn reads(&self, content: Seq<char>) -> Reading {
        Reading::Read(
            items_only(
                ManifestKind::DenoJson,
                deno_items(starts_of(content), document_scan(content).found),
            ),
        )
    }

    open spec fn plain(&self, content: Seq<char>) -> Seq<bool> {
        deno_plain(starts_of(content), document_scan(content).found)
    }

    fn parse(&self, content: &str) -> (r: Result<ParsedManifest, ParseError>) {
        let starts = line_starts(content);
        let entries = scan_strings(content);
        let ghost all = values_of(entries@);
        let mut items: Vec<Item> = Vec::new();
        let mut i: usize = 0;
        assert(item_views(items@) =~= deno_items(starts@, all.take(0)));
        while i < entries.len()
            invariant
                i <= entries.len(),
                is_starts(starts@),
                all == values_of(entries@),
                item_views(items@) == deno_items(starts@, all.take(i as int)),
            decreases entries.len() - i,
        {
            proof {
                assert(all.take(i + 1).drop_last() =~= all.take(i as int));
                assert(all.take(i + 1).last() == entries@[i as int]@);
            }
            let item = build_item(&entries[i], starts.as_slice());
            add_item(&mut items, item);
            i = i + 1;
        }
        assert(all.take(i as int) =~= all);
        let total: usize = str_bytes(content);
        proof {
            lemma_deno_told(content@);
        }
        Ok(ParsedManifest::of_items(ManifestKind::DenoJson, items))
    }
}

} // verus!
