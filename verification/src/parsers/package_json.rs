//! Reader of npm `package.json`.
//!
//! Uses the JSON scanner ([`super::json_scan`]) for structure *and* exact value
//! positions, then resolves npm version aliases. Only the version portion of an
//! alias is recorded for a rewrite (so `npm:left-pad@1.3.0` rewrites just `1.3.0`).
use super::alias::{alias_item, alias_registry, make_alias, registry_of};
use super::json_spans::lemma_package_told;
use super::json_scan::{document_scan, scan_strings, values_of, JsonStringValue, StringView};
use super::place::{
    add_item, bare_item, item_between, make_bare, make_between, opt_item, with_item,
};
use super::position::{is_starts, line_starts, starts_of};
use super::spans::with_note;
use super::{Parser, Reading};
use crate::error::ParseError;
use crate::item::{item_views, DependencyKind, Item, ItemView, PackageSource};
use crate::manifest::{items_only, ManifestKind, ParsedManifest};
use crate::split::strings;
use crate::text::{
    after_prefix, any, begins, chars_of, cut_last, has_any, is_str, last, last_position, opt_string,
    rsplit_once, skip, starts_with, str_eq, string_of, strip_prefix, take, trim, trimmed, Class,
};
use crate::width::str_bytes;
use vstd::prelude::*;

verus! {

/// Parses `package.json`.
pub struct PackageJsonParser;

/// The kind of what a `*dependencies` section declares.
pub open spec fn section_kind(section: Seq<char>) -> Option<DependencyKind> {
    if section == "dependencies"@ {
        Some(DependencyKind::Normal)
    } else if section == "devDependencies"@ {
        Some(DependencyKind::Dev)
    } else if section == "peerDependencies"@ {
        Some(DependencyKind::Peer)
    } else if section == "optionalDependencies"@ {
        Some(DependencyKind::Optional)
    } else {
        None
    }
}

/// Whether a section forces versions onto the resolved tree.
pub open spec fn is_forcing(section: Seq<char>) -> bool {
    section == "overrides"@ || section == "resolutions"@
}

/// Where the name begins in the last selector of an override key: after its last slash,
/// or after the one before where a scope stands between them.
pub open spec fn name_start(k: Seq<char>) -> int {
    let slash = last(k, Class::Is('/'));
    let head = k.take(slash);
    let prev = last(head, Class::Is('/'));
    if slash < 0 {
        0
    } else if prev >= 0 {
        if begins(k.skip(prev + 1), "@"@) {
            prev + 1
        } else {
            slash + 1
        }
    } else if begins(head, "@"@) {
        0
    } else {
        slash + 1
    }
}

/// A name without the version range it is selected by. A leading `@` is the scope.
pub open spec fn unversioned(name: Seq<char>) -> Seq<char> {
    let at = last(name, Class::Is('@'));
    if at > 0 {
        name.take(at)
    } else {
        name
    }
}

/// The last of the selectors of an override key.
pub open spec fn last_selector(key: Seq<char>) -> Seq<char> {
    match cut_last(key, Class::Is('>')) {
        Some((_, k)) => trimmed(k),
        None => trimmed(key),
    }
}

/// The package an override key names.
///
/// Yarn `resolutions` keys carry a path (`parent/child`, `**/lodash`), pnpm joins the
/// parent selectors with `>`, and npm's nested form uses `"."` for the parent entry
/// itself, which names no new package.
pub open spec fn overridden(key: Seq<char>) -> Option<Seq<char>> {
    let k = last_selector(key);
    let name = unversioned(k.skip(name_start(k)));
    if key == "."@ || name.len() == 0 || name == "*"@ || name == "**"@ {
        None
    } else {
        Some(name)
    }
}

/// The dependency that a key names in an override section.
pub open spec fn override_entry(key: Seq<char>) -> Option<(Seq<char>, DependencyKind)> {
    match overridden(key) {
        Some(name) => Some((name, DependencyKind::Override)),
        None => None,
    }
}

/// The dependency name and its kind, if a path is that of a dependency entry: a member
/// of a `*dependencies`, `catalog` or override map, or a nested one.
///
/// A catalog entry is a version declaration workspace packages opt into by name.
pub open spec fn entry_of(path: Seq<Seq<char>>) -> Option<(Seq<char>, DependencyKind)> {
    if path.len() == 2 {
        match section_kind(path[0]) {
            Some(kind) => Some((path[1], kind)),
            None => if path[0] == "catalog"@ {
                Some((path[1], DependencyKind::Workspace))
            } else if is_forcing(path[0]) {
                override_entry(path[1])
            } else {
                None
            },
        }
    } else if path.len() == 3 {
        if path[0] == "catalogs"@ {
            Some((path[2], DependencyKind::Workspace))
        } else if (path[0] == "pnpm"@ && path[1] == "overrides"@) || is_forcing(path[0]) {
            override_entry(path[2])
        } else {
            None
        }
    } else {
        None
    }
}

/// The constraint that a `*dependencies` section declares for a package, the last where
/// there are several.
pub open spec fn declared(found: Seq<StringView>, name: Seq<char>) -> Option<Seq<char>>
    decreases found.len(),
{
    if found.len() == 0 {
        None
    } else {
        let e = found.last();
        if e.path.len() == 2 && section_kind(e.path[0]) is Some && e.path[1] == name {
            Some(e.value)
        } else {
            declared(found.drop_last(), name)
        }
    }
}

/// The dependency that an override value refers to (`$semver`), where it does not state a
/// range.
pub open spec fn reference(value: Seq<char>) -> Option<Seq<char>> {
    match after_prefix(value, "$"@) {
        Some(name) => if name.len() > 0 && !has_any(name, Class::Space) {
            Some(name)
        } else {
            None
        },
        None => None,
    }
}

/// The source of a specifier that is not checked: a local or workspace one, or one of a
/// git repository or a URL.
pub open spec fn skipped_source(value: Seq<char>) -> Option<PackageSource> {
    if begins(value, "file:"@) || begins(value, "link:"@) || begins(value, "workspace:"@) || begins(
        value,
        "catalog:"@,
    ) || begins(value, "portal:"@) {
        Some(PackageSource::Local)
    } else if begins(value, "git+"@) || begins(value, "git:"@) || begins(value, "github:"@)
        || begins(value, "http://"@) || begins(value, "https://"@) {
        Some(PackageSource::Git)
    } else {
        None
    }
}

/// The item of a dependency entry that states a specifier.
///
/// The offset of a version within a value is that within the content only while the two
/// are the same bytes, so an escaped value reports its line and has no width.
pub open spec fn stated_item(
    starts: Seq<usize>,
    key: Seq<char>,
    kind: DependencyKind,
    entry: StringView,
) -> ItemView {
    match registry_of(entry.value) {
        Some(source) => alias_item(starts, entry, source, kind, !entry.escaped),
        None => match skipped_source(entry.value) {
            Some(source) => bare_item(key, source, kind),
            None => item_between(
                starts,
                key,
                entry.value,
                PackageSource::Registry,
                kind,
                entry.content_start,
                if entry.escaped {
                    entry.content_start
                } else {
                    entry.content_end
                },
            ),
        },
    }
}

/// The item of a dependency entry.
///
/// An override that refers to a dependency of the manifest has that dependency's
/// constraint. The span holds the reference and not the constraint, so it has no width.
pub open spec fn package_item(
    starts: Seq<usize>,
    found: Seq<StringView>,
    entry: StringView,
) -> Option<ItemView> {
    match entry_of(entry.path) {
        Some((key, kind)) => Some(
            if kind == DependencyKind::Override && reference(entry.value) is Some {
                match declared(found, reference(entry.value)->0) {
                    Some(constraint) => item_between(
                        starts,
                        key,
                        constraint,
                        PackageSource::Registry,
                        kind,
                        entry.content_start,
                        entry.content_start,
                    ),
                    None => bare_item(key, PackageSource::Unresolved, kind),
                }
            } else {
                stated_item(starts, key, kind, entry)
            },
        ),
        None => None,
    }
}

/// The items of some of a document's string values, in order.
pub open spec fn package_items(
    starts: Seq<usize>,
    found: Seq<StringView>,
    some: Seq<StringView>,
) -> Seq<ItemView>
    decreases some.len(),
{
    if some.len() == 0 {
        seq![]
    } else {
        with_item(
            package_items(starts, found, some.drop_last()),
            package_item(starts, found, some.last()),
        )
    }
}

/// Whether a string value states its version itself, and without escapes.
pub open spec fn is_stated(entry: StringView) -> bool {
    !entry.escaped && !(entry_of(entry.path) matches Some((_, kind)) && kind
        == DependencyKind::Override && reference(entry.value) is Some)
}

/// Which of the items of some of a document's string values are stated without escapes.
pub open spec fn package_plain(
    starts: Seq<usize>,
    found: Seq<StringView>,
    some: Seq<StringView>,
) -> Seq<bool>
    decreases some.len(),
{
    if some.len() == 0 {
        seq![]
    } else {
        with_note(
            package_plain(starts, found, some.drop_last()),
            package_item(starts, found, some.last()),
            is_stated(some.last()),
        )
    }
}

/// Find the kind of what a `*dependencies` section declares.
fn kind_of_section(section: &str) -> (r: Option<DependencyKind>)
    ensures
        r == section_kind(section@),
{
    if str_eq(section, "dependencies") {
        Some(DependencyKind::Normal)
    } else if str_eq(section, "devDependencies") {
        Some(DependencyKind::Dev)
    } else if str_eq(section, "peerDependencies") {
        Some(DependencyKind::Peer)
    } else if str_eq(section, "optionalDependencies") {
        Some(DependencyKind::Optional)
    } else {
        None
    }
}

/// Whether `section` is one of the maps that force a version onto the resolved tree.
fn is_override_section(section: &str) -> (r: bool)
    ensures
        r == is_forcing(section@),
{
    str_eq(section, "overrides") || str_eq(section, "resolutions")
}

/// Find where the name begins in the last selector of an override key.
fn find_name_start(k: &[char]) -> (r: usize)
    ensures
        r == name_start(k@),
        r <= k@.len(),
{
    assert(k@.len() == k.len());
    let slash: usize = match last_position(k, Class::Is('/')) {
        Some(n) => n,
        None => {
            return 0;
        },
    };
    let head = take(k, slash);
    match last_position(head, Class::Is('/')) {
        Some(prev) => if starts_with(skip(k, prev + 1), "@") {
            prev + 1
        } else {
            slash + 1
        },
        None => if starts_with(head, "@") {
            0
        } else {
            slash + 1
        },
    }
}

/// The package an override key names.
///
/// pnpm scopes an override to the parent that pulls the package in by joining the two
/// with `>`: `"foo@2>bar"` forces a version onto **bar**, not onto `foo`. The package is
/// the last path segment, or the last *two* when the one before it is a scope, because
/// `@scope/pkg` is one name that happens to contain a slash. A trailing `@version`
/// selects a range and is no part of the name.
pub fn override_name(key: &str) -> (r: Option<String>)
    ensures
        opt_string(r) == overridden(key@),
{
    if str_eq(key, ".") {
        return None;
    }
    let chars = chars_of(key);
    let k = match rsplit_once(chars.as_slice(), Class::Is('>')) {
        Some((_, k)) => trim(k),
        None => trim(chars.as_slice()),
    };
    let versioned = skip(k, find_name_start(k));
    let name = match last_position(versioned, Class::Is('@')) {
        Some(at) => if at > 0 {
            take(versioned, at)
        } else {
            versioned
        },
        None => versioned,
    };
    if name.len() == 0 || is_str(name, "*") || is_str(name, "**") {
        return None;
    }
    Some(string_of(name))
}

/// What an optional name and kind say.
pub open spec fn opt_entry(o: Option<(String, DependencyKind)>) -> Option<
    (Seq<char>, DependencyKind),
> {
    match o {
        Some((name, kind)) => Some((name@, kind)),
        None => None,
    }
}

/// The dependency that a key names in an override section.
fn override_key(key: &str) -> (r: Option<(String, DependencyKind)>)
    ensures
        opt_entry(r) == override_entry(key@),
{
    match override_name(key) {
        Some(name) => Some((name, DependencyKind::Override)),
        None => None,
    }
}

/// Return the dependency name and its kind if `path` points at a dependency entry.
fn dependency_key(path: &Vec<String>) -> (r: Option<(String, DependencyKind)>)
    ensures
        opt_entry(r) == entry_of(strings(path@)),
{
    if path.len() == 2 {
        let section = path[0].as_str();
        if let Some(kind) = kind_of_section(section) {
            return Some((path[1].clone(), kind));
        }
        if str_eq(section, "catalog") {
            return Some((path[1].clone(), DependencyKind::Workspace));
        }
        if is_override_section(section) {
            return override_key(path[1].as_str());
        }
        None
    } else if path.len() == 3 {
        let section = path[0].as_str();
        if str_eq(section, "catalogs") {
            return Some((path[2].clone(), DependencyKind::Workspace));
        }
        // `pnpm.overrides`, and npm's nested form where an override is scoped to the
        // parent that pulls the package in: `overrides.parent.child`.
        if (str_eq(section, "pnpm") && str_eq(path[1].as_str(), "overrides"))
            || is_override_section(section) {
            return override_key(path[2].as_str());
        }
        None
    } else {
        None
    }
}

/// The constraint a `*dependencies` section declares for `name`. A later section wins,
/// which is the order npm itself reads them in.
fn find_declared<'a>(entries: &'a Vec<JsonStringValue>, name: &str) -> (r: Option<&'a String>)
    ensures
        declared(values_of(entries@), name@) == match r {
            Some(s) => Some(s@),
            None => None,
        },
{
    let ghost all = values_of(entries@);
    let mut i: usize = entries.len();
    assert(all.take(i as int) =~= all);
    while i > 0
        invariant
            i <= entries.len(),
            all == values_of(entries@),
            declared(all, name@) == declared(all.take(i as int), name@),
        decreases i,
    {
        let e = &entries[i - 1];
        proof {
            assert(all.take(i as int).drop_last() =~= all.take(i - 1));
            assert(all.take(i as int).last() == e@);
        }
        if e.path.len() == 2 && kind_of_section(e.path[0].as_str()).is_some() && str_eq(
            e.path[1].as_str(),
            name,
        ) {
            return Some(&e.value);
        }
        i = i - 1;
    }
    None
}

/// An npm override value that references one of this manifest's own direct
/// dependencies rather than stating a range: the referenced package name.
///
/// `{"dependencies": {"semver": "^7.5.0"}, "overrides": {"semver": "$semver"}}` is
/// npm's documented way to say "force the version I already depend on".
pub fn override_reference(value: &str) -> (r: Option<String>)
    ensures
        opt_string(r) == reference(value@),
{
    let chars = chars_of(value);
    match strip_prefix(chars.as_slice(), "$") {
        Some(name) => if name.len() > 0 && !any(name, Class::Space) {
            Some(string_of(name))
        } else {
            None
        },
        None => None,
    }
}

/// The source of a specifier that is not checked.
fn unchecked_source(value: &str) -> (r: Option<PackageSource>)
    ensures
        r == skipped_source(value@),
{
    let chars = chars_of(value);
    let v = chars.as_slice();
    if starts_with(v, "file:") || starts_with(v, "link:") || starts_with(v, "workspace:")
        || starts_with(v, "catalog:") || starts_with(v, "portal:") {
        Some(PackageSource::Local)
    } else if starts_with(v, "git+") || starts_with(v, "git:") || starts_with(v, "github:")
        || starts_with(v, "http://") || starts_with(v, "https://") {
        Some(PackageSource::Git)
    } else {
        None
    }
}

/// Build the item of an entry that states a specifier, resolving aliases and recording
/// the version sub-span.
fn resolve(
    key: String,
    kind: DependencyKind,
    entry: &JsonStringValue,
    starts: &[usize],
) -> (r: Item)
    requires
        is_starts(starts@),
    ensures
        r@ == stated_item(starts@, key@, kind, entry@),
{
    if let Some(source) = alias_registry(entry.value.as_str()) {
        return make_alias(starts, entry, source, kind, !entry.escaped);
    }
    if let Some(source) = unchecked_source(entry.value.as_str()) {
        return make_bare(key, source, kind);
    }
    let end: usize = if entry.escaped {
        entry.content_start
    } else {
        entry.content_end
    };
    make_between(
        starts,
        key,
        entry.value.clone(),
        PackageSource::Registry,
        kind,
        entry.content_start,
        end,
    )
}

/// Build an [`Item`] for one string value, if it is a dependency entry.
fn build_item(
    entry: &JsonStringValue,
    entries: &Vec<JsonStringValue>,
    starts: &[usize],
) -> (r: Option<Item>)
    requires
        is_starts(starts@),
    ensures
        opt_item(r) == package_item(starts@, values_of(entries@), entry@),
{
    let (key, kind) = match dependency_key(&entry.path) {
        Some(k) => k,
        None => {
            return None;
        },
    };
    if kind == DependencyKind::Override {
        if let Some(referenced) = override_reference(entry.value.as_str()) {
            return match find_declared(entries, referenced.as_str()) {
                Some(constraint) => Some(
                    make_between(
                        starts,
                        key,
                        constraint.clone(),
                        PackageSource::Registry,
                        kind,
                        entry.content_start,
                        entry.content_start,
                    ),
                ),
                None => Some(make_bare(key, PackageSource::Unresolved, kind)),
            };
        }
    }
    Some(resolve(key, kind, entry, starts))
}

impl Parser for PackageJsonParser {
    open spec fn reads(&self, content: Seq<char>) -> Reading {
        let found = document_scan(content).found;
        Reading::Read(
            items_only(
                ManifestKind::PackageJson,
                package_items(starts_of(content), found, found),
            ),
        )
    }

    open spec fn plain(&self, content: Seq<char>) -> Seq<bool> {
        let found = document_scan(content).found;
        package_plain(starts_of(content), found, found)
    }

    fn parse(&self, content: &str) -> (r: Result<ParsedManifest, ParseError>) {
        let starts = line_starts(content);
        let entries = scan_strings(content);
        let ghost all = values_of(entries@);
        let mut items: Vec<Item> = Vec::new();
        let mut i: usize = 0;
        assert(item_views(items@) =~= package_items(starts@, all, all.take(0)));
        while i < entries.len()
            invariant
                i <= entries.len(),
                is_starts(starts@),
                all == values_of(entries@),
                item_views(items@) == package_items(starts@, all, all.take(i as int)),
            decreases entries.len() - i,
        {
            proof {
                assert(all.take(i + 1).drop_last() =~= all.take(i as int));
                assert(all.take(i + 1).last() == entries@[i as int]@);
            }
            let item = build_item(&entries[i], &entries, starts.as_slice());
            add_item(&mut items, item);
            i = i + 1;
        }
        assert(all.take(i as int) =~= all);
        let total: usize = str_bytes(content);
        proof {
            lemma_package_told(content@);
        }
        Ok(ParsedManifest::of_items(ManifestKind::PackageJson, items))
    }
}

} // verus!
