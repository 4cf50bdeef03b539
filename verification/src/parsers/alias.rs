//! Aliased specifiers: `npm:` or `jsr:`, a package name, and a version.
use super::json_scan::{JsonStringValue, StringView};
use super::place::{item_between, make_between, offset_plus, plus};
use super::position::is_starts;
use crate::item::{DependencyKind, Item, ItemView, PackageSource};
use crate::text::{
    after_prefix, chars_of, last, last_position, lemma_last, skip, string_of, strip_prefix, take,
    Class,
};
use crate::width::{byte_len, bytes, lemma_byte_len_split, str_bytes};
use vstd::prelude::*;

verus! {

/// What a specifier says: the package, the version, and where in the specifier the
/// version begins.
pub ghost struct AliasView {
    /// The package.
    pub name: Seq<char>,
    /// The version; empty where there is none.
    pub version: Seq<char>,
    /// The position of the version.
    pub at: int,
}

/// A specifier whose first `n` characters are a prefix: `name@version`, where `name` may
/// be scoped (`@scope/name`).
pub open spec fn alias_of(value: Seq<char>, n: int) -> AliasView {
    let rest = value.skip(n);
    let at = last(rest, Class::Is('@'));
    if at > 0 {
        AliasView { name: rest.take(at), version: rest.skip(at + 1), at: n + at + 1 }
    } else {
        AliasView { name: rest, version: seq![], at: value.len() as int }
    }
}

/// A package, a version, and the byte offset at which the version begins.
pub struct Alias {
    /// The package.
    pub name: String,
    /// The version; empty where there is none.
    pub version: String,
    /// The byte offset of the version.
    pub offset: usize,
}

/// Split a specifier after its prefix.
pub fn split_alias(value: &str, n: usize) -> (r: Alias)
    requires
        n <= value@.len(),
    ensures
        r.name@ == alias_of(value@, n as int).name,
        r.version@ == alias_of(value@, n as int).version,
        r.offset == byte_len(value@.take(alias_of(value@, n as int).at)),
{
    let total: usize = str_bytes(value);
    let chars = chars_of(value);
    let all = chars.as_slice();
    let rest = skip(all, n);
    proof {
        lemma_last(rest@, Class::Is('@'));
        lemma_byte_len_split(value@, alias_of(value@, n as int).at);
    }
    if let Some(at) = last_position(rest, Class::Is('@')) {
        if at > 0 {
            let offset: usize = bytes(take(all, n + at + 1));
            return Alias {
                name: string_of(take(rest, at)),
                version: string_of(skip(rest, at + 1)),
                offset,
            };
        }
    }
    let version = String::new();
    assert(version@ =~= seq![]);
    assert(value@.take(value@.len() as int) =~= value@);
    Alias { name: string_of(rest), version, offset: total }
}

/// The item of an aliased specifier, its version where the specifier has it. With
/// `exact` the columns are those of the version; without, they only say where it begins.
pub open spec fn alias_item(
    starts: Seq<usize>,
    entry: StringView,
    source: PackageSource,
    kind: DependencyKind,
    exact: bool,
) -> ItemView {
    let a = alias_of(entry.value, 4);
    let from = plus(entry.content_start, byte_len(entry.value.take(a.at)) as usize);
    item_between(
        starts,
        a.name,
        a.version,
        source,
        kind,
        from,
        if exact {
            entry.content_end
        } else {
            from
        },
    )
}

/// Build the item of an aliased specifier.
pub fn make_alias(
    starts: &[usize],
    entry: &JsonStringValue,
    source: PackageSource,
    kind: DependencyKind,
    exact: bool,
) -> (r: Item)
    requires
        is_starts(starts@),
        entry.value@.len() >= 4,
    ensures
        r@ == alias_item(starts@, entry@, source, kind, exact),
{
    let a = split_alias(entry.value.as_str(), 4);
    let from: usize = offset_plus(entry.content_start, a.offset);
    let to: usize = if exact {
        entry.content_end
    } else {
        from
    };
    make_between(starts, a.name, a.version, source, kind, from, to)
}

/// The registry whose prefix a specifier has.
pub open spec fn registry_of(value: Seq<char>) -> Option<PackageSource> {
    if after_prefix(value, "npm:"@) is Some {
        Some(PackageSource::Registry)
    } else if after_prefix(value, "jsr:"@) is Some {
        Some(PackageSource::Jsr)
    } else {
        None
    }
}

/// Find the registry whose prefix a specifier has.
pub fn alias_registry(value: &str) -> (r: Option<PackageSource>)
    ensures
        r == registry_of(value@),
        r is Some ==> value@.len() >= 4,
{
    proof {
        reveal_strlit("npm:");
        reveal_strlit("jsr:");
    }
    let chars = chars_of(value);
    if strip_prefix(chars.as_slice(), "npm:").is_some() {
        Some(PackageSource::Registry)
    } else if strip_prefix(chars.as_slice(), "jsr:").is_some() {
        Some(PackageSource::Jsr)
    } else {
        None
    }
}

} // verus!
