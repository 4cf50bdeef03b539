//! Reader of SwiftPM's `Package.resolved`.
//!
//! Unlike every other lockfile here, this one is the **source** of the dependency
//! list rather than an annotation on one. `Package.swift` is executable Swift, so it is
//! deliberately not read at all. `Package.resolved` is plain JSON carrying the full
//! flattened pin set: identity, location URL, revision, and version for every resolved
//! package.
//!
//! Formats: v2 and v3 both spell pins as a top-level `pins` array of
//! `{identity, kind, location, state}`; the v1 shape (`object.pins[]`, with
//! `repositoryURL` in place of `location`) is read too.
//!
//! Two consequences of the file being the list rather than an annotation on one:
//! a malformed file is reported as **unread** rather than degraded to the pins
//! scanned before the error, and every pin is [`DependencyKind::Indirect`],
//! because the resolution is flattened and marks no pin as direct.
//!
//! # Known limitation: repository path case
//! OSV keys `SwiftURL` advisories case-sensitively and real keys are mixed-case. A
//! `Package.resolved` recording a lowercase spelling of such a repository produces a
//! key OSV does not match. [`swift_package_name`] lowercases the host and
//! [`swift_package_name_variants`] offers a lowercase variant, which covers every
//! direction but this: the canonical casing is a fact only the forge holds.
use super::cargo_lock::{collected, LockfileData};
use crate::error::ParseError;
use crate::item::{copy_option, item_views, DependencyKind, Item, ItemView, PackageSource};
use crate::number::{number_of, parse_u64};
use crate::parsers::json_scan::{document_scan, scan_document, values_of, JsonStringValue, StringView};
use crate::split::{push_all, strings};
use crate::text::{
    any, before_suffix, begins, chars_of, first, has_any, lower, lowered, opt_string, position,
    same, skip, starts_with, str_eq, string_of, strip_suffix, take, trim, trim_end, trim_end_of,
    trimmed, Class,
};
use vstd::prelude::*;

verus! {

/// A location without its scheme, and whether it had one. The longer schemes are tried
/// first, so `git+https://` is never mistaken for `https://` with a `git+` host.
pub open spec fn without_scheme(s: Seq<char>) -> (Seq<char>, bool) {
    if begins(s, "git+https://"@) {
        (s.skip("git+https://"@.len() as int), true)
    } else if begins(s, "git+ssh://"@) {
        (s.skip("git+ssh://"@.len() as int), true)
    } else if begins(s, "https://"@) {
        (s.skip("https://"@.len() as int), true)
    } else if begins(s, "http://"@) {
        (s.skip("http://"@.len() as int), true)
    } else if begins(s, "ssh://"@) {
        (s.skip("ssh://"@.len() as int), true)
    } else if begins(s, "git://"@) {
        (s.skip("git://"@.len() as int), true)
    } else {
        (s, false)
    }
}

/// A location without a `user@` before its host.
pub open spec fn without_user(s: Seq<char>) -> Seq<char> {
    let at = first(s, Class::Is('@'));
    if at < s.len() && !has_any(s.take(at), Class::Is('/')) {
        s.skip(at + 1)
    } else {
        s
    }
}

/// A location without trailing slashes and a `.git` suffix.
pub open spec fn without_git(s: Seq<char>) -> Seq<char> {
    let bare = trim_end_of(s, Class::Is('/'));
    let name = match before_suffix(bare, ".git"@) {
        Some(n) => n,
        None => bare,
    };
    trim_end_of(name, Class::Is('/'))
}

/// Where the search for a separator begins: after the `]` of a bracketed address.
pub open spec fn host_start(s: Seq<char>) -> int {
    let close = first(s, Class::Is(']'));
    if begins(s, "["@) && close < s.len() {
        close + 1
    } else {
        0
    }
}

/// The first position of a character from `from` on, or the length of the text.
pub open spec fn first_from(s: Seq<char>, from: int, c: char) -> int {
    from + first(s.skip(from), Class::Is(c))
}

/// The host of a location and the path beneath it, without the separator and without a
/// port.
///
/// A colon is a port or a path separator, and only the form of the location says which:
/// a port is URL syntax and only ever follows a scheme, while git's SCP shorthand
/// (`git@github.com:owner/repo`) has no scheme and writes a colon exactly where a URL
/// writes a slash.
pub open spec fn authority_of(s: Seq<char>, has_scheme: bool) -> (Seq<char>, Option<Seq<char>>) {
    let from = host_start(s);
    let slash = first_from(s, from, '/');
    let colon = first_from(s, from, ':');
    if has_scheme {
        let authority = s.take(slash);
        let host = if colon < slash {
            s.take(colon)
        } else {
            authority
        };
        (
            host,
            if slash < s.len() {
                Some(s.skip(slash + 1))
            } else {
                None
            },
        )
    } else {
        let cut = if colon < slash {
            colon
        } else {
            slash
        };
        (
            s.take(cut),
            if cut < s.len() {
                Some(s.skip(cut + 1))
            } else {
                None
            },
        )
    }
}

/// A location with its host in small letters and its path as written.
pub open spec fn with_host_lowered(s: Seq<char>, has_scheme: bool) -> Seq<char> {
    match authority_of(s, has_scheme) {
        (host, Some(path)) => lowered(host) + seq!['/'] + path,
        (host, None) => lowered(host),
    }
}

/// The OSV `SwiftURL` name for a package location.
pub open spec fn swift_name(location: Seq<char>) -> Seq<char> {
    let (rest, has_scheme) = without_scheme(trimmed(location));
    with_host_lowered(without_git(without_user(rest)), has_scheme)
}

/// Drop the scheme of a location.
fn strip_scheme<'a>(s: &'a [char]) -> (r: (&'a [char], bool))
    ensures
        (r.0@, r.1) == without_scheme(s@),
{
    if let Some(rest) = crate::text::strip_prefix(s, "git+https://") {
        return (rest, true);
    }
    if let Some(rest) = crate::text::strip_prefix(s, "git+ssh://") {
        return (rest, true);
    }
    if let Some(rest) = crate::text::strip_prefix(s, "https://") {
        return (rest, true);
    }
    if let Some(rest) = crate::text::strip_prefix(s, "http://") {
        return (rest, true);
    }
    if let Some(rest) = crate::text::strip_prefix(s, "ssh://") {
        return (rest, true);
    }
    if let Some(rest) = crate::text::strip_prefix(s, "git://") {
        return (rest, true);
    }
    (s, false)
}

/// Split a location into its host and the path beneath it.
fn split_authority<'a>(s: &'a [char], has_scheme: bool) -> (r: (&'a [char], Option<&'a [char]>))
    ensures
        (r.0@, crate::text::opt_text(r.1)) == authority_of(s@, has_scheme),
{
    let mut from: usize = 0;
    if starts_with(s, "[") {
        let close: usize = position(s, Class::Is(']'));
        if close < s.len() {
            from = close + 1;
        }
    }
    let rest = skip(s, from);
    let slash: usize = from + position(rest, Class::Is('/'));
    let colon: usize = from + position(rest, Class::Is(':'));
    if has_scheme {
        let host = if colon < slash {
            take(s, colon)
        } else {
            take(s, slash)
        };
        if slash < s.len() {
            (host, Some(skip(s, slash + 1)))
        } else {
            (host, None)
        }
    } else {
        let cut: usize = if colon < slash {
            colon
        } else {
            slash
        };
        if cut < s.len() {
            (take(s, cut), Some(skip(s, cut + 1)))
        } else {
            (take(s, cut), None)
        }
    }
}

/// Lowercase a location's host and join it to the path below it with a `/`, leaving
/// that path exactly as written.
fn normalize_host(s: &[char], has_scheme: bool) -> (r: Vec<char>)
    ensures
        r@ == with_host_lowered(s@, has_scheme),
{
    let (host, path) = split_authority(s, has_scheme);
    let mut out = lower(host);
    if let Some(p) = path {
        out.push('/');
        push_all(&mut out, p);
        assert(out@ =~= lowered(host@) + seq!['/'] + p@);
    }
    out
}

/// The OSV `SwiftURL` name for a package location.
///
/// SwiftPM identifies a package by its git URL; OSV keys its Swift advisories by the
/// same URL with the scheme and the `.git` suffix removed (`github.com/vapor/vapor`).
///
/// # Case
/// The **host** is lowercased unconditionally: hostnames are case-insensitive by
/// definition, and every OSV `SwiftURL` key spells one in lowercase. The **path is left
/// exactly as written**, because OSV's keys are case-sensitive and mixed-case ones are
/// real. A port is transport, not identity, and is dropped.
#[must_use]
pub fn swift_package_name(location: &str) -> (r: String)
    ensures
        r@ == swift_name(location@),
{
    let chars = chars_of(location);
    let (rest, has_scheme) = strip_scheme(trim(chars.as_slice()));
    let at: usize = position(rest, Class::Is('@'));
    let mut name: &[char] = rest;
    if at < rest.len() && !any(take(rest, at), Class::Is('/')) {
        name = skip(rest, at + 1);
    }
    let bare = trim_end(name, Class::Is('/'));
    let stem: &[char] = match strip_suffix(bare, ".git") {
        Some(n) => n,
        None => bare,
    };
    let out = normalize_host(trim_end(stem, Class::Is('/')), has_scheme);
    string_of(out.as_slice())
}

/// Extra OSV `SwiftURL` keys worth asking about for a package named `name`.
///
/// OSV matches its Swift keys byte for byte while git forges treat a repository path
/// case-insensitively. Where a pin's path is not already lowercase, the all-lowercase
/// spelling is a second real key for the same repository. Empty when the name is
/// already lowercase. The fold is **ASCII**, matching the host's.
#[must_use]
pub fn swift_package_name_variants(name: &str) -> (r: Vec<String>)
    ensures
        strings(r@) == if lowered(name@) == name@ {
            seq![]
        } else {
            seq![lowered(name@)]
        },
{
    let chars = chars_of(name);
    let low = lower(chars.as_slice());
    let mut out: Vec<String> = Vec::new();
    if !same(low.as_slice(), chars.as_slice()) {
        let s = string_of(low.as_slice());
        out.push(s);
        assert(strings(out@) =~= seq![lowered(name@)]);
    } else {
        assert(strings(out@) =~= seq![]);
    }
    out
}

/// One pin exactly as `Package.resolved` records it, before interpretation.
#[derive(Debug)]
pub struct Pin {
    /// SwiftPM's package identity (the repository's last path segment, lowercased).
    pub identity: Option<String>,
    /// `remoteSourceControl`, `localSourceControl`, `fileSystem`, or `registry`.
    pub kind: Option<String>,
    /// The package's location: a git URL, or a path for a local package.
    pub location: Option<String>,
    /// The resolved semantic version, when the pin resolved to a tag.
    pub version: Option<String>,
    /// The branch, when the pin follows one instead of a version.
    pub branch: Option<String>,
    /// The resolved git revision.
    pub revision: Option<String>,
}

/// What a [`Pin`] says.
pub ghost struct PinView {
    /// The identity.
    pub identity: Option<Seq<char>>,
    /// The kind.
    pub kind: Option<Seq<char>>,
    /// The location.
    pub location: Option<Seq<char>>,
    /// The version.
    pub version: Option<Seq<char>>,
    /// The branch.
    pub branch: Option<Seq<char>>,
    /// The revision.
    pub revision: Option<Seq<char>>,
}

impl View for Pin {
    type V = PinView;

    open spec fn view(&self) -> PinView {
        PinView {
            identity: opt_string(self.identity),
            kind: opt_string(self.kind),
            location: opt_string(self.location),
            version: opt_string(self.version),
            branch: opt_string(self.branch),
            revision: opt_string(self.revision),
        }
    }
}

/// The first of two texts that is there.
pub open spec fn either(a: Option<Seq<char>>, b: Option<Seq<char>>) -> Option<Seq<char>> {
    if a is Some {
        a
    } else {
        b
    }
}

/// Whether a location addresses the filesystem rather than a remote repository.
pub open spec fn is_path(location: Seq<char>) -> bool {
    let t = trimmed(location);
    begins(t, "file://"@) || begins(t, "/"@) || begins(t, "."@) || begins(t, "~"@)
}

/// Whether a pin is a local package.
pub open spec fn is_local(pin: PinView) -> bool {
    ||| pin.kind == Some("fileSystem"@)
    ||| pin.kind == Some("localSourceControl"@)
    ||| (pin.location matches Some(l) && is_path(l))
}

/// The name of a pin: a local package's identity, or the name of its location where it
/// has one, or else its identity.
pub open spec fn name_of(pin: PinView) -> Option<Seq<char>> {
    if is_local(pin) {
        pin.identity
    } else {
        match pin.location {
            Some(l) => if swift_name(l).len() > 0 {
                Some(swift_name(l))
            } else {
                pin.identity
            },
            None => pin.identity,
        }
    }
}

/// The dependency of a pin, where the pin names something.
pub open spec fn item_of(pin: PinView) -> Option<ItemView> {
    let state = match either(either(pin.version, pin.branch), pin.revision) {
        Some(s) => s,
        None => seq![],
    };
    let (source, constraint, locked) = if is_local(pin) {
        (PackageSource::Local, state, None)
    } else {
        match pin.version {
            Some(v) => (PackageSource::Locked, v, Some(v)),
            None => (PackageSource::Git, state, None),
        }
    };
    match name_of(pin) {
        Some(name) => Some(
            ItemView {
                name,
                version_constraint: constraint,
                source,
                version_line: 0,
                version_col_start: 0,
                version_col_end: 0,
                registry: None,
                locked_version: locked,
                kind: DependencyKind::Indirect,
            },
        ),
        None => None,
    }
}

/// Whether a location addresses the filesystem.
fn is_local_path(location: &str) -> (r: bool)
    ensures
        r == is_path(location@),
{
    let chars = chars_of(location);
    let t = trim(chars.as_slice());
    starts_with(t, "file://") || starts_with(t, "/") || starts_with(t, ".") || starts_with(t, "~")
}

/// Interpret one pin as a dependency, or `None` when it names nothing.
///
/// The source is `Locked`, not `Registry`: the version was written in
/// `Package.resolved` and never in a manifest. A branch pin has no version at all and
/// is the git dependency it looks like. Nothing here can be called a direct dependency
/// without inventing the claim.
pub fn pin_item(pin: &Pin) -> (r: Option<Item>)
    ensures
        match r {
            Some(i) => item_of(pin@) == Some(i@),
            None => item_of(pin@) is None,
        },
{
    let mut local = false;
    if let Some(k) = &pin.kind {
        local = str_eq(k.as_str(), "fileSystem") || str_eq(k.as_str(), "localSourceControl");
    }
    if let Some(l) = &pin.location {
        if is_local_path(l.as_str()) {
            local = true;
        }
    }
    assert(local == is_local(pin@));
    let mut name = copy_option(&pin.identity);
    if !local {
        if let Some(l) = &pin.location {
            let n = swift_package_name(l.as_str());
            if !n.as_str().is_empty() {
                name = Some(n);
            }
        }
    }
    let state = match &pin.version {
        Some(v) => v.clone(),
        None => match &pin.branch {
            Some(b) => b.clone(),
            None => match &pin.revision {
                Some(x) => x.clone(),
                None => {
                    let none = String::new();
                    assert(none@ =~= seq![]);
                    none
                },
            },
        },
    };
    let source = if local {
        PackageSource::Local
    } else if pin.version.is_some() {
        PackageSource::Locked
    } else {
        PackageSource::Git
    };
    let locked = if local {
        None
    } else {
        copy_option(&pin.version)
    };
    match name {
        Some(name) => Some(
            Item {
                name,
                version_constraint: state,
                source,
                version_line: 0,
                version_col_start: 0,
                version_col_end: 0,
                registry: None,
                locked_version: locked,
                kind: DependencyKind::Indirect,
            },
        ),
        None => None,
    }
}

/// The pin index and the field path within that pin, where a path is inside a pin list.
///
/// Only `pins` at the document root (v2/v3) or directly under `object` (v1) is a
/// pin list; a `pins` key nested anywhere else belongs to something that is not read.
pub open spec fn field_of(path: Seq<Seq<char>>) -> Option<(u64, Seq<Seq<char>>)> {
    let at: int = if path.len() > 0 && path[0] == "pins"@ {
        0
    } else if path.len() > 1 && path[1] == "pins"@ && path[0] == "object"@ {
        1
    } else {
        -1
    };
    if at < 0 || path.len() < at + 3 {
        None
    } else {
        match number_of(path[at + 1]) {
            Some(index) => Some((index, path.skip(at + 2))),
            None => None,
        }
    }
}

/// A growing list of indices with one more.
pub open spec fn with_index(list: Seq<u64>, k: u64) -> Seq<u64>
    decreases list.len(),
{
    if list.len() == 0 || list.last() < k {
        list.push(k)
    } else if list.last() == k {
        list
    } else {
        with_index(list.drop_last(), k).push(list.last())
    }
}

/// The indices of the pins, growing.
pub open spec fn indices_of(found: Seq<StringView>) -> Seq<u64>
    decreases found.len(),
{
    if found.len() == 0 {
        seq![]
    } else {
        match field_of(found.last().path) {
            Some((index, _)) => with_index(indices_of(found.drop_last()), index),
            None => indices_of(found.drop_last()),
        }
    }
}

/// The last value of a field of a pin.
pub open spec fn field_at(found: Seq<StringView>, index: u64, field: Seq<Seq<char>>) -> Option<
    Seq<char>,
> {
    field_at_either(found, index, field, field)
}

/// The last value of either of two fields of a pin.
pub open spec fn field_at_either(
    found: Seq<StringView>,
    index: u64,
    field: Seq<Seq<char>>,
    other: Seq<Seq<char>>,
) -> Option<Seq<char>>
    decreases found.len(),
{
    if found.len() == 0 {
        None
    } else if field_of(found.last().path) == Some((index, field)) || field_of(found.last().path)
        == Some((index, other)) {
        Some(found.last().value)
    } else {
        field_at_either(found.drop_last(), index, field, other)
    }
}

/// The pin of an index. `package` and `repositoryURL` are v1's spellings of `identity`
/// and `location`.
pub open spec fn pin_of(found: Seq<StringView>, index: u64) -> PinView {
    PinView {
        identity: field_at_either(found, index, seq!["identity"@], seq!["package"@]),
        kind: field_at(found, index, seq!["kind"@]),
        location: field_at_either(found, index, seq!["location"@], seq!["repositoryURL"@]),
        version: field_at(found, index, seq!["state"@, "version"@]),
        branch: field_at(found, index, seq!["state"@, "branch"@]),
        revision: field_at(found, index, seq!["state"@, "revision"@]),
    }
}

/// The dependencies of the pins of a list of indices.
pub open spec fn items_at(found: Seq<StringView>, indices: Seq<u64>) -> Seq<ItemView>
    decreases indices.len(),
{
    if indices.len() == 0 {
        seq![]
    } else {
        let front = items_at(found, indices.drop_last());
        match item_of(pin_of(found, indices.last())) {
            Some(i) => front.push(i),
            None => front,
        }
    }
}

/// The dependencies that a text pins; none can be told of one that is not well-formed.
pub open spec fn pinned(content: Seq<char>) -> Option<Seq<ItemView>> {
    let scan = document_scan(content);
    if scan.sound {
        Some(items_at(scan.found, indices_of(scan.found)))
    } else {
        None
    }
}

/// Where the list of pins stands in a path.
fn pins_at(path: &Vec<String>) -> (r: Option<usize>)
    ensures
        r == if path@.len() > 0 && path@[0]@ == "pins"@ {
            Some(0usize)
        } else if path@.len() > 1 && path@[1]@ == "pins"@ && path@[0]@ == "object"@ {
            Some(1usize)
        } else {
            None
        },
{
    if path.len() > 0 && str_eq(path[0].as_str(), "pins") {
        Some(0)
    } else if path.len() > 1 && str_eq(path[1].as_str(), "pins") && str_eq(
        path[0].as_str(),
        "object",
    ) {
        Some(1)
    } else {
        None
    }
}

/// The index of the pin that a path is inside of, and where the field within that pin
/// begins in the path.
fn pin_field(path: &Vec<String>) -> (r: Option<(u64, usize)>)
    ensures
        match r {
            Some((index, from)) => from < path@.len() && field_of(strings(path@)) == Some(
                (index, strings(path@).skip(from as int)),
            ),
            None => field_of(strings(path@)) is None,
        },
{
    let ghost all = strings(path@);
    assert(path@.len() > 0 ==> all[0] == path@[0]@);
    assert(path@.len() > 1 ==> all[1] == path@[1]@);
    match pins_at(path) {
        None => None,
        Some(at) => {
            if path.len() < at + 3 {
                return None;
            }
            let text = chars_of(path[at + 1].as_str());
            assert(all[at + 1] == text@);
            match parse_u64(text.as_slice()) {
                Some(index) => Some((index, at + 2)),
                None => None,
            }
        },
    }
}

/// Whether the rest of a path is the given field.
fn rest_is(path: &Vec<String>, from: usize, want: &[&str]) -> (r: bool)
    requires
        from <= path@.len(),
    ensures
        r == (strings(path@).skip(from as int) == super::entries::strs(want@)),
{
    let ghost rest = strings(path@).skip(from as int);
    if path.len() - from != want.len() {
        assert(rest.len() != super::entries::strs(want@).len());
        return false;
    }
    let mut i: usize = 0;
    while i < want.len()
        invariant
            i <= want.len(),
            from + want.len() == path.len(),
            rest == strings(path@).skip(from as int),
            forall|j: int| 0 <= j < i ==> #[trigger] rest[j] == want@[j]@,
        decreases want.len() - i,
    {
        assert(rest[i as int] == path@[from + i]@);
        if !str_eq(path[from + i].as_str(), want[i]) {
            assert(rest[i as int] != super::entries::strs(want@)[i as int]);
            return false;
        }
        i = i + 1;
    }
    assert(rest =~= super::entries::strs(want@));
    true
}

/// The last value of either of two fields of a pin.
fn find_field(values: &Vec<JsonStringValue>, index: u64, field: &[&str], other: &[&str]) -> (r:
    Option<String>)
    ensures
        opt_string(r) == field_at_either(
            values_of(values@),
            index,
            super::entries::strs(field@),
            super::entries::strs(other@),
        ),
{
    let ghost all = values_of(values@);
    let ghost a = super::entries::strs(field@);
    let ghost b = super::entries::strs(other@);
    let mut i: usize = values.len();
    assert(all.take(i as int) =~= all);
    while i > 0
        invariant
            i <= values.len(),
            all == values_of(values@),
            a == super::entries::strs(field@),
            b == super::entries::strs(other@),
            field_at_either(all, index, a, b) == field_at_either(all.take(i as int), index, a, b),
        decreases i,
    {
        proof {
            assert(all.take(i as int).drop_last() =~= all.take(i - 1));
            assert(all.take(i as int).last() == values@[i - 1]@);
        }
        let path = &values[i - 1].path;
        if let Some((k, from)) = pin_field(path) {
            if k == index && (rest_is(path, from, field) || rest_is(path, from, other)) {
                return Some(values[i - 1].value.clone());
            }
        }
        i = i - 1;
    }
    None
}

/// Add an index to a growing list of indices.
fn add_index(list: &mut Vec<u64>, k: u64)
    ensures
        final(list)@ == with_index(old(list)@, k),
{
    let ghost all = list@;
    let mut i: usize = list.len();
    let ghost want = with_index(all, k);
    assert(all.take(i as int) =~= all);
    assert(want =~= with_index(all.take(i as int), k) + all.skip(i as int));
    while i > 0 && list[i - 1] > k
        invariant
            i <= list.len(),
            all == list@,
            want == with_index(all.take(i as int), k) + all.skip(i as int),
        decreases i,
    {
        proof {
            let t = all.take(i as int);
            assert(t.drop_last() =~= all.take(i - 1));
            assert(with_index(t, k) == with_index(t.drop_last(), k).push(t.last()));
            assert(want =~= with_index(all.take(i - 1), k) + all.skip(i - 1));
        }
        i = i - 1;
    }
    if i > 0 && list[i - 1] == k {
        proof {
            let t = all.take(i as int);
            assert(with_index(t, k) == t);
            assert(want =~= all);
        }
    } else {
        proof {
            let t = all.take(i as int);
            assert(with_index(t, k) == t.push(k));
            assert(want =~= all.insert(i as int, k));
        }
        list.insert(i, k);
    }
}

/// The pins of the string values of a `Package.resolved`, by growing index.
fn indices(values: &Vec<JsonStringValue>) -> (r: Vec<u64>)
    ensures
        r@ == indices_of(values_of(values@)),
{
    let ghost all = values_of(values@);
    let mut out: Vec<u64> = Vec::new();
    let mut i: usize = 0;
    assert(out@ =~= indices_of(all.take(0)));
    while i < values.len()
        invariant
            i <= values.len(),
            all == values_of(values@),
            out@ == indices_of(all.take(i as int)),
        decreases values.len() - i,
    {
        proof {
            assert(all.take(i + 1).drop_last() =~= all.take(i as int));
            assert(all.take(i + 1).last() == values@[i as int]@);
        }
        if let Some((k, _)) = pin_field(&values[i].path) {
            add_index(&mut out, k);
        }
        i = i + 1;
    }
    assert(all.take(i as int) =~= all);
    out
}

/// The pin of an index.
fn pin_at(values: &Vec<JsonStringValue>, index: u64) -> (r: Pin)
    ensures
        r@ == pin_of(values_of(values@), index),
{
    let identity: [&str; 1] = ["identity"];
    let package: [&str; 1] = ["package"];
    let kind: [&str; 1] = ["kind"];
    let location: [&str; 1] = ["location"];
    let url: [&str; 1] = ["repositoryURL"];
    let version: [&str; 2] = ["state", "version"];
    let branch: [&str; 2] = ["state", "branch"];
    let revision: [&str; 2] = ["state", "revision"];
    proof {
        assert(super::entries::strs(identity@) =~= seq!["identity"@]);
        assert(super::entries::strs(package@) =~= seq!["package"@]);
        assert(super::entries::strs(kind@) =~= seq!["kind"@]);
        assert(super::entries::strs(location@) =~= seq!["location"@]);
        assert(super::entries::strs(url@) =~= seq!["repositoryURL"@]);
        assert(super::entries::strs(version@) =~= seq!["state"@, "version"@]);
        assert(super::entries::strs(branch@) =~= seq!["state"@, "branch"@]);
        assert(super::entries::strs(revision@) =~= seq!["state"@, "revision"@]);
    }
    Pin {
        identity: find_field(values, index, &identity, &package),
        kind: find_field(values, index, &kind, &kind),
        location: find_field(values, index, &location, &url),
        version: find_field(values, index, &version, &version),
        branch: find_field(values, index, &branch, &branch),
        revision: find_field(values, index, &revision, &revision),
    }
}

/// What an optional list of items says.
pub open spec fn opt_items(o: Option<Vec<Item>>) -> Option<Seq<ItemView>> {
    match o {
        Some(v) => Some(item_views(v@)),
        None => None,
    }
}

/// The dependencies `Package.resolved` pins, in the order it records them, or
/// `None` when the file did not read.
///
/// This is the whole flattened resolution: SwiftPM records transitive pins
/// beside direct ones and does not distinguish them, so neither does this.
///
/// # Malformed input is unread, not partial
/// This file *is* the dependency list, so a partial scan would hand back a silently
/// **short** list presented as the whole one. `None` says "this file told us nothing".
#[must_use]
pub fn swift_package_resolved_items(content: &str) -> (r: Option<Vec<Item>>)
    ensures
        opt_items(r) == pinned(content@),
{
    let scanned = scan_document(content);
    if !scanned.well_formed {
        return None;
    }
    let values = &scanned.values;
    let ghost found = values_of(values@);
    let list = indices(values);
    let mut out: Vec<Item> = Vec::new();
    let mut i: usize = 0;
    assert(item_views(out@) =~= items_at(found, list@.take(0)));
    while i < list.len()
        invariant
            i <= list.len(),
            found == values_of(values@),
            item_views(out@) == items_at(found, list@.take(i as int)),
        decreases list.len() - i,
    {
        proof {
            assert(list@.take(i + 1).drop_last() =~= list@.take(i as int));
            assert(list@.take(i + 1).last() == list@[i as int]);
        }
        let pin = pin_at(values, list[i]);
        if let Some(item) = pin_item(&pin) {
            let ghost before = item_views(out@);
            out.push(item);
            assert(item_views(out@) =~= before.push(item@));
        }
        i = i + 1;
    }
    assert(list@.take(i as int) =~= list@);
    Some(out)
}

/// The names and locked versions of a list of items, in order.
pub open spec fn locked_pairs(items: Seq<ItemView>) -> Seq<(Seq<char>, Seq<char>)>
    decreases items.len(),
{
    if items.len() == 0 {
        seq![]
    } else {
        let front = locked_pairs(items.drop_last());
        match items.last().locked_version {
            Some(v) => front.push((items.last().name, v)),
            None => front,
        }
    }
}

/// What is said of a `Package.resolved` that does not read to its end.
pub const UNREADABLE_PINS: &'static str = "Package.resolved is not well-formed JSON, so the pins it records could not be read; this file is the whole dependency list of a Swift project, so a partial read of it is not a shorter answer but a wrong one";

/// Parse `Package.resolved` into a name → resolved-version map.
///
/// Keyed by the same name [`swift_package_resolved_items`] gives each pin, so the
/// two agree about what a package is called.
///
/// # Errors
/// Returns [`ParseError::Malformed`] when, and only when, the JSON does not read to its
/// end: a partial pin set is a short dependency list, not a partial annotation.
pub fn parse_swift_package_resolved(content: &str) -> (r: Result<LockfileData, ParseError>)
    ensures
        match r {
            Ok(d) => pinned(content@) matches Some(items) && d@ == collected(locked_pairs(items)),
            Err(e) => pinned(content@) is None && (e matches ParseError::Malformed(m) && m@
                == UNREADABLE_PINS@),
        },
{
    match swift_package_resolved_items(content) {
        None => Err(ParseError::Malformed(UNREADABLE_PINS.to_owned())),
        Some(items) => {
            let ghost all = item_views(items@);
            let mut data = LockfileData::default();
            let mut i: usize = 0;
            assert(data@ == collected(locked_pairs(all.take(0))));
            while i < items.len()
                invariant
                    i <= items.len(),
                    all == item_views(items@),
                    data@ == collected(locked_pairs(all.take(i as int))),
                decreases items.len() - i,
            {
                proof {
                    assert(all.take(i + 1).drop_last() =~= all.take(i as int));
                    assert(all.take(i + 1).last() == items@[i as int]@);
                }
                if let Some(version) = &items[i].locked_version {
                    let ghost pair = (items@[i as int].name@, version@);
                    data.add_version(items[i].name.clone(), version.clone());
                    proof {
                        let front = locked_pairs(all.take(i as int));
                        assert(front.push(pair).drop_last() =~= front);
                    }
                }
                i = i + 1;
            }
            assert(all.take(i as int) =~= all);
            Ok(data)
        },
    }
}

/// Every pin that reads is indirect, has no place in a manifest, and is checkable only
/// by the version it is locked at.
pub proof fn law_pins_are_never_rewritable(pin: PinView)
    ensures
        item_of(pin) matches Some(i) ==> {
            &&& i.kind == DependencyKind::Indirect
            &&& !i.positioned()
            &&& !i.rewritable()
            &&& i.checkable() <==> i.locked_version is Some
            &&& i.locked_version matches Some(v) ==> i.version_constraint == v
        },
{
}

/// A name has a second spelling exactly if it is not in small letters already, and the
/// second spelling has none.
pub proof fn law_variants(name: Seq<char>)
    ensures
        lowered(lowered(name)) == lowered(name),
{
    assert(lowered(lowered(name)) =~= lowered(name));
}

/// A list of indices stays growing, and holds what it held and the new index.
pub proof fn lemma_with_index(list: Seq<u64>, k: u64)
    requires
        forall|i: int, j: int| 0 <= i < j < list.len() ==> list[i] < list[j],
    ensures
        forall|i: int, j: int|
            0 <= i < j < with_index(list, k).len() ==> with_index(list, k)[i] < with_index(
                list,
                k,
            )[j],
        forall|x: u64| #[trigger] with_index(list, k).contains(x) <==> list.contains(x) || x == k,
    decreases list.len(),
{
    let n = with_index(list, k);
    if list.len() == 0 || list.last() < k {
        assert forall|x: u64| #[trigger] n.contains(x) <==> list.contains(x) || x == k by {
            if list.contains(x) {
                let i = choose|i: int| 0 <= i < list.len() && list[i] == x;
                assert(n[i] == x);
            }
            if x == k {
                assert(n[list.len() as int] == x);
            }
            if n.contains(x) && x != k {
                let i = choose|i: int| 0 <= i < n.len() && n[i] == x;
                assert(list[i] == x);
            }
        }
        assert forall|i: int, j: int| 0 <= i < j < n.len() implies n[i] < n[j] by {
            if j == list.len() && i < list.len() - 1 {
                assert(list[i] < list[list.len() - 1]);
            }
        }
    } else if list.last() == k {
        assert(list[list.len() - 1] == k);
    } else {
        let front = list.drop_last();
        lemma_with_index(front, k);
        let m = with_index(front, k);
        let z = list.last();
        assert forall|x: u64| #[trigger] m.contains(x) implies x < z by {
            if front.contains(x) {
                let i = choose|i: int| 0 <= i < front.len() && front[i] == x;
                assert(list[i] < list[list.len() - 1]);
            }
        }
        assert forall|i: int, j: int| 0 <= i < j < n.len() implies n[i] < n[j] by {
            if j == m.len() {
                assert(m.contains(m[i]));
            }
        }
        assert forall|x: u64| #[trigger] n.contains(x) <==> list.contains(x) || x == k by {
            if m.contains(x) {
                let i = choose|i: int| 0 <= i < m.len() && m[i] == x;
                assert(n[i] == x);
            }
            if x == z {
                assert(n[m.len() as int] == x);
                assert(list[list.len() - 1] == x);
            }
            if n.contains(x) && x != z {
                let i = choose|i: int| 0 <= i < n.len() && n[i] == x;
                assert(m[i] == x);
            }
            if front.contains(x) {
                let i = choose|i: int| 0 <= i < front.len() && front[i] == x;
                assert(list[i] == x);
            }
            if list.contains(x) && x != z {
                let i = choose|i: int| 0 <= i < list.len() && list[i] == x;
                assert(front[i] == x);
            }
        }
    }
}

/// The pins come in growing order of index, each once.
pub proof fn law_indices_grow(found: Seq<StringView>)
    ensures
        forall|i: int, j: int|
            0 <= i < j < indices_of(found).len() ==> indices_of(found)[i] < indices_of(found)[j],
    decreases found.len(),
{
    if found.len() > 0 {
        law_indices_grow(found.drop_last());
        if let Some((k, _)) = field_of(found.last().path) {
            lemma_with_index(indices_of(found.drop_last()), k);
        }
    }
}

} // verus!
