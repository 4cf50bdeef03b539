//! Reader of a Maven POM (`pom.xml`).
//!
//! The declarative half of a Maven build: the `<dependencies>` element directly under
//! `<project>`, with the coordinate from `<groupId>`/`<artifactId>` and the constraint
//! from `<version>`, and the exact byte range of the version *text*.
//!
//! # `${property}`
//!
//! A version may name a property instead of stating one. The literal is in **this**
//! file, so the span of the `<properties>` line is a real place to rewrite. A property
//! used by exactly one dependency carries that span; a property several dependencies
//! share carries none, because one line cannot be rewritten to two different versions.
//! Such a dependency is [`PackageSource::Inherited`]: checked, never written to. Only a
//! version that is *entirely* one `${…}` is resolved: a composed value like `1.${minor}`
//! has no span that could be replaced with a version.
//!
//! # What is deliberately not resolved
//!
//! `<parent>` inheritance, `<dependencyManagement>`, and BOM imports can require fetching
//! the parent POM from a registry. Maven's built-in properties (`${project.version}`,
//! `${revision}`, …) are not `<properties>` entries and are likewise not resolved. A
//! dependency whose version those rules leave unknown is **reported anyway**, with no
//! constraint and no span.
use super::place::{bare_item, item_between, make_bare, make_between, minus, offset_plus, plus};
use super::position::{is_starts, line_starts, starts_of};
use super::spans::{all_plain, is_written, lemma_all_told, lemma_between, positioned_written};
use super::{Parser, Reading};
use crate::error::ParseError;
use crate::item::{item_views, DependencyKind, Item, ItemView, PackageSource};
use crate::manifest::{items_only, ManifestKind, ParsedManifest};
use crate::split::text3;
use crate::text::{
    after_prefix, any, before_suffix, chars_of, count_leading, has_any, leading, lemma_leading,
    lemma_trailing, opt_string, str_eq, string_of, strip_prefix, strip_suffix, trim, trim_start_of,
    trimmed, Class,
};
use crate::width::{
    byte_len, column, lemma_byte_len_bounds, lemma_offset_grows, str_bytes,
};
use crate::xml::{
    bare, child_named, find_child, find_named, find_root, is_bare, is_child, lemma_one_range,
    next_child, node_views, nodes_stand, opt_index, parse_nodes, ranges, root_element, text_stands,
    xml_document, Want, XmlNode, XmlView,
};
use vstd::prelude::*;

verus! {

/// How far a `${a}` → `${b}` → literal chain is followed before giving up, which
/// also bounds a property that (illegally) refers to itself.
pub const MAX_PROPERTY_HOPS: usize = 8;

/// Parses `pom.xml`.
pub struct PomXmlParser;

/// A text and where it is written, where that is known.
pub struct PomText {
    /// The text.
    pub value: String,
    /// Where it begins and ends.
    pub span: Option<(usize, usize)>,
}

/// What a [`PomText`] says.
pub ghost struct PomTextView {
    /// The text.
    pub value: Seq<char>,
    /// Where it begins and ends.
    pub span: Option<(usize, usize)>,
}

impl View for PomText {
    type V = PomTextView;

    open spec fn view(&self) -> PomTextView {
        PomTextView { value: self.value@, span: self.span }
    }
}

/// What an optional text says.
pub open spec fn opt_pom_text(o: Option<PomText>) -> Option<PomTextView> {
    match o {
        Some(t) => Some(t@),
        None => None,
    }
}

/// Where one dependency's version comes from.
pub enum PomVersion {
    /// Stated on the dependency itself.
    Literal(PomText),
    /// Deferred to a `<properties>` entry, named here by the property the chain
    /// ends at: the one whose line a rewrite would have to touch.
    Property(String),
    /// Not knowable from this file alone: absent, a built-in property, a composed
    /// value, or a property this POM does not declare.
    Unknown,
}

/// What a [`PomVersion`] says.
pub ghost enum PomVersionView {
    /// Stated on the dependency itself.
    Literal(PomTextView),
    /// Deferred to a property.
    Property(Seq<char>),
    /// Not knowable.
    Unknown,
}

impl View for PomVersion {
    type V = PomVersionView;

    open spec fn view(&self) -> PomVersionView {
        match self {
            PomVersion::Literal(t) => PomVersionView::Literal(t@),
            PomVersion::Property(s) => PomVersionView::Property(s@),
            PomVersion::Unknown => PomVersionView::Unknown,
        }
    }
}

/// One `<dependency>`, read but not yet resolved.
pub struct PomEntry {
    /// The coordinate, `groupId:artifactId`.
    pub name: String,
    /// Where its version comes from.
    pub version: PomVersion,
    /// Its source.
    pub source: PackageSource,
    /// Its section.
    pub kind: DependencyKind,
}

/// What a [`PomEntry`] says.
pub ghost struct PomEntryView {
    /// The coordinate.
    pub name: Seq<char>,
    /// Where its version comes from.
    pub version: PomVersionView,
    /// Its source.
    pub source: PackageSource,
    /// Its section.
    pub kind: DependencyKind,
}

impl View for PomEntry {
    type V = PomEntryView;

    open spec fn view(&self) -> PomEntryView {
        PomEntryView {
            name: self.name@,
            version: self.version@,
            source: self.source,
            kind: self.kind,
        }
    }
}

/// What a list of entries says.
pub open spec fn entry_views(v: Seq<PomEntry>) -> Seq<PomEntryView> {
    v.map_values(|e: PomEntry| e@)
}

/// An element's text content and the byte span of the text itself, trimmed of the
/// white space a pretty-printed POM puts around it.
///
/// The span is dropped where the source text and the unescaped text cannot be the
/// same bytes (a character reference, or text split across several nodes), because
/// an offset into one is not an offset into the other. An empty element yields
/// nothing.
pub open spec fn text_of(doc: Seq<char>, nodes: Seq<XmlView>, element: int) -> Option<PomTextView> {
    match next_child(nodes, element, Want::Text, 0) {
        Some(t) => match nodes[t].text {
            Some(raw) => {
                let value = trimmed(raw);
                let start = plus(
                    nodes[t].from,
                    byte_len(raw.take(leading(raw, Class::Space))) as usize,
                );
                let faithful = next_child(nodes, element, Want::Text, t + 1) is None && minus(
                    nodes[t].to,
                    nodes[t].from,
                ) == byte_len(raw) && is_bare(doc, nodes[t].from, nodes[t].to);
                if value.len() == 0 {
                    None
                } else {
                    Some(
                        PomTextView {
                            value,
                            span: if faithful {
                                Some((start, plus(start, byte_len(value) as usize)))
                            } else {
                                None
                            },
                        },
                    )
                }
            },
            None => None,
        },
        None => None,
    }
}

/// The text of a child element with a name.
pub open spec fn child_text(doc: Seq<char>, nodes: Seq<XmlView>, parent: Option<int>, tag: &str) -> Option<
    PomTextView,
> {
    match child_named(nodes, parent, tag) {
        Some(c) => text_of(doc, nodes, c),
        None => None,
    }
}

/// The text of the last property with a name among the nodes before a position.
pub open spec fn property_before(
    doc: Seq<char>,
    nodes: Seq<XmlView>,
    table: int,
    name: Seq<char>,
    n: int,
) -> Option<PomTextView>
    decreases n,
{
    if n <= 0 {
        None
    } else if is_child(nodes[n - 1], table, Want::Element) && nodes[n - 1].name == name && text_of(
        doc, nodes,
        n - 1,
    ) is Some {
        text_of(doc, nodes, n - 1)
    } else {
        property_before(doc, nodes, table, name, n - 1)
    }
}

/// The text of a property.
pub open spec fn property_of(doc: Seq<char>, nodes: Seq<XmlView>, table: Option<int>, name: Seq<char>) -> Option<
    PomTextView,
> {
    match table {
        Some(t) => property_before(doc, nodes, t, name, nodes.len() as int),
        None => None,
    }
}

/// The inner name of a value that is *entirely* one `${…}` reference.
pub open spec fn interpolation_of(value: Seq<char>) -> Option<Seq<char>> {
    match after_prefix(value, "${"@) {
        Some(rest) => match before_suffix(rest, "}"@) {
            Some(inner) => if inner.len() == 0 || has_any(inner, Class::In("${}")) {
                None
            } else {
                Some(inner)
            },
            None => None,
        },
        None => None,
    }
}

/// The name of the property that a `${…}` chain ends at, the one that states a literal;
/// `None` when the chain leaves this file, states nothing, or is longer than `hops`.
pub open spec fn terminal_of(
    doc: Seq<char>,
    nodes: Seq<XmlView>,
    table: Option<int>,
    name: Seq<char>,
    hops: nat,
) -> Option<Seq<char>>
    decreases hops,
{
    if hops == 0 {
        None
    } else {
        match property_of(doc, nodes, table, name) {
            Some(text) => match interpolation_of(text.value) {
                Some(next) => terminal_of(doc, nodes, table, next, (hops - 1) as nat),
                None => if has_any(text.value, Class::Is('$')) {
                    None
                } else {
                    Some(name)
                },
            },
            None => None,
        }
    }
}

/// A value with `${…}` resolved against the properties.
pub open spec fn interpolated_value(
    doc: Seq<char>,
    nodes: Seq<XmlView>,
    table: Option<int>,
    text: Option<PomTextView>,
) -> Option<Seq<char>> {
    match text {
        Some(t) => match interpolation_of(t.value) {
            Some(reference) => match terminal_of(
                doc, nodes,
                table,
                reference,
                MAX_PROPERTY_HOPS as nat,
            ) {
                Some(name) => Some(property_of(doc, nodes, table, name)->0.value),
                None => None,
            },
            None => if has_any(t.value, Class::Is('$')) {
                None
            } else {
                Some(t.value)
            },
        },
        None => None,
    }
}

/// Where a dependency's version comes from, as far as the file can say.
pub open spec fn version_of(
    doc: Seq<char>,
    nodes: Seq<XmlView>,
    table: Option<int>,
    text: Option<PomTextView>,
) -> PomVersionView {
    match text {
        Some(t) => match interpolation_of(t.value) {
            Some(reference) => match terminal_of(
                doc, nodes,
                table,
                reference,
                MAX_PROPERTY_HOPS as nat,
            ) {
                Some(name) => PomVersionView::Property(name),
                None => PomVersionView::Unknown,
            },
            None => if has_any(t.value, Class::Is('$')) {
                PomVersionView::Unknown
            } else {
                PomVersionView::Literal(t)
            },
        },
        None => PomVersionView::Unknown,
    }
}

/// Whether an optional text is a given word.
pub open spec fn says(text: Option<PomTextView>, word: Seq<char>) -> bool {
    text matches Some(t) && t.value == word
}

/// One `<dependency>`; `None` without both halves of a coordinate.
///
/// `test` is the only scope that names a section. A `system` dependency is a jar at a
/// path on this machine, not something a registry has ever heard of.
pub open spec fn entry_at(doc: Seq<char>, nodes: Seq<XmlView>, table: Option<int>, node: int) -> Option<
    PomEntryView,
> {
    let at = Some(node);
    let scope = child_text(doc, nodes, at, "scope");
    match (
        interpolated_value(doc, nodes, table, child_text(doc, nodes, at, "groupId")),
        interpolated_value(doc, nodes, table, child_text(doc, nodes, at, "artifactId")),
    ) {
        (Some(group), Some(artifact)) => Some(
            PomEntryView {
                name: group + ":"@ + artifact,
                version: version_of(doc, nodes, table, child_text(doc, nodes, at, "version")),
                source: if says(scope, "system"@) {
                    PackageSource::Local
                } else {
                    PackageSource::Registry
                },
                kind: if says(scope, "test"@) {
                    DependencyKind::Dev
                } else if says(child_text(doc, nodes, at, "optional"), "true"@) {
                    DependencyKind::Optional
                } else {
                    DependencyKind::Normal
                },
            },
        ),
        _ => None,
    }
}

/// The `<dependency>` entries of a list among the nodes before a position, in order.
pub open spec fn entries_before(
    doc: Seq<char>,
    nodes: Seq<XmlView>,
    table: Option<int>,
    list: int,
    n: int,
) -> Seq<PomEntryView>
    decreases n,
{
    if n <= 0 {
        seq![]
    } else {
        let front = entries_before(doc, nodes, table, list, n - 1);
        if is_child(nodes[n - 1], list, Want::Named("dependency")) {
            match entry_at(doc, nodes, table, n - 1) {
                Some(e) => front.push(e),
                None => front,
            }
        } else {
            front
        }
    }
}

/// The table of properties.
pub open spec fn table_of(nodes: Seq<XmlView>) -> Option<int> {
    child_named(nodes, root_element(nodes), "properties")
}

/// The dependencies directly under the project, in source order.
pub open spec fn entries_in(doc: Seq<char>, nodes: Seq<XmlView>) -> Seq<PomEntryView> {
    match child_named(nodes, root_element(nodes), "dependencies") {
        Some(list) => entries_before(doc, nodes, table_of(nodes), list, nodes.len() as int),
        None => seq![],
    }
}

/// How many entries defer to a property.
pub open spec fn uses_of(entries: Seq<PomEntryView>, name: Seq<char>) -> int
    decreases entries.len(),
{
    if entries.len() == 0 {
        0
    } else {
        uses_of(entries.drop_last(), name) + if entries.last().version == PomVersionView::Property(
            name,
        ) {
            1int
        } else {
            0
        }
    }
}

/// An item whose version, known or not, has no line that is this dependency's to rewrite.
pub open spec fn unplaced_item(entry: PomEntryView, version: Seq<char>) -> ItemView {
    ItemView {
        version_constraint: version,
        ..bare_item(
            entry.name,
            if entry.source == PackageSource::Local {
                PackageSource::Local
            } else {
                PackageSource::Inherited
            },
            entry.kind,
        )
    }
}

/// An item pointing at the version literal that governs it, wherever in this file
/// that literal is written.
pub open spec fn placed_item(
    starts: Seq<usize>,
    entry: PomEntryView,
    version: PomTextView,
) -> ItemView {
    match version.span {
        Some(span) => item_between(
            starts,
            entry.name,
            version.value,
            entry.source,
            entry.kind,
            span.0,
            span.1,
        ),
        None => unplaced_item(entry, version.value),
    }
}

/// The item of an entry.
pub open spec fn pom_item(
    doc: Seq<char>,
    starts: Seq<usize>,
    nodes: Seq<XmlView>,
    entries: Seq<PomEntryView>,
    entry: PomEntryView,
) -> ItemView {
    match entry.version {
        PomVersionView::Literal(version) => placed_item(starts, entry, version),
        PomVersionView::Property(name) => match property_of(doc, nodes, table_of(nodes), name) {
            Some(text) => if uses_of(entries, name) == 1 {
                placed_item(starts, entry, text)
            } else {
                unplaced_item(entry, text.value)
            },
            None => unplaced_item(entry, seq![]),
        },
        PomVersionView::Unknown => unplaced_item(entry, seq![]),
    }
}

/// What a POM declares.
pub open spec fn pom_items(doc: Seq<char>, starts: Seq<usize>, nodes: Seq<XmlView>) -> Seq<ItemView> {
    let entries = entries_in(doc, nodes);
    entries.map_values(|e: PomEntryView| pom_item(doc, starts, nodes, entries, e))
}

/// Read an element's text content and its byte span.
fn read_text(doc: &[char], nodes: &Vec<XmlNode>, element: usize) -> (r: Option<PomText>)
    requires
        byte_len(doc@) <= usize::MAX,
    ensures
        opt_pom_text(r) == text_of(doc@, node_views(nodes@), element as int),
{
    match find_child(nodes, element, Want::Text, 0) {
        Some(t) => match &nodes[t].text {
            Some(raw) => {
                let chars = chars_of(raw.as_str());
                let value = trim(chars.as_slice());
                if value.len() == 0 {
                    return None;
                }
                let lead: usize = count_leading(chars.as_slice(), Class::Space);
                let start: usize = offset_plus(nodes[t].range.start, column(chars.as_slice(), lead));
                let wide: usize = if nodes[t].range.end >= nodes[t].range.start {
                    nodes[t].range.end - nodes[t].range.start
                } else {
                    0
                };
                assert(nodes@.len() == nodes.len());
                let faithful = find_child(nodes, element, Want::Text, t + 1).is_none() && wide
                    == str_bytes(raw.as_str()) && bare(
                    doc,
                    nodes[t].range.start,
                    nodes[t].range.end,
                );
                let text = string_of(value);
                let span: Option<(usize, usize)> = if faithful {
                    Some((start, offset_plus(start, str_bytes(text.as_str()))))
                } else {
                    None
                };
                Some(PomText { value: text, span })
            },
            None => None,
        },
        None => None,
    }
}

/// Read the text of a child element with a name.
fn read_child(doc: &[char], nodes: &Vec<XmlNode>, parent: Option<usize>, tag: &str) -> (r: Option<PomText>)
    requires
        byte_len(doc@) <= usize::MAX,
    ensures
        opt_pom_text(r) == child_text(doc@, node_views(nodes@), opt_index(parent), tag),
{
    match find_named(nodes, parent, tag) {
        Some(c) => read_text(doc, nodes, c),
        None => None,
    }
}

/// Read the text of a property.
fn find_property(doc: &[char], nodes: &Vec<XmlNode>, table: Option<usize>, name: &[char]) -> (r: Option<PomText>)
    requires
        byte_len(doc@) <= usize::MAX,
    ensures
        opt_pom_text(r) == property_of(doc@, node_views(nodes@), opt_index(table), name@),
{
    let t: usize = match table {
        Some(t) => t,
        None => {
            return None;
        },
    };
    let wanted = string_of(name);
    let ghost all = node_views(nodes@);
    let mut i: usize = nodes.len();
    while i > 0
        invariant
            i <= nodes.len(),
            all == node_views(nodes@),
            byte_len(doc@) <= usize::MAX,
            opt_index(table) == Some(t as int),
            wanted@ == name@,
            property_of(doc@, all, opt_index(table), name@) == property_before(
                doc@,
                all,
                t as int,
                name@,
                i as int,
            ),
        decreases i,
    {
        assert(all[i - 1] == nodes@[i - 1]@);
        if let Some(p) = nodes[i - 1].parent {
            if p == t && nodes[i - 1].is_element && str_eq(
                nodes[i - 1].name.as_str(),
                wanted.as_str(),
            ) {
                let found = read_text(doc, nodes, i - 1);
                if found.is_some() {
                    return found;
                }
            }
        }
        i = i - 1;
    }
    None
}

/// The inner name of a value that is *entirely* one `${…}` reference.
fn interpolation<'a>(value: &'a [char]) -> (r: Option<&'a [char]>)
    ensures
        interpolation_of(value@) == match r {
            Some(t) => Some(t@),
            None => None,
        },
{
    match strip_prefix(value, "${") {
        Some(rest) => match strip_suffix(rest, "}") {
            Some(inner) => if inner.len() == 0 || any(inner, Class::In("${}")) {
                None
            } else {
                Some(inner)
            },
            None => None,
        },
        None => None,
    }
}

/// Follow a `${…}` chain to the property it ends at, and what that states.
fn terminal(doc: &[char], nodes: &Vec<XmlNode>, table: Option<usize>, name: &[char], hops: usize) -> (r: Option<
    (String, PomText),
>)
    requires
        byte_len(doc@) <= usize::MAX,
    ensures
        terminal_of(doc@, node_views(nodes@), opt_index(table), name@, hops as nat) == match r {
            Some((n, _)) => Some(n@),
            None => None,
        },
        r matches Some((n, t)) ==> property_of(doc@, node_views(nodes@), opt_index(table), n@) == Some(
            t@,
        ),
    decreases hops,
{
    if hops == 0 {
        return None;
    }
    match find_property(doc, nodes, table, name) {
        Some(text) => {
            let chars = chars_of(text.value.as_str());
            match interpolation(chars.as_slice()) {
                Some(next) => terminal(doc, nodes, table, next, hops - 1),
                None => if any(chars.as_slice(), Class::Is('$')) {
                    None
                } else {
                    Some((string_of(name), text))
                },
            }
        },
        None => None,
    }
}

/// A text, with `${…}` resolved against the properties.
fn interpolated(doc: &[char], nodes: &Vec<XmlNode>, table: Option<usize>, text: Option<PomText>) -> (r: Option<
    String,
>)
    requires
        byte_len(doc@) <= usize::MAX,
    ensures
        opt_string(r) == interpolated_value(
            doc@, node_views(nodes@),
            opt_index(table),
            opt_pom_text(text),
        ),
{
    match text {
        Some(t) => {
            let chars = chars_of(t.value.as_str());
            match interpolation(chars.as_slice()) {
                Some(reference) => match terminal(doc, nodes, table, reference, MAX_PROPERTY_HOPS) {
                    Some((_, found)) => Some(found.value),
                    None => None,
                },
                None => if any(chars.as_slice(), Class::Is('$')) {
                    None
                } else {
                    Some(t.value)
                },
            }
        },
        None => None,
    }
}

/// Where a `<dependency>`'s version comes from, as far as this file can say.
fn version_source(doc: &[char], nodes: &Vec<XmlNode>, table: Option<usize>, text: Option<PomText>) -> (r:
    PomVersion)
    requires
        byte_len(doc@) <= usize::MAX,
    ensures
        r@ == version_of(doc@, node_views(nodes@), opt_index(table), opt_pom_text(text)),
{
    match text {
        Some(t) => {
            let chars = chars_of(t.value.as_str());
            match interpolation(chars.as_slice()) {
                Some(reference) => match terminal(doc, nodes, table, reference, MAX_PROPERTY_HOPS) {
                    Some((name, _)) => PomVersion::Property(name),
                    None => PomVersion::Unknown,
                },
                // A composed value (`1.${minor}`) states no version to rewrite.
                None => if any(chars.as_slice(), Class::Is('$')) {
                    PomVersion::Unknown
                } else {
                    PomVersion::Literal(t)
                },
            }
        },
        None => PomVersion::Unknown,
    }
}

/// Whether an optional text is a given word.
fn states(text: &Option<PomText>, word: &str) -> (r: bool)
    ensures
        r == says(opt_pom_text(*text), word@),
{
    match text {
        Some(t) => str_eq(t.value.as_str(), word),
        None => false,
    }
}

/// What an optional entry says.
pub open spec fn opt_entry(o: Option<PomEntry>) -> Option<PomEntryView> {
    match o {
        Some(e) => Some(e@),
        None => None,
    }
}

/// Read one `<dependency>`.
fn read_entry(doc: &[char], nodes: &Vec<XmlNode>, table: Option<usize>, node: usize) -> (r: Option<PomEntry>)
    requires
        byte_len(doc@) <= usize::MAX,
    ensures
        opt_entry(r) == entry_at(doc@, node_views(nodes@), opt_index(table), node as int),
{
    let at = Some(node);
    let group = interpolated(doc, nodes, table, read_child(doc, nodes, at, "groupId"));
    let artifact = interpolated(doc, nodes, table, read_child(doc, nodes, at, "artifactId"));
    match (group, artifact) {
        (Some(g), Some(a)) => {
            let scope = read_child(doc, nodes, at, "scope");
            let optional = read_child(doc, nodes, at, "optional");
            Some(
                PomEntry {
                    name: text3(g.as_str(), ":", a.as_str()),
                    version: version_source(doc, nodes, table, read_child(doc, nodes, at, "version")),
                    source: if states(&scope, "system") {
                        PackageSource::Local
                    } else {
                        PackageSource::Registry
                    },
                    kind: if states(&scope, "test") {
                        DependencyKind::Dev
                    } else if states(&optional, "true") {
                        DependencyKind::Optional
                    } else {
                        DependencyKind::Normal
                    },
                },
            )
        },
        _ => None,
    }
}

/// Read the `<dependencies>` directly under `<project>`, in source order.
///
/// Only that one: `<dependencyManagement>` states versions for dependencies
/// declared elsewhere, `<build><plugins>` describes the build rather than the
/// artifact, and `<profiles>` applies conditionally.
fn read_dependencies(doc: &[char], nodes: &Vec<XmlNode>, table: Option<usize>) -> (r: Vec<PomEntry>)
    requires
        byte_len(doc@) <= usize::MAX,
        opt_index(table) == table_of(node_views(nodes@)),
    ensures
        entry_views(r@) == entries_in(doc@, node_views(nodes@)),
{
    let ghost all = node_views(nodes@);
    let mut out: Vec<PomEntry> = Vec::new();
    assert(entry_views(out@) =~= seq![]);
    let list: usize = match find_named(nodes, find_root(nodes), "dependencies") {
        Some(list) => list,
        None => {
            return out;
        },
    };
    let want = Want::Named("dependency");
    let mut i: usize = 0;
    while i < nodes.len()
        invariant
            i <= nodes.len(),
            all == node_views(nodes@),
            want == Want::Named("dependency"),
            byte_len(doc@) <= usize::MAX,
            entry_views(out@) == entries_before(doc@, all, opt_index(table), list as int, i as int),
        decreases nodes.len() - i,
    {
        assert(all[i as int] == nodes@[i as int]@);
        if let Some(p) = nodes[i].parent {
            if p == list && want.accepts(&nodes[i]) {
                if let Some(e) = read_entry(doc, nodes, table, i) {
                    let ghost before = entry_views(out@);
                    out.push(e);
                    assert(entry_views(out@) =~= before.push(e@));
                }
            }
        }
        i = i + 1;
    }
    out
}

/// How many entries defer to a property.
fn count_uses(entries: &Vec<PomEntry>, name: &str) -> (r: usize)
    ensures
        r == uses_of(entry_views(entries@), name@),
{
    let ghost all = entry_views(entries@);
    let mut n: usize = 0;
    let mut i: usize = 0;
    while i < entries.len()
        invariant
            i <= entries.len(),
            n <= i,
            all == entry_views(entries@),
            n == uses_of(all.take(i as int), name@),
        decreases entries.len() - i,
    {
        proof {
            assert(all.take(i + 1).drop_last() =~= all.take(i as int));
            assert(all.take(i + 1).last() == entries@[i as int]@);
        }
        if let PomVersion::Property(p) = &entries[i].version {
            if str_eq(p.as_str(), name) {
                n = n + 1;
            }
        }
        i = i + 1;
    }
    assert(all.take(i as int) =~= all);
    n
}

/// An item whose version has no line that is this dependency's to rewrite.
fn inherited(entry: &PomEntry, version: String) -> (r: Item)
    ensures
        r@ == unplaced_item(entry@, version@),
{
    let source = match entry.source {
        PackageSource::Local => PackageSource::Local,
        _ => PackageSource::Inherited,
    };
    let mut item = make_bare(entry.name.clone(), source, entry.kind);
    item.version_constraint = version;
    item
}

/// An item this file states no version for: it is reported, and nothing is claimed
/// about it.
fn unresolved(entry: &PomEntry) -> (r: Item)
    ensures
        r@ == unplaced_item(entry@, seq![]),
{
    let none = String::new();
    assert(none@ =~= seq![]);
    inherited(entry, none)
}

/// An item pointing at the version literal that governs it.
fn placed(entry: &PomEntry, version: &PomText, starts: &[usize]) -> (r: Item)
    requires
        is_starts(starts@),
    ensures
        r@ == placed_item(starts@, entry@, version@),
{
    match version.span {
        Some(span) => make_between(
            starts,
            entry.name.clone(),
            version.value.clone(),
            entry.source,
            entry.kind,
            span.0,
            span.1,
        ),
        None => inherited(entry, version.value.clone()),
    }
}

/// Build the item of an entry.
fn build_item(
    doc: &[char],
    nodes: &Vec<XmlNode>,
    table: Option<usize>,
    entries: &Vec<PomEntry>,
    entry: &PomEntry,
    starts: &[usize],
) -> (r: Item)
    requires
        byte_len(doc@) <= usize::MAX,
        is_starts(starts@),
        opt_index(table) == table_of(node_views(nodes@)),
    ensures
        r@ == pom_item(doc@, starts@, node_views(nodes@), entry_views(entries@), entry@),
{
    match &entry.version {
        PomVersion::Literal(version) => placed(entry, version, starts),
        PomVersion::Property(name) => {
            let chars = chars_of(name.as_str());
            match find_property(doc, nodes, table, chars.as_slice()) {
                Some(text) => if count_uses(entries, name.as_str()) == 1 {
                    placed(entry, &text, starts)
                } else {
                    inherited(entry, text.value)
                },
                None => unresolved(entry),
            }
        },
        PomVersion::Unknown => unresolved(entry),
    }
}

/// The items of a parsed POM.
pub fn items_from(content: &str, nodes: &Vec<XmlNode>, starts: &[usize]) -> (r: Vec<Item>)
    requires
        is_starts(starts@),
    ensures
        item_views(r@) == pom_items(content@, starts@, node_views(nodes@)),
{
    let total: usize = str_bytes(content);
    let chars = chars_of(content);
    let doc = chars.as_slice();
    let table = find_named(nodes, find_root(nodes), "properties");
    let entries = read_dependencies(doc, nodes, table);
    let ghost all = entry_views(entries@);
    let ghost want = pom_items(content@, starts@, node_views(nodes@));
    let mut items: Vec<Item> = Vec::new();
    let mut i: usize = 0;
    while i < entries.len()
        invariant
            i <= entries.len(),
            is_starts(starts@),
            doc@ == content@,
            byte_len(content@) <= usize::MAX,
            opt_index(table) == table_of(node_views(nodes@)),
            all == entry_views(entries@),
            all == entries_in(content@, node_views(nodes@)),
            want == pom_items(content@, starts@, node_views(nodes@)),
            items@.len() == i,
            forall|j: int| 0 <= j < i ==> (#[trigger] items@[j])@ == want[j],
        decreases entries.len() - i,
    {
        assert(all[i as int] == entries@[i as int]@);
        let item = build_item(doc, nodes, table, &entries, &entries[i], starts);
        items.push(item);
        i = i + 1;
    }
    assert(item_views(items@) =~= want);
    items
}

/// Whether an item with a text for its version stands where the text is said to stand.
pub open spec fn text_written(content: Seq<char>, text: PomTextView) -> bool {
    text.span matches Some(span) ==> forall|
        name: Seq<char>,
        source: PackageSource,
        kind: DependencyKind,
    |
        is_written(
            content,
            #[trigger] item_between(
                starts_of(content),
                name,
                text.value,
                source,
                kind,
                span.0,
                span.1,
            ),
        )
}

proof fn lemma_next_child(nodes: Seq<XmlView>, parent: int, want: Want, from: int)
    requires
        0 <= from,
    ensures
        next_child(nodes, parent, want, from) matches Some(i) ==> from <= i < nodes.len()
            && is_child(nodes[i], parent, want),
    decreases nodes.len() - from,
{
    if from < nodes.len() && !is_child(nodes[from], parent, want) {
        lemma_next_child(nodes, parent, want, from + 1);
    }
}

proof fn lemma_text_written(content: Seq<char>, nodes: Seq<XmlView>, k: int)
    requires
        byte_len(content) <= usize::MAX,
        nodes_stand(content, nodes),
    ensures
        text_of(content, nodes, k) matches Some(text) ==> text_written(content, text),
{
    lemma_next_child(nodes, k, Want::Text, 0);
    if let Some(text) = text_of(content, nodes, k) {
        let t = next_child(nodes, k, Want::Text, 0)->0;
        if let Some(span) = text.span {
            let raw = nodes[t].text->0;
            lemma_byte_len_bounds(raw);
            assert(text_stands(content, nodes[t]));
            assert(raw.len() > 0);
            let (a, b) = choose|a: int, b: int| #[trigger]
                ranges(content, nodes[t].from, nodes[t].to, a, b) && (!has_any(
                    content.subrange(a, b),
                    Class::In("<&\r"),
                ) ==> content.subrange(a, b) == raw);
            let (e, f) = choose|e: int, f: int| #[trigger]
                ranges(content, nodes[t].from, nodes[t].to, e, f) && !has_any(
                    content.subrange(e, f),
                    Class::In("<&\r"),
                );
            lemma_one_range(content, nodes[t].from, nodes[t].to, a, b, e, f);
            assert(content.subrange(a, b) == raw);
            let lead = leading(raw, Class::Space);
            lemma_leading(raw, Class::Space);
            lemma_trailing(trim_start_of(raw, Class::Space), Class::Space);
            let c = a + lead;
            let d = c + text.value.len();
            assert(content.subrange(a, c) =~= raw.take(lead));
            assert(content.subrange(c, d) =~= text.value);
            lemma_offset_grows(content, a, c);
            lemma_offset_grows(content, c, d);
            lemma_byte_len_bounds(content.take(a));
            lemma_byte_len_bounds(raw.take(lead));
            lemma_byte_len_bounds(text.value);
            assert forall|name: Seq<char>, source: PackageSource, kind: DependencyKind| is_written(
                content,
                #[trigger] item_between(
                    starts_of(content),
                    name,
                    text.value,
                    source,
                    kind,
                    span.0,
                    span.1,
                ),
            ) by {
                lemma_between(content, name, text.value, source, kind, c, d);
            }
        }
    }
}

proof fn lemma_property_written(
    content: Seq<char>,
    nodes: Seq<XmlView>,
    table: int,
    name: Seq<char>,
    n: int,
)
    requires
        byte_len(content) <= usize::MAX,
        nodes_stand(content, nodes),
    ensures
        property_before(content, nodes, table, name, n) matches Some(text) ==> text_written(
            content,
            text,
        ),
    decreases n,
{
    if n > 0 {
        lemma_text_written(content, nodes, n - 1);
        lemma_property_written(content, nodes, table, name, n - 1);
    }
}

/// Whether the version that an entry states, where it states one, stands where it is said
/// to stand.
spec fn literal_written(content: Seq<char>, entry: PomEntryView) -> bool {
    entry.version matches PomVersionView::Literal(text) ==> text_written(content, text)
}

proof fn lemma_entries_written(
    content: Seq<char>,
    nodes: Seq<XmlView>,
    table: Option<int>,
    list: int,
    n: int,
)
    requires
        byte_len(content) <= usize::MAX,
        nodes_stand(content, nodes),
    ensures
        forall|i: int|
            0 <= i < entries_before(content, nodes, table, list, n).len() ==> literal_written(
                content,
                #[trigger] entries_before(content, nodes, table, list, n)[i],
            ),
    decreases n,
{
    if n > 0 {
        lemma_entries_written(content, nodes, table, list, n - 1);
        if let Some(c) = child_named(nodes, Some(n - 1), "version") {
            lemma_text_written(content, nodes, c);
        }
        let front = entries_before(content, nodes, table, list, n - 1);
        let now = entries_before(content, nodes, table, list, n);
        if let Some(e) = entry_at(content, nodes, table, n - 1) {
            assert(literal_written(content, e)) by {
                let text = child_text(content, nodes, Some(n - 1), "version");
                assert(e.version == version_of(content, nodes, table, text));
            }
        }
        assert forall|i: int| 0 <= i < now.len() implies literal_written(
            content,
            #[trigger] now[i],
        ) by {
            if i < front.len() {
                assert(now[i] == front[i]);
            }
        }
    }
}

proof fn lemma_pom_written(content: Seq<char>, nodes: Seq<XmlView>)
    requires
        byte_len(content) <= usize::MAX,
        nodes_stand(content, nodes),
    ensures
        positioned_written(content, pom_items(content, starts_of(content), nodes)),
{
    let entries = entries_in(content, nodes);
    let starts = starts_of(content);
    let items = pom_items(content, starts, nodes);
    if let Some(list) = child_named(nodes, root_element(nodes), "dependencies") {
        lemma_entries_written(content, nodes, table_of(nodes), list, nodes.len() as int);
    }
    assert forall|i: int| 0 <= i < items.len() && (#[trigger] items[i]).positioned() implies
        is_written(content, items[i]) by {
        let entry = entries[i];
        assert(items[i] == pom_item(content, starts, nodes, entries, entry));
        assert(literal_written(content, entry));
        if let PomVersionView::Property(name) = entry.version {
            if let Some(t) = table_of(nodes) {
                lemma_property_written(content, nodes, t, name, nodes.len() as int);
            }
        }
    }
}

impl Parser for PomXmlParser {
    open spec fn reads(&self, content: Seq<char>) -> Reading {
        match xml_document(content) {
            Ok(nodes) => Reading::Read(
                items_only(ManifestKind::PomXml, pom_items(content, starts_of(content), nodes)),
            ),
            Err(e) => Reading::Malformed(e),
        }
    }

    open spec fn plain(&self, content: Seq<char>) -> Seq<bool> {
        match xml_document(content) {
            Ok(nodes) => all_plain(pom_items(content, starts_of(content), nodes)),
            Err(_) => seq![],
        }
    }

    fn parse(&self, content: &str) -> (r: Result<ParsedManifest, ParseError>) {
        match parse_nodes(content) {
            Ok(nodes) => {
                let total: usize = str_bytes(content);
                proof {
                    let views = node_views(nodes@);
                    lemma_pom_written(content@, views);
                    lemma_all_told(content@, pom_items(content@, starts_of(content@), views));
                }
                let starts = line_starts(content);
                let items = items_from(content, &nodes, starts.as_slice());
                Ok(ParsedManifest::of_items(ManifestKind::PomXml, items))
            },
            Err(e) => Err(ParseError::Malformed(e)),
        }
    }
}

/// Every dependency with a coordinate is reported, one item each and in order, whether or
/// not its version is known.
pub proof fn law_every_entry_reported(doc: Seq<char>, starts: Seq<usize>, nodes: Seq<XmlView>)
    ensures
        pom_items(doc, starts, nodes).len() == entries_in(doc, nodes).len(),
        forall|i: int|
            0 <= i < entries_in(doc, nodes).len() ==> (#[trigger] pom_items(doc, starts, nodes)[i]).name
                == entries_in(doc, nodes)[i].name,
{
}

/// A property that several dependencies share gives each of them its version and none of
/// them a place to rewrite.
pub proof fn law_shared_property_not_rewritable(
    doc: Seq<char>,
    starts: Seq<usize>,
    nodes: Seq<XmlView>,
    entries: Seq<PomEntryView>,
    entry: PomEntryView,
)
    requires
        entry.version matches PomVersionView::Property(name) && uses_of(entries, name) != 1
            && property_of(doc, nodes, table_of(nodes), name) is Some,
    ensures
        ({
            let item = pom_item(doc, starts, nodes, entries, entry);
            &&& !item.rewritable()
            &&& item.version_constraint == property_of(
                doc, nodes,
                table_of(nodes),
                entry.version->Property_0,
            )->0.value
        }),
{
}

/// A chain of properties ends at one that states a literal.
pub proof fn law_terminal_states_literal(
    doc: Seq<char>,
    nodes: Seq<XmlView>,
    table: Option<int>,
    name: Seq<char>,
    hops: nat,
)
    ensures
        terminal_of(doc, nodes, table, name, hops) matches Some(end) ==> property_of(
            doc, nodes,
            table,
            end,
        ) matches Some(t) && !has_any(t.value, Class::Is('$')),
    decreases hops,
{
    if hops > 0 {
        if let Some(text) = property_of(doc, nodes, table, name) {
            if let Some(next) = interpolation_of(text.value) {
                law_terminal_states_literal(doc, nodes, table, next, (hops - 1) as nat);
            }
        }
    }
}

/// A chain of properties that comes back to where it began ends nowhere.
pub proof fn law_property_cycle_ends_nowhere(
    doc: Seq<char>,
    nodes: Seq<XmlView>,
    table: Option<int>,
    a: Seq<char>,
    b: Seq<char>,
    hops: nat,
)
    requires
        property_of(doc, nodes, table, a) matches Some(t) && interpolation_of(t.value) == Some(b),
        property_of(doc, nodes, table, b) matches Some(t) && interpolation_of(t.value) == Some(a),
    ensures
        terminal_of(doc, nodes, table, a, hops) is None,
    decreases hops,
{
    if hops > 0 {
        law_property_cycle_ends_nowhere(doc, nodes, table, b, a, (hops - 1) as nat);
    }
}

} // verus!
