//! Reader of a Gradle version catalog (`gradle/libs.versions.toml`).
//!
//! A catalog is the one part of a Gradle build that is data rather than program: it
//! is TOML with explicit version literals, so it reads without executing anything
//! and every version has a byte span to rewrite.
//!
//! Only `[versions]` and `[libraries]` are read. `[bundles]` names groups of
//! libraries already declared here, and `[plugins]` resolves against the Gradle
//! Plugin Portal rather than a Maven repository.
//!
//! A `[libraries]` entry is reported as a [`DependencyKind::Normal`] dependency and
//! not as a central [`DependencyKind::Workspace`] declaration: the build scripts that
//! opt into it cannot be read, so treating it as a declaration nothing has been shown to
//! depend on would report every Gradle project as depending on nothing at all.
//!
//! # `version.ref`
//!
//! A library may name a version instead of stating one. It resolves **within this file**.
//! A library that is the **only** user of its alias also carries the span of the
//! `[versions]` literal. An alias shared by several libraries carries no span on any of
//! them: one line cannot be rewritten to two different versions. Such a library is
//! [`PackageSource::Inherited`]: checked, never written to.
use super::place::{
    add_item, bare_item, item_between, make_bare, make_between, offset_plus, opt_item, plus, minus,
    with_item,
};
use super::position::{is_starts, line_starts, starts_of};
use super::spans::{
    is_written, lemma_get_stands, lemma_quoted, lemma_quoted_part, lemma_told_with, plain_at,
    plain_strings, told, with_note,
};
use super::{Parser, Reading};
use crate::error::ParseError;
use crate::item::{item_views, DependencyKind, Item, ItemView, PackageSource};
use crate::manifest::{items_only, ManifestKind, ParsedManifest};
use crate::split::text3;
use crate::text::{
    any, chars_of, cut_last, has_any, last, lemma_last, opt_string, rsplit_once, str_eq, string_of, Class,
};
use crate::toml::{
    entries_of, get_in, lemma_tree_of, literal_at, literals_stand, node_in, opt_tree,
    parse_document, text_at, text_in, toml_document, TomlNode, TomlTree,
};
use crate::width::{byte_len, lemma_byte_len_bounds, lemma_offset_grows, str_bytes};
use vstd::prelude::*;

verus! {

/// Parses `gradle/libs.versions.toml`.
pub struct GradleCatalogParser;

/// A version literal and where it is written, before it is known whether the
/// library that uses it may rewrite it.
pub struct Located {
    /// The literal.
    pub value: String,
    /// Where it begins.
    pub from: usize,
    /// Where it ends.
    pub to: usize,
}

/// What a [`Located`] says.
pub ghost struct LocatedView {
    /// The literal.
    pub value: Seq<char>,
    /// Where it begins.
    pub from: usize,
    /// Where it ends.
    pub to: usize,
}

impl View for Located {
    type V = LocatedView;

    open spec fn view(&self) -> LocatedView {
        LocatedView { value: self.value@, from: self.from, to: self.to }
    }
}

/// What an optional literal says.
pub open spec fn opt_located(o: Option<Located>) -> Option<LocatedView> {
    match o {
        Some(l) => Some(l@),
        None => None,
    }
}

/// One library entry, read but not yet resolved.
pub struct Declared {
    /// The Maven coordinate, `groupId:artifactId`.
    pub name: String,
    /// The version stated here, with its own span.
    pub version: Option<Located>,
    /// The `[versions]` alias this entry defers to.
    pub reference: Option<String>,
}

/// What a [`Declared`] says.
pub ghost struct DeclaredView {
    /// The coordinate.
    pub name: Seq<char>,
    /// The version stated.
    pub version: Option<LocatedView>,
    /// The alias.
    pub reference: Option<Seq<char>>,
}

impl View for Declared {
    type V = DeclaredView;

    open spec fn view(&self) -> DeclaredView {
        DeclaredView {
            name: self.name@,
            version: opt_located(self.version),
            reference: opt_string(self.reference),
        }
    }
}

/// What a list of entries says.
pub open spec fn declared_views(v: Seq<Declared>) -> Seq<DeclaredView> {
    v.map_values(|d: Declared| d@)
}

/// The string of an item and where it is written, the quotes left out.
pub open spec fn plain_literal(tree: Option<TomlTree>) -> Option<LocatedView> {
    match tree {
        Some(TomlTree::Text { value, span: Some(at) }) => Some(
            LocatedView { value, from: plus(at.0, 1), to: minus(at.1, 1) },
        ),
        _ => None,
    }
}

/// Whether an item is a string.
pub open spec fn is_text(tree: Option<TomlTree>) -> bool {
    tree matches Some(t) && t is Text
}

/// The version string an entry states, whether written plainly or as one of
/// Gradle's rich-version keys.
///
/// `prefer` is read last: where a rich version carries both, `strictly`/`require`
/// is the bound that actually holds and `prefer` only picks within it.
pub open spec fn literal_of(tree: Option<TomlTree>) -> Option<LocatedView> {
    if is_text(tree) {
        plain_literal(tree)
    } else if is_text(get_in(tree, "strictly"@)) {
        plain_literal(get_in(tree, "strictly"@))
    } else if is_text(get_in(tree, "require"@)) {
        plain_literal(get_in(tree, "require"@))
    } else {
        plain_literal(get_in(tree, "prefer"@))
    }
}

/// `groupId:artifactId` from `module`, else from the `group`/`name` pair.
pub open spec fn coordinate_of(tree: TomlTree) -> Option<Seq<char>> {
    match text_in(tree.get("module"@)) {
        Some(module) => if module.len() > 0 {
            Some(module)
        } else {
            None
        },
        None => match (text_in(tree.get("group"@)), text_in(tree.get("name"@))) {
            (Some(group), Some(name)) => Some(group + ":"@ + name),
            _ => None,
        },
    }
}

/// The `"group:artifact:version"` shorthand, whose version span is an offset into
/// the quoted string.
pub open spec fn shorthand_of(text: Seq<char>, span: Option<(usize, usize)>) -> Option<
    DeclaredView,
> {
    match (cut_last(text, Class::Is(':')), span) {
        (Some((name, version)), Some(at)) => if !has_any(name, Class::Is(':')) || version.len()
            == 0 {
            None
        } else {
            // The opening quote, the coordinate, and the colon.
            let start = plus(plus(plus(at.0, 1), byte_len(name) as usize), 1);
            Some(
                DeclaredView {
                    name,
                    version: Some(
                        LocatedView {
                            value: version,
                            from: start,
                            to: plus(start, byte_len(version) as usize),
                        },
                    ),
                    reference: None,
                },
            )
        },
        _ => None,
    }
}

/// One entry of `[libraries]`.
pub open spec fn library_of(tree: TomlTree) -> Option<DeclaredView> {
    match tree {
        TomlTree::Text { value, span } => shorthand_of(value, span),
        _ => match coordinate_of(tree) {
            Some(name) => Some(
                DeclaredView {
                    name,
                    version: literal_of(tree.get("version"@)),
                    reference: text_in(get_in(tree.get("version"@), "ref"@)),
                },
            ),
            None => None,
        },
    }
}

/// The entries of `[libraries]`, in source order.
pub open spec fn libraries_of(entries: Seq<(Seq<char>, TomlTree)>) -> Seq<DeclaredView>
    decreases entries.len(),
{
    if entries.len() == 0 {
        seq![]
    } else {
        let front = libraries_of(entries.drop_last());
        match library_of(entries.last().1) {
            Some(d) => front.push(d),
            None => front,
        }
    }
}

/// The last literal that `[versions]` has under an alias.
pub open spec fn version_named(
    entries: Seq<(Seq<char>, TomlTree)>,
    alias: Seq<char>,
) -> Option<LocatedView>
    decreases entries.len(),
{
    if entries.len() == 0 {
        None
    } else if entries.last().0 == alias && literal_of(Some(entries.last().1)) is Some {
        literal_of(Some(entries.last().1))
    } else {
        version_named(entries.drop_last(), alias)
    }
}

/// How many entries defer to an alias.
pub open spec fn uses_of(declared: Seq<DeclaredView>, alias: Seq<char>) -> int
    decreases declared.len(),
{
    if declared.len() == 0 {
        0
    } else {
        uses_of(declared.drop_last(), alias) + if declared.last().reference == Some(alias) {
            1int
        } else {
            0
        }
    }
}

/// An item pointing at the version literal that governs it, wherever in this file
/// that literal is written.
pub open spec fn positioned_item(
    starts: Seq<usize>,
    name: Seq<char>,
    version: LocatedView,
) -> ItemView {
    item_between(
        starts,
        name,
        version.value,
        PackageSource::Registry,
        DependencyKind::Normal,
        version.from,
        version.to,
    )
}

/// The item of an entry, resolved against `[versions]` and the other entries.
pub open spec fn resolved_item(
    starts: Seq<usize>,
    versions: Seq<(Seq<char>, TomlTree)>,
    declared: Seq<DeclaredView>,
    entry: DeclaredView,
) -> Option<ItemView> {
    match (entry.version, entry.reference) {
        (Some(version), _) => Some(positioned_item(starts, entry.name, version)),
        // A version supplied by a platform rather than by the catalog.
        (None, None) => None,
        (None, Some(alias)) => match version_named(versions, alias) {
            // The alias names nothing.
            None => None,
            Some(target) => if uses_of(declared, alias) == 1 {
                Some(positioned_item(starts, entry.name, target))
            } else {
                Some(
                    ItemView {
                        version_constraint: target.value,
                        ..bare_item(entry.name, PackageSource::Inherited, DependencyKind::Normal)
                    },
                )
            },
        },
    }
}

/// The items of some entries, in order.
pub open spec fn resolved_items(
    starts: Seq<usize>,
    versions: Seq<(Seq<char>, TomlTree)>,
    declared: Seq<DeclaredView>,
    some: Seq<DeclaredView>,
) -> Seq<ItemView>
    decreases some.len(),
{
    if some.len() == 0 {
        seq![]
    } else {
        with_item(
            resolved_items(starts, versions, declared, some.drop_last()),
            resolved_item(starts, versions, declared, some.last()),
        )
    }
}

/// The entries of a table under a key.
pub open spec fn entries_under(root: TomlTree, key: Seq<char>) -> Seq<(Seq<char>, TomlTree)> {
    match root.get(key) {
        Some(t) => t.entries(),
        None => seq![],
    }
}

/// What a catalog declares.
pub open spec fn catalog_items(root: TomlTree, starts: Seq<usize>) -> Seq<ItemView> {
    let declared = libraries_of(entries_under(root, "libraries"@));
    resolved_items(starts, entries_under(root, "versions"@), declared, declared)
}

/// The string of an item and where it is written.
fn read_literal(node: Option<&TomlNode>) -> (r: Option<Located>)
    ensures
        opt_located(r) == plain_literal(opt_tree(node)),
{
    match node {
        Some(n) => {
            proof {
                lemma_tree_of(*n);
            }
            match n {
                TomlNode::Text { value, span: Some(at) } => {
                    let to: usize = if at.1 > 0 {
                        at.1 - 1
                    } else {
                        0
                    };
                    Some(Located { value: value.clone(), from: offset_plus(at.0, 1), to })
                },
                _ => None,
            }
        },
        None => None,
    }
}

/// Whether an item is a string.
fn states_text(node: Option<&TomlNode>) -> (r: bool)
    ensures
        r == is_text(opt_tree(node)),
{
    match node {
        Some(n) => n.text().is_some(),
        None => false,
    }
}

/// The version string an entry states.
fn version_literal(node: Option<&TomlNode>) -> (r: Option<Located>)
    ensures
        opt_located(r) == literal_of(opt_tree(node)),
{
    if states_text(node) {
        read_literal(node)
    } else if states_text(node_in(node, "strictly")) {
        read_literal(node_in(node, "strictly"))
    } else if states_text(node_in(node, "require")) {
        read_literal(node_in(node, "require"))
    } else {
        read_literal(node_in(node, "prefer"))
    }
}

/// `groupId:artifactId` from `module`, else from the `group`/`name` pair.
fn coordinate(node: &TomlNode) -> (r: Option<String>)
    ensures
        opt_string(r) == coordinate_of(node@),
{
    if let Some(module) = text_at(node.get("module")) {
        return if module.as_str().is_empty() {
            None
        } else {
            Some(module)
        };
    }
    let group = text_at(node.get("group"));
    let name = text_at(node.get("name"));
    match (group, name) {
        (Some(g), Some(n)) => Some(text3(g.as_str(), ":", n.as_str())),
        _ => None,
    }
}

/// What an optional entry says.
pub open spec fn opt_declared(o: Option<Declared>) -> Option<DeclaredView> {
    match o {
        Some(d) => Some(d@),
        None => None,
    }
}

/// Read the `"group:artifact:version"` shorthand.
fn shorthand(text: &str, span: Option<(usize, usize)>) -> (r: Option<Declared>)
    ensures
        opt_declared(r) == shorthand_of(text@, span),
{
    let chars = chars_of(text);
    match (rsplit_once(chars.as_slice(), Class::Is(':')), span) {
        (Some((name, version)), Some(at)) => {
            if !any(name, Class::Is(':')) || version.len() == 0 {
                return None;
            }
            let coordinate = string_of(name);
            let literal = string_of(version);
            let start: usize = offset_plus(
                offset_plus(offset_plus(at.0, 1), str_bytes(coordinate.as_str())),
                1,
            );
            let to: usize = offset_plus(start, str_bytes(literal.as_str()));
            Some(
                Declared {
                    name: coordinate,
                    version: Some(Located { value: literal, from: start, to }),
                    reference: None,
                },
            )
        },
        _ => None,
    }
}

/// Read one entry of `[libraries]`.
fn read_library(node: &TomlNode) -> (r: Option<Declared>)
    ensures
        opt_declared(r) == library_of(node@),
{
    proof {
        lemma_tree_of(*node);
    }
    match node {
        // The shorthand: `commons = "org.apache.commons:commons-lang3:3.14.0"`.
        TomlNode::Text { value, span } => shorthand(value.as_str(), *span),
        _ => match coordinate(node) {
            Some(name) => {
                let version = node.get("version");
                Some(
                    Declared {
                        name,
                        version: version_literal(version),
                        reference: text_at(node_in(version, "ref")),
                    },
                )
            },
            None => None,
        },
    }
}

/// Read `[libraries]` into one record per entry, in source order.
fn read_libraries(root: &TomlNode) -> (r: Vec<Declared>)
    ensures
        declared_views(r@) == libraries_of(entries_under(root@, "libraries"@)),
{
    let mut out: Vec<Declared> = Vec::new();
    if let Some(node) = root.get("libraries") {
        if let Some(v) = node.entries() {
            let ghost all = entries_of(v@);
            let mut i: usize = 0;
            assert(declared_views(out@) =~= libraries_of(all.take(0)));
            while i < v.len()
                invariant
                    i <= v.len(),
                    all == entries_of(v@),
                    declared_views(out@) == libraries_of(all.take(i as int)),
                decreases v.len() - i,
            {
                proof {
                    assert(all.take(i + 1).drop_last() =~= all.take(i as int));
                    assert(all.take(i + 1).last() == (v@[i as int].0@, v@[i as int].1@));
                }
                if let Some(d) = read_library(&v[i].1) {
                    let ghost before = declared_views(out@);
                    out.push(d);
                    assert(declared_views(out@) =~= before.push(d@));
                }
                i = i + 1;
            }
            assert(all.take(i as int) =~= all);
            return out;
        }
    }
    assert(declared_views(out@) =~= seq![]);
    out
}

/// The literal that `[versions]` has under an alias.
fn find_version(root: &TomlNode, alias: &str) -> (r: Option<Located>)
    ensures
        opt_located(r) == version_named(entries_under(root@, "versions"@), alias@),
{
    if let Some(node) = root.get("versions") {
        if let Some(v) = node.entries() {
            let ghost all = entries_of(v@);
            assert(all == entries_under(root@, "versions"@));
            let mut i: usize = v.len();
            assert(all.take(i as int) =~= all);
            while i > 0
                invariant
                    i <= v.len(),
                    all == entries_of(v@),
                    all == entries_under(root@, "versions"@),
                    version_named(all, alias@) == version_named(all.take(i as int), alias@),
                decreases i,
            {
                proof {
                    assert(all.take(i as int).drop_last() =~= all.take(i - 1));
                    assert(all.take(i as int).last() == (v@[i - 1].0@, v@[i - 1].1@));
                }
                if str_eq(v[i - 1].0.as_str(), alias) {
                    let found = version_literal(Some(&v[i - 1].1));
                    if found.is_some() {
                        return found;
                    }
                }
                i = i - 1;
            }
        }
    }
    None
}

/// How many entries defer to an alias.
fn count_uses(declared: &Vec<Declared>, alias: &str) -> (r: usize)
    ensures
        r == uses_of(declared_views(declared@), alias@),
{
    let ghost all = declared_views(declared@);
    let mut n: usize = 0;
    let mut i: usize = 0;
    while i < declared.len()
        invariant
            i <= declared.len(),
            n <= i,
            all == declared_views(declared@),
            n == uses_of(all.take(i as int), alias@),
        decreases declared.len() - i,
    {
        proof {
            assert(all.take(i + 1).drop_last() =~= all.take(i as int));
            assert(all.take(i + 1).last() == declared@[i as int]@);
        }
        if let Some(a) = &declared[i].reference {
            if str_eq(a.as_str(), alias) {
                n = n + 1;
            }
        }
        i = i + 1;
    }
    assert(all.take(i as int) =~= all);
    n
}

/// An item pointing at the version literal that governs it.
fn positioned(name: &String, version: &Located, starts: &[usize]) -> (r: Item)
    requires
        is_starts(starts@),
    ensures
        r@ == positioned_item(starts@, name@, version@),
{
    make_between(
        starts,
        name.clone(),
        version.value.clone(),
        PackageSource::Registry,
        DependencyKind::Normal,
        version.from,
        version.to,
    )
}

/// Resolve an entry.
fn resolve(
    root: &TomlNode,
    declared: &Vec<Declared>,
    entry: &Declared,
    starts: &[usize],
) -> (r: Option<Item>)
    requires
        is_starts(starts@),
    ensures
        opt_item(r) == resolved_item(
            starts@,
            entries_under(root@, "versions"@),
            declared_views(declared@),
            entry@,
        ),
{
    match (&entry.version, &entry.reference) {
        (Some(version), _) => Some(positioned(&entry.name, version, starts)),
        (None, None) => None,
        (None, Some(alias)) => match find_version(root, alias.as_str()) {
            None => None,
            Some(target) => {
                // An alias used by exactly one library is that library's own line.
                if count_uses(declared, alias.as_str()) == 1 {
                    Some(positioned(&entry.name, &target, starts))
                } else {
                    let mut item = make_bare(
                        entry.name.clone(),
                        PackageSource::Inherited,
                        DependencyKind::Normal,
                    );
                    item.version_constraint = target.value;
                    Some(item)
                }
            },
        },
    }
}

/// The items of a parsed catalog.
pub fn items_from(root: &TomlNode, starts: &[usize]) -> (r: Vec<Item>)
    requires
        is_starts(starts@),
    ensures
        item_views(r@) == catalog_items(root@, starts@),
{
    let declared = read_libraries(root);
    let ghost all = declared_views(declared@);
    let ghost versions = entries_under(root@, "versions"@);
    let mut items: Vec<Item> = Vec::new();
    let mut i: usize = 0;
    assert(item_views(items@) =~= resolved_items(starts@, versions, all, all.take(0)));
    while i < declared.len()
        invariant
            i <= declared.len(),
            is_starts(starts@),
            all == declared_views(declared@),
            versions == entries_under(root@, "versions"@),
            item_views(items@) == resolved_items(starts@, versions, all, all.take(i as int)),
        decreases declared.len() - i,
    {
        proof {
            assert(all.take(i + 1).drop_last() =~= all.take(i as int));
            assert(all.take(i + 1).last() == declared@[i as int]@);
        }
        let item = resolve(root, &declared, &declared[i], starts);
        add_item(&mut items, item);
        i = i + 1;
    }
    assert(all.take(i as int) =~= all);
    items
}

/// Whether a literal is where it says it is, whichever library uses it.
pub open spec fn is_placed(content: Seq<char>, l: LocatedView) -> bool {
    forall|name: Seq<char>|
        is_written(content, #[trigger] positioned_item(starts_of(content), name, l))
}

proof fn lemma_plain_placed(content: Seq<char>, tree: Option<TomlTree>)
    requires
        byte_len(content) <= usize::MAX,
        tree matches Some(t) ==> literals_stand(content, t) && plain_strings(content, t),
    ensures
        plain_literal(tree) matches Some(l) ==> is_placed(content, l),
{
    if let Some(TomlTree::Text { value, span: Some(at) }) = tree {
        let l = plain_literal(tree)->0;
        assert forall|name: Seq<char>|
            is_written(content, #[trigger] positioned_item(starts_of(content), name, l)) by {
            lemma_quoted(
                content,
                name,
                value,
                PackageSource::Registry,
                DependencyKind::Normal,
                at,
            );
        }
    }
}

proof fn lemma_literal_placed(content: Seq<char>, tree: Option<TomlTree>)
    requires
        byte_len(content) <= usize::MAX,
        tree matches Some(t) ==> literals_stand(content, t) && plain_strings(content, t),
    ensures
        literal_of(tree) matches Some(l) ==> is_placed(content, l),
{
    lemma_plain_placed(content, tree);
    if let Some(t) = tree {
        lemma_get_stands(content, t, "strictly"@);
        lemma_get_stands(content, t, "require"@);
        lemma_get_stands(content, t, "prefer"@);
        lemma_plain_placed(content, t.get("strictly"@));
        lemma_plain_placed(content, t.get("require"@));
        lemma_plain_placed(content, t.get("prefer"@));
    }
}

proof fn lemma_shorthand_placed(content: Seq<char>, value: Seq<char>, at: (usize, usize))
    requires
        byte_len(content) <= usize::MAX,
        exists|a: int, b: int| literal_at(content, value, at, a, b),
        plain_at(content, at),
    ensures
        shorthand_of(value, Some(at)) matches Some(d) ==> is_placed(content, d.version->0),
{
    if let Some(d) = shorthand_of(value, Some(at)) {
        let k = last(value, Class::Is(':'));
        lemma_last(value, Class::Is(':'));
        let l = d.version->0;
        let n = value.len() as int;
        assert(value.subrange(k + 1, n) =~= l.value);
        assert(value.take(k + 1).drop_last() =~= value.take(k));
        assert(value.take(k + 1).last() == ':');
        lemma_byte_len_bounds(value.take(k));
        let (a, b) = choose|a: int, b: int| literal_at(content, value, at, a, b);
        assert(content.subrange(a + 1, b - 1) == value);
        lemma_offset_grows(content, a + 1, a + 2 + k);
        assert(content.subrange(a + 1, a + 2 + k) =~= value.take(k + 1));
        lemma_offset_grows(content, a, a + 1);
        lemma_offset_grows(content, a + 2 + k, content.len() as int);
        assert forall|name: Seq<char>|
            is_written(content, #[trigger] positioned_item(starts_of(content), name, l)) by {
            lemma_quoted_part(
                content,
                name,
                value,
                PackageSource::Registry,
                DependencyKind::Normal,
                at,
                k + 1,
                n,
            );
        }
    }
}

proof fn lemma_library_placed(content: Seq<char>, tree: TomlTree)
    requires
        byte_len(content) <= usize::MAX,
        literals_stand(content, tree),
        plain_strings(content, tree),
    ensures
        library_of(tree) matches Some(d) ==> (d.version matches Some(l) ==> is_placed(content, l)),
{
    match tree {
        TomlTree::Text { value, span: Some(at) } => {
            lemma_shorthand_placed(content, value, at);
        },
        TomlTree::Text { .. } => {},
        _ => {
            lemma_get_stands(content, tree, "version"@);
            lemma_literal_placed(content, tree.get("version"@));
        },
    }
}

/// Which of the entries of `[libraries]` are written plainly.
pub open spec fn libraries_plain(
    content: Seq<char>,
    entries: Seq<(Seq<char>, TomlTree)>,
) -> Seq<bool>
    decreases entries.len(),
{
    if entries.len() == 0 {
        seq![]
    } else {
        let front = libraries_plain(content, entries.drop_last());
        match library_of(entries.last().1) {
            Some(_) => front.push(plain_strings(content, entries.last().1)),
            None => front,
        }
    }
}

/// Whether the literal that `[versions]` has under an alias is written plainly.
pub open spec fn version_plain(
    content: Seq<char>,
    entries: Seq<(Seq<char>, TomlTree)>,
    alias: Seq<char>,
) -> bool
    decreases entries.len(),
{
    if entries.len() == 0 {
        false
    } else if entries.last().0 == alias && literal_of(Some(entries.last().1)) is Some {
        plain_strings(content, entries.last().1)
    } else {
        version_plain(content, entries.drop_last(), alias)
    }
}

/// Whether the version of an entry is written plainly: where it is stated, that of the
/// entry itself, and where it is deferred, that of the alias.
pub open spec fn entry_plain(
    content: Seq<char>,
    versions: Seq<(Seq<char>, TomlTree)>,
    entry: DeclaredView,
    plain: bool,
) -> bool {
    match (entry.version, entry.reference) {
        (Some(_), _) => plain,
        (None, Some(alias)) => version_plain(content, versions, alias),
        (None, None) => false,
    }
}

/// Which of the items of some entries are written plainly.
pub open spec fn resolved_plain(
    content: Seq<char>,
    versions: Seq<(Seq<char>, TomlTree)>,
    declared: Seq<DeclaredView>,
    some: Seq<DeclaredView>,
    plain: Seq<bool>,
) -> Seq<bool>
    decreases some.len(),
{
    if some.len() == 0 {
        seq![]
    } else {
        with_note(
            resolved_plain(content, versions, declared, some.drop_last(), plain.drop_last()),
            resolved_item(starts_of(content), versions, declared, some.last()),
            entry_plain(content, versions, some.last(), plain.last()),
        )
    }
}

/// Which of the items of a catalog are written plainly.
pub open spec fn catalog_plain(content: Seq<char>, root: TomlTree) -> Seq<bool> {
    let libraries = entries_under(root, "libraries"@);
    let declared = libraries_of(libraries);
    resolved_plain(
        content,
        entries_under(root, "versions"@),
        declared,
        declared,
        libraries_plain(content, libraries),
    )
}

/// Whether the versions that entries state are where they say they are, as far as they
/// are written plainly.
spec fn stated_placed(content: Seq<char>, declared: Seq<DeclaredView>, plain: Seq<bool>) -> bool {
    &&& plain.len() == declared.len()
    &&& forall|i: int|
        0 <= i < declared.len() && plain[i] ==> ((#[trigger] declared[i]).version matches Some(l)
            ==> is_placed(content, l))
}

proof fn lemma_libraries_placed(content: Seq<char>, e: Seq<(Seq<char>, TomlTree)>)
    requires
        byte_len(content) <= usize::MAX,
        forall|i: int| 0 <= i < e.len() ==> literals_stand(content, (#[trigger] e[i]).1),
    ensures
        stated_placed(content, libraries_of(e), libraries_plain(content, e)),
    decreases e.len(),
{
    if e.len() > 0 {
        let front = e.drop_last();
        assert forall|i: int| 0 <= i < front.len() implies literals_stand(
            content,
            (#[trigger] front[i]).1,
        ) by {
            assert(front[i] == e[i]);
        }
        lemma_libraries_placed(content, front);
        assert(e.last() == e[e.len() - 1]);
        if plain_strings(content, e.last().1) {
            lemma_library_placed(content, e.last().1);
        }
    }
}

proof fn lemma_version_placed(content: Seq<char>, e: Seq<(Seq<char>, TomlTree)>, alias: Seq<char>)
    requires
        byte_len(content) <= usize::MAX,
        forall|i: int| 0 <= i < e.len() ==> literals_stand(content, (#[trigger] e[i]).1),
        version_plain(content, e, alias),
    ensures
        version_named(e, alias) matches Some(l) ==> is_placed(content, l),
    decreases e.len(),
{
    if e.len() > 0 {
        let front = e.drop_last();
        assert forall|i: int| 0 <= i < front.len() implies literals_stand(
            content,
            (#[trigger] front[i]).1,
        ) by {
            assert(front[i] == e[i]);
        }
        assert(e.last() == e[e.len() - 1]);
        if e.last().0 == alias && literal_of(Some(e.last().1)) is Some {
            lemma_literal_placed(content, Some(e.last().1));
        } else {
            lemma_version_placed(content, front, alias);
        }
    }
}

proof fn lemma_resolved_told(
    content: Seq<char>,
    versions: Seq<(Seq<char>, TomlTree)>,
    declared: Seq<DeclaredView>,
    some: Seq<DeclaredView>,
    plain: Seq<bool>,
)
    requires
        byte_len(content) <= usize::MAX,
        forall|i: int|
            0 <= i < versions.len() ==> literals_stand(content, (#[trigger] versions[i]).1),
        stated_placed(content, some, plain),
    ensures
        told(
            content,
            resolved_items(starts_of(content), versions, declared, some),
            resolved_plain(content, versions, declared, some, plain),
        ),
    decreases some.len(),
{
    if some.len() > 0 {
        let front = some.drop_last();
        let before = plain.drop_last();
        assert(stated_placed(content, front, before)) by {
            assert forall|i: int| 0 <= i < front.len() && before[i] implies ((
            #[trigger] front[i]).version matches Some(l) ==> is_placed(content, l)) by {
                assert(front[i] == some[i]);
                assert(before[i] == plain[i]);
            }
        }
        lemma_resolved_told(content, versions, declared, front, before);
        let entry = some.last();
        let note = entry_plain(content, versions, entry, plain.last());
        assert(entry == some[some.len() - 1]);
        assert(plain.last() == plain[plain.len() - 1]);
        if note {
            if let Some(alias) = entry.reference {
                if entry.version is None {
                    lemma_version_placed(content, versions, alias);
                }
            }
        }
        lemma_told_with(
            content,
            resolved_items(starts_of(content), versions, declared, front),
            resolved_plain(content, versions, declared, front, before),
            resolved_item(starts_of(content), versions, declared, entry),
            note,
        );
    }
}

proof fn lemma_catalog_told(content: Seq<char>, root: TomlTree)
    requires
        byte_len(content) <= usize::MAX,
        literals_stand(content, root),
    ensures
        told(content, catalog_items(root, starts_of(content)), catalog_plain(content, root)),
{
    lemma_get_stands(content, root, "versions"@);
    lemma_get_stands(content, root, "libraries"@);
    let libraries = entries_under(root, "libraries"@);
    let versions = entries_under(root, "versions"@);
    assert forall|i: int| 0 <= i < libraries.len() implies literals_stand(
        content,
        (#[trigger] libraries[i]).1,
    ) by {}
    assert forall|i: int| 0 <= i < versions.len() implies literals_stand(
        content,
        (#[trigger] versions[i]).1,
    ) by {}
    lemma_libraries_placed(content, libraries);
    let declared = libraries_of(libraries);
    lemma_resolved_told(
        content,
        versions,
        declared,
        declared,
        libraries_plain(content, libraries),
    );
}

impl Parser for GradleCatalogParser {
    open spec fn reads(&self, content: Seq<char>) -> Reading {
        match toml_document(content) {
            Some(root) => Reading::Read(
                items_only(
                    ManifestKind::GradleVersionCatalog,
                    catalog_items(root, starts_of(content)),
                ),
            ),
            None => Reading::NotToml,
        }
    }

    open spec fn plain(&self, content: Seq<char>) -> Seq<bool> {
        match toml_document(content) {
            Some(root) => catalog_plain(content, root),
            None => seq![],
        }
    }

    fn parse(&self, content: &str) -> (r: Result<ParsedManifest, ParseError>) {
        match parse_document(content) {
            Ok(root) => {
                let total: usize = str_bytes(content);
                proof {
                    lemma_catalog_told(content@, root@);
                }
                let starts = line_starts(content);
                let items = items_from(&root, starts.as_slice());
                Ok(ParsedManifest::of_items(ManifestKind::GradleVersionCatalog, items))
            },
            Err(e) => Err(ParseError::Toml(e)),
        }
    }
}

/// An entry that shares its alias with another is never written to: whatever its version
/// is, its item cannot be rewritten.
pub proof fn law_shared_alias_not_rewritable(
    starts: Seq<usize>,
    versions: Seq<(Seq<char>, TomlTree)>,
    declared: Seq<DeclaredView>,
    entry: DeclaredView,
)
    requires
        entry.version is None,
        entry.reference matches Some(alias) && uses_of(declared, alias) != 1,
    ensures
        resolved_item(starts, versions, declared, entry) matches Some(item) ==> {
            &&& !item.rewritable()
            &&& !item.positioned()
            &&& version_named(versions, entry.reference->0) matches Some(l)
                && item.version_constraint == l.value
        },
{
}

} // verus!
