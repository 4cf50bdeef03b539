//! Readers of Cargo workspace topology: the `[workspace]` table, a manifest's own
//! `[package] name`, and the constraints that members inherit.
//!
//! Member globs are returned **raw**: expanding them needs the filesystem.
use crate::item::{copy_option, item_views, DependencyKind, Item, ItemView, PackageSource};
use crate::split::strings;
use crate::table::TextTable;
use crate::text::opt_string;
use crate::toml::{
    entries_of, get_in, node_in, opt_tree, parse_document, string_array, text_at, text_in,
    texts_in, toml_document, TomlNode, TomlTree,
};
use vstd::prelude::*;

verus! {

/// The `[workspace]` table of a Cargo manifest.
#[derive(Debug, Clone, PartialEq, Eq)]
#[non_exhaustive]
pub struct WorkspaceDecl {
    /// `members` globs/paths, exactly as written.
    pub members: Vec<String>,
    /// `default-members` globs/paths, exactly as written.
    pub default_members: Vec<String>,
    /// `exclude` globs/paths, exactly as written.
    pub exclude: Vec<String>,
    /// The scalar string values of `[workspace.package]`, the inheritance source for a
    /// member's `field.workspace = true`.
    ///
    /// Only string-valued keys are captured: `version`, `edition`, `rust-version`,
    /// `license`, and the like.
    pub package_defaults: TextTable<String>,
}

/// What a [`WorkspaceDecl`] says.
pub ghost struct WorkspaceView {
    /// The member patterns.
    pub members: Seq<Seq<char>>,
    /// The default member patterns.
    pub default_members: Seq<Seq<char>>,
    /// The excluded patterns.
    pub exclude: Seq<Seq<char>>,
    /// The package defaults.
    pub package_defaults: Map<Seq<char>, Seq<char>>,
}

/// The texts a table of strings holds.
pub open spec fn text_map(t: TextTable<String>) -> Map<Seq<char>, Seq<char>> {
    t@.map_values(|s: String| s@)
}

impl View for WorkspaceDecl {
    type V = WorkspaceView;

    open spec fn view(&self) -> WorkspaceView {
        WorkspaceView {
            members: strings(self.members@),
            default_members: strings(self.default_members@),
            exclude: strings(self.exclude@),
            package_defaults: text_map(self.package_defaults),
        }
    }
}

impl Default for WorkspaceDecl {
    fn default() -> (r: Self)
        ensures
            r.members@.len() == 0,
            r.default_members@.len() == 0,
            r.exclude@.len() == 0,
            r.package_defaults@ == Map::<Seq<char>, String>::empty(),
    {
        WorkspaceDecl {
            members: Vec::new(),
            default_members: Vec::new(),
            exclude: Vec::new(),
            package_defaults: TextTable::new(),
        }
    }
}

/// The string-valued entries of a table.
pub open spec fn text_entries(entries: Seq<(Seq<char>, TomlTree)>) -> Map<Seq<char>, Seq<char>>
    decreases entries.len(),
{
    if entries.len() == 0 {
        Map::empty()
    } else {
        let front = text_entries(entries.drop_last());
        match entries.last().1.text() {
            Some(s) => front.insert(entries.last().0, s),
            None => front,
        }
    }
}

/// The workspace that a document declares.
pub open spec fn workspace_of(root: TomlTree) -> Option<WorkspaceView> {
    match root.get("workspace"@) {
        Some(ws) => if ws is Table {
            Some(
                WorkspaceView {
                    members: texts_in(ws.get("members"@)),
                    default_members: texts_in(ws.get("default-members"@)),
                    exclude: texts_in(ws.get("exclude"@)),
                    package_defaults: match ws.get("package"@) {
                        Some(t) => text_entries(t.entries()),
                        None => Map::empty(),
                    },
                },
            )
        } else {
            None
        },
        None => None,
    }
}

/// Collect a TOML table's string-valued entries, ignoring every other value type.
fn string_table(node: Option<&TomlNode>) -> (r: TextTable<String>)
    ensures
        text_map(r) == match opt_tree(node) {
            Some(t) => text_entries(t.entries()),
            None => Map::empty(),
        },
{
    let mut out: TextTable<String> = TextTable::new();
    assert(text_map(out) =~= Map::empty());
    if let Some(n) = node {
        if let Some(v) = n.entries() {
            let ghost all = entries_of(v@);
            let mut i: usize = 0;
            assert(all.take(0) =~= seq![]);
            while i < v.len()
                invariant
                    i <= v.len(),
                    all == entries_of(v@),
                    text_map(out) == text_entries(all.take(i as int)),
                decreases v.len() - i,
            {
                proof {
                    assert(all.take(i + 1).drop_last() =~= all.take(i as int));
                    assert(all.take(i + 1).last() == (v@[i as int].0@, v@[i as int].1@));
                }
                if let Some(s) = v[i].1.text() {
                    let ghost before = text_map(out);
                    let value = s.clone();
                    out.insert(v[i].0.clone(), value);
                    assert(text_map(out) =~= before.insert(v@[i as int].0@, s@));
                }
                i = i + 1;
            }
            assert(all.take(i as int) =~= all);
        }
    }
    out
}

/// What an optional declaration says.
pub open spec fn opt_workspace(o: Option<WorkspaceDecl>) -> Option<WorkspaceView> {
    match o {
        Some(w) => Some(w@),
        None => None,
    }
}

/// The workspace that a parsed document declares.
pub fn workspace_from(root: &TomlNode) -> (r: Option<WorkspaceDecl>)
    ensures
        opt_workspace(r) == workspace_of(root@),
{
    match root.get("workspace") {
        Some(ws) => {
            if ws.entries().is_none() {
                return None;
            }
            Some(
                WorkspaceDecl {
                    members: string_array(ws.get("members")),
                    default_members: string_array(ws.get("default-members")),
                    exclude: string_array(ws.get("exclude")),
                    package_defaults: string_table(ws.get("package")),
                },
            )
        },
        None => None,
    }
}

/// Parse the `[workspace]` table from a `Cargo.toml`, or `None` if the manifest
/// declares no workspace.
#[must_use]
pub fn parse_workspace(content: &str) -> (r: Option<WorkspaceDecl>)
    ensures
        opt_workspace(r) == match toml_document(content@) {
            Some(root) => workspace_of(root),
            None => None,
        },
{
    match parse_document(content) {
        Ok(root) => workspace_from(&root),
        Err(_) => None,
    }
}

/// Parse `[package] name` from a `Cargo.toml`, or `None` for a virtual manifest
/// (a workspace root with no `[package]`).
#[must_use]
pub fn parse_package_name(content: &str) -> (r: Option<String>)
    ensures
        opt_string(r) == text_in(get_in(get_in(toml_document(content@), "package"@), "name"@)),
{
    match parse_document(content) {
        Ok(root) => text_at(node_in(root.get("package"), "name")),
        Err(_) => None,
    }
}

/// The first workspace declaration of a name.
pub open spec fn declared(decls: Seq<ItemView>, name: Seq<char>) -> Option<ItemView>
    decreases decls.len(),
{
    if decls.len() == 0 {
        None
    } else if decls[0].kind == DependencyKind::Workspace && decls[0].name == name {
        Some(decls[0])
    } else {
        declared(decls.drop_first(), name)
    }
}

/// Whether a source is one that has no registry version.
pub open spec fn is_elsewhere(source: PackageSource) -> bool {
    source == PackageSource::Local || source == PackageSource::Git
}

/// What an item inherits, where it inherits something: only an entry that says it
/// inherits, and has nothing of its own to say, can; and only from a declaration that
/// has a version, or is a path or git entry.
pub open spec fn inherited(item: ItemView, decls: Seq<ItemView>) -> Option<ItemView> {
    if item.source != PackageSource::Inherited || item.version_constraint.len() > 0 {
        None
    } else {
        match declared(decls, item.name) {
            None => None,
            Some(d) => if d.version_constraint.len() == 0 && !is_elsewhere(d.source) {
                None
            } else {
                Some(
                    ItemView {
                        version_constraint: d.version_constraint,
                        registry: d.registry,
                        source: if is_elsewhere(d.source) {
                            d.source
                        } else {
                            item.source
                        },
                        ..item
                    },
                )
            },
        }
    }
}

/// The items after inheriting.
pub open spec fn after_inheriting(items: Seq<ItemView>, decls: Seq<ItemView>) -> Seq<ItemView> {
    items.map_values(
        |i: ItemView|
            match inherited(i, decls) {
                Some(n) => n,
                None => i,
            },
    )
}

/// The names of the items that inherit something, in order.
pub open spec fn inheriting(items: Seq<ItemView>, decls: Seq<ItemView>) -> Seq<Seq<char>>
    decreases items.len(),
{
    if items.len() == 0 {
        seq![]
    } else {
        let front = inheriting(items.drop_last(), decls);
        if inherited(items.last(), decls) is Some {
            front.push(items.last().name)
        } else {
            front
        }
    }
}

/// The first workspace declaration of a name.
fn find_declared<'a>(decls: &'a [Item], name: &String) -> (r: Option<&'a Item>)
    ensures
        match r {
            Some(d) => declared(item_views(decls@), name@) == Some(d@),
            None => declared(item_views(decls@), name@) is None,
        },
{
    let ghost all = item_views(decls@);
    let mut i: usize = 0;
    assert(all.skip(0) =~= all);
    while i < decls.len()
        invariant
            i <= decls.len(),
            all == item_views(decls@),
            declared(all, name@) == declared(all.skip(i as int), name@),
        decreases decls.len() - i,
    {
        assert(all.skip(i as int)[0] == decls@[i as int]@);
        if decls[i].kind == DependencyKind::Workspace && decls[i].name == *name {
            return Some(&decls[i]);
        }
        assert(all.skip(i as int).drop_first() =~= all.skip(i + 1));
        i = i + 1;
    }
    None
}

/// Fill in the constraints `items` inherit from a workspace root's
/// `[workspace.dependencies]`, returning the names resolved that way in item order.
///
/// `declarations` is simply the root manifest's own parsed items. Only entries with
/// [`DependencyKind::Workspace`] are consulted, so a root that also declares its own
/// `[dependencies]` cannot lend them to its members.
///
/// # Positions are deliberately untouched
/// The version string being adopted lives in a *different file*, so no
/// [`version_line`](Item::version_line) or column in the member manifest is truthful and
/// none is invented. The resolved item keeps [`PackageSource::Inherited`], which is what
/// [`Item::is_rewritable`] reads.
///
/// A root declaration that is itself a `path` or `git` entry hands the member
/// [`PackageSource::Local`] / [`PackageSource::Git`]: the member does inherit, but what it
/// inherits has no registry version to check.
#[must_use]
pub fn resolve_workspace_inheritance(items: &mut Vec<Item>, declarations: &[Item]) -> (r: Vec<
    String,
>)
    ensures
        item_views(final(items)@) == after_inheriting(
            item_views(old(items)@),
            item_views(declarations@),
        ),
        strings(r@) == inheriting(item_views(old(items)@), item_views(declarations@)),
{
    let ghost all = item_views(items@);
    let ghost decls = item_views(declarations@);
    let ghost want = after_inheriting(all, decls);
    let mut resolved: Vec<String> = Vec::new();
    let mut i: usize = 0;
    assert(strings(resolved@) =~= inheriting(all.take(0), decls));
    while i < items.len()
        invariant
            i <= items.len(),
            all.len() == items@.len(),
            decls == item_views(declarations@),
            want == after_inheriting(all, decls),
            forall|j: int| 0 <= j < i ==> (#[trigger] items@[j])@ == want[j],
            forall|j: int| i <= j < items@.len() ==> (#[trigger] items@[j])@ == all[j],
            strings(resolved@) == inheriting(all.take(i as int), decls),
        decreases items.len() - i,
    {
        proof {
            assert(all.take(i + 1).drop_last() =~= all.take(i as int));
            assert(all.take(i + 1).last() == items@[i as int]@);
        }
        if items[i].source == PackageSource::Inherited && items[i].version_constraint.as_str().is_empty() {
            if let Some(d) = find_declared(declarations, &items[i].name) {
                let elsewhere = d.source == PackageSource::Local || d.source == PackageSource::Git;
                if elsewhere || !d.version_constraint.as_str().is_empty() {
                    let mut item = items[i].clone();
                    item.version_constraint = d.version_constraint.clone();
                    item.registry = copy_option(&d.registry);
                    if elsewhere {
                        item.source = d.source;
                    }
                    let ghost before = strings(resolved@);
                    let name = item.name.clone();
                    resolved.push(name);
                    assert(strings(resolved@) =~= before.push(item@.name));
                    items.set(i, item);
                }
            }
        }
        i = i + 1;
    }
    assert(all.take(i as int) =~= all);
    assert(item_views(items@) =~= want);
    resolved
}

/// Inheriting never moves, renames or reclassifies an item.
pub proof fn law_inheriting_keeps_positions(item: ItemView, decls: Seq<ItemView>)
    ensures
        inherited(item, decls) matches Some(n) ==> {
            &&& n.name == item.name
            &&& n.kind == item.kind
            &&& n.version_line == item.version_line
            &&& n.version_col_start == item.version_col_start
            &&& n.version_col_end == item.version_col_end
            &&& n.locked_version == item.locked_version
            &&& !n.rewritable()
        },
{
}

/// Only a workspace declaration is ever consulted.
pub proof fn law_only_workspace_declarations(decls: Seq<ItemView>, name: Seq<char>)
    ensures
        declared(decls, name) matches Some(d) ==> d.kind == DependencyKind::Workspace && d.name
            == name && decls.contains(d),
    decreases decls.len(),
{
    if decls.len() > 0 {
        if decls[0].kind == DependencyKind::Workspace && decls[0].name == name {
            assert(decls.contains(decls[0]));
        } else {
            law_only_workspace_declarations(decls.drop_first(), name);
            if let Some(d) = declared(decls.drop_first(), name) {
                let i = choose|i: int| 0 <= i < decls.len() - 1 && decls.drop_first()[i] == d;
                assert(decls[i + 1] == d);
            }
        }
    }
}

/// Resolving a second time changes nothing and reports nothing.
pub proof fn law_inheriting_is_idempotent(items: Seq<ItemView>, decls: Seq<ItemView>)
    ensures
        after_inheriting(after_inheriting(items, decls), decls) == after_inheriting(items, decls),
        inheriting(after_inheriting(items, decls), decls) == Seq::<Seq<char>>::empty(),
    decreases items.len(),
{
    let once = after_inheriting(items, decls);
    assert(after_inheriting(once, decls) =~= once);
    if items.len() > 0 {
        law_inheriting_is_idempotent(items.drop_last(), decls);
        assert(after_inheriting(items.drop_last(), decls) =~= once.drop_last());
    } else {
        assert(inheriting(once, decls) =~= seq![]);
    }
}

} // verus!
