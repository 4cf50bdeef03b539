//! Reader of `Cargo.toml`.
//!
//! The exact byte range of every version value is recorded for in-place editing.
use super::place::{bare_item, make_bare, make_quoted, quoted_item};
use super::position::{is_starts, line_starts, starts_of};
use super::spans::{
    lemma_get_stands, lemma_quoted, lemma_same_place, lemma_told_add, lemma_told_with,
    plain_strings, told, with_note, written_if_positioned,
};
use super::{Parser, Reading};
use crate::error::ParseError;
use crate::item::{copy_option, item_views, DependencyKind, Item, ItemView, PackageSource};
use crate::manifest::{
    registry_views, AlternateRegistryDecl, ManifestKind, ManifestView, ParsedManifest, RegistryView,
};
use crate::table::{is_ordered, TextTable};
use crate::text::opt_string;
use crate::toml::{
    entries_of, get_in, lemma_tree_of, literals_stand, node_in, opt_tree, parse_document, text_at, text_in,
    toml_document, TomlNode, TomlTree,
};
use crate::width::{byte_len, str_bytes};
use vstd::prelude::*;

verus! {

/// Parses `Cargo.toml`, recording version positions for in-place fixes.
pub struct CargoTomlParser;

/// The item of one dependency entry: `serde = "1.0"`, or a table that inherits, has a
/// path, a git source, or a version, tried in this order.
pub open spec fn dependency_of(
    name: Seq<char>,
    tree: TomlTree,
    kind: DependencyKind,
    starts: Seq<usize>,
) -> Option<ItemView> {
    match tree {
        TomlTree::Text { value, span } => match span {
            Some(at) => Some(
                quoted_item(starts, name, value, PackageSource::Registry, kind, at),
            ),
            None => None,
        },
        TomlTree::Table(_) => if tree.get("workspace"@) == Some(TomlTree::Flag(true)) {
            Some(bare_item(name, PackageSource::Inherited, kind))
        } else if tree.get("path"@) is Some {
            Some(bare_item(name, PackageSource::Local, kind))
        } else if tree.get("git"@) is Some {
            Some(bare_item(name, PackageSource::Git, kind))
        } else {
            match tree.get("version"@) {
                Some(TomlTree::Text { value, span: Some(at) }) => Some(
                    ItemView {
                        registry: text_in(tree.get("registry"@)),
                        ..quoted_item(starts, name, value, PackageSource::Registry, kind, at)
                    },
                ),
                _ => None,
            }
        },
        _ => None,
    }
}

/// The items of a dependency table, in order.
pub open spec fn dependencies_of(
    entries: Seq<(Seq<char>, TomlTree)>,
    kind: DependencyKind,
    starts: Seq<usize>,
) -> Seq<ItemView>
    decreases entries.len(),
{
    if entries.len() == 0 {
        seq![]
    } else {
        let front = dependencies_of(entries.drop_last(), kind, starts);
        match dependency_of(entries.last().0, entries.last().1, kind, starts) {
            Some(item) => front.push(item),
            None => front,
        }
    }
}

/// The items of the dependency table under a key, where there is one.
pub open spec fn section_of(
    tree: Option<TomlTree>,
    kind: DependencyKind,
    starts: Seq<usize>,
) -> Seq<ItemView> {
    match tree {
        Some(t) => dependencies_of(t.entries(), kind, starts),
        None => seq![],
    }
}

/// The alternate registries of a `[registries]` table, in order.
pub open spec fn registries_of(entries: Seq<(Seq<char>, TomlTree)>) -> Seq<RegistryView> {
    entries.map_values(
        |e: (Seq<char>, TomlTree)|
            RegistryView {
                name: e.0,
                index_url: text_in(e.1.get("index"@)),
                auth_token: None,
            },
    )
}

/// What a `Cargo.toml` says: its three dependency sections, its workspace
/// dependencies, and its registries.
pub open spec fn cargo_manifest(root: TomlTree, starts: Seq<usize>) -> ManifestView {
    ManifestView {
        kind: ManifestKind::CargoToml,
        items: section_of(root.get("dependencies"@), DependencyKind::Normal, starts) + section_of(
            root.get("dev-dependencies"@),
            DependencyKind::Dev,
            starts,
        ) + section_of(root.get("build-dependencies"@), DependencyKind::Build, starts)
            + section_of(
            get_in(root.get("workspace"@), "dependencies"@),
            DependencyKind::Workspace,
            starts,
        ),
        alternate_registries: match root.get("registries"@) {
            Some(t) => registries_of(t.entries()),
            None => seq![],
        },
        notices: seq![],
    }
}

/// Read one dependency entry.
pub fn parse_dependency(name: &String, node: &TomlNode, kind: DependencyKind, starts: &[usize]) -> (r:
    Option<Item>)
    requires
        is_starts(starts@),
    ensures
        match r {
            Some(i) => dependency_of(name@, node@, kind, starts@) == Some(i@),
            None => dependency_of(name@, node@, kind, starts@) is None,
        },
{
    proof {
        lemma_tree_of(*node);
    }
    match node {
        TomlNode::Text { value, span } => match span {
            Some(at) => Some(
                make_quoted(
                    starts,
                    name.clone(),
                    value.clone(),
                    PackageSource::Registry,
                    kind,
                    *at,
                ),
            ),
            None => None,
        },
        TomlNode::Table(_) => {
            if let Some(inherits) = node.get("workspace") {
                if let Some(b) = inherits.flag() {
                    if b {
                        return Some(make_bare(name.clone(), PackageSource::Inherited, kind));
                    }
                }
            }
            if node.get("path").is_some() {
                return Some(make_bare(name.clone(), PackageSource::Local, kind));
            }
            if node.get("git").is_some() {
                return Some(make_bare(name.clone(), PackageSource::Git, kind));
            }
            let registry = text_at(node.get("registry"));
            match node.get("version") {
                Some(TomlNode::Text { value, span: Some(at) }) => {
                    let mut item = make_quoted(
                        starts,
                        name.clone(),
                        value.clone(),
                        PackageSource::Registry,
                        kind,
                        *at,
                    );
                    item.registry = registry;
                    Some(item)
                },
                Some(other) => {
                    proof {
                        lemma_tree_of(*other);
                    }
                    None
                },
                None => None,
            }
        },
        _ => None,
    }
}

/// Read the dependency table under a key, where there is one.
pub fn collect_dependencies(
    node: Option<&TomlNode>,
    kind: DependencyKind,
    starts: &[usize],
    items: &mut Vec<Item>,
)
    requires
        is_starts(starts@),
    ensures
        item_views(final(items)@) == item_views(old(items)@) + section_of(
            opt_tree(node),
            kind,
            starts@,
        ),
{
    let ghost before = item_views(items@);
    if let Some(n) = node {
        if let Some(v) = n.entries() {
            let ghost all = entries_of(v@);
            let mut i: usize = 0;
            assert(item_views(items@) =~= before + dependencies_of(all.take(0), kind, starts@));
            while i < v.len()
                invariant
                    is_starts(starts@),
                    i <= v.len(),
                    all == entries_of(v@),
                    item_views(items@) == before + dependencies_of(
                        all.take(i as int),
                        kind,
                        starts@,
                    ),
                decreases v.len() - i,
            {
                proof {
                    assert(all.take(i + 1).drop_last() =~= all.take(i as int));
                    assert(all.take(i + 1).last() == (v@[i as int].0@, v@[i as int].1@));
                }
                let ghost so_far = item_views(items@);
                if let Some(item) = parse_dependency(&v[i].0, &v[i].1, kind, starts) {
                    items.push(item);
                    assert(item_views(items@) =~= so_far.push(item@));
                }
                i = i + 1;
                assert(item_views(items@) =~= before + dependencies_of(
                    all.take(i as int),
                    kind,
                    starts@,
                ));
            }
            assert(all.take(i as int) =~= all);
            return;
        }
    }
    assert(item_views(items@) =~= before + section_of(opt_tree(node), kind, starts@));
}

/// The manifest of a parsed `Cargo.toml`.
pub fn manifest_from(root: &TomlNode, starts: &[usize]) -> (r: ParsedManifest)
    requires
        is_starts(starts@),
    ensures
        r@ == cargo_manifest(root@, starts@),
{
    let mut items: Vec<Item> = Vec::new();
    assert(item_views(items@) =~= seq![]);
    collect_dependencies(root.get("dependencies"), DependencyKind::Normal, starts, &mut items);
    collect_dependencies(root.get("dev-dependencies"), DependencyKind::Dev, starts, &mut items);
    collect_dependencies(
        root.get("build-dependencies"),
        DependencyKind::Build,
        starts,
        &mut items,
    );
    collect_dependencies(
        node_in(root.get("workspace"), "dependencies"),
        DependencyKind::Workspace,
        starts,
        &mut items,
    );
    let mut alternate_registries: Vec<AlternateRegistryDecl> = Vec::new();
    let ghost want = cargo_manifest(root@, starts@).alternate_registries;
    let mut known = false;
    if let Some(node) = root.get("registries") {
        if let Some(v) = node.entries() {
            known = true;
            let mut i: usize = 0;
            while i < v.len()
                invariant
                    i <= v.len(),
                    want == registries_of(entries_of(v@)),
                    alternate_registries@.len() == i,
                    forall|j: int|
                        0 <= j < i ==> (#[trigger] alternate_registries@[j])@ == want[j],
                decreases v.len() - i,
            {
                let decl = AlternateRegistryDecl {
                    name: v[i].0.clone(),
                    index_url: text_at(v[i].1.get("index")),
                    auth_token: None,
                };
                alternate_registries.push(decl);
                i = i + 1;
            }
        }
    }
    let r = ParsedManifest {
        kind: ManifestKind::CargoToml,
        items,
        alternate_registries,
        notices: Vec::new(),
    };
    proof {
        assert(r@.items =~= cargo_manifest(root@, starts@).items);
        assert(r@.alternate_registries =~= want);
        assert(r@.notices =~= seq![]);
    }
    r
}

/// Which of the items of a dependency table are written plainly.
pub open spec fn dependencies_plain(
    content: Seq<char>,
    entries: Seq<(Seq<char>, TomlTree)>,
    kind: DependencyKind,
) -> Seq<bool>
    decreases entries.len(),
{
    if entries.len() == 0 {
        seq![]
    } else {
        with_note(
            dependencies_plain(content, entries.drop_last(), kind),
            dependency_of(entries.last().0, entries.last().1, kind, starts_of(content)),
            plain_strings(content, entries.last().1),
        )
    }
}

/// Which of the items of the dependency table under a key are written plainly.
pub open spec fn section_plain(
    content: Seq<char>,
    tree: Option<TomlTree>,
    kind: DependencyKind,
) -> Seq<bool> {
    match tree {
        Some(t) => dependencies_plain(content, t.entries(), kind),
        None => seq![],
    }
}

/// Which of the items of a manifest are written plainly.
pub open spec fn cargo_plain(content: Seq<char>, root: TomlTree) -> Seq<bool> {
    section_plain(content, root.get("dependencies"@), DependencyKind::Normal) + section_plain(
        content,
        root.get("dev-dependencies"@),
        DependencyKind::Dev,
    ) + section_plain(content, root.get("build-dependencies"@), DependencyKind::Build)
        + section_plain(
        content,
        get_in(root.get("workspace"@), "dependencies"@),
        DependencyKind::Workspace,
    )
}

proof fn lemma_dependency_written(
    content: Seq<char>,
    name: Seq<char>,
    tree: TomlTree,
    kind: DependencyKind,
)
    requires
        byte_len(content) <= usize::MAX,
        literals_stand(content, tree),
        plain_strings(content, tree),
    ensures
        written_if_positioned(content, dependency_of(name, tree, kind, starts_of(content))),
{
    match tree {
        TomlTree::Text { value, span: Some(at) } => {
            lemma_quoted(content, name, value, PackageSource::Registry, kind, at);
        },
        TomlTree::Table(_) => {
            lemma_get_stands(content, tree, "version"@);
            if let Some(TomlTree::Text { value, span: Some(at) }) = tree.get("version"@) {
                lemma_quoted(content, name, value, PackageSource::Registry, kind, at);
                if let Some(item) = dependency_of(name, tree, kind, starts_of(content)) {
                    let q = quoted_item(
                        starts_of(content),
                        name,
                        value,
                        PackageSource::Registry,
                        kind,
                        at,
                    );
                    if item.positioned() {
                        lemma_same_place(content, q, item);
                    }
                }
            }
        },
        _ => {},
    }
}

proof fn lemma_dependencies_told(
    content: Seq<char>,
    e: Seq<(Seq<char>, TomlTree)>,
    kind: DependencyKind,
)
    requires
        byte_len(content) <= usize::MAX,
        forall|i: int| 0 <= i < e.len() ==> literals_stand(content, (#[trigger] e[i]).1),
    ensures
        told(
            content,
            dependencies_of(e, kind, starts_of(content)),
            dependencies_plain(content, e, kind),
        ),
    decreases e.len(),
{
    if e.len() > 0 {
        let front = e.drop_last();
        assert forall|i: int| 0 <= i < front.len() implies literals_stand(
            content,
            (#[trigger] front[i]).1,
        ) by {
            assert(front[i] == e[i]);
        }
        lemma_dependencies_told(content, front, kind);
        let (name, tree) = e.last();
        assert(e.last() == e[e.len() - 1]);
        if plain_strings(content, tree) {
            lemma_dependency_written(content, name, tree, kind);
        }
        lemma_told_with(
            content,
            dependencies_of(front, kind, starts_of(content)),
            dependencies_plain(content, front, kind),
            dependency_of(name, tree, kind, starts_of(content)),
            plain_strings(content, tree),
        );
    }
}

/// The items of a table whose literals stand are where they say they are, as far as they
/// are written plainly.
pub proof fn lemma_section_told(content: Seq<char>, tree: Option<TomlTree>, kind: DependencyKind)
    requires
        byte_len(content) <= usize::MAX,
        tree matches Some(t) ==> literals_stand(content, t),
    ensures
        told(
            content,
            section_of(tree, kind, starts_of(content)),
            section_plain(content, tree, kind),
        ),
{
    if let Some(t) = tree {
        lemma_dependencies_told(content, t.entries(), kind);
    }
}

proof fn lemma_cargo_told(s: Seq<char>, root: TomlTree)
    requires
        byte_len(s) <= usize::MAX,
        literals_stand(s, root),
    ensures
        told(s, cargo_manifest(root, starts_of(s)).items, cargo_plain(s, root)),
{
    let starts = starts_of(s);
    let a = root.get("dependencies"@);
    let b = root.get("dev-dependencies"@);
    let c = root.get("build-dependencies"@);
    let d = get_in(root.get("workspace"@), "dependencies"@);
    lemma_get_stands(s, root, "dependencies"@);
    lemma_get_stands(s, root, "dev-dependencies"@);
    lemma_get_stands(s, root, "build-dependencies"@);
    lemma_get_stands(s, root, "workspace"@);
    if let Some(w) = root.get("workspace"@) {
        lemma_get_stands(s, w, "dependencies"@);
    }
    lemma_section_told(s, a, DependencyKind::Normal);
    lemma_section_told(s, b, DependencyKind::Dev);
    lemma_section_told(s, c, DependencyKind::Build);
    lemma_section_told(s, d, DependencyKind::Workspace);
    let ia = section_of(a, DependencyKind::Normal, starts);
    let ib = section_of(b, DependencyKind::Dev, starts);
    let ic = section_of(c, DependencyKind::Build, starts);
    let id = section_of(d, DependencyKind::Workspace, starts);
    let fa = section_plain(s, a, DependencyKind::Normal);
    let fb = section_plain(s, b, DependencyKind::Dev);
    let fc = section_plain(s, c, DependencyKind::Build);
    let fd = section_plain(s, d, DependencyKind::Workspace);
    lemma_told_add(s, ia, fa, ib, fb);
    lemma_told_add(s, ia + ib, fa + fb, ic, fc);
    lemma_told_add(s, ia + ib + ic, fa + fb + fc, id, fd);
}

impl Parser for CargoTomlParser {
    open spec fn reads(&self, content: Seq<char>) -> Reading {
        match toml_document(content) {
            Some(root) => Reading::Read(cargo_manifest(root, starts_of(content))),
            None => Reading::NotToml,
        }
    }

    open spec fn plain(&self, content: Seq<char>) -> Seq<bool> {
        match toml_document(content) {
            Some(root) => cargo_plain(content, root),
            None => seq![],
        }
    }

    fn parse(&self, content: &str) -> (r: Result<ParsedManifest, ParseError>) {
        match parse_document(content) {
            Ok(root) => {
                let starts = line_starts(content);
                let total: usize = str_bytes(content);
                proof {
                    lemma_cargo_told(content@, root@);
                }
                Ok(manifest_from(&root, starts.as_slice()))
            },
            Err(e) => Err(ParseError::Toml(e)),
        }
    }
}

/// One `[registries.<name>]` table: its name, its `index` and its `token`.
pub struct RegistryRow {
    /// The alias.
    pub name: String,
    /// The index URL.
    pub index: Option<String>,
    /// The token.
    pub token: Option<String>,
}

impl View for RegistryRow {
    type V = RegistryView;

    open spec fn view(&self) -> RegistryView {
        RegistryView {
            name: self.name@,
            index_url: opt_string(self.index),
            auth_token: opt_string(self.token),
        }
    }
}

/// What a list of rows says.
pub open spec fn row_views(v: Seq<RegistryRow>) -> Seq<RegistryView> {
    v.map_values(|r: RegistryRow| r@)
}

/// The tables among the entries of a `[registries]` table, in order.
pub open spec fn rows_of(entries: Seq<(Seq<char>, TomlTree)>) -> Seq<RegistryView>
    decreases entries.len(),
{
    if entries.len() == 0 {
        seq![]
    } else {
        let front = rows_of(entries.drop_last());
        let (name, tree) = entries.last();
        if tree is Table {
            front.push(
                RegistryView {
                    name,
                    index_url: text_in(tree.get("index"@)),
                    auth_token: text_in(tree.get("token"@)),
                },
            )
        } else {
            front
        }
    }
}

/// The registries of a document; none where the text is no document.
pub open spec fn document_rows(document: Option<TomlTree>) -> Seq<RegistryView> {
    match get_in(document, "registries"@) {
        Some(t) => rows_of(t.entries()),
        None => seq![],
    }
}

/// Extract the tables of `[registries]`.
pub fn rows_from(document: Option<&TomlNode>) -> (r: Vec<RegistryRow>)
    ensures
        row_views(r@) == document_rows(opt_tree(document)),
{
    let mut out: Vec<RegistryRow> = Vec::new();
    if let Some(node) = node_in(document, "registries") {
        if let Some(v) = node.entries() {
            let ghost all = entries_of(v@);
            let mut i: usize = 0;
            assert(row_views(out@) =~= rows_of(all.take(0)));
            while i < v.len()
                invariant
                    i <= v.len(),
                    all == entries_of(v@),
                    row_views(out@) == rows_of(all.take(i as int)),
                decreases v.len() - i,
            {
                proof {
                    assert(all.take(i + 1).drop_last() =~= all.take(i as int));
                    assert(all.take(i + 1).last() == (v@[i as int].0@, v@[i as int].1@));
                }
                if v[i].1.entries().is_some() {
                    let row = RegistryRow {
                        name: v[i].0.clone(),
                        index: text_at(v[i].1.get("index")),
                        token: text_at(v[i].1.get("token")),
                    };
                    let ghost before = row_views(out@);
                    out.push(row);
                    assert(row_views(out@) =~= before.push(row@));
                }
                i = i + 1;
            }
            assert(all.take(i as int) =~= all);
            return out;
        }
    }
    assert(row_views(out@) =~= seq![]);
    out
}

/// Extract the tables of `[registries]` from a Cargo `config` or `credentials` text.
/// Text that does not parse yields nothing.
fn registries_in(content: &str) -> (r: Vec<RegistryRow>)
    ensures
        row_views(r@) == document_rows(toml_document(content@)),
{
    match parse_document(content) {
        Ok(root) => rows_from(Some(&root)),
        Err(_) => rows_from(None),
    }
}

/// Whether a row is of the name.
pub open spec fn has_row(rows: Seq<RegistryView>, name: Seq<char>) -> bool {
    exists|i: int| 0 <= i < rows.len() && (#[trigger] rows[i]).name == name
}

/// The last index that a row of the name states.
pub open spec fn last_index(rows: Seq<RegistryView>, name: Seq<char>) -> Option<Seq<char>>
    decreases rows.len(),
{
    if rows.len() == 0 {
        None
    } else if rows.last().name == name && rows.last().index_url is Some {
        rows.last().index_url
    } else {
        last_index(rows.drop_last(), name)
    }
}

/// The last token that a row of the name states.
pub open spec fn last_token(rows: Seq<RegistryView>, name: Seq<char>) -> Option<Seq<char>>
    decreases rows.len(),
{
    if rows.len() == 0 {
        None
    } else if rows.last().name == name && rows.last().auth_token is Some {
        rows.last().auth_token
    } else {
        last_token(rows.drop_last(), name)
    }
}

/// The declaration of a registry: the index of `config`, and the token of
/// `credentials`, or else that of `config`.
pub open spec fn merged_registry(
    config: Seq<RegistryView>,
    credentials: Seq<RegistryView>,
    name: Seq<char>,
) -> RegistryView {
    RegistryView {
        name,
        index_url: last_index(config, name),
        auth_token: match last_token(credentials, name) {
            Some(t) => Some(t),
            None => last_token(config, name),
        },
    }
}

/// Whether a list of declarations is what `config` and `credentials` come to: those of
/// the names that `config` has or that `credentials` has a token for, each once, in
/// order of name.
pub open spec fn is_merged(
    config: Seq<RegistryView>,
    credentials: Seq<RegistryView>,
    decls: Seq<RegistryView>,
) -> bool {
    &&& is_ordered(decls.map_values(|d: RegistryView| d.name))
    &&& forall|i: int|
        0 <= i < decls.len() ==> #[trigger] decls[i] == merged_registry(
            config,
            credentials,
            decls[i].name,
        )
    &&& forall|name: Seq<char>|
        (exists|i: int| 0 <= i < decls.len() && (#[trigger] decls[i]).name == name) <==> (
        #[trigger] has_row(config, name) || last_token(credentials, name) is Some)
}

/// Merge the registries of `config` and `credentials`.
pub fn merge_registries(config: &Vec<RegistryRow>, credentials: &Vec<RegistryRow>) -> (r: Vec<
    AlternateRegistryDecl,
>)
    ensures
        is_merged(row_views(config@), row_views(credentials@), registry_views(r@)),
{
    let ghost a = row_views(config@);
    let ghost b = row_views(credentials@);
    let ghost none: Seq<RegistryView> = seq![];
    let mut decls: TextTable<AlternateRegistryDecl> = TextTable::new();
    let mut i: usize = 0;
    while i < config.len()
        invariant
            i <= config.len(),
            a == row_views(config@),
            none.len() == 0,
            forall|n: Seq<char>|
                #[trigger] decls@.contains_key(n) <==> has_row(a.take(i as int), n),
            forall|n: Seq<char>| #[trigger]
                decls@.contains_key(n) ==> decls@[n]@ == merged_registry(
                    a.take(i as int),
                    none,
                    n,
                ),
        decreases config.len() - i,
    {
        let row = &config[i];
        let mut decl = match decls.get(row.name.as_str()) {
            Some(d) => d.clone(),
            None => empty_registry(row.name.clone()),
        };
        let ghost before = decl@;
        if row.index.is_some() {
            decl.index_url = copy_option(&row.index);
        }
        if row.token.is_some() {
            decl.auth_token = copy_option(&row.token);
        }
        let ghost now = decl@;
        let ghost old_map = decls@;
        let ghost here = row@;
        decls.insert(row.name.clone(), decl);
        proof {
            let t = a.take(i + 1);
            assert(t.drop_last() =~= a.take(i as int));
            assert(t.last() == here);
            assert forall|n: Seq<char>| #[trigger] decls@.contains_key(n) <==> has_row(t, n) by {
                if has_row(a.take(i as int), n) {
                    let k = choose|k: int| 0 <= k < i && (#[trigger] a.take(i as int)[k]).name == n;
                    assert(t[k].name == n);
                }
                if n == here.name {
                    assert(t[i as int].name == n);
                }
                if has_row(t, n) && n != here.name {
                    let k = choose|k: int| 0 <= k < i + 1 && (#[trigger] t[k]).name == n;
                    assert(a.take(i as int)[k].name == n);
                }
                assert(old_map.contains_key(n) <==> has_row(a.take(i as int), n));
            }
            assert forall|n: Seq<char>| #[trigger] decls@.contains_key(n) implies decls@[n]@
                == merged_registry(t, none, n) by {
                if n != here.name {
                    assert(old_map.contains_key(n));
                } else {
                    if !old_map.contains_key(n) {
                        assert(!has_row(a.take(i as int), n));
                        lemma_no_row(a.take(i as int), n);
                    }
                }
            }
        }
        i = i + 1;
    }
    assert(a.take(i as int) =~= a);
    let mut j: usize = 0;
    assert(b.take(0) =~= none);
    proof {
        lemma_no_row(none, seq![]);
        assert forall|n: Seq<char>| #[trigger] decls@.contains_key(n) <==> has_row(a, n)
            || last_token(b.take(0), n) is Some by {}
    }
    while j < credentials.len()
        invariant
            j <= credentials.len(),
            b == row_views(credentials@),
            forall|n: Seq<char>|
                #[trigger] decls@.contains_key(n) <==> has_row(a, n) || last_token(
                    b.take(j as int),
                    n,
                ) is Some,
            forall|n: Seq<char>| #[trigger]
                decls@.contains_key(n) ==> decls@[n]@ == merged_registry(a, b.take(j as int), n),
        decreases credentials.len() - j,
    {
        let row = &credentials[j];
        let ghost here = row@;
        let ghost t = b.take(j + 1);
        let ghost old_map = decls@;
        proof {
            assert(t.drop_last() =~= b.take(j as int));
            assert(t.last() == here);
        }
        if row.token.is_some() {
            let mut decl = match decls.get(row.name.as_str()) {
                Some(d) => d.clone(),
                None => empty_registry(row.name.clone()),
            };
            decl.auth_token = copy_option(&row.token);
            decls.insert(row.name.clone(), decl);
        }
        proof {
            assert forall|n: Seq<char>| #[trigger] decls@.contains_key(n) <==> has_row(a, n)
                || last_token(t, n) is Some by {
                assert(old_map.contains_key(n) <==> has_row(a, n) || last_token(
                    b.take(j as int),
                    n,
                ) is Some);
            }
            assert forall|n: Seq<char>| #[trigger] decls@.contains_key(n) implies decls@[n]@
                == merged_registry(a, t, n) by {
                if n != here.name || here.auth_token is None {
                    assert(old_map.contains_key(n));
                } else if !old_map.contains_key(n) {
                    assert(!has_row(a, n));
                    lemma_no_row(a, n);
                } else {
                    assert(old_map[n]@ == merged_registry(a, b.take(j as int), n));
                }
            }
        }
        j = j + 1;
    }
    assert(b.take(j as int) =~= b);
    let mut out: Vec<AlternateRegistryDecl> = Vec::new();
    let count: usize = decls.len();
    let ghost names = decls.names();
    let mut k: usize = 0;
    while k < count
        invariant
            k <= count,
            count == names.len(),
            names == decls.names(),
            out@.len() == k,
            forall|n: Seq<char>| #[trigger]
                decls@.contains_key(n) ==> decls@[n]@ == merged_registry(a, b, n),
            forall|x: int|
                0 <= x < k ==> (#[trigger] out@[x])@ == merged_registry(a, b, names[x]),
        decreases count - k,
    {
        out.push(decls.value_at(k).clone());
        k = k + 1;
    }
    proof {
        let views = registry_views(out@);
        assert(views.map_values(|d: RegistryView| d.name) =~= names);
        assert forall|name: Seq<char>|
            (exists|x: int| 0 <= x < views.len() && (#[trigger] views[x]).name == name) <==> (
            #[trigger] has_row(a, name) || last_token(b, name) is Some) by {
            assert(decls@.contains_key(name) <==> names.contains(name));
            if names.contains(name) {
                let x = choose|x: int| 0 <= x < names.len() && names[x] == name;
                assert(views[x].name == name);
            }
        }
        assert forall|x: int| 0 <= x < views.len() implies #[trigger] views[x] == merged_registry(
            a,
            b,
            views[x].name,
        ) by {
            assert(views[x] == out@[x]@);
        }
    }
    out
}

proof fn lemma_no_row(rows: Seq<RegistryView>, name: Seq<char>)
    requires
        !has_row(rows, name),
    ensures
        last_index(rows, name) is None,
        last_token(rows, name) is None,
    decreases rows.len(),
{
    if rows.len() > 0 {
        let t = rows.drop_last();
        assert(rows[rows.len() - 1].name != name);
        assert(!has_row(t, name)) by {
            if has_row(t, name) {
                let k = choose|k: int| 0 <= k < t.len() && (#[trigger] t[k]).name == name;
                assert(rows[k].name == name);
            }
        }
        lemma_no_row(t, name);
    }
}

/// An [`AlternateRegistryDecl`] with only its alias set.
fn empty_registry(name: String) -> (r: AlternateRegistryDecl)
    ensures
        r@ == (RegistryView { name: name@, index_url: None, auth_token: None }),
{
    AlternateRegistryDecl { name, index_url: None, auth_token: None }
}

/// Parse Cargo's `$CARGO_HOME/config.toml` and optional `credentials.toml` into
/// alternate-registry declarations, keyed by alias (the name used by a
/// dependency's `registry = "..."`).
///
/// `[registries.<name>]` tables contribute the sparse `index` URL (normally from
/// `config`) and the auth `token` (normally from `credentials`, which wins over
/// any token declared inline in `config`). A missing `credentials` file is `None`.
///
/// Malformed input yields no declarations rather than an error, and registries
/// without an `index` are still returned (with `index_url: None`) so the caller
/// can skip them gracefully.
#[must_use]
pub fn parse_cargo_config(config: &str, credentials: Option<&str>) -> (r: Vec<
    AlternateRegistryDecl,
>)
    ensures
        is_merged(
            document_rows(toml_document(config@)),
            match credentials {
                Some(c) => document_rows(toml_document(c@)),
                None => seq![],
            },
            registry_views(r@),
        ),
{
    let rows = registries_in(config);
    let more = match credentials {
        Some(c) => registries_in(c),
        None => Vec::new(),
    };
    assert(credentials is None ==> row_views(more@) =~= seq![]);
    merge_registries(&rows, &more)
}

} // verus!
