//! Reader of Python `pyproject.toml` (and pixi's `pyproject.toml`/`pixi.toml`).
//!
//! Handles Poetry tables (`[tool.poetry.dependencies]`, groups, legacy
//! dev-dependencies), PEP 621 `[project.dependencies]` / optional-dependencies
//! arrays, PEP 735 `[dependency-groups]`, and pixi's top-level `[dependencies]`.
//! `python`/`requires-python` is skipped, and `{path=…}`/`{git=…}`/`{url=…}`
//! dependencies are not checked.
use super::place::{
    add_item, bare_item, item_between, make_bare, make_between, make_quoted, offset_plus, opt_item,
    plus, quoted_item, with_item,
};
use super::position::{is_starts, line_starts, starts_of};
use super::requirements_txt::{lemma_parts508, parse_pep508_spec, parts508};
use super::spans::{
    lemma_get_stands, lemma_quoted, lemma_quoted_part, lemma_told_add, lemma_told_with,
    plain_strings, told, with_note, written_if_positioned,
};
use super::{Parser, Reading};
use crate::error::ParseError;
use crate::item::{item_views, DependencyKind, Item, ItemView, PackageSource};
use crate::manifest::{items_only, ManifestKind, ParsedManifest};
use crate::text::{chars_of, part, str_eq, string_of, take};
use crate::toml::{
    entries_of, get_in, lemma_tree_of, literals_stand, node_in, opt_tree, parse_document,
    toml_document, trees_of, TomlNode, TomlTree,
};
use crate::width::{byte_len, column, str_bytes};
use vstd::prelude::*;

verus! {

/// Parses `pyproject.toml` / `pixi.toml`.
pub struct PyprojectTomlParser;

/// The item of a `name = "spec"` or `name = { version = "spec", … }` entry.
pub open spec fn table_dependency(
    name: Seq<char>,
    tree: TomlTree,
    kind: DependencyKind,
    starts: Seq<usize>,
) -> Option<ItemView> {
    if name == "python"@ {
        None
    } else {
        match tree {
            TomlTree::Text { value, span: Some(at) } => Some(
                quoted_item(starts, name, value, PackageSource::Registry, kind, at),
            ),
            TomlTree::Table(_) => if tree.get("path"@) is Some || tree.get("url"@) is Some {
                Some(bare_item(name, PackageSource::Local, kind))
            } else if tree.get("git"@) is Some {
                Some(bare_item(name, PackageSource::Git, kind))
            } else {
                match tree.get("version"@) {
                    Some(TomlTree::Text { value, span: Some(at) }) => Some(
                        quoted_item(starts, name, value, PackageSource::Registry, kind, at),
                    ),
                    _ => None,
                }
            },
            _ => None,
        }
    }
}

/// The items of a dependency table, in order.
pub open spec fn table_dependencies(
    entries: Seq<(Seq<char>, TomlTree)>,
    kind: DependencyKind,
    starts: Seq<usize>,
) -> Seq<ItemView>
    decreases entries.len(),
{
    if entries.len() == 0 {
        seq![]
    } else {
        with_item(
            table_dependencies(entries.drop_last(), kind, starts),
            table_dependency(entries.last().0, entries.last().1, kind, starts),
        )
    }
}

/// The items of a dependency table, where there is one.
pub open spec fn table_section(
    tree: Option<TomlTree>,
    kind: DependencyKind,
    starts: Seq<usize>,
) -> Seq<ItemView> {
    match tree {
        Some(t) => table_dependencies(t.entries(), kind, starts),
        None => seq![],
    }
}

/// The item of a PEP 508 string.
pub open spec fn string_dependency(
    tree: TomlTree,
    kind: DependencyKind,
    starts: Seq<usize>,
) -> Option<ItemView> {
    match tree {
        TomlTree::Text { value, span: Some(at) } => match parts508(value) {
            Some((name_end, from, to)) => {
                let constraint = value.subrange(from, to);
                // One more skips the opening quote.
                let start = plus(plus(at.0, 1), byte_len(value.take(from)) as usize);
                Some(
                    item_between(
                        starts,
                        value.take(name_end),
                        constraint,
                        PackageSource::Registry,
                        kind,
                        start,
                        plus(start, byte_len(constraint) as usize),
                    ),
                )
            },
            None => None,
        },
        _ => None,
    }
}

/// The items of an array of PEP 508 strings, in order.
pub open spec fn string_dependencies(
    list: Seq<TomlTree>,
    kind: DependencyKind,
    starts: Seq<usize>,
) -> Seq<ItemView>
    decreases list.len(),
{
    if list.len() == 0 {
        seq![]
    } else {
        with_item(
            string_dependencies(list.drop_last(), kind, starts),
            string_dependency(list.last(), kind, starts),
        )
    }
}

/// The items of an array of PEP 508 strings, where there is one.
pub open spec fn string_section(
    tree: Option<TomlTree>,
    kind: DependencyKind,
    starts: Seq<usize>,
) -> Seq<ItemView> {
    match tree {
        Some(t) => string_dependencies(t.list(), kind, starts),
        None => seq![],
    }
}

/// The items of Poetry's groups, each with a table of dependencies, in order.
pub open spec fn poetry_groups(
    groups: Seq<(Seq<char>, TomlTree)>,
    starts: Seq<usize>,
) -> Seq<ItemView>
    decreases groups.len(),
{
    if groups.len() == 0 {
        seq![]
    } else {
        poetry_groups(groups.drop_last(), starts) + table_section(
            groups.last().1.get("dependencies"@),
            DependencyKind::Dev,
            starts,
        )
    }
}

/// The items of a table of arrays of PEP 508 strings, in order.
pub open spec fn string_groups(
    groups: Seq<(Seq<char>, TomlTree)>,
    kind: DependencyKind,
    starts: Seq<usize>,
) -> Seq<ItemView>
    decreases groups.len(),
{
    if groups.len() == 0 {
        seq![]
    } else {
        string_groups(groups.drop_last(), kind, starts) + string_dependencies(
            groups.last().1.list(),
            kind,
            starts,
        )
    }
}

/// The entries of a table, where there is one.
pub open spec fn entries_at(tree: Option<TomlTree>) -> Seq<(Seq<char>, TomlTree)> {
    match tree {
        Some(t) => t.entries(),
        None => seq![],
    }
}

/// What a `pyproject.toml` declares: Poetry's sections, then PEP 621's, then PEP 735's,
/// then pixi's.
pub open spec fn pyproject_items(root: TomlTree, starts: Seq<usize>) -> Seq<ItemView> {
    let poetry = get_in(root.get("tool"@), "poetry"@);
    let project = root.get("project"@);
    table_section(get_in(poetry, "dependencies"@), DependencyKind::Normal, starts) + poetry_groups(
        entries_at(get_in(poetry, "group"@)),
        starts,
    ) + table_section(get_in(poetry, "dev-dependencies"@), DependencyKind::Dev, starts)
        + string_section(get_in(project, "dependencies"@), DependencyKind::Normal, starts)
        + string_groups(
        entries_at(get_in(project, "optional-dependencies"@)),
        DependencyKind::Optional,
        starts,
    ) + string_groups(entries_at(root.get("dependency-groups"@)), DependencyKind::Dev, starts)
        + table_section(root.get("dependencies"@), DependencyKind::Normal, starts)
}

/// Read one entry of a dependency table, skipping `python`.
fn parse_table_dep(name: &String, node: &TomlNode, kind: DependencyKind, starts: &[usize]) -> (r:
    Option<Item>)
    requires
        is_starts(starts@),
    ensures
        opt_item(r) == table_dependency(name@, node@, kind, starts@),
{
    proof {
        lemma_tree_of(*node);
    }
    if str_eq(name.as_str(), "python") {
        return None;
    }
    match node {
        // String form: `requests = "^2.0"`.
        TomlNode::Text { value, span } => match span {
            Some(at) => Some(
                make_quoted(
                    starts,
                    name.clone(),
                    value.clone(),
                    PackageSource::Registry,
                    kind,
                    *at,
                ),
            ),
            None => None,
        },
        // Inline table / `[tool.poetry.dependencies.x]`.
        TomlNode::Table(_) => {
            if node.get("path").is_some() || node.get("url").is_some() {
                return Some(make_bare(name.clone(), PackageSource::Local, kind));
            }
            if node.get("git").is_some() {
                return Some(make_bare(name.clone(), PackageSource::Git, kind));
            }
            match node.get("version") {
                Some(TomlNode::Text { value, span: Some(at) }) => Some(
                    make_quoted(
                        starts,
                        name.clone(),
                        value.clone(),
                        PackageSource::Registry,
                        kind,
                        *at,
                    ),
                ),
                Some(other) => {
                    proof {
                        lemma_tree_of(*other);
                    }
                    None
                },
                None => None,
            }
        },
        _ => None,
    }
}

/// Collect `name = "spec"` / `name = { version = "spec", … }` style dependency
/// tables (Poetry, pixi).
fn collect_table_deps(
    node: Option<&TomlNode>,
    kind: DependencyKind,
    starts: &[usize],
    items: &mut Vec<Item>,
)
    requires
        is_starts(starts@),
    ensures
        item_views(final(items)@) == item_views(old(items)@) + table_section(
            opt_tree(node),
            kind,
            starts@,
        ),
{
    let ghost before = item_views(items@);
    if let Some(n) = node {
        if let Some(v) = n.entries() {
            let ghost all = entries_of(v@);
            let mut i: usize = 0;
            assert(item_views(items@) =~= before + table_dependencies(all.take(0), kind, starts@));
            while i < v.len()
                invariant
                    is_starts(starts@),
                    i <= v.len(),
                    all == entries_of(v@),
                    item_views(items@) == before + table_dependencies(
                        all.take(i as int),
                        kind,
                        starts@,
                    ),
                decreases v.len() - i,
            {
                proof {
                    assert(all.take(i + 1).drop_last() =~= all.take(i as int));
                    assert(all.take(i + 1).last() == (v@[i as int].0@, v@[i as int].1@));
                }
                let item = parse_table_dep(&v[i].0, &v[i].1, kind, starts);
                add_item(items, item);
                i = i + 1;
                assert(item_views(items@) =~= before + table_dependencies(
                    all.take(i as int),
                    kind,
                    starts@,
                ));
            }
            assert(all.take(i as int) =~= all);
            return;
        }
    }
    assert(item_views(items@) =~= before + table_section(opt_tree(node), kind, starts@));
}

/// Read one PEP 508 string.
fn parse_string_dep(node: &TomlNode, kind: DependencyKind, starts: &[usize]) -> (r: Option<Item>)
    requires
        is_starts(starts@),
    ensures
        opt_item(r) == string_dependency(node@, kind, starts@),
{
    proof {
        lemma_tree_of(*node);
    }
    match node {
        TomlNode::Text { value, span: Some(at) } => {
            let chars = chars_of(value.as_str());
            let spec = chars.as_slice();
            match parse_pep508_spec(spec) {
                Some(q) => {
                    let name = string_of(take(spec, q.name_end));
                    let constraint = string_of(part(spec, q.from, q.to));
                    let start: usize = offset_plus(offset_plus(at.0, 1), column(spec, q.from));
                    let end: usize = offset_plus(start, str_bytes(constraint.as_str()));
                    Some(
                        make_between(
                            starts,
                            name,
                            constraint,
                            PackageSource::Registry,
                            kind,
                            start,
                            end,
                        ),
                    )
                },
                None => None,
            }
        },
        _ => None,
    }
}

/// Collect a PEP 508 string array (`["flask>=2.0", "requests"]`).
fn collect_pep508_array(
    node: Option<&TomlNode>,
    kind: DependencyKind,
    starts: &[usize],
    items: &mut Vec<Item>,
)
    requires
        is_starts(starts@),
    ensures
        item_views(final(items)@) == item_views(old(items)@) + string_section(
            opt_tree(node),
            kind,
            starts@,
        ),
{
    let ghost before = item_views(items@);
    if let Some(n) = node {
        if let Some(v) = n.list() {
            let ghost all = trees_of(v@);
            let mut i: usize = 0;
            assert(item_views(items@) =~= before + string_dependencies(all.take(0), kind, starts@));
            while i < v.len()
                invariant
                    is_starts(starts@),
                    i <= v.len(),
                    all == trees_of(v@),
                    item_views(items@) == before + string_dependencies(
                        all.take(i as int),
                        kind,
                        starts@,
                    ),
                decreases v.len() - i,
            {
                proof {
                    assert(all.take(i + 1).drop_last() =~= all.take(i as int));
                    assert(all.take(i + 1).last() == v@[i as int]@);
                }
                let item = parse_string_dep(&v[i], kind, starts);
                add_item(items, item);
                i = i + 1;
                assert(item_views(items@) =~= before + string_dependencies(
                    all.take(i as int),
                    kind,
                    starts@,
                ));
            }
            assert(all.take(i as int) =~= all);
            return;
        }
    }
    assert(item_views(items@) =~= before + string_section(opt_tree(node), kind, starts@));
}

/// Collect Poetry's groups.
fn collect_poetry_groups(node: Option<&TomlNode>, starts: &[usize], items: &mut Vec<Item>)
    requires
        is_starts(starts@),
    ensures
        item_views(final(items)@) == item_views(old(items)@) + poetry_groups(
            entries_at(opt_tree(node)),
            starts@,
        ),
{
    let ghost before = item_views(items@);
    if let Some(n) = node {
        if let Some(v) = n.entries() {
            let ghost all = entries_of(v@);
            let mut i: usize = 0;
            assert(item_views(items@) =~= before + poetry_groups(all.take(0), starts@));
            while i < v.len()
                invariant
                    is_starts(starts@),
                    i <= v.len(),
                    all == entries_of(v@),
                    item_views(items@) == before + poetry_groups(all.take(i as int), starts@),
                decreases v.len() - i,
            {
                proof {
                    assert(all.take(i + 1).drop_last() =~= all.take(i as int));
                    assert(all.take(i + 1).last() == (v@[i as int].0@, v@[i as int].1@));
                }
                collect_table_deps(v[i].1.get("dependencies"), DependencyKind::Dev, starts, items);
                i = i + 1;
                assert(item_views(items@) =~= before + poetry_groups(all.take(i as int), starts@));
            }
            assert(all.take(i as int) =~= all);
            return;
        }
    }
    assert(item_views(items@) =~= before + poetry_groups(entries_at(opt_tree(node)), starts@));
}

/// Collect a table of PEP 508 string arrays.
fn collect_string_groups(
    node: Option<&TomlNode>,
    kind: DependencyKind,
    starts: &[usize],
    items: &mut Vec<Item>,
)
    requires
        is_starts(starts@),
    ensures
        item_views(final(items)@) == item_views(old(items)@) + string_groups(
            entries_at(opt_tree(node)),
            kind,
            starts@,
        ),
{
    let ghost before = item_views(items@);
    if let Some(n) = node {
        if let Some(v) = n.entries() {
            let ghost all = entries_of(v@);
            let mut i: usize = 0;
            assert(item_views(items@) =~= before + string_groups(all.take(0), kind, starts@));
            while i < v.len()
                invariant
                    is_starts(starts@),
                    i <= v.len(),
                    all == entries_of(v@),
                    item_views(items@) == before + string_groups(all.take(i as int), kind, starts@),
                decreases v.len() - i,
            {
                proof {
                    assert(all.take(i + 1).drop_last() =~= all.take(i as int));
                    assert(all.take(i + 1).last() == (v@[i as int].0@, v@[i as int].1@));
                }
                collect_pep508_array(Some(&v[i].1), kind, starts, items);
                i = i + 1;
                assert(item_views(items@) =~= before + string_groups(
                    all.take(i as int),
                    kind,
                    starts@,
                ));
            }
            assert(all.take(i as int) =~= all);
            return;
        }
    }
    assert(item_views(items@) =~= before + string_groups(
        entries_at(opt_tree(node)),
        kind,
        starts@,
    ));
}

/// The items of a parsed `pyproject.toml`.
pub fn items_from(root: &TomlNode, starts: &[usize]) -> (r: Vec<Item>)
    requires
        is_starts(starts@),
    ensures
        item_views(r@) == pyproject_items(root@, starts@),
{
    let mut items: Vec<Item> = Vec::new();
    assert(item_views(items@) =~= seq![]);
    let poetry = node_in(root.get("tool"), "poetry");
    let project = root.get("project");
    collect_table_deps(
        node_in(poetry, "dependencies"),
        DependencyKind::Normal,
        starts,
        &mut items,
    );
    collect_poetry_groups(node_in(poetry, "group"), starts, &mut items);
    collect_table_deps(
        node_in(poetry, "dev-dependencies"),
        DependencyKind::Dev,
        starts,
        &mut items,
    );
    collect_pep508_array(
        node_in(project, "dependencies"),
        DependencyKind::Normal,
        starts,
        &mut items,
    );
    collect_string_groups(
        node_in(project, "optional-dependencies"),
        DependencyKind::Optional,
        starts,
        &mut items,
    );
    collect_string_groups(
        root.get("dependency-groups"),
        DependencyKind::Dev,
        starts,
        &mut items,
    );
    collect_table_deps(root.get("dependencies"), DependencyKind::Normal, starts, &mut items);
    assert(item_views(items@) =~= pyproject_items(root@, starts@));
    items
}

/// Which of the items of a dependency table are written plainly.
pub open spec fn entries_plain(
    content: Seq<char>,
    entries: Seq<(Seq<char>, TomlTree)>,
    kind: DependencyKind,
) -> Seq<bool>
    decreases entries.len(),
{
    if entries.len() == 0 {
        seq![]
    } else {
        with_note(
            entries_plain(content, entries.drop_last(), kind),
            table_dependency(entries.last().0, entries.last().1, kind, starts_of(content)),
            plain_strings(content, entries.last().1),
        )
    }
}

/// Which of the items of a dependency table, where there is one, are written plainly.
pub open spec fn table_plain(
    content: Seq<char>,
    tree: Option<TomlTree>,
    kind: DependencyKind,
) -> Seq<bool> {
    match tree {
        Some(t) => entries_plain(content, t.entries(), kind),
        None => seq![],
    }
}

/// Which of the items of an array of PEP 508 strings are written plainly.
pub open spec fn list_plain(
    content: Seq<char>,
    list: Seq<TomlTree>,
    kind: DependencyKind,
) -> Seq<bool>
    decreases list.len(),
{
    if list.len() == 0 {
        seq![]
    } else {
        with_note(
            list_plain(content, list.drop_last(), kind),
            string_dependency(list.last(), kind, starts_of(content)),
            plain_strings(content, list.last()),
        )
    }
}

/// Which of the items of an array of PEP 508 strings, where there is one, are written
/// plainly.
pub open spec fn strings_plain(
    content: Seq<char>,
    tree: Option<TomlTree>,
    kind: DependencyKind,
) -> Seq<bool> {
    match tree {
        Some(t) => list_plain(content, t.list(), kind),
        None => seq![],
    }
}

/// Which of the items of Poetry's groups are written plainly.
pub open spec fn poetry_plain(content: Seq<char>, groups: Seq<(Seq<char>, TomlTree)>) -> Seq<bool>
    decreases groups.len(),
{
    if groups.len() == 0 {
        seq![]
    } else {
        poetry_plain(content, groups.drop_last()) + table_plain(
            content,
            groups.last().1.get("dependencies"@),
            DependencyKind::Dev,
        )
    }
}

/// Which of the items of a table of arrays of PEP 508 strings are written plainly.
pub open spec fn groups_plain(
    content: Seq<char>,
    groups: Seq<(Seq<char>, TomlTree)>,
    kind: DependencyKind,
) -> Seq<bool>
    decreases groups.len(),
{
    if groups.len() == 0 {
        seq![]
    } else {
        groups_plain(content, groups.drop_last(), kind) + list_plain(
            content,
            groups.last().1.list(),
            kind,
        )
    }
}

/// Which of the items of a `pyproject.toml` are written plainly.
pub open spec fn pyproject_plain(content: Seq<char>, root: TomlTree) -> Seq<bool> {
    let poetry = get_in(root.get("tool"@), "poetry"@);
    let project = root.get("project"@);
    table_plain(content, get_in(poetry, "dependencies"@), DependencyKind::Normal) + poetry_plain(
        content,
        entries_at(get_in(poetry, "group"@)),
    ) + table_plain(content, get_in(poetry, "dev-dependencies"@), DependencyKind::Dev)
        + strings_plain(content, get_in(project, "dependencies"@), DependencyKind::Normal)
        + groups_plain(
        content,
        entries_at(get_in(project, "optional-dependencies"@)),
        DependencyKind::Optional,
    ) + groups_plain(content, entries_at(root.get("dependency-groups"@)), DependencyKind::Dev)
        + table_plain(content, root.get("dependencies"@), DependencyKind::Normal)
}

proof fn lemma_table_entry(
    content: Seq<char>,
    name: Seq<char>,
    tree: TomlTree,
    kind: DependencyKind,
)
    requires
        byte_len(content) <= usize::MAX,
        literals_stand(content, tree),
        plain_strings(content, tree),
    ensures
        written_if_positioned(content, table_dependency(name, tree, kind, starts_of(content))),
{
    match tree {
        TomlTree::Text { value, span: Some(at) } => {
            lemma_quoted(content, name, value, PackageSource::Registry, kind, at);
        },
        TomlTree::Table(_) => {
            lemma_get_stands(content, tree, "version"@);
            if let Some(TomlTree::Text { value, span: Some(at) }) = tree.get("version"@) {
                lemma_quoted(content, name, value, PackageSource::Registry, kind, at);
            }
        },
        _ => {},
    }
}

proof fn lemma_entries_told(
    content: Seq<char>,
    e: Seq<(Seq<char>, TomlTree)>,
    kind: DependencyKind,
)
    requires
        byte_len(content) <= usize::MAX,
        forall|i: int| 0 <= i < e.len() ==> literals_stand(content, (#[trigger] e[i]).1),
    ensures
        told(
            content,
            table_dependencies(e, kind, starts_of(content)),
            entries_plain(content, e, kind),
        ),
    decreases e.len(),
{
    if e.len() > 0 {
        let front = e.drop_last();
        assert forall|i: int| 0 <= i < front.len() implies literals_stand(
            content,
            (#[trigger] front[i]).1,
        ) by {
            assert(front[i] == e[i]);
        }
        lemma_entries_told(content, front, kind);
        let (name, tree) = e.last();
        assert(e.last() == e[e.len() - 1]);
        if plain_strings(content, tree) {
            lemma_table_entry(content, name, tree, kind);
        }
        lemma_told_with(
            content,
            table_dependencies(front, kind, starts_of(content)),
            entries_plain(content, front, kind),
            table_dependency(name, tree, kind, starts_of(content)),
            plain_strings(content, tree),
        );
    }
}

proof fn lemma_table_told(content: Seq<char>, tree: Option<TomlTree>, kind: DependencyKind)
    requires
        byte_len(content) <= usize::MAX,
        tree matches Some(t) ==> literals_stand(content, t),
    ensures
        told(
            content,
            table_section(tree, kind, starts_of(content)),
            table_plain(content, tree, kind),
        ),
{
    if let Some(t) = tree {
        lemma_entries_told(content, t.entries(), kind);
    }
}

proof fn lemma_string_entry(content: Seq<char>, tree: TomlTree, kind: DependencyKind)
    requires
        byte_len(content) <= usize::MAX,
        literals_stand(content, tree),
        plain_strings(content, tree),
    ensures
        written_if_positioned(content, string_dependency(tree, kind, starts_of(content))),
{
    if let TomlTree::Text { value, span: Some(at) } = tree {
        lemma_parts508(value);
        if let Some((name_end, from, to)) = parts508(value) {
            lemma_quoted_part(
                content,
                value.take(name_end),
                value,
                PackageSource::Registry,
                kind,
                at,
                from,
                to,
            );
        }
    }
}

proof fn lemma_list_told(content: Seq<char>, list: Seq<TomlTree>, kind: DependencyKind)
    requires
        byte_len(content) <= usize::MAX,
        forall|i: int| 0 <= i < list.len() ==> literals_stand(content, #[trigger] list[i]),
    ensures
        told(
            content,
            string_dependencies(list, kind, starts_of(content)),
            list_plain(content, list, kind),
        ),
    decreases list.len(),
{
    if list.len() > 0 {
        let front = list.drop_last();
        assert forall|i: int| 0 <= i < front.len() implies literals_stand(
            content,
            #[trigger] front[i],
        ) by {
            assert(front[i] == list[i]);
        }
        lemma_list_told(content, front, kind);
        let tree = list.last();
        assert(tree == list[list.len() - 1]);
        if plain_strings(content, tree) {
            lemma_string_entry(content, tree, kind);
        }
        lemma_told_with(
            content,
            string_dependencies(front, kind, starts_of(content)),
            list_plain(content, front, kind),
            string_dependency(tree, kind, starts_of(content)),
            plain_strings(content, tree),
        );
    }
}

proof fn lemma_strings_told(content: Seq<char>, tree: Option<TomlTree>, kind: DependencyKind)
    requires
        byte_len(content) <= usize::MAX,
        tree matches Some(t) ==> literals_stand(content, t),
    ensures
        told(
            content,
            string_section(tree, kind, starts_of(content)),
            strings_plain(content, tree, kind),
        ),
{
    if let Some(t) = tree {
        lemma_list_told(content, t.list(), kind);
    }
}

proof fn lemma_poetry_told(content: Seq<char>, g: Seq<(Seq<char>, TomlTree)>)
    requires
        byte_len(content) <= usize::MAX,
        forall|i: int| 0 <= i < g.len() ==> literals_stand(content, (#[trigger] g[i]).1),
    ensures
        told(content, poetry_groups(g, starts_of(content)), poetry_plain(content, g)),
    decreases g.len(),
{
    if g.len() > 0 {
        let front = g.drop_last();
        assert forall|i: int| 0 <= i < front.len() implies literals_stand(
            content,
            (#[trigger] front[i]).1,
        ) by {
            assert(front[i] == g[i]);
        }
        lemma_poetry_told(content, front);
        assert(g.last() == g[g.len() - 1]);
        let tree = g.last().1.get("dependencies"@);
        lemma_get_stands(content, g.last().1, "dependencies"@);
        lemma_table_told(content, tree, DependencyKind::Dev);
        lemma_told_add(
            content,
            poetry_groups(front, starts_of(content)),
            poetry_plain(content, front),
            table_section(tree, DependencyKind::Dev, starts_of(content)),
            table_plain(content, tree, DependencyKind::Dev),
        );
    }
}

proof fn lemma_groups_told(
    content: Seq<char>,
    g: Seq<(Seq<char>, TomlTree)>,
    kind: DependencyKind,
)
    requires
        byte_len(content) <= usize::MAX,
        forall|i: int| 0 <= i < g.len() ==> literals_stand(content, (#[trigger] g[i]).1),
    ensures
        told(content, string_groups(g, kind, starts_of(content)), groups_plain(content, g, kind)),
    decreases g.len(),
{
    if g.len() > 0 {
        let front = g.drop_last();
        assert forall|i: int| 0 <= i < front.len() implies literals_stand(
            content,
            (#[trigger] front[i]).1,
        ) by {
            assert(front[i] == g[i]);
        }
        lemma_groups_told(content, front, kind);
        assert(g.last() == g[g.len() - 1]);
        let list = g.last().1.list();
        lemma_list_told(content, list, kind);
        lemma_told_add(
            content,
            string_groups(front, kind, starts_of(content)),
            groups_plain(content, front, kind),
            string_dependencies(list, kind, starts_of(content)),
            list_plain(content, list, kind),
        );
    }
}

proof fn lemma_get_in_stands(content: Seq<char>, tree: Option<TomlTree>, key: Seq<char>)
    requires
        tree matches Some(t) ==> literals_stand(content, t),
    ensures
        get_in(tree, key) matches Some(t) ==> literals_stand(content, t),
{
    if let Some(t) = tree {
        lemma_get_stands(content, t, key);
    }
}

proof fn lemma_pyproject_told(content: Seq<char>, root: TomlTree)
    requires
        byte_len(content) <= usize::MAX,
        literals_stand(content, root),
    ensures
        told(content, pyproject_items(root, starts_of(content)), pyproject_plain(content, root)),
{
    let starts = starts_of(content);
    let tool = root.get("tool"@);
    let poetry = get_in(tool, "poetry"@);
    let project = root.get("project"@);
    lemma_get_stands(content, root, "tool"@);
    lemma_get_stands(content, root, "project"@);
    lemma_get_stands(content, root, "dependency-groups"@);
    lemma_get_stands(content, root, "dependencies"@);
    lemma_get_in_stands(content, tool, "poetry"@);
    lemma_get_in_stands(content, poetry, "dependencies"@);
    lemma_get_in_stands(content, poetry, "group"@);
    lemma_get_in_stands(content, poetry, "dev-dependencies"@);
    lemma_get_in_stands(content, project, "dependencies"@);
    lemma_get_in_stands(content, project, "optional-dependencies"@);
    let a = get_in(poetry, "dependencies"@);
    let b = entries_at(get_in(poetry, "group"@));
    let c = get_in(poetry, "dev-dependencies"@);
    let d = get_in(project, "dependencies"@);
    let e = entries_at(get_in(project, "optional-dependencies"@));
    let f = entries_at(root.get("dependency-groups"@));
    let g = root.get("dependencies"@);
    assert forall|i: int| 0 <= i < b.len() implies literals_stand(content, (#[trigger] b[i]).1) by {}
    assert forall|i: int| 0 <= i < e.len() implies literals_stand(content, (#[trigger] e[i]).1) by {}
    assert forall|i: int| 0 <= i < f.len() implies literals_stand(content, (#[trigger] f[i]).1) by {}
    lemma_table_told(content, a, DependencyKind::Normal);
    lemma_poetry_told(content, b);
    lemma_table_told(content, c, DependencyKind::Dev);
    lemma_strings_told(content, d, DependencyKind::Normal);
    lemma_groups_told(content, e, DependencyKind::Optional);
    lemma_groups_told(content, f, DependencyKind::Dev);
    lemma_table_told(content, g, DependencyKind::Normal);
    let ia = table_section(a, DependencyKind::Normal, starts);
    let ib = poetry_groups(b, starts);
    let ic = table_section(c, DependencyKind::Dev, starts);
    let id = string_section(d, DependencyKind::Normal, starts);
    let ie = string_groups(e, DependencyKind::Optional, starts);
    let ig = string_groups(f, DependencyKind::Dev, starts);
    let ih = table_section(g, DependencyKind::Normal, starts);
    let fa = table_plain(content, a, DependencyKind::Normal);
    let fb = poetry_plain(content, b);
    let fc = table_plain(content, c, DependencyKind::Dev);
    let fd = strings_plain(content, d, DependencyKind::Normal);
    let fe = groups_plain(content, e, DependencyKind::Optional);
    let fg = groups_plain(content, f, DependencyKind::Dev);
    let fh = table_plain(content, g, DependencyKind::Normal);
    lemma_told_add(content, ia, fa, ib, fb);
    lemma_told_add(content, ia + ib, fa + fb, ic, fc);
    lemma_told_add(content, ia + ib + ic, fa + fb + fc, id, fd);
    lemma_told_add(content, ia + ib + ic + id, fa + fb + fc + fd, ie, fe);
    lemma_told_add(content, ia + ib + ic + id + ie, fa + fb + fc + fd + fe, ig, fg);
    lemma_told_add(content, ia + ib + ic + id + ie + ig, fa + fb + fc + fd + fe + fg, ih, fh);
}

impl Parser for PyprojectTomlParser {
    open spec fn reads(&self, content: Seq<char>) -> Reading {
        match toml_document(content) {
            Some(root) => Reading::Read(
                items_only(
                    ManifestKind::PyprojectToml,
                    pyproject_items(root, starts_of(content)),
                ),
            ),
            None => Reading::NotToml,
        }
    }

    open spec fn plain(&self, content: Seq<char>) -> Seq<bool> {
        match toml_document(content) {
            Some(root) => pyproject_plain(content, root),
            None => seq![],
        }
    }

    fn parse(&self, content: &str) -> (r: Result<ParsedManifest, ParseError>) {
        match parse_document(content) {
            Ok(root) => {
                let total: usize = str_bytes(content);
                proof {
                    lemma_pyproject_told(content@, root@);
                }
                let starts = line_starts(content);
                let items = items_from(&root, starts.as_slice());
                Ok(ParsedManifest::of_items(ManifestKind::PyprojectToml, items))
            },
            Err(e) => Err(ParseError::Toml(e)),
        }
    }
}

} // verus!
