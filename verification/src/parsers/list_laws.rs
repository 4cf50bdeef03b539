//! How what manifests declare adds up, entry by entry.
use super::cargo_toml::{last_token, merged_registry, rows_of};
use super::cargo_workspace::{after_inheriting, inherited, workspace_of};
use super::composer_json::{composer_item, composer_items};
use super::csproj::{csproj_item, csproj_items};
use super::deno_json::{deno_item, deno_items};
use super::gradle_catalog::{
    catalog_items, libraries_of, library_of, literal_of, resolved_items, uses_of, version_named,
    DeclaredView,
};
use super::json_scan::{is_number, StringView};
use super::mix_exs::{mix_item, mix_items};
use super::package_json::{package_item, package_items};
use super::pom_xml::{entries_before, entry_at, property_before, text_of};
use super::pyproject_toml::{
    poetry_groups, string_dependencies, string_dependency, string_groups, table_dependencies,
    table_dependency,
};
use crate::item::{DependencyKind, ItemView, PackageSource};
use crate::lockfiles::mix_lock_graph::{elements_of, top_parts};
use crate::manifest::RegistryView;
use crate::number::{decimal, law_decimal_reads_back, lemma_no_leading_zero};
use crate::pattern::PartView;
use crate::semver::normalize::is_name;
use crate::text::{all_in, is_alpha, trimmed, Class};
use crate::toml::{lookup, text_in, texts_in, TomlTree};
use crate::writing::{
    is_plain, is_plain_char, lemma_leading_at, lemma_plain, lemma_plain_char, lemma_trimmed_same,
};
use crate::xml::{attribute_of, is_child, next_child, AttributeView, Want, XmlView};
use vstd::prelude::*;

verus! {

/// One more string, element, match or entry of a manifest adds the dependency it declares,
/// if it declares one, after the others.
pub proof fn law_one_more(
    starts: Seq<usize>,
    found: Seq<StringView>,
    some: Seq<StringView>,
    v: StringView,
    nodes: Seq<XmlView>,
    node: XmlView,
    matches: Seq<Seq<PartView>>,
    m: Seq<PartView>,
)
    ensures
        package_items(starts, found, some.push(v)) == match package_item(starts, found, v) {
            Some(item) => package_items(starts, found, some).push(item),
            None => package_items(starts, found, some),
        },
        deno_items(starts, some.push(v)) == match deno_item(starts, v) {
            Some(item) => deno_items(starts, some).push(item),
            None => deno_items(starts, some),
        },
        composer_items(starts, some.push(v)) == match composer_item(starts, v) {
            Some(item) => composer_items(starts, some).push(item),
            None => composer_items(starts, some),
        },
        csproj_items(starts, nodes.push(node)) == match csproj_item(starts, node) {
            Some(item) => csproj_items(starts, nodes).push(item),
            None => csproj_items(starts, nodes),
        },
        mix_items(starts, matches.push(m)) == match mix_item(starts, m) {
            Some(item) => mix_items(starts, matches).push(item),
            None => mix_items(starts, matches),
        },
{
    assert(some.push(v).drop_last() =~= some);
    assert(nodes.push(node).drop_last() =~= nodes);
    assert(matches.push(m).drop_last() =~= matches);
}

/// The same of the tables, lists and groups of a Python project.
pub proof fn law_python_one_more(
    entries: Seq<(Seq<char>, TomlTree)>,
    name: Seq<char>,
    tree: TomlTree,
    list: Seq<TomlTree>,
    kind: DependencyKind,
    starts: Seq<usize>,
)
    ensures
        table_dependencies(entries.push((name, tree)), kind, starts) == match table_dependency(
            name,
            tree,
            kind,
            starts,
        ) {
            Some(item) => table_dependencies(entries, kind, starts).push(item),
            None => table_dependencies(entries, kind, starts),
        },
        string_dependencies(list.push(tree), kind, starts) == match string_dependency(
            tree,
            kind,
            starts,
        ) {
            Some(item) => string_dependencies(list, kind, starts).push(item),
            None => string_dependencies(list, kind, starts),
        },
        string_groups(entries.push((name, tree)), kind, starts) == string_groups(
            entries,
            kind,
            starts,
        ) + string_dependencies(tree.list(), kind, starts),
        match tree.get("dependencies"@) {
            Some(t) => poetry_groups(entries.push((name, tree)), starts) == poetry_groups(
                entries,
                starts,
            ) + table_dependencies(t.entries(), DependencyKind::Dev, starts),
            None => poetry_groups(entries.push((name, tree)), starts) == poetry_groups(
                entries,
                starts,
            ),
        },
{
    assert(entries.push((name, tree)).drop_last() =~= entries);
    assert(list.push(tree).drop_last() =~= list);
    if tree.get("dependencies"@) is None {
        assert(poetry_groups(entries, starts) + Seq::<ItemView>::empty() =~= poetry_groups(
            entries,
            starts,
        ));
    }
}

/// A dependency of a standard list is the name and the constraint of its string.
pub proof fn law_python_string(
    name: Seq<char>,
    c: Seq<char>,
    at: (usize, usize),
    kind: DependencyKind,
    starts: Seq<usize>,
)
    requires
        is_plain(name),
        super::line_laws::is_clauses(c),
    ensures
        string_dependency(TomlTree::Text { value: name + c, span: Some(at) }, kind, starts) matches Some(
            i,
        ) && i.name == name && i.version_constraint == c && i.kind == kind && i.source
            == PackageSource::Registry,
        string_dependency(TomlTree::Text { value: name, span: Some(at) }, kind, starts) matches Some(
            i,
        ) && i.name == name && i.version_constraint.len() == 0 && i.kind == kind,
        string_dependency(TomlTree::Flag(true), kind, starts) is None,
{
    let none = Seq::<char>::empty();
    super::line_laws::law_pep508(name, c, none, none);
    let v = name + c;
    assert(v.take(name.len() as int) =~= name);
    assert(v.subrange(name.len() as int, v.len() as int) =~= c);
    assert(name.take(name.len() as int) =~= name);
}

/// One more library, version or use of a catalog: a version is the last one under its
/// alias, and an alias is used once more by each library that refers to it.
pub proof fn law_catalog_one_more(
    entries: Seq<(Seq<char>, TomlTree)>,
    name: Seq<char>,
    tree: TomlTree,
    alias: Seq<char>,
    declared: Seq<DeclaredView>,
    d: DeclaredView,
)
    ensures
        libraries_of(entries.push((name, tree))) == match library_of(tree) {
            Some(l) => libraries_of(entries).push(l),
            None => libraries_of(entries),
        },
        name == alias && literal_of(Some(tree)) is Some ==> version_named(
            entries.push((name, tree)),
            alias,
        ) == literal_of(Some(tree)),
        name != alias ==> version_named(entries.push((name, tree)), alias) == version_named(
            entries,
            alias,
        ),
        d.reference == Some(alias) ==> uses_of(declared.push(d), alias) == uses_of(declared, alias)
            + 1,
        d.reference != Some(alias) ==> uses_of(declared.push(d), alias) == uses_of(declared, alias),
        uses_of(seq![], alias) == 0,
{
    assert(entries.push((name, tree)).drop_last() =~= entries);
    assert(declared.push(d).drop_last() =~= declared);
}

/// The items of a catalog are those of `[libraries]`, resolved in `[versions]`.
pub proof fn law_catalog(
    root: TomlTree,
    libraries: Seq<(Seq<char>, TomlTree)>,
    versions: Seq<(Seq<char>, TomlTree)>,
    starts: Seq<usize>,
)
    requires
        root.get("libraries"@) == Some(TomlTree::Table(libraries)),
        root.get("versions"@) == Some(TomlTree::Table(versions)),
    ensures
        catalog_items(root, starts) == resolved_items(
            starts,
            versions,
            libraries_of(libraries),
            libraries_of(libraries),
        ),
{
}

/// A property of a POM is the last element of its name in the table that holds a text.
pub proof fn law_pom_properties(
    doc: Seq<char>,
    nodes: Seq<XmlView>,
    table: int,
    name: Seq<char>,
    n: int,
)
    requires
        0 <= n < nodes.len(),
    ensures
        nodes[n].parent == Some(table as usize) && table >= 0 && table <= usize::MAX
            && nodes[n].is_element && nodes[n].name == name && text_of(doc, nodes, n) is Some
            ==> property_before(doc, nodes, table, name, n + 1) == text_of(doc, nodes, n),
        nodes[n].name != name ==> property_before(doc, nodes, table, name, n + 1)
            == property_before(doc, nodes, table, name, n),
        nodes[n].parent is None ==> property_before(doc, nodes, table, name, n + 1)
            == property_before(doc, nodes, table, name, n),
{
}

/// The dependencies of a POM are the `dependency` elements right under the list, in order,
/// those that name what they depend on.
pub proof fn law_pom_dependencies(
    doc: Seq<char>,
    nodes: Seq<XmlView>,
    table: Option<int>,
    list: int,
    n: int,
)
    requires
        0 <= n < nodes.len(),
        0 <= list <= usize::MAX,
    ensures
        nodes[n].parent == Some(list as usize) && nodes[n].is_element && nodes[n].name
            == "dependency"@ ==> entries_before(doc, nodes, table, list, n + 1) == match entry_at(
            doc,
            nodes,
            table,
            n,
        ) {
            Some(e) => entries_before(doc, nodes, table, list, n).push(e),
            None => entries_before(doc, nodes, table, list, n),
        },
        nodes[n].parent != Some(list as usize) || nodes[n].name != "dependency"@ ==> entries_before(
            doc,
            nodes,
            table,
            list,
            n + 1,
        ) == entries_before(doc, nodes, table, list, n),
{
}

/// A child is the first node from a position on that has the parent and is what is wanted.
pub proof fn law_children(nodes: Seq<XmlView>, parent: int, tag: &str, from: int)
    requires
        0 <= from,
    ensures
        match next_child(nodes, parent, Want::Named(tag), from) {
            Some(i) => from <= i < nodes.len() && nodes[i].is_element && nodes[i].name == tag@
                && (nodes[i].parent matches Some(p) && p == parent),
            None => forall|i: int|
                from <= i < nodes.len() ==> !((#[trigger] nodes[i]).is_element && nodes[i].name
                    == tag@ && (nodes[i].parent matches Some(p) && p == parent)),
        },
        next_child(nodes, parent, Want::Named(tag), from) matches Some(n) ==> forall|i: int|
            from <= i < n ==> !((#[trigger] nodes[i]).is_element && nodes[i].name == tag@ && (
            nodes[i].parent matches Some(p) && p == parent)),
    decreases nodes.len() - from,
{
    if from < nodes.len() && !is_child(nodes[from], parent, Want::Named(tag)) {
        law_children(nodes, parent, tag, from + 1);
    }
}

/// An attribute is the first of its name; without a namespace, where a plain one is asked
/// for.
pub proof fn law_attributes(attributes: Seq<AttributeView>, a: AttributeView, name: Seq<char>)
    ensures
        a.name == name && a.namespace is None ==> attribute_of(seq![a] + attributes, name, true)
            == Some(a),
        a.name == name ==> attribute_of(seq![a] + attributes, name, false) == Some(a),
        a.name != name ==> attribute_of(seq![a] + attributes, name, true) == attribute_of(
            attributes,
            name,
            true,
        ) && attribute_of(seq![a] + attributes, name, false) == attribute_of(
            attributes,
            name,
            false,
        ),
        a.namespace is Some ==> attribute_of(seq![a] + attributes, name, true) == attribute_of(
            attributes,
            name,
            true,
        ),
{
    assert((seq![a] + attributes).drop_first() =~= attributes);
}

/// A workspace has the members, the default members and the exclusions that its table
/// lists; a manifest without the table declares none.
pub proof fn law_workspace(root: TomlTree, ws: Seq<(Seq<char>, TomlTree)>)
    ensures
        root.get("workspace"@) == Some(TomlTree::Table(ws)) ==> (workspace_of(root) matches Some(w)
            && w.members == texts_in(lookup(ws, "members"@)) && w.default_members == texts_in(
            lookup(ws, "default-members"@),
        ) && w.exclude == texts_in(lookup(ws, "exclude"@))),
        root.get("workspace"@) is None ==> workspace_of(root) is None,
        root.get("workspace"@) == Some(TomlTree::Flag(true)) ==> workspace_of(root) is None,
{
}

/// A member's items stay in order and number when they inherit, and an item that inherits
/// nothing is not changed.
pub proof fn law_after_inheriting(items: Seq<ItemView>, decls: Seq<ItemView>, i: int)
    requires
        0 <= i < items.len(),
    ensures
        after_inheriting(items, decls).len() == items.len(),
        inherited(items[i], decls) is None ==> after_inheriting(items, decls)[i] == items[i],
        inherited(items[i], decls) matches Some(n) ==> after_inheriting(items, decls)[i] == n,
{
}

/// The registries of a configuration: the index is the last one stated for the name, and a
/// token of the credentials goes before one of the configuration.
pub proof fn law_cargo_registries(
    entries: Seq<(Seq<char>, TomlTree)>,
    name: Seq<char>,
    table: Seq<(Seq<char>, TomlTree)>,
    config: Seq<RegistryView>,
    credentials: Seq<RegistryView>,
    row: RegistryView,
)
    ensures
        rows_of(entries.push((name, TomlTree::Table(table)))) == rows_of(entries).push(
            RegistryView {
                name,
                index_url: text_in(lookup(table, "index"@)),
                auth_token: text_in(lookup(table, "token"@)),
            },
        ),
        row.name == name && row.auth_token is Some ==> merged_registry(
            config,
            credentials.push(row),
            name,
        ).auth_token == row.auth_token,
        last_token(credentials, name) is None && row.name == name && row.auth_token is Some
            ==> merged_registry(config.push(row), credentials, name).auth_token == row.auth_token,
        row.name == name && row.index_url is Some ==> merged_registry(
            config.push(row),
            credentials,
            name,
        ).index_url == row.index_url,
        merged_registry(config, credentials.push(row), name).index_url == merged_registry(
            config,
            credentials,
            name,
        ).index_url,
{
    assert(entries.push((name, TomlTree::Table(table))).drop_last() =~= entries);
    assert(credentials.push(row).drop_last() =~= credentials);
    assert(config.push(row).drop_last() =~= config);
}

/// A JSON number is digits without a leading zero, with or without a minus sign, a
/// fraction and an exponent.
#[verifier::rlimit(60)]
pub proof fn law_json_numbers(n: nat, f: Seq<char>)
    requires
        f.len() > 0,
        all_in(f, Class::Digit),
    ensures
        is_number(decimal(n)),
        is_number(seq!['-'] + decimal(n)),
        is_number(decimal(n) + (seq!['.'] + f)),
        !is_number(seq!['+'] + decimal(n)),
        !is_number(decimal(n) + seq!['.']),
        !is_number(seq!['.'] + f),
        !is_number(seq!['0'] + f),
{
    let none = Seq::<char>::empty();
    let d = decimal(n);
    law_decimal_reads_back(n);
    lemma_no_leading_zero(n);
    assert(Class::Digit.has(d[0]) && Class::Digit.has(f[0]));
    lemma_leading_at(d, none, Class::Digit);
    assert(d + none =~= d);
    let m = seq!['-'] + d;
    assert(m.drop_first() =~= d);
    let p = d + (seq!['.'] + f);
    assert((seq!['.'] + f)[0] == '.');
    lemma_leading_at(d, seq!['.'] + f, Class::Digit);
    assert(p[0] == d[0]);
    assert((seq!['.'] + f).drop_first() =~= f);
    lemma_leading_at(f, none, Class::Digit);
    assert(f + none =~= f);
    assert(f.skip(f.len() as int) =~= none);
    let plus = seq!['+'] + d;
    assert(plus[0] == '+');
    let bare = d + seq!['.'];
    lemma_leading_at(d, seq!['.'], Class::Digit);
    assert(bare[0] == d[0]);
    assert(seq!['.'].drop_first() =~= none);
    let point = seq!['.'] + f;
    assert(point[0] == '.');
    let zero = seq!['0'] + f;
    assert(zero[0] == '0' && zero[1] == f[0]);
    assert forall|i: int| 0 <= i < zero.len() implies Class::Digit.has(#[trigger] zero[i]) by {
        if i > 0 {
            assert(zero[i] == f[i - 1]);
        }
    }
    lemma_leading_at(zero, none, Class::Digit);
    assert(zero + none =~= zero);
}

/// A constraint that names something begins with a letter, and holds no sign of a range.
#[verifier::rlimit(60)]
pub proof fn law_names(word: Seq<char>, op: char)
    requires
        is_plain(word),
        forall|i: int| 0 <= i < word.len() ==> #[trigger] word[i] != '+',
        op == '^' || op == '~' || op == '>' || op == '<' || op == '=' || op == '*',
    ensures
        is_name(word) <==> is_alpha(word[0]),
        !is_name(seq![op] + word),
        !is_name(word + seq![op]),
{
    lemma_plain(word);
    assert(is_plain_char(word[0]) && is_plain_char(word[word.len() - 1]));
    lemma_plain_char(word[0]);
    lemma_plain_char(word.last());
    let a = seq![op] + word;
    let b = word + seq![op];
    assert(a[0] == op && a.last() == word.last());
    assert(b[0] == word[0] && b.last() == op);
    lemma_trimmed_same(a);
    lemma_trimmed_same(b);
    assert(b[b.len() - 1] == op);
}

/// The elements of a tuple are split at the commas outside of brackets.
#[verifier::rlimit(60)]
pub proof fn law_mix_elements(a: Seq<char>, b: Seq<char>)
    requires
        forall|i: int| 0 <= i < a.len() ==> is_flat(#[trigger] a[i]),
        forall|i: int| 0 <= i < b.len() ==> is_flat(#[trigger] b[i]),
    ensures
        elements_of(a) == seq![a],
        elements_of(a + seq![','] + b) == seq![a, b],
        elements_of(seq!['['] + (a + seq![','] + b) + seq![']']) == seq![
            seq!['['] + (a + seq![','] + b) + seq![']'],
        ],
        elements_of(seq!['{'] + (a + seq![','] + b) + seq!['}']) == seq![
            seq!['{'] + (a + seq![','] + b) + seq!['}'],
        ],
{
    lemma_flat(a, 0, 0, 0);
    assert(a.skip(0) =~= a);
    let s = a + seq![','] + b;
    let n = a.len() as int;
    assert forall|i: int| 0 <= i < n implies is_flat(#[trigger] s[i]) by {
        assert(s[i] == a[i]);
    }
    assert forall|i: int| n + 1 <= i < s.len() implies is_flat(#[trigger] s[i]) by {
        assert(s[i] == b[i - n - 1]);
    }
    lemma_flat_to(s, 0, 0, n, 0);
    assert(s[n] == ',');
    lemma_flat(s, n + 1, n + 1, 0);
    assert(s.subrange(0, n) =~= a);
    assert(s.skip(n + 1) =~= b);
    lemma_bracketed(a, b, '[', ']');
    lemma_bracketed(a, b, '{', '}');
}

/// Whether a character is no quote, bracket or comma.
pub open spec fn is_flat(c: char) -> bool {
    c != '"' && c != ',' && c != '{' && c != '[' && c != '(' && c != '}' && c != ']' && c != ')'
}

proof fn lemma_flat_to(s: Seq<char>, start: int, i: int, n: int, depth: int)
    requires
        0 <= i <= n <= s.len(),
        forall|j: int| i <= j < n ==> is_flat(#[trigger] s[j]),
    ensures
        top_parts(s, start, i, depth) == top_parts(s, start, n, depth),
    decreases n - i,
{
    if i < n {
        lemma_flat_to(s, start, i + 1, n, depth);
    }
}

proof fn lemma_flat(s: Seq<char>, start: int, i: int, depth: int)
    requires
        0 <= i <= s.len(),
        forall|j: int| i <= j < s.len() ==> is_flat(#[trigger] s[j]),
    ensures
        top_parts(s, start, i, depth) == seq![s.skip(start)],
{
    lemma_flat_to(s, start, i, s.len() as int, depth);
}

#[verifier::rlimit(60)]
proof fn lemma_bracketed(a: Seq<char>, b: Seq<char>, open: char, close: char)
    requires
        forall|i: int| 0 <= i < a.len() ==> is_flat(#[trigger] a[i]),
        forall|i: int| 0 <= i < b.len() ==> is_flat(#[trigger] b[i]),
        (open == '[' && close == ']') || (open == '{' && close == '}'),
    ensures
        elements_of(seq![open] + (a + seq![','] + b) + seq![close]) == seq![
            seq![open] + (a + seq![','] + b) + seq![close],
        ],
{
    let s = seq![open] + (a + seq![','] + b) + seq![close];
    let n = a.len() as int;
    let m = n + 2 + b.len();
    assert forall|i: int| 1 <= i < n + 1 implies is_flat(#[trigger] s[i]) by {
        assert(s[i] == a[i - 1]);
    }
    assert forall|i: int| n + 2 <= i < m implies is_flat(#[trigger] s[i]) by {
        assert(s[i] == b[i - n - 2]);
    }
    assert(s[0] == open && s[n + 1] == ',' && s[m] == close && s.len() == m + 1);
    lemma_flat_to(s, 0, 1, n + 1, 1);
    lemma_flat_to(s, 0, n + 2, m, 1);
    assert(top_parts(s, 0, m + 1, 0) == seq![s.skip(0)]);
    assert(s.skip(0) =~= s);
}

/// The text of a POM element is that of its one text node without white space around it,
/// and an element without one, or with a blank one, has none.
pub proof fn law_pom_text(doc: Seq<char>, nodes: Seq<XmlView>, element: int, t: int, raw: Seq<char>)
    requires
        next_child(nodes, element, Want::Text, 0) == Some(t),
        nodes[t].text == Some(raw),
    ensures
        trimmed(raw).len() > 0 ==> (text_of(doc, nodes, element) matches Some(p) && p.value
            == trimmed(raw)),
        trimmed(raw).len() == 0 ==> text_of(doc, nodes, element) is None,
        next_child(nodes, element, Want::Text, t + 1) is Some ==> (text_of(
            doc,
            nodes,
            element,
        ) matches Some(p) ==> p.span is None),
{
}

/// The alternate registries of a `Cargo.toml` are those of its `[registries]`, by name and
/// index, without a token.
pub proof fn law_alternate_registries(
    root: TomlTree,
    entries: Seq<(Seq<char>, TomlTree)>,
    starts: Seq<usize>,
    i: int,
)
    requires
        root.get("registries"@) == Some(TomlTree::Table(entries)),
        0 <= i < entries.len(),
    ensures
        ({
            let r = super::cargo_toml::cargo_manifest(root, starts).alternate_registries;
            &&& r.len() == entries.len()
            &&& r[i].name == entries[i].0
            &&& r[i].index_url == text_in(entries[i].1.get("index"@))
            &&& r[i].auth_token is None
        }),
{
}

/// The texts of a list are its strings, in order, and the texts of a table its strings by
/// name, the last one under each.
pub proof fn law_texts(
    list: Seq<TomlTree>,
    entries: Seq<(Seq<char>, TomlTree)>,
    name: Seq<char>,
    value: Seq<char>,
    span: Option<(usize, usize)>,
    b: bool,
)
    ensures
        ({
            let text = TomlTree::Text { value, span };
            let flag = TomlTree::Flag(b);
            &&& texts_in(Some(TomlTree::List(list.push(text)))) == texts_in(
                Some(TomlTree::List(list)),
            ).push(value)
            &&& texts_in(Some(TomlTree::List(list.push(flag)))) == texts_in(
                Some(TomlTree::List(list)),
            )
            &&& texts_in(None).len() == 0
            &&& super::cargo_workspace::text_entries(entries.push((name, text)))
                == super::cargo_workspace::text_entries(entries).insert(name, value)
            &&& super::cargo_workspace::text_entries(entries.push((name, flag)))
                == super::cargo_workspace::text_entries(entries)
        }),
{
    let text = TomlTree::Text { value, span };
    let flag = TomlTree::Flag(b);
    assert(list.push(text).drop_last() =~= list);
    assert(list.push(flag).drop_last() =~= list);
    assert(entries.push((name, text)).drop_last() =~= entries);
    assert(entries.push((name, flag)).drop_last() =~= entries);
}

} // verus!
