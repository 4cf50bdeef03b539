//! What manifests declare: which entries are dependencies, from where, and of what kind.
use super::alias::{alias_of, registry_of};
use super::cargo_toml::{cargo_manifest, dependencies_of, dependency_of};
use super::cargo_workspace::{declared as declared_in, inherited};
use super::composer_json::composer_item;
use super::csproj::{csproj_item, package_of};
use super::deno_json::deno_item;
use super::gradle_catalog::{
    coordinate_of, library_of, literal_of, resolved_item, uses_of, version_named, DeclaredView,
    LocatedView,
};
use super::mix_exs::mix_item;
use super::package_json::{declared, entry_of, overridden, package_item, reference, skipped_source};
use super::position::located;
use super::pyproject_toml::table_dependency;
use super::json_scan::StringView;
use crate::item::{DependencyKind, ItemView, PackageSource};
use crate::pattern::PartView;
use crate::text::{begins, cut_last, has_any, last, trimmed, Class};
use crate::toml::{get_in, lookup, text_in, TomlTree};
use crate::width::byte_len;
use crate::writing::{
    is_plain, lemma_after, lemma_last_at, lemma_last_none, lemma_not_begins, lemma_plain,
    lemma_signs, lemma_trimmed_same,
};
use crate::xml::{attribute_of, AttributeView, XmlView};
use vstd::prelude::*;

verus! {

/// Whether an item is a dependency that is not looked up or rewritten: its source says
/// where it is, and it has no constraint and no place.
pub open spec fn is_bare(item: ItemView, name: Seq<char>, source: PackageSource) -> bool {
    &&& item.name == name
    &&& item.source == source
    &&& item.version_constraint.len() == 0
    &&& item.locked_version is None
    &&& !item.positioned()
    &&& !item.rewritable()
}

/// Whether an item is a registry dependency with a constraint between two byte offsets.
pub open spec fn is_stated(
    item: ItemView,
    starts: Seq<usize>,
    name: Seq<char>,
    constraint: Seq<char>,
    from: int,
    to: int,
) -> bool {
    &&& item.name == name
    &&& item.source == PackageSource::Registry
    &&& item.version_constraint == constraint
    &&& item.locked_version is None
    &&& item.checkable()
    &&& item.positioned()
    &&& 0 <= from <= to <= usize::MAX ==> {
        &&& item.version_line == located(starts, from as usize).0
        &&& item.version_col_start == located(starts, from as usize).1
        &&& item.version_col_start + (to - from) <= usize::MAX ==> item.version_col_end
            == item.version_col_start + (to - from)
    }
}

/// A Cargo dependency with a path is local, whatever version or git source it states
/// beside it, unless it is inherited; one with a git source is a git dependency, whatever
/// version it states; and one that is inherited has nothing of its own.
pub proof fn law_cargo_local_dependency(
    name: Seq<char>,
    entries: Seq<(Seq<char>, TomlTree)>,
    kind: DependencyKind,
    starts: Seq<usize>,
)
    ensures
        ({
            let tree = TomlTree::Table(entries);
            let r = dependency_of(name, tree, kind, starts);
            let inherits = lookup(entries, "workspace"@) == Some(TomlTree::Flag(true));
            &&& inherits ==> (r matches Some(i) && is_bare(i, name, PackageSource::Inherited)
                && i.kind == kind)
            &&& !inherits && lookup(entries, "path"@) is Some ==> (r matches Some(i) && is_bare(
                i,
                name,
                PackageSource::Local,
            ) && i.kind == kind)
            &&& !inherits && lookup(entries, "path"@) is None && lookup(entries, "git"@) is Some
                ==> (r matches Some(i) && is_bare(i, name, PackageSource::Git) && i.kind == kind)
        }),
{
}

/// A Cargo dependency that states a version alone, as a string or in a table, is a
/// registry dependency with that constraint, at the inside of the quotes; a table may
/// name the registry.
pub proof fn law_cargo_registry_dependency(
    name: Seq<char>,
    value: Seq<char>,
    at: (usize, usize),
    entries: Seq<(Seq<char>, TomlTree)>,
    kind: DependencyKind,
    starts: Seq<usize>,
)
    requires
        at.0 + 2 <= at.1,
    ensures
        ({
            let text = TomlTree::Text { value, span: Some(at) };
            let r = dependency_of(name, text, kind, starts);
            let t = dependency_of(name, TomlTree::Table(entries), kind, starts);
            &&& r matches Some(i) && is_stated(i, starts, name, value, at.0 + 1, at.1 - 1) && i.kind
                == kind && i.registry is None
            &&& lookup(entries, "workspace"@) != Some(TomlTree::Flag(true)) && lookup(
                entries,
                "path"@,
            ) is None && lookup(entries, "git"@) is None && lookup(entries, "version"@) == Some(text)
                ==> (t matches Some(i) && is_stated(i, starts, name, value, at.0 + 1, at.1 - 1)
                && i.kind == kind && i.registry == text_in(lookup(entries, "registry"@)))
        }),
{
}

/// A table that says neither that it is inherited nor a path, a git source or a version
/// declares nothing.
pub proof fn law_cargo_nothing_declared(
    name: Seq<char>,
    entries: Seq<(Seq<char>, TomlTree)>,
    kind: DependencyKind,
    starts: Seq<usize>,
)
    requires
        lookup(entries, "workspace"@) is None,
        lookup(entries, "path"@) is None,
        lookup(entries, "git"@) is None,
        lookup(entries, "version"@) is None,
    ensures
        dependency_of(name, TomlTree::Table(entries), kind, starts) is None,
{
}

/// One more entry of a dependency table adds the item it declares, if it declares one,
/// after the others.
pub proof fn law_cargo_one_more(
    entries: Seq<(Seq<char>, TomlTree)>,
    name: Seq<char>,
    tree: TomlTree,
    kind: DependencyKind,
    starts: Seq<usize>,
)
    ensures
        dependencies_of(entries.push((name, tree)), kind, starts) == match dependency_of(
            name,
            tree,
            kind,
            starts,
        ) {
            Some(item) => dependencies_of(entries, kind, starts).push(item),
            None => dependencies_of(entries, kind, starts),
        },
{
    assert(entries.push((name, tree)).drop_last() =~= entries);
}

/// All items of a dependency table have the kind of the table.
proof fn lemma_cargo_kind(
    entries: Seq<(Seq<char>, TomlTree)>,
    kind: DependencyKind,
    starts: Seq<usize>,
)
    ensures
        forall|i: int|
            0 <= i < dependencies_of(entries, kind, starts).len() ==> (#[trigger] dependencies_of(
                entries,
                kind,
                starts,
            )[i]).kind == kind,
    decreases entries.len(),
{
    if entries.len() > 0 {
        lemma_cargo_kind(entries.drop_last(), kind, starts);
    }
}

/// The dependencies of a `Cargo.toml` are those of `[dependencies]`, then of
/// `[dev-dependencies]`, of `[build-dependencies]` and of `[workspace.dependencies]`, and
/// each has the kind of its table.
pub proof fn law_cargo_sections(
    root: TomlTree,
    starts: Seq<usize>,
    normal: Seq<(Seq<char>, TomlTree)>,
    dev: Seq<(Seq<char>, TomlTree)>,
    build: Seq<(Seq<char>, TomlTree)>,
    shared: Seq<(Seq<char>, TomlTree)>,
)
    requires
        root.get("dependencies"@) == Some(TomlTree::Table(normal)),
        root.get("dev-dependencies"@) == Some(TomlTree::Table(dev)),
        root.get("build-dependencies"@) == Some(TomlTree::Table(build)),
        get_in(root.get("workspace"@), "dependencies"@) == Some(TomlTree::Table(shared)),
    ensures
        ({
            let a = dependencies_of(normal, DependencyKind::Normal, starts);
            let b = dependencies_of(dev, DependencyKind::Dev, starts);
            let c = dependencies_of(build, DependencyKind::Build, starts);
            let d = dependencies_of(shared, DependencyKind::Workspace, starts);
            &&& cargo_manifest(root, starts).items == a + b + c + d
            &&& forall|i: int| 0 <= i < a.len() ==> (#[trigger] a[i]).kind == DependencyKind::Normal
            &&& forall|i: int| 0 <= i < b.len() ==> (#[trigger] b[i]).kind == DependencyKind::Dev
            &&& forall|i: int| 0 <= i < c.len() ==> (#[trigger] c[i]).kind == DependencyKind::Build
            &&& forall|i: int|
                0 <= i < d.len() ==> (#[trigger] d[i]).kind == DependencyKind::Workspace
        }),
{
    lemma_cargo_kind(normal, DependencyKind::Normal, starts);
    lemma_cargo_kind(dev, DependencyKind::Dev, starts);
    lemma_cargo_kind(build, DependencyKind::Build, starts);
    lemma_cargo_kind(shared, DependencyKind::Workspace, starts);
}

/// A key of a table is looked up by its name: one more entry is found under its own name
/// if none was there before, and changes nothing else.
pub proof fn law_lookup(
    entries: Seq<(Seq<char>, TomlTree)>,
    name: Seq<char>,
    tree: TomlTree,
    key: Seq<char>,
)
    ensures
        lookup(entries.push((name, tree)), key) == match lookup(entries, key) {
            Some(t) => Some(t),
            None => if name == key {
                Some(tree)
            } else {
                None
            },
        },
    decreases entries.len(),
{
    let more = entries.push((name, tree));
    if entries.len() > 0 {
        assert(more.drop_first() =~= entries.drop_first().push((name, tree)));
        law_lookup(entries.drop_first(), name, tree, key);
    } else {
        assert(more.drop_first() =~= entries);
        assert(lookup(more.drop_first(), key) is None);
    }
}

/// A member's inherited dependency takes the constraint and the registry of the
/// workspace's declaration of the same name, and its source too where that is a path or a
/// git source; nothing else is inherited.
pub proof fn law_inherited_from_the_declaration(item: ItemView, decls: Seq<ItemView>)
    ensures
        item.source != PackageSource::Inherited ==> inherited(item, decls) is None,
        item.version_constraint.len() > 0 ==> inherited(item, decls) is None,
        item.source == PackageSource::Inherited && item.version_constraint.len() == 0 ==> (
        declared_in(decls, item.name) matches Some(d) ==> {
            &&& d.version_constraint.len() > 0 ==> (inherited(item, decls) matches Some(n)
                && n.version_constraint == d.version_constraint && n.registry == d.registry)
            &&& d.source == PackageSource::Local || d.source == PackageSource::Git ==> (inherited(
                item,
                decls,
            ) matches Some(n) && n.source == d.source)
            &&& d.source == PackageSource::Registry && d.version_constraint.len() > 0 ==> (
            inherited(item, decls) matches Some(n) && n.source == PackageSource::Inherited)
            &&& d.source == PackageSource::Registry && d.version_constraint.len() == 0
                ==> inherited(item, decls) is None
        }),
        declared_in(decls, item.name) is None ==> inherited(item, decls) is None,
{
}

/// The four dependency tables of a `package.json` are told apart, `catalog` and
/// `catalogs` are the workspace's, and any other string is no dependency.
#[verifier::rlimit(60)]
pub proof fn law_package_json_tables(section: Seq<char>, name: Seq<char>, other: Seq<char>)
    ensures
        entry_of(seq!["dependencies"@, name]) == Some((name, DependencyKind::Normal)),
        entry_of(seq!["devDependencies"@, name]) == Some((name, DependencyKind::Dev)),
        entry_of(seq!["peerDependencies"@, name]) == Some((name, DependencyKind::Peer)),
        entry_of(seq!["optionalDependencies"@, name]) == Some((name, DependencyKind::Optional)),
        entry_of(seq!["catalog"@, name]) == Some((name, DependencyKind::Workspace)),
        entry_of(seq!["catalogs"@, other, name]) == Some((name, DependencyKind::Workspace)),
        entry_of(seq!["scripts"@, name]) is None,
        entry_of(seq!["engines"@, name]) is None,
        entry_of(seq!["dependencies"@, other, name]) is None,
        entry_of(seq![name]) is None,
        overridden(name) matches Some(n) ==> {
            &&& entry_of(seq!["overrides"@, name]) == Some((n, DependencyKind::Override))
            &&& entry_of(seq!["resolutions"@, name]) == Some((n, DependencyKind::Override))
            &&& entry_of(seq!["pnpm"@, "overrides"@, name]) == Some((n, DependencyKind::Override))
        },
{
    reveal_strlit("dependencies");
    reveal_strlit("devDependencies");
    reveal_strlit("peerDependencies");
    reveal_strlit("optionalDependencies");
    reveal_strlit("catalog");
    reveal_strlit("catalogs");
    reveal_strlit("scripts");
    reveal_strlit("engines");
    reveal_strlit("overrides");
    reveal_strlit("resolutions");
    reveal_strlit("pnpm");
    assert("dependencies"@.len() == 12 && "devDependencies"@.len() == 15
        && "peerDependencies"@.len() == 16 && "optionalDependencies"@.len() == 20
        && "catalog"@.len() == 7 && "catalogs"@.len() == 8 && "scripts"@.len() == 7
        && "engines"@.len() == 7 && "overrides"@.len() == 9 && "resolutions"@.len() == 11
        && "pnpm"@.len() == 4);
    assert("catalog"@[0] == 'c' && "scripts"@[0] == 's' && "engines"@[0] == 'e');
}

/// A name that is overridden is the key itself, without a version after `@` and without
/// the path to it.
#[verifier::rlimit(60)]
pub proof fn law_override_keys(name: Seq<char>, version: Seq<char>, parent: Seq<char>)
    requires
        is_plain(name),
        is_plain(version),
        is_plain(parent),
        name != "."@,
    ensures
        overridden(name) == Some(name),
        overridden(name + "@"@ + version) == Some(name),
        overridden(parent + ">"@ + name) == Some(name),
        overridden(parent + "/"@ + name) == Some(name),
        overridden("*"@) is None,
        overridden("."@) is None,
{
    lemma_signs();
    reveal_strlit("/");
    assert("/"@ =~= seq!['/']);
    reveal_strlit("**");
    lemma_plain(name);
    lemma_plain(version);
    lemma_plain(parent);
    lemma_plain_selector(name);
    lemma_plain_selector(version);
    assert(crate::writing::is_plain_char(parent[0]));
    // The name alone.
    lemma_last_none(name, Class::Is('>'));
    lemma_last_none(name, Class::Is('/'));
    lemma_last_none(name, Class::Is('@'));
    assert(name.skip(0) =~= name);
    assert(name != "*"@ && name != "**"@) by {
        if name == "*"@ || name == "**"@ {
            assert(name[0] == '*');
        }
    }
    // With a version.
    let v = name + "@"@ + version;
    lemma_joined_plain(name, '@', version);
    lemma_last_at(name, '@', version, Class::Is('@'));
    assert(v.skip(0) =~= v);
    assert(v.take(name.len() as int) =~= name);
    assert(v[name.len() as int] == '@');
    // After a selector.
    let s = parent + ">"@ + name;
    lemma_last_at(parent, '>', name, Class::Is('>'));
    assert(s[parent.len() as int] == '>');
    // Under a parent.
    let p = parent + "/"@ + name;
    lemma_joined_plain(parent, '/', name);
    lemma_last_at(parent, '/', name, Class::Is('/'));
    assert(p.take(parent.len() as int) =~= parent);
    assert(p.skip(parent.len() as int + 1) =~= name);
    assert(p[parent.len() as int] == '/');
    lemma_plain_selector(parent);
    lemma_last_none(parent, Class::Is('/'));
    if begins(parent, "@"@) {
        assert(parent.take(1)[0] == parent[0]);
    }
    // Wildcards.
    assert(!has_any("*"@, Class::Is('>')) && !has_any("*"@, Class::Is('/')) && !has_any(
        "*"@,
        Class::Is('@'),
    ));
    lemma_last_none("*"@, Class::Is('>'));
    lemma_last_none("*"@, Class::Is('/'));
    lemma_last_none("*"@, Class::Is('@'));
    lemma_trimmed_same("*"@);
    assert("*"@.skip(0) =~= "*"@);
}

proof fn lemma_plain_selector(s: Seq<char>)
    requires
        is_plain(s),
    ensures
        !has_any(s, Class::Is('>')),
        !has_any(s, Class::Is('/')),
        !has_any(s, Class::Is('@')),
        trimmed(s) == s,
        s[0] != '*' && s[0] != '@',
{
    lemma_plain(s);
    assert forall|i: int| 0 <= i < s.len() implies #[trigger] s[i] != '>' && s[i] != '/' && s[i]
        != '@' && s[i] != '*' by {
        crate::writing::lemma_plain_char(s[i]);
    }
}

#[verifier::rlimit(60)]
proof fn lemma_joined_plain(a: Seq<char>, c: char, b: Seq<char>)
    requires
        is_plain(a),
        is_plain(b),
        c == '@' || c == '/',
    ensures
        trimmed(a + seq![c] + b) == a + seq![c] + b,
        !has_any(a + seq![c] + b, Class::Is('>')),
        c == '@' ==> !has_any(a + seq![c] + b, Class::Is('/')),
        cut_last(a + seq![c] + b, Class::Is('>')) is None,
        c == '@' ==> last(a + seq![c] + b, Class::Is('/')) == -1,
{
    let s = a + seq![c] + b;
    lemma_plain_selector(a);
    lemma_plain_selector(b);
    assert forall|i: int| 0 <= i < s.len() implies #[trigger] s[i] != '>' && (c == '@' ==> s[i]
        != '/') by {
        if i < a.len() {
            assert(s[i] == a[i]);
        } else if i > a.len() {
            assert(s[i] == b[i - a.len() - 1]);
        }
    }
    assert(crate::writing::is_plain_char(a[0]) && crate::writing::is_plain_char(b[b.len() - 1]));
    assert(s[0] == a[0] && s.last() == b.last());
    lemma_trimmed_same(s);
    lemma_last_none(s, Class::Is('>'));
    if c == '@' {
        lemma_last_none(s, Class::Is('/'));
    }
}

/// Where an npm dependency comes from, by how its value begins: a file, a link, the
/// workspace or a catalog is local; a repository or a URL is git; `npm:` and `jsr:` name
/// another package of a registry; anything else is a constraint.
#[verifier::rlimit(60)]
pub proof fn law_package_json_sources(rest: Seq<char>)
    ensures
        skipped_source("file:"@ + rest) == Some(PackageSource::Local),
        skipped_source("link:"@ + rest) == Some(PackageSource::Local),
        skipped_source("workspace:"@ + rest) == Some(PackageSource::Local),
        skipped_source("catalog:"@ + rest) == Some(PackageSource::Local),
        skipped_source("portal:"@ + rest) == Some(PackageSource::Local),
        skipped_source("git+"@ + rest) == Some(PackageSource::Git),
        skipped_source("git:"@ + rest) == Some(PackageSource::Git),
        skipped_source("github:"@ + rest) == Some(PackageSource::Git),
        skipped_source("http://"@ + rest) == Some(PackageSource::Git),
        skipped_source("https://"@ + rest) == Some(PackageSource::Git),
        registry_of("npm:"@ + rest) == Some(PackageSource::Registry),
        registry_of("jsr:"@ + rest) == Some(PackageSource::Jsr),
{
    lemma_after("file:"@, rest);
    lemma_after("link:"@, rest);
    lemma_after("workspace:"@, rest);
    lemma_after("catalog:"@, rest);
    lemma_after("portal:"@, rest);
    lemma_after("git+"@, rest);
    lemma_after("git:"@, rest);
    lemma_after("github:"@, rest);
    lemma_after("http://"@, rest);
    lemma_after("https://"@, rest);
    lemma_after("npm:"@, rest);
    lemma_after("jsr:"@, rest);
    lemma_git_is_not_local("git+"@ + rest);
    lemma_git_is_not_local("git:"@ + rest);
    lemma_git_is_not_local("github:"@ + rest);
    lemma_git_is_not_local("http://"@ + rest);
    lemma_git_is_not_local("https://"@ + rest);
    reveal_strlit("npm:");
    reveal_strlit("jsr:");
    lemma_not_begins("jsr:"@ + rest, "npm:"@, 0);
}

#[verifier::rlimit(60)]
proof fn lemma_git_is_not_local(s: Seq<char>)
    requires
        begins(s, "git+"@) || begins(s, "git:"@) || begins(s, "github:"@) || begins(s, "http://"@)
            || begins(s, "https://"@),
    ensures
        !begins(s, "file:"@),
        !begins(s, "link:"@),
        !begins(s, "workspace:"@),
        !begins(s, "catalog:"@),
        !begins(s, "portal:"@),
{
    reveal_strlit("git+");
    reveal_strlit("git:");
    reveal_strlit("github:");
    reveal_strlit("http://");
    reveal_strlit("https://");
    reveal_strlit("file:");
    reveal_strlit("link:");
    reveal_strlit("workspace:");
    reveal_strlit("catalog:");
    reveal_strlit("portal:");
    assert(s.len() > 0 && (s[0] == 'g' || s[0] == 'h')) by {
        if begins(s, "git+"@) {
            assert(s.take(4)[0] == s[0]);
        } else if begins(s, "git:"@) {
            assert(s.take(4)[0] == s[0]);
        } else if begins(s, "github:"@) {
            assert(s.take(7)[0] == s[0]);
        } else if begins(s, "http://"@) {
            assert(s.take(7)[0] == s[0]);
        } else {
            assert(s.take(8)[0] == s[0]);
        }
    }
    lemma_not_begins(s, "file:"@, 0);
    lemma_not_begins(s, "link:"@, 0);
    lemma_not_begins(s, "workspace:"@, 0);
    lemma_not_begins(s, "catalog:"@, 0);
    lemma_not_begins(s, "portal:"@, 0);
}

/// What an alias names: the package before the last `@` of what follows the registry, at
/// the version after it; a name without a version has none.
#[verifier::rlimit(60)]
pub proof fn law_alias(registry: Seq<char>, name: Seq<char>, version: Seq<char>)
    requires
        registry == "npm:"@ || registry == "jsr:"@,
        name.len() > 0,
        !has_any(name.skip(1), Class::Is('@')),
        !has_any(version, Class::Is('@')),
    ensures
        alias_of(registry + (name + "@"@ + version), 4).name == name,
        alias_of(registry + (name + "@"@ + version), 4).version == version,
        alias_of(registry + (name + "@"@ + version), 4).at == 4 + name.len() + 1,
        alias_of(registry + name, 4).name == name,
        alias_of(registry + name, 4).version.len() == 0,
{
    lemma_signs();
    reveal_strlit("npm:");
    reveal_strlit("jsr:");
    let full = name + "@"@ + version;
    assert((registry + full).skip(4) =~= full);
    assert((registry + name).skip(4) =~= name);
    lemma_last_at(name, '@', version, Class::Is('@'));
    crate::text::lemma_last(name, Class::Is('@'));
    let n = last(name, Class::Is('@'));
    if n > 0 {
        assert(name.skip(1)[n - 1] == name[n]);
    }
}

/// An npm dependency: a plain constraint is a registry dependency with that constraint
/// where it stands; a value that points elsewhere makes a dependency with nothing to check
/// or rewrite; an alias is a dependency on what it names.
pub proof fn law_package_json_item(
    starts: Seq<usize>,
    found: Seq<StringView>,
    entry: StringView,
    key: Seq<char>,
    kind: DependencyKind,
)
    requires
        entry_of(entry.path) == Some((key, kind)),
        kind != DependencyKind::Override || reference(entry.value) is None,
        entry.content_start <= entry.content_end,
    ensures
        ({
            let r = package_item(starts, found, entry);
            &&& r matches Some(i) && i.kind == kind
            &&& registry_of(entry.value) is None && skipped_source(entry.value) is None
                && !entry.escaped ==> (r matches Some(i) && is_stated(
                i,
                starts,
                key,
                entry.value,
                entry.content_start as int,
                entry.content_end as int,
            ))
            &&& registry_of(entry.value) is None ==> (skipped_source(entry.value) matches Some(s)
                ==> (r matches Some(i) && is_bare(i, key, s)))
            &&& registry_of(entry.value) matches Some(s) ==> (r matches Some(i) && i.source == s
                && i.name == alias_of(entry.value, 4).name && i.version_constraint == alias_of(
                entry.value,
                4,
            ).version)
            &&& entry.escaped ==> (r matches Some(i) && !i.rewritable())
        }),
{
}

/// An override that refers to a direct dependency takes the constraint declared for it,
/// and is not rewritten itself; one that refers to nothing declared is unresolved.
pub proof fn law_override_reference(
    starts: Seq<usize>,
    found: Seq<StringView>,
    entry: StringView,
    key: Seq<char>,
    name: Seq<char>,
)
    requires
        entry_of(entry.path) == Some((key, DependencyKind::Override)),
        entry.value == "$"@ + name,
        name.len() > 0,
        !has_any(name, Class::Space),
    ensures
        ({
            let r = package_item(starts, found, entry);
            match declared(found, name) {
                Some(c) => r matches Some(i) && i.name == key && i.version_constraint == c
                    && i.kind == DependencyKind::Override && !i.rewritable(),
                None => r matches Some(i) && i.name == key && i.source
                    == PackageSource::Unresolved && !i.checkable(),
            }
        }),
{
    lemma_after("$"@, name);
}

/// What is declared for a name is the last constraint that one of the four dependency
/// tables gives it.
#[verifier::rlimit(60)]
pub proof fn law_declared(found: Seq<StringView>, v: StringView, section: Seq<char>, name: Seq<char>)
    requires
        v.path == seq![section, name],
    ensures
        section == "dependencies"@ || section == "devDependencies"@ || section
            == "peerDependencies"@ || section == "optionalDependencies"@ ==> declared(
            found.push(v),
            name,
        ) == Some(v.value),
        section == "overrides"@ || section == "resolutions"@ ==> declared(found.push(v), name)
            == declared(found, name),
        forall|other: Seq<char>|
            other != name ==> #[trigger] declared(found.push(v), other) == declared(found, other),
{
    assert(found.push(v).drop_last() =~= found);
    reveal_strlit("dependencies");
    reveal_strlit("devDependencies");
    reveal_strlit("peerDependencies");
    reveal_strlit("optionalDependencies");
    reveal_strlit("overrides");
    reveal_strlit("resolutions");
    assert("dependencies"@.len() == 12 && "devDependencies"@.len() == 15
        && "peerDependencies"@.len() == 16 && "optionalDependencies"@.len() == 20
        && "overrides"@.len() == 9 && "resolutions"@.len() == 11);
}

/// An import of a `deno.json`, at the top or in a scope, that names a package of npm or
/// JSR is a dependency on it; any other value is none.
#[verifier::rlimit(60)]
pub proof fn law_deno_imports(
    starts: Seq<usize>,
    entry: StringView,
    registry: Seq<char>,
    name: Seq<char>,
    version: Seq<char>,
    specifier: Seq<char>,
    scope: Seq<char>,
)
    requires
        registry == "npm:"@ || registry == "jsr:"@,
        name.len() > 0,
        !has_any(name.skip(1), Class::Is('@')),
        !has_any(version, Class::Is('@')),
        entry.value == registry + (name + "@"@ + version),
    ensures
        entry.path == seq!["imports"@, specifier] || entry.path == seq!["scopes"@, scope, specifier]
            ==> (deno_item(starts, entry) matches Some(i) && i.name == name
            && i.version_constraint == version && i.kind == DependencyKind::Normal && i.source
            == if registry == "npm:"@ {
            PackageSource::Registry
        } else {
            PackageSource::Jsr
        }),
        entry.path == seq!["tasks"@, specifier] || entry.path == seq!["imports"@, scope, specifier]
            ==> deno_item(starts, entry) is None,
{
    law_alias(registry, name, version);
    law_package_json_sources(name + "@"@ + version);
    reveal_strlit("imports");
    reveal_strlit("scopes");
    reveal_strlit("tasks");
    assert("imports"@.len() == 7 && "scopes"@.len() == 6 && "tasks"@.len() == 5);
    reveal_strlit("npm:");
    reveal_strlit("jsr:");
    assert("npm:"@[0] == 'n' && "jsr:"@[0] == 'j');
}

/// A composer requirement on a vendor's package is a dependency with its constraint where
/// it stands, for development where the table says so; a requirement on the platform,
/// which has no vendor, is none.
pub proof fn law_composer_requirements(
    starts: Seq<usize>,
    entry: StringView,
    section: Seq<char>,
    name: Seq<char>,
)
    requires
        entry.path == seq![section, name],
        entry.content_start <= entry.content_end,
    ensures
        has_any(name, Class::Is('/')) && section == "require"@ ==> (composer_item(
            starts,
            entry,
        ) matches Some(i) && is_stated(
            i,
            starts,
            name,
            entry.value,
            entry.content_start as int,
            entry.content_end as int,
        ) && i.kind == DependencyKind::Normal),
        has_any(name, Class::Is('/')) && section == "require-dev"@ ==> (composer_item(
            starts,
            entry,
        ) matches Some(i) && is_stated(
            i,
            starts,
            name,
            entry.value,
            entry.content_start as int,
            entry.content_end as int,
        ) && i.kind == DependencyKind::Dev),
        !has_any(name, Class::Is('/')) ==> composer_item(starts, entry) is None,
        section == "conflict"@ || section == "replace"@ || section == "suggest"@ ==> composer_item(
            starts,
            entry,
        ) is None,
{
    reveal_strlit("require");
    reveal_strlit("require-dev");
    reveal_strlit("conflict");
    reveal_strlit("replace");
    reveal_strlit("suggest");
    assert("require"@.len() == 7 && "require-dev"@.len() == 11 && "conflict"@.len() == 8
        && "replace"@.len() == 7 && "suggest"@.len() == 7);
    assert("require"@[2] == 'q' && "replace"@[2] == 'p' && "suggest"@[2] == 'g');
}

/// A package reference of a project is a dependency, and a package version is the
/// workspace's; both by what `Include` or else `Update` names, with the version where it
/// stands. A version that is a property, or none at all, is no dependency.
pub proof fn law_csproj_references(
    starts: Seq<usize>,
    node: XmlView,
    name: Seq<char>,
    version: AttributeView,
)
    requires
        attribute_of(node.attributes, "Version"@, false) == Some(version),
        version.from <= version.to,
        package_of(node) == Some(name),
    ensures
        node.name == "PackageReference"@ && !has_any(version.value, Class::Is('$')) ==> (
        csproj_item(starts, node) matches Some(i) && is_stated(
            i,
            starts,
            name,
            version.value,
            version.from as int,
            version.to as int,
        ) && i.kind == DependencyKind::Normal),
        node.name == "PackageVersion"@ && !has_any(version.value, Class::Is('$')) ==> (csproj_item(
            starts,
            node,
        ) matches Some(i) && is_stated(
            i,
            starts,
            name,
            version.value,
            version.from as int,
            version.to as int,
        ) && i.kind == DependencyKind::Workspace),
        has_any(version.value, Class::Is('$')) ==> csproj_item(starts, node) is None,
        node.name == "ProjectReference"@ || node.name == "Reference"@ ==> csproj_item(starts, node)
            is None,
{
    reveal_strlit("PackageReference");
    reveal_strlit("PackageVersion");
    reveal_strlit("ProjectReference");
    reveal_strlit("Reference");
    assert("PackageReference"@.len() == 16 && "PackageVersion"@.len() == 14
        && "ProjectReference"@.len() == 16 && "Reference"@.len() == 9);
    assert("PackageReference"@[1] == 'a' && "ProjectReference"@[1] == 'r');
}

/// `Include` names the package, and `Update` where there is none.
pub proof fn law_csproj_names(node: XmlView)
    ensures
        attribute_of(node.attributes, "Include"@, true) matches Some(a) ==> package_of(node) == Some(
            a.value,
        ),
        attribute_of(node.attributes, "Include"@, true) is None ==> (attribute_of(
            node.attributes,
            "Update"@,
            true,
        ) matches Some(a) ==> package_of(node) == Some(a.value)),
{
}

/// A dependency of a `mix.exs` is the atom and the constraint that follow each other.
pub proof fn law_mix_dependency(starts: Seq<usize>, m: Seq<PartView>)
    requires
        m.len() >= 3,
        m[2].start + byte_len(m[2].text) <= usize::MAX,
        byte_len(m[2].text) >= 0,
    ensures
        mix_item(starts, m) matches Some(i) && is_stated(
            i,
            starts,
            m[1].text,
            m[2].text,
            m[2].start as int,
            m[2].start + byte_len(m[2].text),
        ) && i.kind == DependencyKind::Normal,
{
}

/// A Python dependency with a path or a URL is local, whatever version it states, one with
/// a git source is a git dependency, and the interpreter is none.
pub proof fn law_poetry_dependency(
    name: Seq<char>,
    value: Seq<char>,
    at: (usize, usize),
    entries: Seq<(Seq<char>, TomlTree)>,
    kind: DependencyKind,
    starts: Seq<usize>,
)
    requires
        at.0 + 2 <= at.1,
    ensures
        ({
            let text = TomlTree::Text { value, span: Some(at) };
            let r = table_dependency(name, text, kind, starts);
            let t = table_dependency(name, TomlTree::Table(entries), kind, starts);
            let elsewhere = lookup(entries, "path"@) is Some || lookup(entries, "url"@) is Some;
            &&& name == "python"@ ==> r is None && t is None
            &&& name != "python"@ ==> {
                &&& r matches Some(i) && is_stated(i, starts, name, value, at.0 + 1, at.1 - 1)
                    && i.kind == kind
                &&& elsewhere ==> (t matches Some(i) && is_bare(i, name, PackageSource::Local)
                    && i.kind == kind)
                &&& !elsewhere && lookup(entries, "git"@) is Some ==> (t matches Some(i) && is_bare(
                    i,
                    name,
                    PackageSource::Git,
                ) && i.kind == kind)
                &&& !elsewhere && lookup(entries, "git"@) is None && lookup(entries, "version"@)
                    == Some(text) ==> (t matches Some(i) && is_stated(
                    i,
                    starts,
                    name,
                    value,
                    at.0 + 1,
                    at.1 - 1,
                ) && i.kind == kind)
            }
        }),
{
}

/// A library of a catalog with a version of its own is a dependency at that version; one
/// that refers to an alias that no other library refers to is at the alias's version,
/// where it stands; one that shares its alias has the alias's version without a place; and
/// one without a version, or with an alias that names nothing, is none.
pub proof fn law_catalog_item(
    starts: Seq<usize>,
    versions: Seq<(Seq<char>, TomlTree)>,
    declared: Seq<DeclaredView>,
    entry: DeclaredView,
)
    ensures
        ({
            let r = resolved_item(starts, versions, declared, entry);
            &&& entry.version matches Some(v) ==> (v.from <= v.to ==> (r matches Some(i)
                && is_stated(i, starts, entry.name, v.value, v.from as int, v.to as int)))
            &&& entry.version is None && entry.reference is None ==> r is None
            &&& entry.version is None ==> (entry.reference matches Some(alias) ==> {
                match version_named(versions, alias) {
                    None => r is None,
                    Some(v) => {
                        &&& uses_of(declared, alias) == 1 && v.from <= v.to ==> (r matches Some(i)
                            && is_stated(i, starts, entry.name, v.value, v.from as int, v.to as int))
                        &&& uses_of(declared, alias) != 1 ==> (r matches Some(i) && i.name
                            == entry.name && i.version_constraint == v.value && i.source
                            == PackageSource::Inherited && !i.rewritable())
                    },
                }
            })
        }),
{
}

/// A rich version is what it strictly is, or else what it requires, or else what it
/// prefers.
pub proof fn law_catalog_rich_version(entries: Seq<(Seq<char>, TomlTree)>, at: (usize, usize), v: Seq<
    char,
>)
    requires
        at.0 + 2 <= at.1,
    ensures
        ({
            let text = TomlTree::Text { value: v, span: Some(at) };
            let tree = Some(TomlTree::Table(entries));
            let here = Some(
                LocatedView { value: v, from: (at.0 + 1) as usize, to: (at.1 - 1) as usize },
            );
            &&& literal_of(Some(text)) == here
            &&& lookup(entries, "strictly"@) == Some(text) ==> literal_of(tree) == here
            &&& lookup(entries, "strictly"@) is None && lookup(entries, "require"@) == Some(text)
                ==> literal_of(tree) == here
            &&& lookup(entries, "strictly"@) is None && lookup(entries, "require"@) is None
                && lookup(entries, "prefer"@) == Some(text) ==> literal_of(tree) == here
        }),
{
}

/// A library is named by its module, or by its group and name.
pub proof fn law_catalog_coordinate(
    entries: Seq<(Seq<char>, TomlTree)>,
    module: Seq<char>,
    group: Seq<char>,
    name: Seq<char>,
)
    ensures
        ({
            let tree = TomlTree::Table(entries);
            &&& text_in(lookup(entries, "module"@)) == Some(module) && module.len() > 0
                ==> coordinate_of(tree) == Some(module)
            &&& text_in(lookup(entries, "module"@)) is None && text_in(lookup(entries, "group"@))
                == Some(group) && text_in(lookup(entries, "name"@)) == Some(name) ==> coordinate_of(
                tree,
            ) == Some(group + ":"@ + name)
            &&& coordinate_of(tree) matches Some(c) ==> (library_of(tree) matches Some(d) && d.name
                == c && d.version == literal_of(lookup(entries, "version"@)) && d.reference
                == text_in(get_in(lookup(entries, "version"@), "ref"@)))
        }),
{
}

/// A library written as one string is the group and name before the last colon, at the
/// version after it.
pub proof fn law_catalog_shorthand(
    group: Seq<char>,
    name: Seq<char>,
    version: Seq<char>,
    at: (usize, usize),
)
    requires
        !has_any(version, Class::Is(':')),
    ensures
        version.len() > 0 ==> (library_of(
            TomlTree::Text { value: group + ":"@ + name + ":"@ + version, span: Some(at) },
        ) matches Some(d) && d.name == group + ":"@ + name && d.reference is None
            && (d.version matches Some(v) && v.value == version)),
{
    reveal_strlit(":");
    assert(":"@ =~= seq![':']);
    let coordinate = group + ":"@ + name;
    lemma_last_at(coordinate, ':', version, Class::Is(':'));
    assert(coordinate[group.len() as int] == ':');
}

} // verus!
