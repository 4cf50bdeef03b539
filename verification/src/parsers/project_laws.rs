//! What manifests say of the project itself, and of the dependencies of a POM.
use super::cargo_package::{
    auto_of, cfg_predicate, features_of, field_of, is_feature, optional_among, optional_in,
    optional_of, scripts_of, targets_in, targets_of, CargoTargetKind, DependencySection, FieldView,
};
use super::cargo_toml::dependencies_of;
use super::cargo_workspace::workspace_of;
use super::json_scan::StringView;
use super::pom_xml::{
    child_text, entry_at, interpolation_of, pom_item, property_of, table_of, terminal_of, uses_of,
    version_of, PomEntryView, PomTextView, PomVersionView,
};
use super::project::{
    dotnet_identity, has_element, line_scalar, module_named, pom_field, pom_identity, project_of,
    top_value, ProjectRole,
};
use super::position::located;
use super::pyproject_toml::{
    poetry_groups, pyproject_items, string_dependencies, string_groups, table_dependencies,
};
use crate::item::{DependencyKind, PackageSource};
use crate::manifest::ManifestKind;
use crate::text::{begins, has_any, Class};
use crate::toml::{get_in, lookup, text_in, toml_document, TomlTree};
use crate::writing::{
    is_plain, is_plain_char, lemma_after, lemma_ahead, lemma_find_absent, lemma_first_none,
    lemma_leading_at, lemma_not_begins, lemma_plain, lemma_plain_char, lemma_trailing_at,
};
use crate::xml::XmlView;
use vstd::prelude::*;

verus! {

/// A Cargo project is what `[package]` names, at its version, which may be the workspace's;
/// a manifest that names no package and declares a workspace is the workspace; and one
/// that does neither is unnamed.
pub proof fn law_cargo_project(content: Seq<char>, root: TomlTree, name: Seq<char>, version: Seq<char>)
    requires
        toml_document(content) == Some(root),
    ensures
        ({
            let p = project_of(ManifestKind::CargoToml, content);
            let package = root.get("package"@);
            &&& text_in(get_in(package, "name"@)) == Some(name) ==> p.name == Some(name) && p.role
                == ProjectRole::Package && p.version == field_of(get_in(package, "version"@))
            &&& text_in(get_in(package, "name"@)) is None && workspace_of(root) is Some ==> p.name
                is None && p.version is None && p.role == ProjectRole::Workspace
            &&& text_in(get_in(package, "name"@)) is None && workspace_of(root) is None ==> p.name
                is None && p.role == ProjectRole::Unnamed
        }),
{
}

/// A field of a package is the text it states, or the workspace's where it says so.
pub proof fn law_package_fields(
    entries: Seq<(Seq<char>, TomlTree)>,
    value: Seq<char>,
    span: Option<(usize, usize)>,
)
    ensures
        field_of(Some(TomlTree::Text { value, span })) == Some(FieldView::Literal(value)),
        lookup(entries, "workspace"@) == Some(TomlTree::Flag(true)) ==> field_of(
            Some(TomlTree::Table(entries)),
        ) == Some(FieldView::Workspace),
        lookup(entries, "workspace"@) != Some(TomlTree::Flag(true)) ==> field_of(
            Some(TomlTree::Table(entries)),
        ) is None,
        field_of(None) is None,
{
}

/// The name of a JSON manifest's project is the first string under its name at the top.
pub proof fn law_top_values(found: Seq<StringView>, v: StringView, key: Seq<char>)
    ensures
        v.path == seq![key] ==> top_value(seq![v] + found, key) == Some(v.value),
        v.path.len() != 1 ==> top_value(seq![v] + found, key) == top_value(found, key),
        v.path.len() == 1 && v.path[0] != key ==> top_value(seq![v] + found, key) == top_value(
            found,
            key,
        ),
{
    assert((seq![v] + found).drop_first() =~= found);
}

/// A Python project is what `[project]` says, and what `[tool.poetry]` says only where
/// there is no such table.
pub proof fn law_python_project(
    content: Seq<char>,
    root: TomlTree,
    project: Seq<(Seq<char>, TomlTree)>,
    poetry: Option<TomlTree>,
)
    requires
        toml_document(content) == Some(root),
        poetry == get_in(root.get("tool"@), "poetry"@),
    ensures
        ({
            let p = project_of(ManifestKind::PyprojectToml, content);
            &&& root.get("project"@) == Some(TomlTree::Table(project)) ==> p.name == text_in(
                lookup(project, "name"@),
            ) && match text_in(lookup(project, "version"@)) {
                Some(v) => p.version == Some(FieldView::Literal(v)),
                None => p.version is None,
            }
            &&& root.get("project"@) is None ==> p.name == text_in(get_in(poetry, "name"@))
                && match text_in(get_in(poetry, "version"@)) {
                Some(v) => p.version == Some(FieldView::Literal(v)),
                None => p.version is None,
            }
        }),
{
}

/// A .NET file that declares versions and no references is the workspace; any other is
/// unnamed.
pub proof fn law_dotnet_project(nodes: Seq<XmlView>)
    ensures
        has_element(nodes, "PackageVersion"@) && !has_element(nodes, "PackageReference"@)
            ==> dotnet_identity(nodes).role == ProjectRole::Workspace,
        has_element(nodes, "PackageReference"@) || !has_element(nodes, "PackageVersion"@)
            ==> dotnet_identity(nodes).role == ProjectRole::Unnamed,
        dotnet_identity(nodes).name is None && dotnet_identity(nodes).version is None,
{
}

/// A POM's project is its group and artifact, or its artifact alone, at its version.
pub proof fn law_pom_project(nodes: Seq<XmlView>, artifact: Seq<char>, group: Seq<char>)
    requires
        pom_field(nodes, "artifactId") == Some(artifact),
    ensures
        pom_field(nodes, "groupId") == Some(group) ==> pom_identity(nodes).name == Some(
            group + ":"@ + artifact,
        ),
        pom_field(nodes, "groupId") is None ==> pom_identity(nodes).name == Some(artifact),
        match pom_field(nodes, "version") {
            Some(v) => pom_identity(nodes).version == Some(FieldView::Literal(v)),
            None => pom_identity(nodes).version is None,
        },
{
}

/// A pnpm workspace file and a Gradle catalog are the workspace; a requirements file and a
/// Swift manifest name nothing.
pub proof fn law_nameless_projects(content: Seq<char>)
    ensures
        project_of(ManifestKind::PnpmWorkspaceYaml, content).role == ProjectRole::Workspace,
        project_of(ManifestKind::GradleVersionCatalog, content).role == ProjectRole::Workspace,
        project_of(ManifestKind::RequirementsTxt, content).role == ProjectRole::Unnamed,
        project_of(ManifestKind::PackageSwift, content).role == ProjectRole::Unnamed,
{
}

/// A `module` line names the module that follows the word, bare or in quotes.
#[verifier::rlimit(60)]
pub proof fn law_go_module(path: Seq<char>)
    requires
        is_plain(path),
    ensures
        module_named("module "@ + path) == Some(path),
        module_named("go "@ + path) is None,
{
    reveal_strlit("module ");
    reveal_strlit("module");
    reveal_strlit("go ");
    reveal_strlit("//");
    reveal_strlit(" ");
    let none = Seq::<char>::empty();
    let line = "module "@ + path;
    lemma_plain(path);
    assert(is_plain_char(path[0]) && is_plain_char(path[path.len() - 1]));
    lemma_plain_char(path[0]);
    lemma_plain_char(path.last());
    lemma_leading_at(none, line, Class::Space);
    assert(none + line =~= line);
    assert(line =~= "module"@ + (" "@ + path));
    lemma_after("module"@, " "@ + path);
    let rest = " "@ + path;
    assert forall|i: int| 0 <= i < rest.len() implies #[trigger] rest[i] != "//"@[0] by {
        if i > 0 {
            assert(rest[i] == path[i - 1]);
            lemma_plain_char(path[i - 1]);
        }
    }
    lemma_find_absent(rest, "//"@);
    lemma_leading_at(none, path, Class::Is('"'));
    assert(none + path =~= path);
    lemma_trailing_at(path, none, Class::Is('"'));
    assert(path + none =~= path);
    let other = "go "@ + path;
    assert(other[0] == 'g');
    lemma_leading_at(none, other, Class::Space);
    assert(none + other =~= other);
    lemma_not_begins(other, "module"@, 0);
}

/// A scalar at the top of a YAML file is what follows its key and a colon; an indented one
/// is not at the top.
#[verifier::rlimit(60)]
pub proof fn law_yaml_scalars(key: Seq<char>, value: Seq<char>)
    requires
        key == "name"@ || key == "version"@,
        is_plain(value),
    ensures
        line_scalar(key + ": "@ + value, key) == Some(value),
        line_scalar("  "@ + (key + ": "@ + value), key) is None,
{
    reveal_strlit("name");
    reveal_strlit("version");
    reveal_strlit(": ");
    reveal_strlit(":");
    reveal_strlit(" ");
    reveal_strlit("  ");
    let none = Seq::<char>::empty();
    let line = key + ": "@ + value;
    lemma_plain(value);
    assert(is_plain_char(value[0]) && is_plain_char(value[value.len() - 1]));
    lemma_plain_char(value[0]);
    lemma_plain_char(value.last());
    assert(line =~= key + (":"@ + (" "@ + value)));
    lemma_after(key, ":"@ + (" "@ + value));
    lemma_after(":"@, " "@ + value);
    let rest = " "@ + value;
    assert forall|i: int| 0 <= i < rest.len() implies #[trigger] rest[i] != '#' by {
        if i > 0 {
            assert(rest[i] == value[i - 1]);
            lemma_plain_char(value[i - 1]);
        }
    }
    assert(!has_any(rest, Class::Is('#')));
    lemma_first_none(rest, Class::Is('#'));
    lemma_leading_at(none, value, Class::Is('"'));
    assert(none + value =~= value);
    lemma_trailing_at(value, none, Class::Is('"'));
    assert(value + none =~= value);
    let inner = "  "@ + line;
    assert(inner[0] == ' ');
    lemma_not_begins(inner, key, 0);
}

/// The dependencies of a Python project come from Poetry's tables, from the standard lists
/// and groups, and from Pixi's table, each of its kind, in this order.
pub proof fn law_python_sections(root: TomlTree, starts: Seq<usize>, poetry: Option<TomlTree>)
    requires
        poetry == get_in(root.get("tool"@), "poetry"@),
    ensures
        ({
            let tables = |t: Option<TomlTree>| match t {
                Some(t) => t.entries(),
                None => seq![],
            };
            let list = |t: Option<TomlTree>| match t {
                Some(t) => t.list(),
                None => seq![],
            };
            let project = root.get("project"@);
            pyproject_items(root, starts) == table_dependencies(
                tables(get_in(poetry, "dependencies"@)),
                DependencyKind::Normal,
                starts,
            ) + poetry_groups(tables(get_in(poetry, "group"@)), starts) + table_dependencies(
                tables(get_in(poetry, "dev-dependencies"@)),
                DependencyKind::Dev,
                starts,
            ) + string_dependencies(
                list(get_in(project, "dependencies"@)),
                DependencyKind::Normal,
                starts,
            ) + string_groups(
                tables(get_in(project, "optional-dependencies"@)),
                DependencyKind::Optional,
                starts,
            ) + string_groups(
                tables(root.get("dependency-groups"@)),
                DependencyKind::Dev,
                starts,
            ) + table_dependencies(
                tables(root.get("dependencies"@)),
                DependencyKind::Normal,
                starts,
            )
        }),
{
}

/// A POM dependency is named by its group and artifact. Its scope makes it local or one for
/// tests, and it may be optional.
pub proof fn law_pom_entry(
    doc: Seq<char>,
    nodes: Seq<XmlView>,
    table: Option<int>,
    node: int,
    group: PomTextView,
    artifact: PomTextView,
)
    requires
        child_text(doc, nodes, Some(node), "groupId") == Some(group),
        child_text(doc, nodes, Some(node), "artifactId") == Some(artifact),
        !has_any(group.value, Class::Is('$')),
        !has_any(artifact.value, Class::Is('$')),
    ensures
        ({
            let scope = child_text(doc, nodes, Some(node), "scope");
            let optional = child_text(doc, nodes, Some(node), "optional");
            entry_at(doc, nodes, table, node) matches Some(e) && {
                &&& e.name == group.value + ":"@ + artifact.value
                &&& e.version == version_of(
                    doc,
                    nodes,
                    table,
                    child_text(doc, nodes, Some(node), "version"),
                )
                &&& (scope matches Some(s) && s.value == "system"@) <==> e.source
                    == PackageSource::Local
                &&& e.source != PackageSource::Local ==> e.source == PackageSource::Registry
                &&& (scope matches Some(s) && s.value == "test"@) <==> e.kind == DependencyKind::Dev
                &&& e.kind == DependencyKind::Optional <==> (optional matches Some(o) && o.value
                    == "true"@) && !(scope matches Some(s) && s.value == "test"@)
                &&& e.kind == DependencyKind::Normal || e.kind == DependencyKind::Dev || e.kind
                    == DependencyKind::Optional
            }
        }),
{
    lemma_no_interpolation(group.value);
    lemma_no_interpolation(artifact.value);
}

proof fn lemma_no_interpolation(value: Seq<char>)
    requires
        !has_any(value, Class::Is('$')),
    ensures
        interpolation_of(value) is None,
{
    reveal_strlit("${");
    if begins(value, "${"@) {
        assert(value.take(2)[0] == value[0]);
    }
}

/// A version is a literal where it holds no property, and the property it comes down to
/// where it is one: the property itself if its value is a literal, or else what that
/// refers to. A property that is not declared, or text around one, is unknown.
#[verifier::rlimit(60)]
pub proof fn law_pom_version(
    doc: Seq<char>,
    nodes: Seq<XmlView>,
    table: Option<int>,
    text: PomTextView,
    name: Seq<char>,
    value: PomTextView,
)
    requires
        is_plain(name),
    ensures
        !has_any(text.value, Class::Is('$')) ==> version_of(doc, nodes, table, Some(text))
            == PomVersionView::Literal(text),
        text.value == "${"@ + name + "}"@ && property_of(doc, nodes, table, name) == Some(value)
            && !has_any(value.value, Class::Is('$')) ==> version_of(doc, nodes, table, Some(text))
            == PomVersionView::Property(name),
        text.value == "${"@ + name + "}"@ && property_of(doc, nodes, table, name) is None
            ==> version_of(doc, nodes, table, Some(text)) == PomVersionView::Unknown,
        version_of(doc, nodes, table, None) == PomVersionView::Unknown,
{
    reveal_strlit("${");
    reveal_strlit("}");
    reveal_strlit("${}");
    if !has_any(text.value, Class::Is('$')) {
        lemma_no_interpolation(text.value);
    }
    if !has_any(value.value, Class::Is('$')) {
        lemma_no_interpolation(value.value);
    }
    if text.value == "${"@ + name + "}"@ {
        assert(text.value =~= "${"@ + (name + "}"@));
        lemma_after("${"@, name + "}"@);
        lemma_ahead(name, "}"@);
        let set = "${}"@;
        assert(set.len() == 3 && set[0] == '$' && set[1] == '{' && set[2] == '}');
        assert forall|i: int| 0 <= i < name.len() implies !Class::In("${}").has(
            #[trigger] name[i],
        ) by {
            assert(is_plain_char(name[i]));
            if set.contains(name[i]) {
                let j = choose|j: int| 0 <= j < set.len() && set[j] == name[i];
            }
        }
        assert(interpolation_of(text.value) == Some(name));
        reveal_with_fuel(terminal_of, 2);
    }
}

/// A POM dependency with a literal version that has a place is at that place; a property
/// that one dependency uses is rewritten where the property stands; one that several use,
/// or that is unknown, has no place.
pub proof fn law_pom_item(
    doc: Seq<char>,
    starts: Seq<usize>,
    nodes: Seq<XmlView>,
    entries: Seq<PomEntryView>,
    entry: PomEntryView,
)
    ensures
        ({
            let i = pom_item(doc, starts, nodes, entries, entry);
            let placed = |t: PomTextView|
                t.span matches Some(s) ==> i.source == entry.source && (i.version_line, i.version_col_start)
                    == located(starts, s.0);
            &&& i.name == entry.name
            &&& i.kind == entry.kind
            &&& entry.version matches PomVersionView::Literal(t) ==> i.version_constraint == t.value
                && placed(t) && (t.span is None ==> !i.rewritable())
            &&& entry.version matches PomVersionView::Property(p) ==> (property_of(
                doc,
                nodes,
                table_of(nodes),
                p,
            ) matches Some(t) ==> i.version_constraint == t.value && (uses_of(entries, p) == 1
                ==> placed(t)) && (uses_of(entries, p) != 1 ==> !i.rewritable()))
            &&& entry.version == PomVersionView::Unknown ==> i.version_constraint.len() == 0
                && !i.checkable()
            &&& entry.source == PackageSource::Local ==> i.source == PackageSource::Local
        }),
{
}

/// Adding a feature or a dependency of one: a feature has the names its list holds, and a
/// dependency is optional exactly if it says so.
pub proof fn law_cargo_features(
    entries: Seq<(Seq<char>, TomlTree)>,
    name: Seq<char>,
    tree: TomlTree,
    other: Seq<char>,
)
    ensures
        features_of(entries.push((name, tree))).contains_key(name),
        features_of(entries.push((name, tree)))[name] == crate::toml::texts_in(Some(tree)),
        other != name ==> (features_of(entries.push((name, tree))).contains_key(other)
            <==> features_of(entries).contains_key(other)),
        tree.get("optional"@) == Some(TomlTree::Flag(true)) ==> optional_among(
            entries.push((name, tree)),
        ) == optional_among(entries).push(name),
        tree.get("optional"@) != Some(TomlTree::Flag(true)) ==> optional_among(
            entries.push((name, tree)),
        ) == optional_among(entries),
{
    assert(entries.push((name, tree)).drop_last() =~= entries);
}

/// An optional dependency is a feature of its own name, unless a feature claims it.
pub proof fn law_implicit_features(
    features: Map<Seq<char>, Seq<Seq<char>>>,
    optional: Seq<Seq<char>>,
    name: Seq<char>,
    by: Seq<char>,
    i: int,
)
    ensures
        features.contains_key(name) ==> is_feature(features, optional, name),
        !features.contains_key(name) && !optional.contains(name) ==> !is_feature(
            features,
            optional,
            name,
        ),
        !features.contains_key(name) && features.contains_key(by) && 0 <= i < features[by].len()
            && features[by][i] == "dep:"@ + name ==> !is_feature(features, optional, name),
        optional.contains(name) && features == Map::<Seq<char>, Seq<Seq<char>>>::empty()
            ==> is_feature(features, optional, name),
{
}

/// The optional dependencies are those of the plain and the build table.
pub proof fn law_optional_tables(root: TomlTree)
    requires
        root.get("target"@) is None,
    ensures
        optional_of(root) == optional_in(root.get("dependencies"@)) + optional_in(
            root.get("build-dependencies"@),
        ),
{
    assert(optional_of(root) =~= optional_in(root.get("dependencies"@)) + optional_in(
        root.get("build-dependencies"@),
    ));
}

/// What targets a package declares, in order: the library, the binaries, tests, benches and
/// examples, and the build scripts.
pub proof fn law_cargo_targets(root: TomlTree, lib: Seq<(Seq<char>, TomlTree)>, path: Seq<char>, span: Option<
    (usize, usize),
>)
    ensures
        root.get("lib"@) == Some(TomlTree::Table(lib)) ==> targets_of(root).len() > 0 && targets_of(
            root,
        )[0].kind == CargoTargetKind::Lib && targets_of(root)[0].name == text_in(
            lookup(lib, "name"@),
        ) && targets_of(root)[0].path == text_in(lookup(lib, "path"@)),
        scripts_of(Some(TomlTree::Text { value: path, span })) == seq![path],
        scripts_of(Some(TomlTree::Flag(true))) == seq!["build.rs"@],
        scripts_of(Some(TomlTree::Flag(false))).len() == 0,
        scripts_of(None).len() == 0,
        root.get("lib"@) is None ==> targets_of(root) == targets_in(
            CargoTargetKind::Bin,
            root.get("bin"@),
        ) + targets_in(CargoTargetKind::Test, root.get("test"@)) + targets_in(
            CargoTargetKind::Bench,
            root.get("bench"@),
        ) + targets_in(CargoTargetKind::Example, root.get("example"@)) + scripts_of(
            get_in(root.get("package"@), "build"@),
        ).map_values(|p: Seq<char>| super::cargo_package::script_target(p)),
{
    let bins = targets_in(CargoTargetKind::Bin, root.get("bin"@));
    if root.get("lib"@) is None {
        assert(Seq::<super::cargo_package::TargetView>::empty() + bins =~= bins);
    }
}

/// Targets are found by themselves unless a flag says not to; a build script is, unless one
/// is stated.
pub proof fn law_auto_targets(package: Option<TomlTree>, b: bool)
    ensures
        get_in(package, "autobins"@) == Some(TomlTree::Flag(b)) ==> auto_of(package).bins == b,
        get_in(package, "autobins"@) is None ==> auto_of(package).bins,
        get_in(package, "autotests"@) == Some(TomlTree::Flag(b)) ==> auto_of(package).tests == b,
        get_in(package, "autotests"@) is None ==> auto_of(package).tests,
        get_in(package, "autobenches"@) == Some(TomlTree::Flag(b)) ==> auto_of(package).benches == b,
        get_in(package, "autobenches"@) is None ==> auto_of(package).benches,
        get_in(package, "autoexamples"@) == Some(TomlTree::Flag(b)) ==> auto_of(package).examples
            == b,
        get_in(package, "autoexamples"@) is None ==> auto_of(package).examples,
        get_in(package, "autolib"@) == Some(TomlTree::Flag(b)) ==> auto_of(package).lib == b,
        get_in(package, "autolib"@) is None ==> auto_of(package).lib,
        auto_of(package).build <==> get_in(package, "build"@) is None,
{
}

/// The dependencies behind a predicate are those of its three tables, each of its kind.
pub proof fn law_gated_dependencies(
    predicate: Seq<char>,
    t: TomlTree,
    starts: Seq<usize>,
    normal: Seq<(Seq<char>, TomlTree)>,
    dev: Seq<(Seq<char>, TomlTree)>,
    build: Seq<(Seq<char>, TomlTree)>,
)
    requires
        t.get("dependencies"@) == Some(TomlTree::Table(normal)),
        t.get("dev-dependencies"@) == Some(TomlTree::Table(dev)),
        t.get("build-dependencies"@) == Some(TomlTree::Table(build)),
    ensures
        ({
            let g = cfg_predicate(predicate, t, starts);
            &&& g.len() == 3
            &&& g[0].predicate == predicate && g[0].section == DependencySection::Normal
                && g[0].items == dependencies_of(normal, DependencyKind::Normal, starts)
            &&& g[1].predicate == predicate && g[1].section == DependencySection::Dev && g[1].items
                == dependencies_of(dev, DependencyKind::Dev, starts)
            &&& g[2].predicate == predicate && g[2].section == DependencySection::Build
                && g[2].items == dependencies_of(build, DependencyKind::Build, starts)
        }),
{
}

} // verus!
