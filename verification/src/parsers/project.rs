//! Reader of a manifest's **project identity**: the name and version the manifest
//! declares for itself, as opposed to the dependencies it declares on others.
//!
//! A manifest that declares *only* central dependency versions (a virtual Cargo workspace
//! root, `pnpm-workspace.yaml`, `Directory.Packages.props`, a Gradle version catalog) is
//! not a project at all. A
//! Cargo member writing `version.workspace = true` is reported as
//! [`PackageField::Workspace`] for the caller to resolve against the workspace root, and
//! a `*.csproj`, whose project name is its file name, reports no name.
use super::cargo_package::{
    field_of, opt_field, opt_str, parse_package_manifest, FieldView, PackageField,
};
use super::cargo_workspace::{parse_workspace, workspace_of};
use super::json_scan::{document_scan, scan_strings, values_of, JsonStringValue, StringView};
use crate::manifest::ManifestKind;
use crate::split::{lines, lines_of, text3, texts};
use crate::text::{
    after_prefix, any, chars_of, cut, find, find_str, first, has_any, is_alnum, is_space,
    opt_string, position, skip, space, split_once, str_eq, string_of, strip_prefix, take, trim,
    trim_class, trim_of, trim_start, trim_start_of, trimmed, Class,
};
use crate::toml::{
    get_in, node_in, parse_document, text_at, text_in, toml_document, TomlNode, TomlTree,
};
use crate::xml::{
    child_named, find_named, find_root, node_views, parse_nodes, root_element, xml_document,
    XmlNode, XmlView,
};
use vstd::prelude::*;

verus! {

/// What a manifest is, as far as an inventory is concerned.
#[derive(Debug, Clone, Copy, PartialEq, Eq, Structural)]
#[non_exhaustive]
pub enum ProjectRole {
    /// A named package: it declares an identity and (normally) its own dependencies.
    Package,
    /// A workspace or central-version manifest that declares no package of its own. Its
    /// dependency entries are declarations members opt into, not its own dependencies.
    Workspace,
    /// A dependency list with no declared identity: `requirements.txt`, a `*.csproj`
    /// (named by its file), a `package.json` without a `name`.
    Unnamed,
}

impl Default for ProjectRole {
    fn default() -> (r: Self)
        ensures
            r == ProjectRole::Package,
    {
        ProjectRole::Package
    }
}

/// A manifest's declared identity.
#[derive(Debug, Clone, PartialEq, Eq)]
#[non_exhaustive]
pub struct ProjectMeta {
    /// The declared package name, or `None` when the manifest declares none.
    pub name: Option<String>,
    /// The declared version, possibly inherited from a workspace root (Cargo only).
    pub version: Option<PackageField>,
    /// What kind of manifest this is.
    pub role: ProjectRole,
}

/// What a [`ProjectMeta`] says.
pub ghost struct ProjectView {
    /// The name.
    pub name: Option<Seq<char>>,
    /// The version.
    pub version: Option<FieldView>,
    /// The role.
    pub role: ProjectRole,
}

impl View for ProjectMeta {
    type V = ProjectView;

    open spec fn view(&self) -> ProjectView {
        ProjectView {
            name: opt_string(self.name),
            version: opt_field(self.version),
            role: self.role,
        }
    }
}

impl Default for ProjectMeta {
    fn default() -> (r: Self)
        ensures
            r@ == (ProjectView { name: None, version: None, role: ProjectRole::Package }),
    {
        ProjectMeta { name: None, version: None, role: ProjectRole::default() }
    }
}

impl ProjectMeta {
    /// The literal version, or `None` when absent or inherited. Callers with
    /// filesystem access resolve an inherited version with
    /// [`PackageField::resolve`].
    #[must_use]
    pub fn literal_version(&self) -> (r: Option<&str>)
        ensures
            opt_str(r) == match self@.version {
                Some(f) => f.literal(),
                None => None,
            },
    {
        match &self.version {
            Some(f) => f.literal(),
            None => None,
        }
    }
}

/// An identity: a package where there is a name, else unnamed.
pub open spec fn identity(name: Option<Seq<char>>, version: Option<FieldView>) -> ProjectView {
    ProjectView {
        name,
        version,
        role: if name is Some {
            ProjectRole::Package
        } else {
            ProjectRole::Unnamed
        },
    }
}

/// A literal version, where there is one.
pub open spec fn literal_field(version: Option<Seq<char>>) -> Option<FieldView> {
    match version {
        Some(v) => Some(FieldView::Literal(v)),
        None => None,
    }
}

/// A manifest that declares dependency versions for others but no package of its own.
pub open spec fn central() -> ProjectView {
    ProjectView { name: None, version: None, role: ProjectRole::Workspace }
}

/// The identity of a `Cargo.toml`: `[package]`, else a `[workspace]` table with no
/// package (a virtual root).
pub open spec fn cargo_identity(content: Seq<char>) -> ProjectView {
    match toml_document(content) {
        Some(root) => {
            let name = text_in(get_in(root.get("package"@), "name"@));
            if name is None && workspace_of(root) is Some {
                central()
            } else {
                identity(name, field_of(get_in(root.get("package"@), "version"@)))
            }
        },
        None => identity(None, None),
    }
}

/// The first string of a document at a top-level key.
pub open spec fn top_value(found: Seq<StringView>, key: Seq<char>) -> Option<Seq<char>>
    decreases found.len(),
{
    if found.len() == 0 {
        None
    } else if found[0].path.len() == 1 && found[0].path[0] == key {
        Some(found[0].value)
    } else {
        top_value(found.drop_first(), key)
    }
}

/// The identity of a JSON manifest: its top-level `name` and `version`.
pub open spec fn json_identity_of(content: Seq<char>) -> ProjectView {
    let found = document_scan(content).found;
    identity(top_value(found, "name"@), literal_field(top_value(found, "version"@)))
}

/// The identity of a parsed `pyproject.toml`: PEP 621 `[project]`, else `[tool.poetry]`.
pub open spec fn pyproject_identity(root: TomlTree) -> ProjectView {
    let project = root.get("project"@);
    let section = if project matches Some(t) && t is Table {
        project
    } else {
        get_in(root.get("tool"@), "poetry"@)
    };
    identity(
        text_in(get_in(section, "name"@)),
        literal_field(text_in(get_in(section, "version"@))),
    )
}

/// The path of a `module` directive, where a line is one.
pub open spec fn module_named(line: Seq<char>) -> Option<Seq<char>> {
    match after_prefix(trim_start_of(line, Class::Space), "module"@) {
        Some(rest) => {
            let n = find(rest, "//"@);
            let code = if n >= 0 {
                rest.take(n)
            } else {
                rest
            };
            let path = trim_of(trimmed(code), Class::Is('"'));
            if path.len() > 0 {
                Some(path)
            } else {
                None
            }
        },
        None => None,
    }
}

/// The path of the first `module` directive among some lines.
pub open spec fn first_module(lines: Seq<Seq<char>>) -> Option<Seq<char>>
    decreases lines.len(),
{
    if lines.len() == 0 {
        None
    } else if module_named(lines[0]) is Some {
        module_named(lines[0])
    } else {
        first_module(lines.drop_first())
    }
}

/// The scalar that a line gives a top-level key, where it gives one. An indented line
/// belongs to a nested map (a dependency's `version:`, for instance).
pub open spec fn line_scalar(line: Seq<char>, key: Seq<char>) -> Option<Seq<char>> {
    match after_prefix(line, key) {
        Some(rest) => match after_prefix(rest, ":"@) {
            Some(value) => {
                let v = trim_of(
                    trimmed(value.take(first(value, Class::Is('#')))),
                    Class::Is('"'),
                );
                if v.len() > 0 && !is_space(line[0]) {
                    Some(v)
                } else {
                    None
                }
            },
            None => None,
        },
        None => None,
    }
}

/// The first scalar that some lines give a top-level key.
pub open spec fn first_scalar(lines: Seq<Seq<char>>, key: Seq<char>) -> Option<Seq<char>>
    decreases lines.len(),
{
    if lines.len() == 0 {
        None
    } else if line_scalar(lines[0], key) is Some {
        line_scalar(lines[0], key)
    } else {
        first_scalar(lines.drop_first(), key)
    }
}

/// What follows the first occurrence of a string.
pub open spec fn after_first(s: Seq<char>, needle: Seq<char>) -> Option<Seq<char>> {
    let n = find(s, needle);
    if n >= 0 {
        Some(s.skip(n + needle.len()))
    } else {
        None
    }
}

/// Whether a character is alphabetic or numeric in Unicode.
pub uninterp spec fn unicode_alphanumeric(c: char) -> bool;

/// `char::is_alphanumeric`. Claimed: the answer depends on the character alone, and of
/// the characters of ASCII the letters and digits are alphanumeric and no others.
#[verifier::external_body]
fn alphanumeric(c: char) -> (r: bool)
    ensures
        r == unicode_alphanumeric(c),
        (c as u32) < 128 ==> r == is_alnum(c),
{
    c.is_alphanumeric()
}

/// How many characters a text begins with that may stand in an atom.
pub open spec fn atom_len(s: Seq<char>) -> int
    decreases s.len(),
{
    if s.len() > 0 && (unicode_alphanumeric(s[0]) || s[0] == '_') {
        1 + atom_len(s.drop_first())
    } else {
        0
    }
}

/// The text between a string's first occurrence and the next quote, unless it is empty.
pub open spec fn quoted_after(s: Seq<char>, needle: Seq<char>) -> Option<Seq<char>> {
    match after_first(s, needle) {
        Some(rest) => match cut(rest, Class::Is('"')) {
            Some((value, _)) => if value.len() > 0 {
                Some(value)
            } else {
                None
            },
            None => None,
        },
        None => None,
    }
}

/// The atom after a string's first occurrence, unless it is empty.
pub open spec fn atom_after(s: Seq<char>, needle: Seq<char>) -> Option<Seq<char>> {
    match after_first(s, needle) {
        Some(rest) => if atom_len(rest) > 0 {
            Some(rest.take(atom_len(rest)))
        } else {
            None
        },
        None => None,
    }
}

/// The text of a child element of the root, unless it is empty or a property.
pub open spec fn pom_field(nodes: Seq<XmlView>, tag: &str) -> Option<Seq<char>> {
    match child_named(nodes, root_element(nodes), tag) {
        Some(i) => match nodes[i].text {
            Some(raw) => {
                let t = trimmed(raw);
                if t.len() > 0 && !has_any(t, Class::Is('$')) {
                    Some(t)
                } else {
                    None
                }
            },
            None => None,
        },
        None => None,
    }
}

/// The identity of a POM: the `<artifactId>`, `<groupId>`, and `<version>` directly under
/// `<project>`.
pub open spec fn pom_identity(nodes: Seq<XmlView>) -> ProjectView {
    let name = match (pom_field(nodes, "artifactId"), pom_field(nodes, "groupId")) {
        (Some(artifact), Some(group)) => Some(group + ":"@ + artifact),
        (artifact, _) => artifact,
    };
    identity(name, literal_field(pom_field(nodes, "version")))
}

/// Whether a document has an element with a name.
pub open spec fn has_element(nodes: Seq<XmlView>, tag: Seq<char>) -> bool {
    exists|i: int| 0 <= i < nodes.len() && (#[trigger] nodes[i]).name == tag
}

/// The identity of a .NET project file: it is named by its file, and one that declares
/// central versions and references no package (`Directory.Packages.props`) is no project.
pub open spec fn dotnet_identity(nodes: Seq<XmlView>) -> ProjectView {
    if has_element(nodes, "PackageVersion"@) && !has_element(nodes, "PackageReference"@) {
        central()
    } else {
        identity(None, None)
    }
}

/// The identity that a manifest declares for itself.
pub open spec fn project_of(kind: ManifestKind, content: Seq<char>) -> ProjectView {
    match kind {
        ManifestKind::CargoToml => cargo_identity(content),
        ManifestKind::PackageJson | ManifestKind::DenoJson | ManifestKind::ComposerJson => {
            json_identity_of(content)
        },
        ManifestKind::PyprojectToml => match toml_document(content) {
            Some(root) => pyproject_identity(root),
            None => identity(None, None),
        },
        ManifestKind::GoMod => identity(first_module(lines_of(content)), None),
        ManifestKind::PubspecYaml => identity(
            first_scalar(lines_of(content), "name"@),
            literal_field(first_scalar(lines_of(content), "version"@)),
        ),
        ManifestKind::MixExs => identity(
            atom_after(content, "app: :"@),
            literal_field(quoted_after(content, "version: \""@)),
        ),
        ManifestKind::PomXml => match xml_document(content) {
            Ok(nodes) => pom_identity(nodes),
            Err(_) => identity(None, None),
        },
        ManifestKind::PnpmWorkspaceYaml | ManifestKind::GradleVersionCatalog => central(),
        ManifestKind::Csproj => match xml_document(content) {
            Ok(nodes) => dotnet_identity(nodes),
            Err(_) => identity(None, None),
        },
        ManifestKind::RequirementsTxt | ManifestKind::PackageSwift => identity(None, None),
    }
}

/// An identity: a package where there is a name, else unnamed.
fn meta(name: Option<String>, version: Option<PackageField>) -> (r: ProjectMeta)
    ensures
        r@ == identity(opt_string(name), opt_field(version)),
{
    let role = if name.is_some() {
        ProjectRole::Package
    } else {
        ProjectRole::Unnamed
    };
    ProjectMeta { name, version, role }
}

/// A dependency list with no declared identity.
fn unnamed() -> (r: ProjectMeta)
    ensures
        r@ == identity(None, None),
{
    meta(None, None)
}

/// A manifest that declares dependency versions for others but no package of its own.
fn workspace_meta() -> (r: ProjectMeta)
    ensures
        r@ == central(),
{
    ProjectMeta { name: None, version: None, role: ProjectRole::Workspace }
}

/// A literal version, where there is one.
fn literal(version: Option<String>) -> (r: Option<PackageField>)
    ensures
        opt_field(r) == literal_field(opt_string(version)),
{
    match version {
        Some(v) => Some(PackageField::Literal(v)),
        None => None,
    }
}

/// `Cargo.toml`: `[package]`, else a `[workspace]` table with no package (virtual root).
fn cargo(content: &str) -> (r: ProjectMeta)
    ensures
        r@ == cargo_identity(content@),
{
    match parse_package_manifest(content) {
        Ok(manifest) => {
            if manifest.name.is_none() && parse_workspace(content).is_some() {
                return workspace_meta();
            }
            meta(manifest.name, manifest.version)
        },
        Err(_) => unnamed(),
    }
}

/// The first string of a document at a top-level key.
fn find_top(values: &Vec<JsonStringValue>, key: &str) -> (r: Option<String>)
    ensures
        opt_string(r) == top_value(values_of(values@), key@),
{
    let ghost all = values_of(values@);
    let mut i: usize = 0;
    assert(all.skip(0) =~= all);
    while i < values.len()
        invariant
            i <= values.len(),
            all == values_of(values@),
            top_value(all, key@) == top_value(all.skip(i as int), key@),
        decreases values.len() - i,
    {
        let v = &values[i];
        proof {
            assert(all.skip(i as int)[0] == v@);
            assert(all.skip(i as int).drop_first() =~= all.skip(i + 1));
        }
        if v.path.len() == 1 && str_eq(v.path[0].as_str(), key) {
            return Some(v.value.clone());
        }
        i = i + 1;
    }
    None
}

/// `package.json` / `deno.json` / `composer.json`: top-level `name` and `version`.
fn json_identity(content: &str) -> (r: ProjectMeta)
    ensures
        r@ == json_identity_of(content@),
{
    let values = scan_strings(content);
    let name = find_top(&values, "name");
    let version = find_top(&values, "version");
    meta(name, literal(version))
}

/// The identity of a parsed `pyproject.toml`: PEP 621 `[project]`, else `[tool.poetry]`.
pub fn pyproject_from(root: &TomlNode) -> (r: ProjectMeta)
    ensures
        r@ == pyproject_identity(root@),
{
    let project = root.get("project");
    let is_table = match project {
        Some(n) => n.entries().is_some(),
        None => false,
    };
    let section = if is_table {
        project
    } else {
        node_in(root.get("tool"), "poetry")
    };
    let name = text_at(node_in(section, "name"));
    let version = text_at(node_in(section, "version"));
    meta(name, literal(version))
}

/// `pyproject.toml`: the identity it states.
fn pyproject(content: &str) -> (r: ProjectMeta)
    ensures
        r@ == project_of(ManifestKind::PyprojectToml, content@),
{
    match parse_document(content) {
        Ok(root) => pyproject_from(&root),
        Err(_) => unnamed(),
    }
}

/// The path of a `module` directive, where a line is one.
fn read_module(line: &[char]) -> (r: Option<String>)
    ensures
        opt_string(r) == module_named(line@),
{
    match strip_prefix(trim_start(line, Class::Space), "module") {
        Some(rest) => {
            let code = match find_str(rest, "//") {
                Some(n) => take(rest, n),
                None => rest,
            };
            let path = trim_class(trim(code), Class::Is('"'));
            if path.len() > 0 {
                Some(string_of(path))
            } else {
                None
            }
        },
        None => None,
    }
}

/// `go.mod`: the `module` directive. A module path is its identity; there is no version.
fn go_module(content: &str) -> (r: ProjectMeta)
    ensures
        r@ == identity(first_module(lines_of(content@)), None),
{
    let chars = chars_of(content);
    let all_lines = lines(chars.as_slice());
    let ghost all = texts(all_lines@);
    let mut i: usize = 0;
    assert(all.skip(0) =~= all);
    while i < all_lines.len()
        invariant
            i <= all_lines.len(),
            all == texts(all_lines@),
            all == lines_of(content@),
            first_module(all) == first_module(all.skip(i as int)),
        decreases all_lines.len() - i,
    {
        proof {
            assert(all.skip(i as int)[0] == all_lines@[i as int]@);
            assert(all.skip(i as int).drop_first() =~= all.skip(i + 1));
        }
        let name = read_module(all_lines[i]);
        if name.is_some() {
            return meta(name, None);
        }
        i = i + 1;
    }
    unnamed()
}

/// The scalar that a line gives a top-level key, where it gives one.
fn read_scalar(line: &[char], key: &str) -> (r: Option<String>)
    requires
        key@.len() > 0,
    ensures
        opt_string(r) == line_scalar(line@, key@),
{
    match strip_prefix(line, key) {
        Some(rest) => match strip_prefix(rest, ":") {
            Some(value) => {
                let v = trim_class(
                    trim(take(value, position(value, Class::Is('#')))),
                    Class::Is('"'),
                );
                if v.len() > 0 && !space(line[0]) {
                    Some(string_of(v))
                } else {
                    None
                }
            },
            None => None,
        },
        None => None,
    }
}

/// The first scalar that some lines give a top-level key.
fn find_scalar(all_lines: &Vec<&[char]>, key: &str) -> (r: Option<String>)
    requires
        key@.len() > 0,
    ensures
        opt_string(r) == first_scalar(texts(all_lines@), key@),
{
    let ghost all = texts(all_lines@);
    let mut i: usize = 0;
    assert(all.skip(0) =~= all);
    while i < all_lines.len()
        invariant
            i <= all_lines.len(),
            key@.len() > 0,
            all == texts(all_lines@),
            first_scalar(all, key@) == first_scalar(all.skip(i as int), key@),
        decreases all_lines.len() - i,
    {
        proof {
            assert(all.skip(i as int)[0] == all_lines@[i as int]@);
            assert(all.skip(i as int).drop_first() =~= all.skip(i + 1));
        }
        let found = read_scalar(all_lines[i], key);
        if found.is_some() {
            return found;
        }
        i = i + 1;
    }
    None
}

/// `pubspec.yaml`: the top-level `name:` and `version:` scalars.
fn pubspec(content: &str) -> (r: ProjectMeta)
    ensures
        r@ == identity(
            first_scalar(lines_of(content@), "name"@),
            literal_field(first_scalar(lines_of(content@), "version"@)),
        ),
{
    proof {
        reveal_strlit("name");
        reveal_strlit("version");
    }
    let chars = chars_of(content);
    let all_lines = lines(chars.as_slice());
    let name = find_scalar(&all_lines, "name");
    let version = find_scalar(&all_lines, "version");
    meta(name, literal(version))
}

/// What follows the first occurrence of a string.
fn rest_after<'a>(s: &'a [char], needle: &str) -> (r: Option<&'a [char]>)
    ensures
        after_first(s@, needle@) == match r {
            Some(t) => Some(t@),
            None => None,
        },
{
    let pattern = chars_of(needle);
    let len: usize = s.len();
    match find_str(s, needle) {
        Some(n) => Some(skip(s, n + pattern.len())),
        None => None,
    }
}

/// How many characters a text begins with that may stand in an atom.
fn count_atom(s: &[char]) -> (r: usize)
    ensures
        r == atom_len(s@),
        r <= s@.len(),
{
    let mut i: usize = 0;
    assert(s@.skip(0) =~= s@);
    while i < s.len()
        invariant
            i <= s.len(),
            atom_len(s@) == i + atom_len(s@.skip(i as int)),
        decreases s.len() - i,
    {
        proof {
            assert(s@.skip(i as int)[0] == s@[i as int]);
            assert(s@.skip(i as int).drop_first() =~= s@.skip(i + 1));
        }
        if !(alphanumeric(s[i]) || s[i] == '_') {
            return i;
        }
        i = i + 1;
    }
    i
}

/// `mix.exs`: `app: :name` and `version: "…"` from the `project` function.
///
/// Best-effort: the file is Elixir source, so the keywords are read positionally rather
/// than parsed.
fn mix(content: &str) -> (r: ProjectMeta)
    ensures
        r@ == identity(
            atom_after(content@, "app: :"@),
            literal_field(quoted_after(content@, "version: \""@)),
        ),
{
    let chars = chars_of(content);
    let name = match rest_after(chars.as_slice(), "app: :") {
        Some(rest) => {
            let n: usize = count_atom(rest);
            if n > 0 {
                Some(string_of(take(rest, n)))
            } else {
                None
            }
        },
        None => None,
    };
    let version = match rest_after(chars.as_slice(), "version: \"") {
        Some(rest) => match split_once(rest, Class::Is('"')) {
            Some((value, _)) => if value.len() > 0 {
                Some(string_of(value))
            } else {
                None
            },
            None => None,
        },
        None => None,
    };
    meta(name, literal(version))
}

/// The text of a child element of the root, unless it is empty or a property.
fn read_field(nodes: &Vec<XmlNode>, tag: &str) -> (r: Option<String>)
    ensures
        opt_string(r) == pom_field(node_views(nodes@), tag),
{
    match find_named(nodes, find_root(nodes), tag) {
        Some(i) => match &nodes[i].text {
            Some(raw) => {
                let chars = chars_of(raw.as_str());
                let t = trim(chars.as_slice());
                if t.len() > 0 && !any(t, Class::Is('$')) {
                    Some(string_of(t))
                } else {
                    None
                }
            },
            None => None,
        },
        None => None,
    }
}

/// The identity of a parsed POM.
///
/// The coordinate is spelled `groupId:artifactId`, the same way the POM parser names the
/// dependencies it reads. A POM that states no `<groupId>` of its own inherits it from
/// its `<parent>`; the bare `artifactId` is reported rather than a coordinate that would
/// be half guessed.
pub fn identity_from(nodes: &Vec<XmlNode>) -> (r: ProjectMeta)
    ensures
        r@ == pom_identity(node_views(nodes@)),
{
    let artifact = read_field(nodes, "artifactId");
    let group = read_field(nodes, "groupId");
    let version = literal(read_field(nodes, "version"));
    let name = match (artifact, group) {
        (Some(a), Some(g)) => Some(text3(g.as_str(), ":", a.as_str())),
        (a, _) => a,
    };
    meta(name, version)
}

/// `pom.xml`: the identity it states.
fn pom(content: &str) -> (r: ProjectMeta)
    ensures
        r@ == project_of(ManifestKind::PomXml, content@),
{
    match parse_nodes(content) {
        Ok(nodes) => identity_from(&nodes),
        Err(_) => unnamed(),
    }
}

/// Whether a document has an element with a name.
fn any_element(nodes: &Vec<XmlNode>, tag: &str) -> (r: bool)
    ensures
        r == has_element(node_views(nodes@), tag@),
{
    let ghost all = node_views(nodes@);
    let mut i: usize = 0;
    while i < nodes.len()
        invariant
            i <= nodes.len(),
            all == node_views(nodes@),
            forall|j: int| 0 <= j < i ==> (#[trigger] all[j]).name != tag@,
        decreases nodes.len() - i,
    {
        assert(all[i as int] == nodes@[i as int]@);
        if str_eq(nodes[i].name.as_str(), tag) {
            return true;
        }
        i = i + 1;
    }
    false
}

/// The identity of a parsed .NET project file.
pub fn dotnet_from(nodes: &Vec<XmlNode>) -> (r: ProjectMeta)
    ensures
        r@ == dotnet_identity(node_views(nodes@)),
{
    if any_element(nodes, "PackageVersion") && !any_element(nodes, "PackageReference") {
        workspace_meta()
    } else {
        unnamed()
    }
}

/// `*.csproj` and `Directory.Packages.props`.
fn dotnet(content: &str) -> (r: ProjectMeta)
    ensures
        r@ == project_of(ManifestKind::Csproj, content@),
{
    match parse_nodes(content) {
        Ok(nodes) => dotnet_from(&nodes),
        Err(_) => unnamed(),
    }
}

/// Read the identity a manifest declares for itself.
///
/// Never fails: a manifest that declares no identity, or one that does not parse,
/// yields a [`ProjectMeta`] with no name, which is what an inventory should report
/// rather than an error that hides the rest of the repository.
#[must_use]
pub fn parse_project(kind: ManifestKind, content: &str) -> (r: ProjectMeta)
    ensures
        r@ == project_of(kind, content@),
{
    match kind {
        ManifestKind::CargoToml => cargo(content),
        ManifestKind::PackageJson | ManifestKind::DenoJson | ManifestKind::ComposerJson => {
            json_identity(content)
        },
        ManifestKind::PyprojectToml => pyproject(content),
        ManifestKind::GoMod => go_module(content),
        ManifestKind::PubspecYaml => pubspec(content),
        ManifestKind::MixExs => mix(content),
        ManifestKind::PomXml => pom(content),
        // These exist to hold central versions. None names a project.
        ManifestKind::PnpmWorkspaceYaml | ManifestKind::GradleVersionCatalog => workspace_meta(),
        ManifestKind::Csproj => dotnet(content),
        // These are identified by path, which this reader cannot see.
        ManifestKind::RequirementsTxt | ManifestKind::PackageSwift => unnamed(),
    }
}

/// A manifest is a package exactly if it declares a name, and one that declares none
/// for itself and others' versions only has neither name nor version.
pub proof fn law_role_says_named(kind: ManifestKind, content: Seq<char>)
    ensures
        ({
            let p = project_of(kind, content);
            &&& p.role == ProjectRole::Package <==> p.name is Some
            &&& p.role == ProjectRole::Workspace ==> p.name is None && p.version is None
        }),
{
}

} // verus!
