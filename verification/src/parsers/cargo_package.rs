//! Reader of a `Cargo.toml`'s **package declaration**: the build-time variation
//! surface, as opposed to the dependency list that [`cargo_toml`](super::cargo_toml)
//! collects.
//!
//! Three things live here that a dependency checker does not need but a build-aware
//! consumer does: the `[features]` table (and the implicit features that optional
//! dependencies create), the declared build targets, and the `cfg`-gated dependency
//! tables under `[target.'cfg(…)']`.
//!
//! Cargo discovers targets from the filesystem and resolves `field.workspace = true`
//! against the workspace root's manifest. This reader reports what the manifest
//! *declares*, and [`auto_targets`](CargoPackageManifest::auto_targets) says whether
//! Cargo's own discovery is even enabled.
use super::cargo_toml::{
    collect_dependencies, lemma_section_told, section_of, section_plain,
};
use super::cargo_workspace::text_map;
use super::position::{is_starts, line_starts, starts_of};
use super::spans::{lemma_get_stands, told};
use crate::error::ParseError;
use crate::item::{item_views, DependencyKind, Item, ItemView};
use crate::split::strings;
use crate::table::{is_ordered, TextTable};
use crate::text::{opt_string, str_eq};
use crate::toml::{
    entries_of, get_in, lemma_tree_of, literals_stand, node_in, opt_tree, parse_document,
    string_array, text_at, text_in, texts_in, toml_document, trees_of, TomlNode, TomlTree,
};
use crate::width::{byte_len, str_bytes};
use vstd::prelude::*;

verus! {

/// A `[package]` field that may be inherited from the workspace root.
///
/// Cargo lets `version`, `edition`, and `rust-version` (among others) be written as
/// `field.workspace = true`; resolving that needs the workspace manifest.
#[derive(Debug, Clone, PartialEq, Eq)]
#[non_exhaustive]
pub enum PackageField {
    /// The value written literally in this manifest.
    Literal(String),
    /// `field.workspace = true`: resolve against the workspace root's
    /// `[workspace.package]` table.
    Workspace,
}

/// What a [`PackageField`] says.
pub ghost enum FieldView {
    /// A literal value.
    Literal(Seq<char>),
    /// An inherited value.
    Workspace,
}

impl View for PackageField {
    type V = FieldView;

    open spec fn view(&self) -> FieldView {
        match self {
            PackageField::Literal(s) => FieldView::Literal(s@),
            PackageField::Workspace => FieldView::Workspace,
        }
    }
}

/// What an optional field says.
pub open spec fn opt_field(o: Option<PackageField>) -> Option<FieldView> {
    match o {
        Some(f) => Some(f@),
        None => None,
    }
}

/// The text an optional string slice holds.
pub open spec fn opt_str(o: Option<&str>) -> Option<Seq<char>> {
    match o {
        Some(s) => Some(s@),
        None => None,
    }
}

impl FieldView {
    /// The literal value.
    pub open spec fn literal(self) -> Option<Seq<char>> {
        match self {
            FieldView::Literal(s) => Some(s),
            FieldView::Workspace => None,
        }
    }
}

impl PackageField {
    /// The literal value, or `None` when the field is inherited.
    #[must_use]
    pub fn literal(&self) -> (r: Option<&str>)
        ensures
            opt_str(r) == self@.literal(),
    {
        match self {
            PackageField::Literal(value) => Some(value.as_str()),
            PackageField::Workspace => None,
        }
    }

    /// Resolve against a workspace `[workspace.package]` table, returning the literal
    /// value when this field is not inherited.
    #[must_use]
    pub fn resolve<'a>(&'a self, defaults: &'a TextTable<String>, key: &str) -> (r: Option<&'a str>)
        ensures
            opt_str(r) == match self@ {
                FieldView::Literal(s) => Some(s),
                FieldView::Workspace => if text_map(*defaults).contains_key(key@) {
                    Some(text_map(*defaults)[key@])
                } else {
                    None
                },
            },
    {
        match self {
            PackageField::Literal(value) => Some(value.as_str()),
            PackageField::Workspace => match defaults.get(key) {
                Some(s) => Some(s.as_str()),
                None => None,
            },
        }
    }
}

/// The kind of a declared Cargo build target.
#[derive(Debug, Clone, Copy, PartialEq, Eq, PartialOrd, Ord, Structural)]
#[non_exhaustive]
pub enum CargoTargetKind {
    /// `[lib]`.
    Lib,
    /// `[[bin]]`.
    Bin,
    /// `[[test]]`.
    Test,
    /// `[[bench]]`.
    Bench,
    /// `[[example]]`.
    Example,
    /// The `[package] build` script, however it is written.
    BuildScript,
}

impl CargoTargetKind {
    /// The table of a kind.
    pub open spec fn table(self) -> &'static str {
        match self {
            CargoTargetKind::Lib => "lib",
            CargoTargetKind::Bin => "bin",
            CargoTargetKind::Test => "test",
            CargoTargetKind::Bench => "bench",
            CargoTargetKind::Example => "example",
            CargoTargetKind::BuildScript => "build",
        }
    }

    /// The manifest table name this kind is declared under (`"lib"`, `"bin"`, …).
    #[must_use]
    pub fn table_name(self) -> (r: &'static str)
        ensures
            r == self.table(),
    {
        match self {
            CargoTargetKind::Lib => "lib",
            CargoTargetKind::Bin => "bin",
            CargoTargetKind::Test => "test",
            CargoTargetKind::Bench => "bench",
            CargoTargetKind::Example => "example",
            CargoTargetKind::BuildScript => "build",
        }
    }
}

/// One declared build target.
#[derive(Debug, Clone, PartialEq, Eq)]
#[non_exhaustive]
pub struct CargoTarget {
    /// Which kind of target this is.
    pub kind: CargoTargetKind,
    /// The target's `name`, when declared. A `[lib]` without one takes the package name.
    pub name: Option<String>,
    /// The target's `path`, when declared.
    pub path: Option<String>,
    /// `required-features`: the target is only built when all of these are enabled.
    pub required_features: Vec<String>,
}

/// What a [`CargoTarget`] says.
pub ghost struct TargetView {
    /// Its kind.
    pub kind: CargoTargetKind,
    /// Its name.
    pub name: Option<Seq<char>>,
    /// Its path.
    pub path: Option<Seq<char>>,
    /// The features it needs.
    pub required_features: Seq<Seq<char>>,
}

impl View for CargoTarget {
    type V = TargetView;

    open spec fn view(&self) -> TargetView {
        TargetView {
            kind: self.kind,
            name: opt_string(self.name),
            path: opt_string(self.path),
            required_features: strings(self.required_features@),
        }
    }
}

/// What a list of targets says.
pub open spec fn target_views(v: Seq<CargoTarget>) -> Seq<TargetView> {
    v.map_values(|t: CargoTarget| t@)
}

/// Which dependency section a `cfg`-gated table belongs to.
#[derive(Debug, Clone, Copy, PartialEq, Eq, PartialOrd, Ord, Structural)]
#[non_exhaustive]
pub enum DependencySection {
    /// `[dependencies]`.
    Normal,
    /// `[dev-dependencies]`.
    Dev,
    /// `[build-dependencies]`.
    Build,
}

/// One `[target.<predicate>.<section>]` table.
#[derive(Debug, Clone, PartialEq, Eq)]
#[non_exhaustive]
pub struct CfgDependencyTable {
    /// The table key exactly as written: either a `cfg(…)` expression or a target
    /// triple such as `x86_64-pc-windows-msvc`.
    pub predicate: String,
    /// Which dependency section the table gates.
    pub section: DependencySection,
    /// The dependencies declared under it, parsed exactly as the top-level sections are.
    pub items: Vec<Item>,
}

/// What a [`CfgDependencyTable`] says.
pub ghost struct CfgView {
    /// The predicate.
    pub predicate: Seq<char>,
    /// The section.
    pub section: DependencySection,
    /// The dependencies.
    pub items: Seq<ItemView>,
}

impl View for CfgDependencyTable {
    type V = CfgView;

    open spec fn view(&self) -> CfgView {
        CfgView {
            predicate: self.predicate@,
            section: self.section,
            items: item_views(self.items@),
        }
    }
}

/// What a list of tables says.
pub open spec fn cfg_views(v: Seq<CfgDependencyTable>) -> Seq<CfgView> {
    v.map_values(|t: CfgDependencyTable| t@)
}

/// Whether Cargo's filesystem target auto-discovery is enabled, per target kind.
///
/// All default to `true`, matching Cargo. Every flag reads the same way: `true` means
/// "Cargo will discover this kind from the filesystem, so you should too".
#[derive(Debug, Clone, Copy, PartialEq, Eq, Structural)]
#[non_exhaustive]
pub struct AutoTargets {
    /// `autolib`: discover `src/lib.rs`.
    pub lib: bool,
    /// `autobins`: discover `src/main.rs` and `src/bin/`.
    pub bins: bool,
    /// `autotests`: discover `tests/`.
    pub tests: bool,
    /// `autobenches`: discover `benches/`.
    pub benches: bool,
    /// `autoexamples`: discover `examples/`.
    pub examples: bool,
    /// `build`: discover a `build.rs` at the package root. `true` only when the manifest
    /// writes no `build` key at all, which is the one case Cargo answers from the
    /// filesystem. Every explicit value settles the question in the manifest instead.
    pub build: bool,
}

impl Default for AutoTargets {
    fn default() -> (r: Self)
        ensures
            r.lib && r.bins && r.tests && r.benches && r.examples && r.build,
    {
        AutoTargets {
            lib: true,
            bins: true,
            tests: true,
            benches: true,
            examples: true,
            build: true,
        }
    }
}

/// A `Cargo.toml`'s package declaration: identity, features, targets, and `cfg`-gated
/// dependency tables.
///
/// Every field reflects only what the manifest declares.
#[derive(Debug, Clone, PartialEq, Eq)]
#[non_exhaustive]
pub struct CargoPackageManifest {
    /// `[package] name`. Absent for a virtual workspace manifest.
    pub name: Option<String>,
    /// `[package] version`, possibly inherited.
    pub version: Option<PackageField>,
    /// `[package] edition`, possibly inherited.
    pub edition: Option<PackageField>,
    /// `[package] rust-version`, possibly inherited.
    pub rust_version: Option<PackageField>,
    /// The `[features]` table: each feature mapped to the features and optional
    /// dependencies it enables, exactly as written (including `dep:` and `pkg/feat` forms).
    pub features: TextTable<Vec<String>>,
    /// Dependencies marked `optional = true` in a section that gives them an implicit
    /// feature (`dependencies` and `build-dependencies`, top-level or under a
    /// `[target.<predicate>.…]` table), sorted and deduplicated. Each one Cargo turns
    /// into an implicit feature of the same name unless some feature already refers to
    /// it as `dep:<name>`.
    pub optional_dependencies: Vec<String>,
    /// Explicitly declared build targets, grouped by kind in [`CargoTargetKind`]
    /// declaration order and, within a kind, in manifest order.
    pub targets: Vec<CargoTarget>,
    /// Whether Cargo's own filesystem target discovery is enabled.
    pub auto_targets: AutoTargets,
    /// `[target.<predicate>.<section>]` tables: predicates in manifest order, and the
    /// three sections of one predicate always normal, dev, build.
    pub cfg_dependency_tables: Vec<CfgDependencyTable>,
}

impl Default for CargoPackageManifest {
    fn default() -> (r: Self)
        ensures
            r.name is None,
            r.version is None,
            r.edition is None,
            r.rust_version is None,
            r.features@ == Map::<Seq<char>, Vec<String>>::empty(),
            r.optional_dependencies@.len() == 0,
            r.targets@.len() == 0,
            r.auto_targets.build,
            r.cfg_dependency_tables@.len() == 0,
    {
        CargoPackageManifest {
            name: None,
            version: None,
            edition: None,
            rust_version: None,
            features: TextTable::new(),
            optional_dependencies: Vec::new(),
            targets: Vec::new(),
            auto_targets: AutoTargets::default(),
            cfg_dependency_tables: Vec::new(),
        }
    }
}

/// The lists a table of lists of strings holds.
pub open spec fn list_map(t: TextTable<Vec<String>>) -> Map<Seq<char>, Seq<Seq<char>>> {
    t@.map_values(|v: Vec<String>| strings(v@))
}

/// Whether some feature refers to a dependency as `dep:<name>`.
pub open spec fn is_claimed(features: Map<Seq<char>, Seq<Seq<char>>>, dep: Seq<char>) -> bool {
    exists|f: Seq<char>, i: int|
        features.contains_key(f) && 0 <= i < features[f].len() && #[trigger] features[f][i]
            == "dep:"@ + dep
}

/// Whether a consumer may enable a feature: a declared one, or the implicit one of an
/// optional dependency that nothing claims.
pub open spec fn is_feature(
    features: Map<Seq<char>, Seq<Seq<char>>>,
    optional: Seq<Seq<char>>,
    name: Seq<char>,
) -> bool {
    features.contains_key(name) || (optional.contains(name) && !is_claimed(features, name))
}

/// Whether a list holds the same texts as another, each once, in order.
pub open spec fn is_sorted_set(sorted: Seq<Seq<char>>, list: Seq<Seq<char>>) -> bool {
    &&& is_ordered(sorted)
    &&& forall|x: Seq<char>| #[trigger] sorted.contains(x) <==> list.contains(x)
}

/// Sort a list of names and drop repetitions.
fn sorted_unique(names: &Vec<String>) -> (r: Vec<String>)
    ensures
        is_sorted_set(strings(r@), strings(names@)),
{
    let ghost all = strings(names@);
    let mut set: TextTable<bool> = TextTable::new();
    let mut i: usize = 0;
    while i < names.len()
        invariant
            i <= names.len(),
            all == strings(names@),
            forall|x: Seq<char>|
                #[trigger] set@.contains_key(x) <==> all.take(i as int).contains(x),
        decreases names.len() - i,
    {
        let ghost before = set@;
        set.insert(names[i].clone(), true);
        proof {
            let t = all.take(i as int);
            let u = all.take(i + 1);
            assert(u =~= t.push(names@[i as int]@));
            assert forall|x: Seq<char>| #[trigger] set@.contains_key(x) <==> u.contains(x) by {
                assert(before.contains_key(x) <==> t.contains(x));
                if t.contains(x) {
                    let k = choose|k: int| 0 <= k < t.len() && t[k] == x;
                    assert(u[k] == x);
                }
                if x == names@[i as int]@ {
                    assert(u[i as int] == x);
                }
                if u.contains(x) && x != names@[i as int]@ {
                    let k = choose|k: int| 0 <= k < u.len() && u[k] == x;
                    assert(t[k] == x);
                }
            }
        }
        i = i + 1;
    }
    assert(all.take(i as int) =~= all);
    let mut out: Vec<String> = Vec::new();
    let count: usize = set.len();
    let mut k: usize = 0;
    while k < count
        invariant
            k <= count,
            count == set.names().len(),
            out@.len() == k,
            forall|x: int| 0 <= x < k ==> (#[trigger] out@[x])@ == set.names()[x],
        decreases count - k,
    {
        out.push(set.key_at(k).clone());
        k = k + 1;
    }
    proof {
        assert(strings(out@) =~= set.names());
        assert forall|x: Seq<char>| #[trigger] strings(out@).contains(x) <==> all.contains(x) by {
            assert(set@.contains_key(x) <==> set.names().contains(x));
        }
    }
    out
}

impl CargoPackageManifest {
    /// The members of the `default` feature, or an empty slice when there is none.
    #[must_use]
    pub fn default_features(&self) -> (r: &[String])
        ensures
            strings(r@) == if list_map(self.features).contains_key("default"@) {
                list_map(self.features)["default"@]
            } else {
                seq![]
            },
    {
        match self.features.get("default") {
            Some(v) => v.as_slice(),
            None => {
                let none: &[String] = &[];
                assert(strings(none@) =~= seq![]);
                none
            },
        }
    }

    /// Whether some feature refers to a dependency as `dep:<name>`.
    fn claims(&self, dep: &str) -> (r: bool)
        ensures
            r == is_claimed(list_map(self.features), dep@),
    {
        let ghost map = list_map(self.features);
        let want = crate::split::text2("dep:", dep);
        let count: usize = self.features.len();
        let mut i: usize = 0;
        while i < count
            invariant
                i <= count,
                count == self.features.names().len(),
                map == list_map(self.features),
                want@ == "dep:"@ + dep@,
                forall|x: int, y: int|
                    0 <= x < i && 0 <= y < map[self.features.names()[x]].len()
                        ==> #[trigger] map[self.features.names()[x]][y] != want@,
            decreases count - i,
        {
            let list = self.features.value_at(i);
            let ghost f = self.features.names()[i as int];
            assert(map.contains_key(f) && map[f] == strings(list@));
            let mut j: usize = 0;
            while j < list.len()
                invariant
                    j <= list.len(),
                    map.contains_key(f),
                    map == list_map(self.features),
                    map[f] == strings(list@),
                    want@ == "dep:"@ + dep@,
                    forall|y: int| 0 <= y < j ==> (#[trigger] map[f][y]) != want@,
                decreases list.len() - j,
            {
                if str_eq(list[j].as_str(), want.as_str()) {
                    assert(map[f][j as int] == "dep:"@ + dep@);
                    return true;
                }
                j = j + 1;
            }
            i = i + 1;
        }
        proof {
            assert forall|f: Seq<char>, y: int|
                map.contains_key(f) && 0 <= y < map[f].len() implies #[trigger] map[f][y]
                != "dep:"@ + dep@ by {
                assert(self.features@.contains_key(f));
                let x = choose|x: int|
                    0 <= x < self.features.names().len() && self.features.names()[x] == f;
                assert(map[self.features.names()[x]][y] != want@);
            }
        }
        false
    }

    /// Every feature name a consumer may enable: the declared features plus the
    /// implicit one each entry of [`optional_dependencies`](Self::optional_dependencies)
    /// creates.
    ///
    /// An optional dependency referred to as `dep:<name>` by some feature does *not*
    /// get an implicit feature, matching Cargo's rule.
    #[must_use]
    pub fn feature_names(&self) -> (r: Vec<String>)
        ensures
            is_ordered(strings(r@)),
            forall|x: Seq<char>| #[trigger]
                strings(r@).contains(x) <==> is_feature(
                    list_map(self.features),
                    strings(self.optional_dependencies@),
                    x,
                ),
    {
        let ghost map = list_map(self.features);
        let ghost optional = strings(self.optional_dependencies@);
        let mut names: Vec<String> = Vec::new();
        let count: usize = self.features.len();
        let mut i: usize = 0;
        while i < count
            invariant
                i <= count,
                count == self.features.names().len(),
                names@.len() == i,
                forall|x: int| 0 <= x < i ==> (#[trigger] names@[x])@ == self.features.names()[x],
            decreases count - i,
        {
            names.push(self.features.key_at(i).clone());
            i = i + 1;
        }
        assert(strings(names@) =~= self.features.names());
        let mut j: usize = 0;
        proof {
            assert forall|x: Seq<char>| #[trigger] strings(names@).contains(x) <==> is_feature(
                map,
                optional.take(0),
                x,
            ) by {
                assert(self.features@.contains_key(x) <==> self.features.names().contains(x));
            }
        }
        while j < self.optional_dependencies.len()
            invariant
                j <= self.optional_dependencies.len(),
                map == list_map(self.features),
                optional == strings(self.optional_dependencies@),
                forall|x: Seq<char>| #[trigger]
                    strings(names@).contains(x) <==> is_feature(map, optional.take(j as int), x),
            decreases self.optional_dependencies.len() - j,
        {
            let dep = &self.optional_dependencies[j];
            let claimed = self.claims(dep.as_str());
            let ghost before = strings(names@);
            let take = !claimed && !self.features.contains_key(dep.as_str());
            if take {
                let copy = dep.clone();
                names.push(copy);
                assert(strings(names@) =~= before.push(dep@));
            }
            proof {
                let t = optional.take(j as int);
                let u = optional.take(j + 1);
                assert(u =~= t.push(dep@));
                assert forall|x: Seq<char>| #[trigger] strings(names@).contains(x) <==> is_feature(
                    map,
                    u,
                    x,
                ) by {
                    lemma_contains_push(t, dep@, x);
                    lemma_contains_push(before, dep@, x);
                    assert(before.contains(x) <==> is_feature(map, t, x));
                    assert(map.contains_key(dep@) <==> self.features@.contains_key(dep@));
                }
            }
            j = j + 1;
        }
        assert(optional.take(j as int) =~= optional);
        sorted_unique(&names)
    }
}

proof fn lemma_contains_push(s: Seq<Seq<char>>, y: Seq<char>, x: Seq<char>)
    ensures
        s.push(y).contains(x) <==> s.contains(x) || x == y,
{
    if s.contains(x) {
        let k = choose|k: int| 0 <= k < s.len() && s[k] == x;
        assert(s.push(y)[k] == x);
    }
    if x == y {
        assert(s.push(y)[s.len() as int] == x);
    }
    if s.push(y).contains(x) && x != y {
        let k = choose|k: int| 0 <= k < s.len() + 1 && s.push(y)[k] == x;
        assert(s[k] == x);
    }
}

/// A `[package]` field: a literal, or inherited.
pub open spec fn field_of(tree: Option<TomlTree>) -> Option<FieldView> {
    match tree {
        Some(TomlTree::Text { value, .. }) => Some(FieldView::Literal(value)),
        Some(t) => if t.get("workspace"@) == Some(TomlTree::Flag(true)) {
            Some(FieldView::Workspace)
        } else {
            None
        },
        None => None,
    }
}

/// Read one `[package]` field, distinguishing a literal from `field.workspace = true`.
fn package_field(node: Option<&TomlNode>) -> (r: Option<PackageField>)
    ensures
        opt_field(r) == field_of(opt_tree(node)),
{
    match node {
        Some(n) => {
            proof {
                lemma_tree_of(*n);
            }
            if let Some(value) = n.text() {
                return Some(PackageField::Literal(value.clone()));
            }
            if let Some(w) = n.get("workspace") {
                if let Some(b) = w.flag() {
                    if b {
                        return Some(PackageField::Workspace);
                    }
                }
            }
            None
        },
        None => None,
    }
}

/// The features of a `[features]` table; one that is no array enables nothing.
pub open spec fn features_of(entries: Seq<(Seq<char>, TomlTree)>) -> Map<Seq<char>, Seq<Seq<char>>>
    decreases entries.len(),
{
    if entries.len() == 0 {
        Map::empty()
    } else {
        features_of(entries.drop_last()).insert(
            entries.last().0,
            texts_in(Some(entries.last().1)),
        )
    }
}

/// Collect the `[features]` table.
fn features_table(node: Option<&TomlNode>) -> (r: TextTable<Vec<String>>)
    ensures
        list_map(r) == match opt_tree(node) {
            Some(t) => features_of(t.entries()),
            None => Map::empty(),
        },
{
    let mut out: TextTable<Vec<String>> = TextTable::new();
    assert(list_map(out) =~= Map::empty());
    if let Some(n) = node {
        if let Some(v) = n.entries() {
            let ghost all = entries_of(v@);
            let mut i: usize = 0;
            assert(all.take(0) =~= seq![]);
            while i < v.len()
                invariant
                    i <= v.len(),
                    all == entries_of(v@),
                    list_map(out) == features_of(all.take(i as int)),
                decreases v.len() - i,
            {
                proof {
                    assert(all.take(i + 1).drop_last() =~= all.take(i as int));
                    assert(all.take(i + 1).last() == (v@[i as int].0@, v@[i as int].1@));
                }
                let ghost before = list_map(out);
                let enables = string_array(Some(&v[i].1));
                out.insert(v[i].0.clone(), enables);
                assert(list_map(out) =~= before.insert(v@[i as int].0@, strings(enables@)));
                i = i + 1;
            }
            assert(all.take(i as int) =~= all);
        }
    }
    out
}

/// The names of the entries of a dependency table that are marked optional, in order.
pub open spec fn optional_among(entries: Seq<(Seq<char>, TomlTree)>) -> Seq<Seq<char>>
    decreases entries.len(),
{
    if entries.len() == 0 {
        seq![]
    } else {
        let front = optional_among(entries.drop_last());
        if entries.last().1.get("optional"@) == Some(TomlTree::Flag(true)) {
            front.push(entries.last().0)
        } else {
            front
        }
    }
}

/// The optional entries of the dependency table under a key.
pub open spec fn optional_in(tree: Option<TomlTree>) -> Seq<Seq<char>> {
    match tree {
        Some(t) => optional_among(t.entries()),
        None => seq![],
    }
}

/// The optional entries of the sections that give an implicit feature. Cargo rejects an
/// optional dev-dependency outright.
pub open spec fn optional_sections(t: TomlTree) -> Seq<Seq<char>> {
    optional_in(t.get("dependencies"@)) + optional_in(t.get("build-dependencies"@))
}

/// The optional entries under each predicate of a `[target]` table, in order.
pub open spec fn optional_targets(entries: Seq<(Seq<char>, TomlTree)>) -> Seq<Seq<char>>
    decreases entries.len(),
{
    if entries.len() == 0 {
        seq![]
    } else {
        optional_targets(entries.drop_last()) + optional_sections(entries.last().1)
    }
}

/// Every optional dependency that may give an implicit feature, as often as it is
/// declared.
pub open spec fn optional_of(root: TomlTree) -> Seq<Seq<char>> {
    optional_sections(root) + match root.get("target"@) {
        Some(t) => optional_targets(t.entries()),
        None => seq![],
    }
}

/// Collect the optional entries of the dependency table under a key.
fn collect_optional(node: Option<&TomlNode>, out: &mut Vec<String>)
    ensures
        strings(final(out)@) == strings(old(out)@) + optional_in(opt_tree(node)),
{
    let ghost start = strings(out@);
    if let Some(n) = node {
        if let Some(v) = n.entries() {
            let ghost all = entries_of(v@);
            let mut i: usize = 0;
            assert(strings(out@) =~= start + optional_among(all.take(0)));
            while i < v.len()
                invariant
                    i <= v.len(),
                    all == entries_of(v@),
                    strings(out@) == start + optional_among(all.take(i as int)),
                decreases v.len() - i,
            {
                proof {
                    assert(all.take(i + 1).drop_last() =~= all.take(i as int));
                    assert(all.take(i + 1).last() == (v@[i as int].0@, v@[i as int].1@));
                }
                let mut optional = false;
                if let Some(f) = v[i].1.get("optional") {
                    if let Some(b) = f.flag() {
                        optional = b;
                    }
                }
                if optional {
                    let ghost before = strings(out@);
                    let name = v[i].0.clone();
                    out.push(name);
                    assert(strings(out@) =~= before.push(v@[i as int].0@));
                }
                i = i + 1;
                assert(strings(out@) =~= start + optional_among(all.take(i as int)));
            }
            assert(all.take(i as int) =~= all);
            return;
        }
    }
    assert(strings(out@) =~= start + optional_in(opt_tree(node)));
}

/// Every dependency marked `optional = true` in a section that gives it an implicit
/// feature, at the top level or under a `[target.<predicate>.…]` table.
fn optional_dependencies(root: &TomlNode) -> (r: Vec<String>)
    ensures
        is_sorted_set(strings(r@), optional_of(root@)),
{
    let mut out: Vec<String> = Vec::new();
    assert(strings(out@) =~= seq![]);
    collect_optional(root.get("dependencies"), &mut out);
    collect_optional(root.get("build-dependencies"), &mut out);
    let ghost start = strings(out@);
    assert(start =~= optional_sections(root@));
    if let Some(node) = root.get("target") {
        if let Some(v) = node.entries() {
            let ghost all = entries_of(v@);
            let mut i: usize = 0;
            assert(strings(out@) =~= start + optional_targets(all.take(0)));
            while i < v.len()
                invariant
                    i <= v.len(),
                    all == entries_of(v@),
                    strings(out@) == start + optional_targets(all.take(i as int)),
                decreases v.len() - i,
            {
                proof {
                    assert(all.take(i + 1).drop_last() =~= all.take(i as int));
                    assert(all.take(i + 1).last() == (v@[i as int].0@, v@[i as int].1@));
                }
                let ghost before = strings(out@);
                collect_optional(v[i].1.get("dependencies"), &mut out);
                collect_optional(v[i].1.get("build-dependencies"), &mut out);
                assert(strings(out@) =~= before + optional_sections(v@[i as int].1@));
                i = i + 1;
                assert(strings(out@) =~= start + optional_targets(all.take(i as int)));
            }
            assert(all.take(i as int) =~= all);
        }
    }
    assert(strings(out@) =~= optional_of(root@));
    sorted_unique(&out)
}

/// One target table.
pub open spec fn target_of(kind: CargoTargetKind, t: TomlTree) -> TargetView {
    TargetView {
        kind,
        name: text_in(t.get("name"@)),
        path: text_in(t.get("path"@)),
        required_features: texts_in(t.get("required-features"@)),
    }
}

/// The targets of one kind: those of an array of tables, or that of a lone table, which
/// is malformed but cheap to accept.
pub open spec fn targets_in(kind: CargoTargetKind, tree: Option<TomlTree>) -> Seq<TargetView> {
    match tree {
        Some(TomlTree::Tables(list)) => list.map_values(|t: TomlTree| target_of(kind, t)),
        Some(t) => if t is Table {
            seq![target_of(kind, t)]
        } else {
            seq![]
        },
        None => seq![],
    }
}

/// The script paths a `[package] build` value declares: a path, an array of paths, or
/// `true` for a `build.rs` at the package root.
pub open spec fn scripts_of(tree: Option<TomlTree>) -> Seq<Seq<char>> {
    match tree {
        Some(TomlTree::Text { value, .. }) => seq![value],
        Some(TomlTree::List(_)) => texts_in(tree),
        Some(TomlTree::Flag(true)) => seq!["build.rs"@],
        _ => seq![],
    }
}

/// The target of a build script.
pub open spec fn script_target(path: Seq<char>) -> TargetView {
    TargetView {
        kind: CargoTargetKind::BuildScript,
        name: None,
        path: Some(path),
        required_features: seq![],
    }
}

/// The declared targets: `[lib]`, the `[[bin]]`-style arrays, and the build scripts.
pub open spec fn targets_of(root: TomlTree) -> Seq<TargetView> {
    let lib = match root.get("lib"@) {
        Some(t) => if t is Table {
            seq![target_of(CargoTargetKind::Lib, t)]
        } else {
            seq![]
        },
        None => seq![],
    };
    lib + targets_in(CargoTargetKind::Bin, root.get("bin"@)) + targets_in(
        CargoTargetKind::Test,
        root.get("test"@),
    ) + targets_in(CargoTargetKind::Bench, root.get("bench"@)) + targets_in(
        CargoTargetKind::Example,
        root.get("example"@),
    ) + scripts_of(get_in(root.get("package"@), "build"@)).map_values(
        |p: Seq<char>| script_target(p),
    )
}

/// Read one target table's `name`, `path`, and `required-features`.
fn target_from(kind: CargoTargetKind, table: &TomlNode) -> (r: CargoTarget)
    ensures
        r@ == target_of(kind, table@),
{
    CargoTarget {
        kind,
        name: text_at(table.get("name")),
        path: text_at(table.get("path")),
        required_features: string_array(table.get("required-features")),
    }
}

/// Read the targets of one kind.
fn collect_targets(kind: CargoTargetKind, node: Option<&TomlNode>, out: &mut Vec<CargoTarget>)
    ensures
        target_views(final(out)@) == target_views(old(out)@) + targets_in(kind, opt_tree(node)),
{
    let ghost start = target_views(out@);
    let ghost want = targets_in(kind, opt_tree(node));
    if let Some(n) = node {
        if let Some(v) = n.tables() {
            let mut i: usize = 0;
            assert(target_views(out@) =~= start + want.take(0));
            while i < v.len()
                invariant
                    i <= v.len(),
                    want == trees_of(v@).map_values(|t: TomlTree| target_of(kind, t)),
                    target_views(out@) == start + want.take(i as int),
                decreases v.len() - i,
            {
                let ghost before = target_views(out@);
                let t = target_from(kind, &v[i]);
                out.push(t);
                i = i + 1;
                proof {
                    assert(t@ == want[i - 1]);
                    assert(target_views(out@) =~= before.push(t@));
                    assert(want.take(i as int) =~= want.take(i - 1).push(want[i - 1]));
                    assert(target_views(out@) =~= start + want.take(i as int));
                }
            }
            assert(want.take(i as int) =~= want);
            return;
        }
        if n.entries().is_some() {
            let t = target_from(kind, n);
            out.push(t);
            assert(target_views(out@) =~= start + seq![t@]);
            return;
        }
    }
    assert(target_views(out@) =~= start + want);
}

/// Every script path a `[package] build` value declares, in manifest order.
///
/// `build = false` declares none, and so does every remaining TOML type.
fn build_scripts(node: Option<&TomlNode>) -> (r: Vec<String>)
    ensures
        strings(r@) == scripts_of(opt_tree(node)),
{
    let mut out: Vec<String> = Vec::new();
    if let Some(build) = node {
        proof {
            lemma_tree_of(*build);
        }
        if let Some(path) = build.text() {
            let copy = path.clone();
            out.push(copy);
            assert(strings(out@) =~= seq![path@]);
            return out;
        }
        if build.list().is_some() {
            return string_array(node);
        }
        if let Some(b) = build.flag() {
            if b {
                let script = crate::split::text2("build.rs", "");
                proof {
                    reveal_strlit("");
                    assert(script@ =~= "build.rs"@);
                }
                out.push(script);
                assert(strings(out@) =~= seq!["build.rs"@]);
                return out;
            }
        }
    }
    assert(strings(out@) =~= seq![]);
    out
}

/// Collect explicitly declared targets.
fn targets(root: &TomlNode) -> (r: Vec<CargoTarget>)
    ensures
        target_views(r@) == targets_of(root@),
{
    let mut out: Vec<CargoTarget> = Vec::new();
    assert(target_views(out@) =~= seq![]);
    if let Some(lib) = root.get("lib") {
        if lib.entries().is_some() {
            let t = target_from(CargoTargetKind::Lib, lib);
            out.push(t);
            assert(target_views(out@) =~= seq![t@]);
        }
    }
    collect_targets(CargoTargetKind::Bin, root.get("bin"), &mut out);
    collect_targets(CargoTargetKind::Test, root.get("test"), &mut out);
    collect_targets(CargoTargetKind::Bench, root.get("bench"), &mut out);
    collect_targets(CargoTargetKind::Example, root.get("example"), &mut out);
    let scripts = build_scripts(node_in(root.get("package"), "build"));
    let ghost start = target_views(out@);
    let ghost want = strings(scripts@).map_values(|p: Seq<char>| script_target(p));
    let mut i: usize = 0;
    assert(target_views(out@) =~= start + want.take(0));
    while i < scripts.len()
        invariant
            i <= scripts.len(),
            want == strings(scripts@).map_values(|p: Seq<char>| script_target(p)),
            target_views(out@) == start + want.take(i as int),
        decreases scripts.len() - i,
    {
        let ghost before = target_views(out@);
        let t = CargoTarget {
            kind: CargoTargetKind::BuildScript,
            name: None,
            path: Some(scripts[i].clone()),
            required_features: Vec::new(),
        };
        assert(t@.required_features =~= seq![]);
        out.push(t);
        i = i + 1;
        proof {
            assert(t@ == want[i - 1]);
            assert(target_views(out@) =~= before.push(t@));
            assert(want.take(i as int) =~= want.take(i - 1).push(want[i - 1]));
            assert(target_views(out@) =~= start + want.take(i as int));
        }
    }
    assert(want.take(i as int) =~= want);
    out
}

/// A discovery flag: `true` unless a boolean says otherwise.
pub open spec fn flag_of(tree: Option<TomlTree>) -> bool {
    match tree {
        Some(TomlTree::Flag(b)) => b,
        _ => true,
    }
}

/// The discovery flags of a `[package]` table.
pub open spec fn auto_of(package: Option<TomlTree>) -> AutoTargets {
    AutoTargets {
        lib: flag_of(get_in(package, "autolib"@)),
        bins: flag_of(get_in(package, "autobins"@)),
        tests: flag_of(get_in(package, "autotests"@)),
        benches: flag_of(get_in(package, "autobenches"@)),
        examples: flag_of(get_in(package, "autoexamples"@)),
        build: get_in(package, "build"@) is None,
    }
}

/// Read a discovery flag.
fn flag(node: Option<&TomlNode>) -> (r: bool)
    ensures
        r == flag_of(opt_tree(node)),
{
    match node {
        Some(n) => match n.flag() {
            Some(b) => b,
            None => true,
        },
        None => true,
    }
}

/// Read the discovery flags: the `auto*` keys and `build`, each defaulting to Cargo's
/// `true`.
fn auto_targets(package: Option<&TomlNode>) -> (r: AutoTargets)
    ensures
        r == auto_of(opt_tree(package)),
{
    AutoTargets {
        lib: flag(node_in(package, "autolib")),
        bins: flag(node_in(package, "autobins")),
        tests: flag(node_in(package, "autotests")),
        benches: flag(node_in(package, "autobenches")),
        examples: flag(node_in(package, "autoexamples")),
        // `build` is the one key here that is not a discovery flag at all: only an
        // absent key leaves anything to discover.
        build: node_in(package, "build").is_none(),
    }
}

/// The `cfg`-gated table of one section, where there is one.
pub open spec fn cfg_section(
    predicate: Seq<char>,
    tree: Option<TomlTree>,
    section: DependencySection,
    kind: DependencyKind,
    starts: Seq<usize>,
) -> Seq<CfgView> {
    match tree {
        Some(t) => if t is Table {
            seq![CfgView { predicate, section, items: section_of(tree, kind, starts) }]
        } else {
            seq![]
        },
        None => seq![],
    }
}

/// The `cfg`-gated tables of one predicate.
pub open spec fn cfg_predicate(predicate: Seq<char>, t: TomlTree, starts: Seq<usize>) -> Seq<
    CfgView,
> {
    cfg_section(
        predicate,
        t.get("dependencies"@),
        DependencySection::Normal,
        DependencyKind::Normal,
        starts,
    ) + cfg_section(
        predicate,
        t.get("dev-dependencies"@),
        DependencySection::Dev,
        DependencyKind::Dev,
        starts,
    ) + cfg_section(
        predicate,
        t.get("build-dependencies"@),
        DependencySection::Build,
        DependencyKind::Build,
        starts,
    )
}

/// The `cfg`-gated tables of a `[target]` table, in order.
pub open spec fn cfg_of(entries: Seq<(Seq<char>, TomlTree)>, starts: Seq<usize>) -> Seq<CfgView>
    decreases entries.len(),
{
    if entries.len() == 0 {
        seq![]
    } else {
        cfg_of(entries.drop_last(), starts) + cfg_predicate(
            entries.last().0,
            entries.last().1,
            starts,
        )
    }
}

/// Read the `cfg`-gated table of one section, where there is one.
fn collect_cfg(
    predicate: &String,
    node: Option<&TomlNode>,
    section: DependencySection,
    kind: DependencyKind,
    starts: &[usize],
    out: &mut Vec<CfgDependencyTable>,
)
    requires
        is_starts(starts@),
    ensures
        cfg_views(final(out)@) == cfg_views(old(out)@) + cfg_section(
            predicate@,
            opt_tree(node),
            section,
            kind,
            starts@,
        ),
{
    let ghost before = cfg_views(out@);
    if let Some(n) = node {
        if n.entries().is_some() {
            let mut items: Vec<Item> = Vec::new();
            assert(item_views(items@) =~= seq![]);
            collect_dependencies(node, kind, starts, &mut items);
            let t = CfgDependencyTable { predicate: predicate.clone(), section, items };
            assert(t@.items =~= section_of(opt_tree(node), kind, starts@));
            out.push(t);
            assert(cfg_views(out@) =~= before + seq![t@]);
            return;
        }
    }
    assert(cfg_views(out@) =~= before + cfg_section(
        predicate@,
        opt_tree(node),
        section,
        kind,
        starts@,
    ));
}

/// Collect every `[target.<predicate>.<section>]` dependency table.
fn cfg_dependency_tables(node: Option<&TomlNode>, starts: &[usize]) -> (r: Vec<CfgDependencyTable>)
    requires
        is_starts(starts@),
    ensures
        cfg_views(r@) == match opt_tree(node) {
            Some(t) => cfg_of(t.entries(), starts@),
            None => seq![],
        },
{
    let mut out: Vec<CfgDependencyTable> = Vec::new();
    if let Some(n) = node {
        if let Some(v) = n.entries() {
            let ghost all = entries_of(v@);
            let mut i: usize = 0;
            assert(cfg_views(out@) =~= cfg_of(all.take(0), starts@));
            while i < v.len()
                invariant
                    is_starts(starts@),
                    i <= v.len(),
                    all == entries_of(v@),
                    cfg_views(out@) == cfg_of(all.take(i as int), starts@),
                decreases v.len() - i,
            {
                proof {
                    assert(all.take(i + 1).drop_last() =~= all.take(i as int));
                    assert(all.take(i + 1).last() == (v@[i as int].0@, v@[i as int].1@));
                }
                let ghost before = cfg_views(out@);
                let predicate = &v[i].0;
                let entry = &v[i].1;
                collect_cfg(
                    predicate,
                    entry.get("dependencies"),
                    DependencySection::Normal,
                    DependencyKind::Normal,
                    starts,
                    &mut out,
                );
                collect_cfg(
                    predicate,
                    entry.get("dev-dependencies"),
                    DependencySection::Dev,
                    DependencyKind::Dev,
                    starts,
                    &mut out,
                );
                collect_cfg(
                    predicate,
                    entry.get("build-dependencies"),
                    DependencySection::Build,
                    DependencyKind::Build,
                    starts,
                    &mut out,
                );
                assert(cfg_views(out@) =~= before + cfg_predicate(
                    predicate@,
                    entry@,
                    starts@,
                ));
                i = i + 1;
            }
            assert(all.take(i as int) =~= all);
            return out;
        }
    }
    assert(cfg_views(out@) =~= seq![]);
    out
}

/// Whether `m` is the package declaration of a document.
pub open spec fn is_package(root: TomlTree, starts: Seq<usize>, m: CargoPackageManifest) -> bool {
    let package = root.get("package"@);
    &&& opt_string(m.name) == text_in(get_in(package, "name"@))
    &&& opt_field(m.version) == field_of(get_in(package, "version"@))
    &&& opt_field(m.edition) == field_of(get_in(package, "edition"@))
    &&& opt_field(m.rust_version) == field_of(get_in(package, "rust-version"@))
    &&& list_map(m.features) == match root.get("features"@) {
        Some(t) => features_of(t.entries()),
        None => Map::empty(),
    }
    &&& is_sorted_set(strings(m.optional_dependencies@), optional_of(root))
    &&& target_views(m.targets@) == targets_of(root)
    &&& m.auto_targets == auto_of(package)
    &&& cfg_views(m.cfg_dependency_tables@) == match root.get("target"@) {
        Some(t) => cfg_of(t.entries(), starts),
        None => seq![],
    }
}

/// The package declaration of a parsed document.
pub fn package_from(root: &TomlNode, starts: &[usize]) -> (r: CargoPackageManifest)
    requires
        is_starts(starts@),
    ensures
        is_package(root@, starts@, r),
{
    let package = root.get("package");
    CargoPackageManifest {
        name: text_at(node_in(package, "name")),
        version: package_field(node_in(package, "version")),
        edition: package_field(node_in(package, "edition")),
        rust_version: package_field(node_in(package, "rust-version")),
        features: features_table(root.get("features")),
        optional_dependencies: optional_dependencies(root),
        targets: targets(root),
        auto_targets: auto_targets(package),
        cfg_dependency_tables: cfg_dependency_tables(root.get("target"), starts),
    }
}

/// Whether the items of one section that are written plainly stand where they say they do.
pub open spec fn section_told(
    content: Seq<char>,
    tree: Option<TomlTree>,
    kind: DependencyKind,
) -> bool {
    told(content, section_of(tree, kind, starts_of(content)), section_plain(content, tree, kind))
}

/// Whether the plain items of the `cfg`-gated tables stand where they say they do.
pub open spec fn cfg_told(content: Seq<char>, root: TomlTree) -> bool {
    root.get("target"@) matches Some(t) ==> forall|i: int|
        0 <= i < t.entries().len() ==> {
            let gated = (#[trigger] t.entries()[i]).1;
            &&& section_told(content, gated.get("dependencies"@), DependencyKind::Normal)
            &&& section_told(content, gated.get("dev-dependencies"@), DependencyKind::Dev)
            &&& section_told(content, gated.get("build-dependencies"@), DependencyKind::Build)
        }
}

proof fn lemma_cfg_told(content: Seq<char>, root: TomlTree)
    requires
        byte_len(content) <= usize::MAX,
        literals_stand(content, root),
    ensures
        cfg_told(content, root),
{
    lemma_get_stands(content, root, "target"@);
    if let Some(t) = root.get("target"@) {
        assert forall|i: int| 0 <= i < t.entries().len() implies {
            let gated = (#[trigger] t.entries()[i]).1;
            &&& section_told(content, gated.get("dependencies"@), DependencyKind::Normal)
            &&& section_told(content, gated.get("dev-dependencies"@), DependencyKind::Dev)
            &&& section_told(content, gated.get("build-dependencies"@), DependencyKind::Build)
        } by {
            let gated = t.entries()[i].1;
            assert(literals_stand(content, gated));
            lemma_get_stands(content, gated, "dependencies"@);
            lemma_section_told(content, gated.get("dependencies"@), DependencyKind::Normal);
            lemma_get_stands(content, gated, "dev-dependencies"@);
            lemma_section_told(content, gated.get("dev-dependencies"@), DependencyKind::Dev);
            lemma_get_stands(content, gated, "build-dependencies"@);
            lemma_section_told(content, gated.get("build-dependencies"@), DependencyKind::Build);
        }
    }
}

/// Parse a `Cargo.toml`'s package declaration.
///
/// A virtual workspace manifest (no `[package]`) parses successfully into a value whose
/// `name` is `None`: it can still carry `[target.…]` tables, so this is not an error.
///
/// # Errors
/// [`ParseError::Toml`] if, and only if, `content` is not valid TOML.
pub fn parse_package_manifest(content: &str) -> (r: Result<CargoPackageManifest, ParseError>)
    ensures
        match r {
            Ok(m) => toml_document(content@) matches Some(root) && is_package(
                root,
                starts_of(content@),
                m,
            ),
            Err(e) => e is Toml && toml_document(content@) is None,
        },
        // A version that is written plainly stands where its item says it does.
        r is Ok ==> cfg_told(content@, toml_document(content@)->0),
{
    match parse_document(content) {
        Ok(root) => {
            let starts = line_starts(content);
            let total: usize = str_bytes(content);
            proof {
                lemma_cfg_told(content@, root@);
            }
            Ok(package_from(&root, starts.as_slice()))
        },
        Err(e) => Err(ParseError::Toml(e)),
    }
}

} // verus!
