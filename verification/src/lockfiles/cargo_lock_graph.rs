//! Resolved packages and the edges between them.
use crate::error::ParseError;
use crate::item::copy_option;
use crate::split::{copy_strings, strings};
use crate::text::{
    chars_of, cut, first, is_str, opt_string, position, split_once, take, Class,
};
use crate::toml::{
    parse_document, string_array, text_at, text_in, texts_in, toml_document, trees_of, TomlNode,
    TomlTree,
};
use vstd::prelude::*;

verus! {

/// A single locked package, with the fields needed to rebuild the resolved
/// dependency graph.
#[derive(Debug, PartialEq, Eq)]
#[non_exhaustive]
pub struct LockedPackage {
    /// Package name.
    pub name: String,
    /// Exact resolved version; empty where the lockfile states none.
    pub version: String,
    /// Package source (`registry+https://…`, `git+…`, `sparse+…`). `None` for
    /// path/workspace packages: that absence is how local packages are told apart
    /// from external ones.
    pub source: Option<String>,
    /// Resolved dependency references, each a `"name"`, `"name version"`, or
    /// `"name version (source)"` string. Resolve them to package indices with
    /// [`ResolvedLockfile::resolve`].
    pub dependencies: Vec<String>,
}

/// What a [`LockedPackage`] says.
pub ghost struct PackageView {
    /// Package name.
    pub name: Seq<char>,
    /// Exact resolved version.
    pub version: Seq<char>,
    /// Package source.
    pub source: Option<Seq<char>>,
    /// Dependency references.
    pub dependencies: Seq<Seq<char>>,
}

impl View for LockedPackage {
    type V = PackageView;

    open spec fn view(&self) -> PackageView {
        PackageView {
            name: self.name@,
            version: self.version@,
            source: opt_string(self.source),
            dependencies: strings(self.dependencies@),
        }
    }
}

impl Clone for LockedPackage {
    fn clone(&self) -> (r: Self)
        ensures
            r@ == self@,
    {
        LockedPackage {
            name: self.name.clone(),
            version: self.version.clone(),
            source: copy_option(&self.source),
            dependencies: copy_strings(&self.dependencies),
        }
    }
}

impl LockedPackage {
    /// A package of the given fields.
    pub fn new(name: String, version: String, source: Option<String>, dependencies: Vec<String>) -> (r:
        Self)
        ensures
            r.name == name,
            r.version == version,
            r.source == source,
            r.dependencies == dependencies,
    {
        LockedPackage { name, version, source, dependencies }
    }
}

/// A parsed lockfile: every resolved package plus its edges.
#[derive(Debug, Clone)]
#[non_exhaustive]
pub struct ResolvedLockfile {
    /// All packages, in lockfile order.
    pub packages: Vec<LockedPackage>,
}

impl View for ResolvedLockfile {
    type V = Seq<PackageView>;

    open spec fn view(&self) -> Seq<PackageView> {
        self.packages@.map_values(|p: LockedPackage| p@)
    }
}

impl Default for ResolvedLockfile {
    fn default() -> (r: Self)
        ensures
            r@ == Seq::<PackageView>::empty(),
    {
        let r = ResolvedLockfile { packages: Vec::new() };
        assert(r@ =~= Seq::<PackageView>::empty());
        r
    }
}

/// The name and, where it states one, the version of a dependency reference: the
/// first and the second of its parts between single spaces.
pub open spec fn reference(dep: Seq<char>) -> (Seq<char>, Option<Seq<char>>) {
    match cut(dep, Class::Is(' ')) {
        None => (dep, None),
        Some((name, rest)) => (name, Some(rest.take(first(rest, Class::Is(' '))))),
    }
}

/// Whether a package is one a reference may mean: it has the name, and the version
/// where the reference states one.
pub open spec fn is_meant(p: PackageView, dep: Seq<char>) -> bool {
    let (name, version) = reference(dep);
    p.name == name && (version matches Some(v) ==> p.version == v)
}

/// The index of the first package that a reference means.
pub open spec fn resolved(packages: Seq<PackageView>, dep: Seq<char>) -> Option<usize>
    decreases packages.len(),
{
    if packages.len() == 0 {
        None
    } else {
        match resolved(packages.drop_last(), dep) {
            Some(i) => Some(i),
            None => if is_meant(packages.last(), dep) {
                Some((packages.len() - 1) as usize)
            } else {
                None
            },
        }
    }
}

/// `resolved` finds a package if there is one that is meant, and then the first.
pub proof fn lemma_resolved(packages: Seq<PackageView>, dep: Seq<char>)
    requires
        packages.len() <= usize::MAX,
    ensures
        resolved(packages, dep) matches Some(i) ==> i < packages.len() && is_meant(
            packages[i as int],
            dep,
        ) && forall|j: int| 0 <= j < i ==> !is_meant(#[trigger] packages[j], dep),
        resolved(packages, dep) is None ==> forall|j: int|
            0 <= j < packages.len() ==> !is_meant(#[trigger] packages[j], dep),
    decreases packages.len(),
{
    if packages.len() > 0 {
        let front = packages.drop_last();
        lemma_resolved(front, dep);
        assert forall|j: int| 0 <= j < front.len() implies packages[j] == #[trigger] front[j] by {}
        match resolved(front, dep) {
            Some(i) => {
                assert forall|j: int| 0 <= j < i implies !is_meant(#[trigger] packages[j], dep) by {
                    assert(!is_meant(front[j], dep));
                }
            },
            None => {
                assert forall|j: int| 0 <= j < packages.len() - 1 implies !is_meant(
                    #[trigger] packages[j],
                    dep,
                ) by {
                    assert(!is_meant(front[j], dep));
                }
            },
        }
    }
}

impl ResolvedLockfile {
    /// A lockfile of the given packages.
    pub fn from_packages(packages: Vec<LockedPackage>) -> (r: Self)
        ensures
            r.packages == packages,
    {
        ResolvedLockfile { packages }
    }

    /// Resolve a `dependencies` entry to an index into [`Self::packages`].
    ///
    /// A reference is written in the shortest unambiguous form: `"name"` when the
    /// name is unique in the lock, `"name version"` when several versions coexist,
    /// and `"name version (source)"` in the rare multi-source case. Matching on
    /// `(name, version)` disambiguates every realistic lockfile.
    #[must_use]
    pub fn resolve(&self, dep: &str) -> (r: Option<usize>)
        ensures
            r == resolved(self@, dep@),
            r matches Some(i) ==> i < self@.len(),
    {
        let text = chars_of(dep);
        let (name, version): (&[char], Option<&[char]>) = match split_once(
            text.as_slice(),
            Class::Is(' '),
        ) {
            None => (text.as_slice(), None),
            Some((name, rest)) => (name, Some(take(rest, position(rest, Class::Is(' '))))),
        };
        let ghost all = self@;
        let mut i: usize = 0;
        while i < self.packages.len()
            invariant
                i <= self.packages.len(),
                all == self@,
                resolved(all.take(i as int), dep@) is None,
                reference(dep@) == (name@, match version {
                    Some(v) => Some(v@),
                    None => None,
                }),
            decreases self.packages.len() - i,
        {
            let p = &self.packages[i];
            let mut found = is_str(name, p.name.as_str());
            if let Some(v) = version {
                found = found && is_str(v, p.version.as_str());
            }
            proof {
                assert(all.take(i + 1).drop_last() =~= all.take(i as int));
                assert(all.take(i + 1).last() == p@);
                assert(found == is_meant(p@, dep@));
            }
            if found {
                proof {
                    lemma_resolved_stays(all, dep@, i + 1);
                }
                return Some(i);
            }
            i = i + 1;
        }
        assert(all.take(i as int) =~= all);
        None
    }
}

/// Once a prefix of the packages resolves a reference, the rest cannot change it.
proof fn lemma_resolved_stays(packages: Seq<PackageView>, dep: Seq<char>, n: int)
    requires
        0 <= n <= packages.len(),
        resolved(packages.take(n), dep) is Some,
    ensures
        resolved(packages, dep) == resolved(packages.take(n), dep),
    decreases packages.len(),
{
    if n < packages.len() {
        assert(packages.drop_last().take(n) =~= packages.take(n));
        lemma_resolved_stays(packages.drop_last(), dep, n);
    } else {
        assert(packages.take(n) =~= packages);
    }
}

/// The package of a `[[package]]` table that states a name and a version.
pub open spec fn cargo_package(t: TomlTree) -> Option<PackageView> {
    match (text_in(t.get("name"@)), text_in(t.get("version"@))) {
        (Some(name), Some(version)) => Some(
            PackageView {
                name,
                version,
                source: text_in(t.get("source"@)),
                dependencies: texts_in(t.get("dependencies"@)),
            },
        ),
        _ => None,
    }
}

/// The packages of a list of `[[package]]` tables, in order.
pub open spec fn cargo_packages(tables: Seq<TomlTree>) -> Seq<PackageView>
    decreases tables.len(),
{
    if tables.len() == 0 {
        seq![]
    } else {
        let front = cargo_packages(tables.drop_last());
        match cargo_package(tables.last()) {
            Some(p) => front.push(p),
            None => front,
        }
    }
}

/// The `[[package]]` tables of a document.
pub open spec fn package_tables(root: TomlTree) -> Seq<TomlTree> {
    match root.get("package"@) {
        Some(t) => t.tables(),
        None => seq![],
    }
}

/// The packages of a parsed `Cargo.lock`.
pub fn packages_from(root: &TomlNode) -> (r: ResolvedLockfile)
    ensures
        r@ == cargo_packages(package_tables(root@)),
{
    let mut packages: Vec<LockedPackage> = Vec::new();
    if let Some(node) = root.get("package") {
        if let Some(v) = node.tables() {
            let ghost all = trees_of(v@);
            let mut i: usize = 0;
            assert(packages@.map_values(|p: LockedPackage| p@) =~= cargo_packages(all.take(0)));
            while i < v.len()
                invariant
                    i <= v.len(),
                    all == trees_of(v@),
                    packages@.map_values(|p: LockedPackage| p@) == cargo_packages(
                        all.take(i as int),
                    ),
                decreases v.len() - i,
            {
                proof {
                    assert(all.take(i + 1).drop_last() =~= all.take(i as int));
                    assert(all.take(i + 1).last() == v@[i as int]@);
                }
                if let Some(name) = text_at(v[i].get("name")) {
                    if let Some(version) = text_at(v[i].get("version")) {
                        let p = LockedPackage::new(
                            name,
                            version,
                            text_at(v[i].get("source")),
                            string_array(v[i].get("dependencies")),
                        );
                        let ghost before = packages@.map_values(|p: LockedPackage| p@);
                        packages.push(p);
                        assert(packages@.map_values(|p: LockedPackage| p@) =~= before.push(p@));
                    }
                }
                i = i + 1;
            }
            assert(all.take(i as int) =~= all);
            return ResolvedLockfile::from_packages(packages);
        }
    }
    assert(packages@.map_values(|p: LockedPackage| p@) =~= seq![]);
    ResolvedLockfile::from_packages(packages)
}

/// Parse `Cargo.lock` into a [`ResolvedLockfile`], preserving sources and edges.
///
/// # Errors
/// [`ParseError::Toml`] if, and only if, `content` is not valid TOML.
pub fn parse_cargo_lock_graph(content: &str) -> (r: Result<ResolvedLockfile, ParseError>)
    ensures
        match r {
            Ok(lock) => toml_document(content@) matches Some(root) && lock@ == cargo_packages(
                package_tables(root),
            ),
            Err(e) => e is Toml && toml_document(content@) is None,
        },
{
    match parse_document(content) {
        Ok(root) => Ok(packages_from(&root)),
        Err(e) => Err(ParseError::Toml(e)),
    }
}

} // verus!
