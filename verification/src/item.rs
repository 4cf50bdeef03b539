//! The fundamental dependency unit as it appears in a manifest.
use crate::text::{begins, chars_of, opt_string, starts_with, trim_start, trim_start_of, Class};
use vstd::prelude::*;

verus! {

/// A single dependency as declared in a manifest.
///
/// Carries the byte position of the version *value* so that it can be rewritten in
/// place without disturbing surrounding formatting or comments.
#[derive(Debug, PartialEq, Eq)]
#[non_exhaustive]
pub struct Item {
    /// Package name as declared in the manifest.
    pub name: String,
    /// Version constraint exactly as written (e.g. `"^1.2.3"`, `"=1.0.0"`).
    pub version_constraint: String,
    /// Source qualifier; non-registry sources are skipped for version checks.
    pub source: PackageSource,
    /// Zero-indexed line where the version value starts.
    pub version_line: usize,
    /// Byte offset of the version value start within that line (no quotes).
    pub version_col_start: usize,
    /// Byte offset of the version value end within that line (exclusive).
    pub version_col_end: usize,
    /// Alternate registry alias (Rust `registry = "..."`).
    pub registry: Option<String>,
    /// Resolved locked version from a lockfile, if available.
    pub locked_version: Option<String>,
    /// Which manifest section declared the dependency.
    pub kind: DependencyKind,
}

/// What an [`Item`] says.
pub ghost struct ItemView {
    /// Package name.
    pub name: Seq<char>,
    /// Version constraint as written.
    pub version_constraint: Seq<char>,
    /// Source qualifier.
    pub source: PackageSource,
    /// Line of the version value.
    pub version_line: usize,
    /// Where the value starts in that line.
    pub version_col_start: usize,
    /// Where the value ends in that line.
    pub version_col_end: usize,
    /// Alternate registry alias.
    pub registry: Option<Seq<char>>,
    /// Locked version.
    pub locked_version: Option<Seq<char>>,
    /// The section.
    pub kind: DependencyKind,
}

impl View for Item {
    type V = ItemView;

    open spec fn view(&self) -> ItemView {
        ItemView {
            name: self.name@,
            version_constraint: self.version_constraint@,
            source: self.source,
            version_line: self.version_line,
            version_col_start: self.version_col_start,
            version_col_end: self.version_col_end,
            registry: opt_string(self.registry),
            locked_version: opt_string(self.locked_version),
            kind: self.kind,
        }
    }
}

/// What a list of items says.
pub open spec fn item_views(items: Seq<Item>) -> Seq<ItemView> {
    items.map_values(|i: Item| i@)
}

/// A string of its own, where there is one.
pub fn copy_option(o: &Option<String>) -> (r: Option<String>)
    ensures
        opt_string(r) == opt_string(*o),
{
    match o {
        Some(s) => Some(s.clone()),
        None => None,
    }
}

impl Clone for Item {
    fn clone(&self) -> (r: Self)
        ensures
            r@ == self@,
    {
        Item {
            name: self.name.clone(),
            version_constraint: self.version_constraint.clone(),
            source: self.source,
            version_line: self.version_line,
            version_col_start: self.version_col_start,
            version_col_end: self.version_col_end,
            registry: copy_option(&self.registry),
            locked_version: copy_option(&self.locked_version),
            kind: self.kind,
        }
    }
}

impl ItemView {
    /// Whether the constraint pins an exact version.
    pub open spec fn pinned(self) -> bool {
        let c = trim_start_of(self.version_constraint, Class::Space);
        begins(c, "="@) && !begins(c, "=="@)
    }

    /// Whether a registry can be asked about the item.
    pub open spec fn checkable(self) -> bool {
        match self.source {
            PackageSource::Registry | PackageSource::Jsr | PackageSource::Locked => true,
            PackageSource::Inherited => self.version_constraint.len() > 0,
            _ => false,
        }
    }

    /// Whether the recorded line and columns are a place in this manifest.
    pub open spec fn positioned(self) -> bool {
        self.checkable() && self.source != PackageSource::Inherited && self.source
            != PackageSource::Locked
    }

    /// Whether the recorded span may be rewritten.
    pub open spec fn rewritable(self) -> bool {
        self.positioned() && self.version_constraint.len() > 0 && self.version_col_start
            < self.version_col_end
    }
}

impl Item {
    /// Whether the constraint pins an exact version (`=1.2.3`, not `==`), which
    /// excludes it from a blanket update.
    #[must_use]
    pub fn is_pinned(&self) -> (r: bool)
        ensures
            r == self@.pinned(),
    {
        let text = chars_of(self.version_constraint.as_str());
        let c = trim_start(text.as_slice(), Class::Space);
        starts_with(c, "=") && !starts_with(c, "==")
    }

    /// Whether this item should be fetched and version-checked. Local and git
    /// sources are skipped.
    ///
    /// An [`Inherited`](PackageSource::Inherited) item is checkable only once
    /// something has supplied the constraint declared elsewhere. Without one the
    /// manifest states no version at all, and there is nothing to ask a registry for.
    #[must_use]
    pub fn is_checkable(&self) -> (r: bool)
        ensures
            r == self@.checkable(),
    {
        match self.source {
            PackageSource::Registry | PackageSource::Jsr | PackageSource::Locked => true,
            PackageSource::Inherited => !self.version_constraint.as_str().is_empty(),
            _ => false,
        }
    }

    /// Whether [`version_line`](Self::version_line) and the columns beside it describe a
    /// place in **this** manifest: what a reporter needs before it points at one.
    ///
    /// Since `0` is a legal line and column index, an unrecorded span is indistinguishable
    /// from a real one by value; it has to be inferred from the source instead. A resolved
    /// [`Inherited`](PackageSource::Inherited) item and a
    /// [`Locked`](PackageSource::Locked) one are worth checking and still have no home
    /// here, because the version string belongs to another entry or another file.
    #[must_use]
    pub fn has_position(&self) -> (r: bool)
        ensures
            r == self@.positioned(),
            r ==> self@.checkable(),
    {
        self.is_checkable() && self.source != PackageSource::Inherited && self.source
            != PackageSource::Locked
    }

    /// Whether the recorded span may be rewritten in place: it points here, and there is
    /// a value there to replace.
    ///
    /// Strictly narrower than [`has_position`](Self::has_position): a bare requirement
    /// (`numpy`) is checkable and sits on a line worth reporting, but records a
    /// *zero-width* span, and writing a version into it would produce `numpy1.5.0`.
    #[must_use]
    pub fn is_rewritable(&self) -> (r: bool)
        ensures
            r == self@.rewritable(),
            r ==> self@.positioned(),
    {
        self.has_position() && !self.version_constraint.as_str().is_empty()
            && self.version_col_start < self.version_col_end
    }
}

/// Which manifest section a dependency was declared in.
///
/// Manifests distinguish dependencies a package needs at runtime from ones only its
/// own development, build, or optional configurations need. Ecosystems that expose no
/// section signal report [`DependencyKind::Normal`].
#[derive(Debug, Clone, Copy, PartialEq, Eq, Structural)]
#[non_exhaustive]
pub enum DependencyKind {
    /// A runtime dependency (`[dependencies]`, `dependencies`, `require`, …).
    Normal,
    /// Needed only to develop or test the package.
    Dev,
    /// Needed only to build the package (Cargo `[build-dependencies]`).
    Build,
    /// Installed only when an extra or optional feature is enabled.
    Optional,
    /// An npm `peerDependencies` entry: required of the *consumer*, not installed.
    Peer,
    /// A central version declaration rather than a dependency of this package:
    /// Cargo's `[workspace.dependencies]`, pnpm catalogs, NuGet `PackageVersion`.
    /// Members opt in by name, so the declaration alone means nothing is depended on.
    Workspace,
    /// A transitive dependency the manifest records explicitly (`go.mod`'s
    /// `// indirect`). Not a direct dependency of the module.
    Indirect,
    /// A version forced onto the resolved tree (npm `overrides`, Yarn `resolutions`).
    Override,
}

impl Default for DependencyKind {
    fn default() -> (r: Self)
        ensures
            r == DependencyKind::Normal,
    {
        DependencyKind::Normal
    }
}

impl DependencyKind {
    /// The token of a kind.
    pub open spec fn name(self) -> &'static str {
        match self {
            DependencyKind::Normal => "normal",
            DependencyKind::Dev => "dev",
            DependencyKind::Build => "build",
            DependencyKind::Optional => "optional",
            DependencyKind::Peer => "peer",
            DependencyKind::Workspace => "workspace",
            DependencyKind::Indirect => "indirect",
            DependencyKind::Override => "override",
        }
    }

    /// A stable lowercase token for machine-readable output.
    #[must_use]
    pub fn token(self) -> (r: &'static str)
        ensures
            r == self.name(),
    {
        match self {
            DependencyKind::Normal => "normal",
            DependencyKind::Dev => "dev",
            DependencyKind::Build => "build",
            DependencyKind::Optional => "optional",
            DependencyKind::Peer => "peer",
            DependencyKind::Workspace => "workspace",
            DependencyKind::Indirect => "indirect",
            DependencyKind::Override => "override",
        }
    }

    /// Whether this is a dependency the package itself pulls in: everything except a
    /// central declaration ([`Workspace`](Self::Workspace)) and a recorded transitive
    /// ([`Indirect`](Self::Indirect)).
    #[must_use]
    pub fn is_direct(self) -> (r: bool)
        ensures
            r == (self != DependencyKind::Workspace && self != DependencyKind::Indirect),
    {
        !matches!(self, DependencyKind::Workspace | DependencyKind::Indirect)
    }
}

/// Where a dependency comes from. Determines whether it is version-checked.
#[derive(Debug, Clone, Copy, PartialEq, Eq, Structural)]
#[non_exhaustive]
pub enum PackageSource {
    /// A normal registry package (the default).
    Registry,
    /// A JSR-hosted package.
    Jsr,
    /// A `path` dependency, skipped for version checks.
    Local,
    /// A git dependency, skipped for version checks.
    Git,
    /// The dependency's version is declared somewhere other than this entry, so
    /// there is no version string here to rewrite.
    ///
    /// Cargo's `dep.workspace = true`, a Gradle catalog entry whose `version.ref` names
    /// an alias several entries share, and a Maven entry whose version comes from a
    /// shared property or from outside the file. The constraint tells the two halves
    /// apart: filled in, the version was found elsewhere and the item is checkable;
    /// empty, no version was found at all.
    Inherited,
    /// The version was written by a lockfile and never in a manifest: checkable, and
    /// with no place in a manifest.
    Locked,
    /// A real package whose intended version the manifest refers to and does not state.
    Unresolved,
}

impl Default for PackageSource {
    fn default() -> (r: Self)
        ensures
            r == PackageSource::Registry,
    {
        PackageSource::Registry
    }
}

/// An item that may be rewritten has a place, and an item with a place is checkable.
pub proof fn law_rewritable_positioned_checkable(i: ItemView)
    ensures
        i.rewritable() ==> i.positioned(),
        i.positioned() ==> i.checkable(),
{
}

/// A list of items with one more.
pub proof fn lemma_item_views_push(items: Seq<Item>, item: Item)
    ensures
        item_views(items.push(item)) == item_views(items).push(item@),
{
    assert(item_views(items.push(item)) =~= item_views(items).push(item@));
}

} // verus!
