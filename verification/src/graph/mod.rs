//! A language-agnostic dependency graph plus one cycle-safe traversal of it.
//!
//! The graph itself knows nothing about any package manager: it is nodes (a package
//! at a version) and directed edges (`a` depends on `b`). Building one from a
//! resolved lockfile is [`DependencyGraph::from_resolved`].
//!
//! [`DependencyGraph::walk`] is the one traversal. What counts as a cycle, a repeat,
//! or a package already shown elsewhere is stated once, in [`walk::walked`] and
//! [`walk::placement_of`]. Rendering is left to the caller: this module produces plain data.
pub mod laws;
pub mod record;
pub mod trace;
pub mod tree;
pub mod walk;

pub use record::{Event, Listed, Recorder};
pub use tree::{Tree, TreeNode, TreeOptions};
pub use walk::{
    PathPredicate, Placement, Visit, Visitor, WalkOptions, WalkStats, DEFAULT_MAX_VISITS,
    MAX_WALK_DEPTH,
};

use std::collections::HashMap;

use crate::lockfiles::cargo_lock_graph::{resolved, PackageView};
use crate::lockfiles::ResolvedLockfile;
use crate::split::strings;
use crate::text::{begins, chars_of, opt_string, starts_with, str_eq};
use vstd::prelude::*;

verus! {

broadcast use vstd::std_specs::hash::group_hash_axioms;

/// How a graph node relates to the workspace under analysis.
#[derive(Debug, Clone, Copy, PartialEq, Eq, Structural)]
#[non_exhaustive]
pub enum NodeKind {
    /// A package that lives in this workspace (a member).
    Workspace,
    /// A package resolved from a registry.
    Registry,
    /// A git dependency.
    Git,
    /// A local path dependency that is *not* a workspace member.
    Path,
}

/// A single package in the graph.
#[derive(Debug, PartialEq, Eq)]
#[non_exhaustive]
pub struct Node {
    /// Package name.
    pub name: String,
    /// Resolved version.
    pub version: String,
    /// Relationship to the workspace.
    pub kind: NodeKind,
}

/// What a [`Node`] says.
pub ghost struct NodeView {
    /// Package name.
    pub name: Seq<char>,
    /// Resolved version.
    pub version: Seq<char>,
    /// Relationship to the workspace.
    pub kind: NodeKind,
}

impl View for Node {
    type V = NodeView;

    open spec fn view(&self) -> NodeView {
        NodeView { name: self.name@, version: self.version@, kind: self.kind }
    }
}

impl Clone for Node {
    fn clone(&self) -> (r: Self)
        ensures
            r@ == self@,
    {
        Node { name: self.name.clone(), version: self.version.clone(), kind: self.kind }
    }
}

/// What a [`DependencyGraph`] is: its nodes, the dependencies of each, and the roots.
///
/// The position of each root is no part of it: [`slot_of`] gives it from the roots, and the
/// graph's invariant ties the index it keeps to that.
pub ghost struct GraphView {
    /// The packages.
    pub nodes: Seq<NodeView>,
    /// `edges[i]` are the nodes that node `i` directly depends on.
    pub edges: Seq<Seq<usize>>,
    /// The nodes a tree is rendered from.
    pub roots: Seq<usize>,
}

impl GraphView {
    /// Every node has a dependency list, and every index names a node.
    pub open spec fn valid(self) -> bool {
        &&& self.edges.len() == self.nodes.len()
        &&& self.nodes.len() <= usize::MAX
        &&& self.roots.len() <= usize::MAX
        &&& forall|i: int, j: int|
            0 <= i < self.edges.len() && 0 <= j < self.edges[i].len() ==> (
            #[trigger] self.edges[i][j]) < self.nodes.len()
        &&& forall|i: int|
            0 <= i < self.edges.len() ==> (#[trigger] self.edges[i]).len() <= usize::MAX
        &&& forall|i: int| 0 <= i < self.roots.len() ==> (#[trigger] self.roots[i])
            < self.nodes.len()
    }
}

/// The first position of `node` in a list of roots.
pub open spec fn slot_of(roots: Seq<usize>, node: usize) -> Option<usize>
    decreases roots.len(),
{
    if roots.len() == 0 {
        None
    } else {
        match slot_of(roots.drop_last(), node) {
            Some(slot) => Some(slot),
            None => if roots.last() == node {
                Some((roots.len() - 1) as usize)
            } else {
                None
            },
        }
    }
}

/// A slot names an entry of the roots that is the node, and the first such; a node
/// without a slot is no root.
pub proof fn lemma_slot(roots: Seq<usize>, node: usize)
    requires
        roots.len() <= usize::MAX,
    ensures
        slot_of(roots, node) matches Some(s) ==> s < roots.len() && roots[s as int] == node
            && forall|j: int| 0 <= j < s ==> roots[j] != node,
        slot_of(roots, node) is Some <==> roots.contains(node),
    decreases roots.len(),
{
    if roots.len() > 0 {
        let front = roots.drop_last();
        lemma_slot(front, node);
        assert forall|j: int| 0 <= j < front.len() implies roots[j] == #[trigger] front[j] by {}
        match slot_of(front, node) {
            Some(s) => {
                assert(roots[s as int] == node);
                assert forall|j: int| 0 <= j < s implies #[trigger] roots[j] != node by {
                    assert(front[j] != node);
                }
            },
            None => {
                assert forall|j: int| 0 <= j < front.len() implies #[trigger] roots[j] != node by {
                    assert(front[j] != node) by {
                        assert(!front.contains(node));
                    }
                }
                if roots.last() == node {
                    assert(roots[roots.len() - 1] == node);
                }
            },
        }
    }
}

/// A resolved dependency graph: nodes and directed edges (`a` depends on `b`),
/// plus the roots to render from.
#[derive(Debug)]
#[non_exhaustive]
pub struct DependencyGraph {
    nodes: Vec<Node>,
    /// `edges[i]` = indices of the nodes that node `i` directly depends on.
    edges: Vec<Vec<usize>>,
    /// Indices of the root nodes a tree is rendered from.
    roots: Vec<usize>,
    /// Reverse of `roots`: node index to its position within it.
    root_slots: HashMap<usize, usize>,
}

/// The lists a vector of vectors holds.
pub open spec fn lists(v: Seq<Vec<usize>>) -> Seq<Seq<usize>> {
    v.map_values(|l: Vec<usize>| l@)
}

impl View for DependencyGraph {
    type V = GraphView;

    closed spec fn view(&self) -> GraphView {
        GraphView {
            nodes: self.nodes@.map_values(|n: Node| n@),
            edges: lists(self.edges@),
            roots: self.roots@,
        }
    }
}

impl DependencyGraph {
    /// The graph is valid and the slots are those of its roots.
    #[verifier::type_invariant]
    spec fn inv(self) -> bool {
        &&& self@.valid()
        &&& forall|n: usize|
            #![trigger self.root_slots@.contains_key(n)]
            #![trigger slot_of(self.roots@, n)]
            match slot_of(self.roots@, n) {
                Some(s) => self.root_slots@.contains_key(n) && self.root_slots@[n] == s,
                None => !self.root_slots@.contains_key(n),
            }
    }
}

/// Index root node indices by their position, for [`DependencyGraph::root_slot`].
///
/// A node listed twice keeps its first position, so the slot always names the
/// entry a reader would actually find.
fn index_roots(roots: &[usize]) -> (r: HashMap<usize, usize>)
    ensures
        forall|n: usize|
            #![trigger r@.contains_key(n)]
            #![trigger slot_of(roots@, n)]
            match slot_of(roots@, n) {
                Some(s) => r@.contains_key(n) && r@[n] == s,
                None => !r@.contains_key(n),
            },
{
    let mut out: HashMap<usize, usize> = HashMap::new();
    let mut slot: usize = 0;
    while slot < roots.len()
        invariant
            slot <= roots.len(),
            forall|n: usize|
                #![trigger out@.contains_key(n)]
                #![trigger slot_of(roots@.take(slot as int), n)]
                match slot_of(roots@.take(slot as int), n) {
                    Some(s) => out@.contains_key(n) && out@[n] == s,
                    None => !out@.contains_key(n),
                },
        decreases roots.len() - slot,
    {
        let node: usize = roots[slot];
        let ghost before = out@;
        if !out.contains_key(&node) {
            out.insert(node, slot);
        }
        slot = slot + 1;
        proof {
            let now = roots@.take(slot as int);
            let then = roots@.take(slot - 1);
            assert(now.drop_last() =~= then);
            assert forall|n: usize|
                #![trigger out@.contains_key(n)]
                #![trigger slot_of(now, n)]
                match slot_of(now, n) {
                    Some(s) => out@.contains_key(n) && out@[n] == s,
                    None => !out@.contains_key(n),
                } by {
                assert(slot_of(now, n) == match slot_of(then, n) {
                    Some(s) => Some(s),
                    None => if node == n {
                        Some((slot - 1) as usize)
                    } else {
                        None
                    },
                });
                assert(before.contains_key(n) <==> slot_of(then, n) is Some);
            }
        }
    }
    assert(roots@.take(slot as int) =~= roots@);
    out
}

/// Copies of the given nodes.
fn copy_nodes(nodes: &Vec<Node>) -> (r: Vec<Node>)
    ensures
        r@.map_values(|n: Node| n@) == nodes@.map_values(|n: Node| n@),
{
    let mut out: Vec<Node> = Vec::new();
    let mut i: usize = 0;
    while i < nodes.len()
        invariant
            i <= nodes.len(),
            out@.len() == i,
            forall|j: int| 0 <= j < i ==> (#[trigger] out@[j])@ == nodes@[j]@,
        decreases nodes.len() - i,
    {
        out.push(nodes[i].clone());
        i = i + 1;
    }
    assert(out@.map_values(|n: Node| n@) =~= nodes@.map_values(|n: Node| n@));
    out
}

/// A copy of the given list.
fn copy_list(list: &Vec<usize>) -> (r: Vec<usize>)
    ensures
        r@ == list@,
{
    let mut out: Vec<usize> = Vec::new();
    let mut i: usize = 0;
    while i < list.len()
        invariant
            i <= list.len(),
            out@ == list@.take(i as int),
        decreases list.len() - i,
    {
        out.push(list[i]);
        i = i + 1;
        assert(list@.take(i as int) =~= list@.take(i - 1).push(list@[i - 1]));
    }
    assert(list@.take(i as int) =~= list@);
    out
}

impl Clone for DependencyGraph {
    fn clone(&self) -> (r: Self)
        ensures
            r@ == self@,
    {
        proof {
            use_type_invariant(self);
        }
        let nodes = copy_nodes(&self.nodes);
        let mut edges: Vec<Vec<usize>> = Vec::new();
        let mut i: usize = 0;
        while i < self.edges.len()
            invariant
                i <= self.edges.len(),
                edges@.len() == i,
                forall|j: int| 0 <= j < i ==> (#[trigger] edges@[j])@ == self.edges@[j]@,
            decreases self.edges.len() - i,
        {
            edges.push(copy_list(&self.edges[i]));
            i = i + 1;
        }
        assert(lists(edges@) =~= lists(self.edges@));
        let roots = copy_list(&self.roots);
        let root_slots = index_roots(roots.as_slice());
        DependencyGraph { nodes, edges, roots, root_slots }
    }
}

impl Default for DependencyGraph {
    fn default() -> (r: Self)
        ensures
            r@.nodes.len() == 0,
            r@.edges.len() == 0,
            r@.roots.len() == 0,
    {
        DependencyGraph {
            nodes: Vec::new(),
            edges: Vec::new(),
            roots: Vec::new(),
            root_slots: HashMap::new(),
        }
    }
}

/// How a package relates to the workspace: by its source first, then by membership.
///
/// Source is tested first because a member's name is not exclusive to it: a package
/// published to a registry may share the name of one in this workspace. Only the one
/// with no source is the member.
pub open spec fn kind_of(name: Seq<char>, source: Option<Seq<char>>, members: Seq<Seq<char>>) -> NodeKind {
    match source {
        None => if members.contains(name) {
            NodeKind::Workspace
        } else {
            NodeKind::Path
        },
        Some(s) => if begins(s, "git+"@) {
            NodeKind::Git
        } else {
            NodeKind::Registry
        },
    }
}

/// Whether one of the strings is `name`.
fn is_among(names: &[String], name: &str) -> (r: bool)
    ensures
        r == strings(names@).contains(name@),
{
    let mut i: usize = 0;
    while i < names.len()
        invariant
            i <= names.len(),
            forall|j: int| 0 <= j < i ==> (#[trigger] names@[j])@ != name@,
        decreases names.len() - i,
    {
        if str_eq(names[i].as_str(), name) {
            assert(strings(names@)[i as int] == name@);
            return true;
        }
        i = i + 1;
    }
    assert forall|j: int| 0 <= j < strings(names@).len() implies strings(names@)[j] != name@ by {
        assert(names@[j]@ != name@);
    }
    false
}

/// Classify a package by its lockfile source, then workspace membership.
fn classify(name: &str, source: &Option<String>, workspace_names: &[String]) -> (r: NodeKind)
    ensures
        r == kind_of(name@, opt_string(*source), strings(workspace_names@)),
{
    match source {
        None => if is_among(workspace_names, name) {
            NodeKind::Workspace
        } else {
            NodeKind::Path
        },
        Some(s) => {
            let s = chars_of(s.as_str());
            if starts_with(s.as_slice(), "git+") {
                NodeKind::Git
            } else {
                NodeKind::Registry
            }
        },
    }
}

/// The node of a locked package.
pub open spec fn node_of(p: PackageView, members: Seq<Seq<char>>) -> NodeView {
    NodeView { name: p.name, version: p.version, kind: kind_of(p.name, p.source, members) }
}

/// The packages that a list of references means, each once, in order of first mention.
pub open spec fn targets(packages: Seq<PackageView>, deps: Seq<Seq<char>>) -> Seq<usize>
    decreases deps.len(),
{
    if deps.len() == 0 {
        seq![]
    } else {
        let front = targets(packages, deps.drop_last());
        match resolved(packages, deps.last()) {
            Some(i) => if front.contains(i) {
                front
            } else {
                front.push(i)
            },
            None => front,
        }
    }
}

/// The indices, below `n`, of the nodes of a name; only the members where `members`.
pub open spec fn named(nodes: Seq<NodeView>, name: Seq<char>, members: bool, n: int) -> Seq<usize>
    decreases n,
{
    if n <= 0 {
        seq![]
    } else {
        let front = named(nodes, name, members, n - 1);
        if nodes[n - 1].name == name && (members ==> nodes[n - 1].kind == NodeKind::Workspace) {
            front.push((n - 1) as usize)
        } else {
            front
        }
    }
}

/// The nodes a root name means: its members where it has any, else every match.
pub open spec fn roots_named(nodes: Seq<NodeView>, name: Seq<char>) -> Seq<usize> {
    let members = named(nodes, name, true, nodes.len() as int);
    if members.len() == 0 {
        named(nodes, name, false, nodes.len() as int)
    } else {
        members
    }
}

/// The nodes a list of root names means, one name after another.
pub open spec fn roots_of(nodes: Seq<NodeView>, names: Seq<Seq<char>>) -> Seq<usize>
    decreases names.len(),
{
    if names.len() == 0 {
        seq![]
    } else {
        roots_of(nodes, names.drop_last()) + roots_named(nodes, names.last())
    }
}

/// The indices of the members below `n`.
pub open spec fn members_of(nodes: Seq<NodeView>, n: int) -> Seq<usize>
    decreases n,
{
    if n <= 0 {
        seq![]
    } else if nodes[n - 1].kind == NodeKind::Workspace {
        members_of(nodes, n - 1).push((n - 1) as usize)
    } else {
        members_of(nodes, n - 1)
    }
}

/// The graph of a lockfile.
pub open spec fn graph_of(
    packages: Seq<PackageView>,
    members: Seq<Seq<char>>,
    roots: Seq<Seq<char>>,
) -> GraphView {
    let nodes = packages.map_values(|p: PackageView| node_of(p, members));
    let asked = roots_of(nodes, roots);
    GraphView {
        nodes,
        edges: packages.map_values(|p: PackageView| targets(packages, p.dependencies)),
        roots: if asked.len() == 0 {
            members_of(nodes, nodes.len() as int)
        } else {
            asked
        },
    }
}

/// Whether `list` holds `x`.
fn holds(list: &Vec<usize>, x: usize) -> (r: bool)
    ensures
        r == list@.contains(x),
{
    let mut i: usize = 0;
    while i < list.len()
        invariant
            i <= list.len(),
            forall|j: int| 0 <= j < i ==> list@[j] != x,
        decreases list.len() - i,
    {
        if list[i] == x {
            return true;
        }
        i = i + 1;
    }
    false
}

/// The packages that the references of one package mean.
fn find_targets(lock: &ResolvedLockfile, deps: &Vec<String>) -> (r: Vec<usize>)
    ensures
        r@ == targets(lock@, strings(deps@)),
        forall|j: int| 0 <= j < r@.len() ==> (#[trigger] r@[j]) < lock@.len(),
{
    let ghost all = strings(deps@);
    let mut out: Vec<usize> = Vec::new();
    let mut i: usize = 0;
    assert(out@ =~= targets(lock@, all.take(0)));
    while i < deps.len()
        invariant
            i <= deps.len(),
            all == strings(deps@),
            out@ == targets(lock@, all.take(i as int)),
            forall|j: int| 0 <= j < out@.len() ==> (#[trigger] out@[j]) < lock@.len(),
        decreases deps.len() - i,
    {
        proof {
            assert(all.take(i + 1).drop_last() =~= all.take(i as int));
            assert(all.take(i + 1).last() == deps@[i as int]@);
        }
        match lock.resolve(deps[i].as_str()) {
            Some(k) => {
                if !holds(&out, k) {
                    out.push(k);
                }
            },
            None => {},
        }
        i = i + 1;
    }
    assert(all.take(i as int) =~= all);
    out
}

/// The indices of the nodes of a name; only the members where `members`.
fn find_named(nodes: &Vec<Node>, name: &str, members: bool) -> (r: Vec<usize>)
    ensures
        r@ == named(nodes@.map_values(|n: Node| n@), name@, members, nodes@.len() as int),
        forall|j: int| 0 <= j < r@.len() ==> (#[trigger] r@[j]) < nodes@.len(),
{
    let ghost all = nodes@.map_values(|n: Node| n@);
    let mut out: Vec<usize> = Vec::new();
    let mut i: usize = 0;
    assert(out@ =~= named(all, name@, members, 0));
    while i < nodes.len()
        invariant
            i <= nodes.len(),
            all == nodes@.map_values(|n: Node| n@),
            out@ == named(all, name@, members, i as int),
            forall|j: int| 0 <= j < out@.len() ==> (#[trigger] out@[j]) < nodes@.len(),
        decreases nodes.len() - i,
    {
        assert(all[i as int] == nodes@[i as int]@);
        if str_eq(nodes[i].name.as_str(), name) && (!members || nodes[i].kind
            == NodeKind::Workspace) {
            out.push(i);
        }
        i = i + 1;
    }
    out
}

/// The indices of the members.
fn find_members(nodes: &Vec<Node>) -> (r: Vec<usize>)
    ensures
        r@ == members_of(nodes@.map_values(|n: Node| n@), nodes@.len() as int),
        forall|j: int| 0 <= j < r@.len() ==> (#[trigger] r@[j]) < nodes@.len(),
{
    let ghost all = nodes@.map_values(|n: Node| n@);
    let mut out: Vec<usize> = Vec::new();
    let mut i: usize = 0;
    assert(out@ =~= members_of(all, 0));
    while i < nodes.len()
        invariant
            i <= nodes.len(),
            all == nodes@.map_values(|n: Node| n@),
            out@ == members_of(all, i as int),
            forall|j: int| 0 <= j < out@.len() ==> (#[trigger] out@[j]) < nodes@.len(),
        decreases nodes.len() - i,
    {
        assert(all[i as int] == nodes@[i as int]@);
        if nodes[i].kind == NodeKind::Workspace {
            out.push(i);
        }
        i = i + 1;
    }
    out
}

/// The nodes a list of root names means.
fn find_roots(nodes: &Vec<Node>, names: &[String]) -> (r: Vec<usize>)
    ensures
        r@ == roots_of(nodes@.map_values(|n: Node| n@), strings(names@)),
        forall|j: int| 0 <= j < r@.len() ==> (#[trigger] r@[j]) < nodes@.len(),
{
    let ghost all = nodes@.map_values(|n: Node| n@);
    let ghost texts = strings(names@);
    let mut out: Vec<usize> = Vec::new();
    let mut i: usize = 0;
    assert(out@ =~= roots_of(all, texts.take(0)));
    while i < names.len()
        invariant
            i <= names.len(),
            all == nodes@.map_values(|n: Node| n@),
            texts == strings(names@),
            out@ == roots_of(all, texts.take(i as int)),
            forall|j: int| 0 <= j < out@.len() ==> (#[trigger] out@[j]) < nodes@.len(),
        decreases names.len() - i,
    {
        proof {
            assert(texts.take(i + 1).drop_last() =~= texts.take(i as int));
            assert(texts.take(i + 1).last() == names@[i as int]@);
        }
        let mut found = find_named(nodes, names[i].as_str(), true);
        if found.len() == 0 {
            found = find_named(nodes, names[i].as_str(), false);
        }
        let ghost before = out@;
        out.append(&mut found);
        i = i + 1;
        proof {
            assert(out@ =~= roots_of(all, texts.take(i as int)));
        }
    }
    assert(texts.take(i as int) =~= texts);
    out
}

/// The nodes that point at `to`, as often as they do, from the lists below `n`.
pub open spec fn dependents(edges: Seq<Seq<usize>>, to: usize, n: int) -> Seq<usize>
    decreases n,
{
    if n <= 0 {
        seq![]
    } else {
        dependents(edges, to, n - 1) + mentions(edges[n - 1], to, (n - 1) as usize)
    }
}

/// `from`, as often as `list` holds `to`.
pub open spec fn mentions(list: Seq<usize>, to: usize, from: usize) -> Seq<usize>
    decreases list.len(),
{
    if list.len() == 0 {
        seq![]
    } else if list.last() == to {
        mentions(list.drop_last(), to, from).push(from)
    } else {
        mentions(list.drop_last(), to, from)
    }
}

/// The graph with every edge reversed.
pub open spec fn inversion(g: GraphView) -> GraphView {
    GraphView {
        nodes: g.nodes,
        edges: Seq::new(
            g.nodes.len(),
            |to: int| dependents(g.edges, to as usize, g.edges.len() as int),
        ),
        roots: g.roots,
    }
}

impl DependencyGraph {
    /// Assemble a graph from a resolved lockfile.
    ///
    /// Each package is classified via `workspace_names` (the members) and its
    /// lockfile `source`. `roots` names the packages to render from (typically the
    /// workspace members, or a single one); if none are found, every workspace node
    /// becomes a root. A name can match both a member and a registry package that
    /// happens to share it: the member is the one meant, and a name that matches no
    /// member keeps every match.
    #[must_use]
    pub fn from_resolved(
        resolved: &ResolvedLockfile,
        workspace_names: &[String],
        roots: &[String],
    ) -> (r: Self)
        ensures
            r@ == graph_of(resolved@, strings(workspace_names@), strings(roots@)),
            r@.valid(),
    {
        let ghost packages = resolved@;
        let ghost members = strings(workspace_names@);
        let mut nodes: Vec<Node> = Vec::new();
        let mut edges: Vec<Vec<usize>> = Vec::new();
        let mut i: usize = 0;
        while i < resolved.packages.len()
            invariant
                i <= resolved.packages.len(),
                packages == resolved@,
                members == strings(workspace_names@),
                nodes@.len() == i,
                edges@.len() == i,
                forall|j: int| 0 <= j < i ==> (#[trigger] nodes@[j])@ == node_of(packages[j], members),
                forall|j: int|
                    0 <= j < i ==> (#[trigger] edges@[j])@ == targets(
                        packages,
                        packages[j].dependencies,
                    ),
                forall|j: int, k: int|
                    0 <= j < i && 0 <= k < edges@[j]@.len() ==> (#[trigger] edges@[j]@[k])
                        < packages.len(),
            decreases resolved.packages.len() - i,
        {
            let p = &resolved.packages[i];
            assert(packages[i as int] == p@);
            nodes.push(
                Node {
                    name: p.name.clone(),
                    version: p.version.clone(),
                    kind: classify(p.name.as_str(), &p.source, workspace_names),
                },
            );
            edges.push(find_targets(resolved, &p.dependencies));
            i = i + 1;
        }
        let ghost views = nodes@.map_values(|n: Node| n@);
        let mut indices = find_roots(&nodes, roots);
        if indices.len() == 0 {
            indices = find_members(&nodes);
        }
        let root_slots = index_roots(indices.as_slice());
        proof {
            let want = graph_of(packages, members, strings(roots@));
            assert(views =~= want.nodes);
            assert(nodes.len() <= usize::MAX);
            assert(indices.len() <= usize::MAX);
            assert(want.roots == indices@);
            assert forall|j: int| 0 <= j < want.roots.len() implies (#[trigger] want.roots[j])
                < want.nodes.len() by {
                assert(indices@[j] < nodes@.len());
            }
            assert(lists(edges@) =~= want.edges);
            assert forall|j: int, k: int|
                0 <= j < want.edges.len() && 0 <= k < want.edges[j].len() implies (
            #[trigger] want.edges[j][k]) < want.nodes.len() by {
                assert(want.edges[j] == edges@[j]@);
                assert(edges@[j]@[k] < packages.len());
            }
            assert forall|j: int| 0 <= j < want.edges.len() implies (#[trigger] want.edges[j]).len()
                <= usize::MAX by {
                assert(want.edges[j] == edges@[j]@);
                assert(edges@[j].len() <= usize::MAX);
            }
        }
        DependencyGraph { nodes, edges, roots: indices, root_slots }
    }

    /// The graph's nodes, indexed by the values stored in [`TreeNode::node`].
    #[must_use]
    pub fn nodes(&self) -> (r: &[Node])
        ensures
            r@.map_values(|n: Node| n@) == self@.nodes,
    {
        self.nodes.as_slice()
    }

    /// The direct dependencies of node `idx`, or an empty slice if `idx` is not a node
    /// in this graph.
    #[must_use]
    pub fn deps_of(&self, idx: usize) -> (r: &[usize])
        ensures
            idx < self@.nodes.len() ==> r@ == self@.edges[idx as int],
            idx >= self@.nodes.len() ==> r@.len() == 0,
    {
        proof {
            use_type_invariant(self);
        }
        if idx < self.edges.len() {
            self.edges[idx].as_slice()
        } else {
            &[]
        }
    }

    /// The root node indices.
    #[must_use]
    pub fn roots(&self) -> (r: &[usize])
        ensures
            r@ == self@.roots,
    {
        self.roots.as_slice()
    }

    /// The position of `node` within [`Self::roots`], if it is one of them.
    ///
    /// Answers "does this package have a tree of its own in this forest?", which
    /// is what lets a traversal point at that tree instead of copying it.
    #[must_use]
    pub fn root_slot(&self, node: usize) -> (r: Option<usize>)
        ensures
            r == slot_of(self@.roots, node),
    {
        proof {
            use_type_invariant(self);
        }
        match self.root_slots.get(&node) {
            Some(slot) => Some(*slot),
            None => None,
        }
    }

    /// Reverse every edge, keeping the same nodes and roots. Rooting the result
    /// at a package and walking it answers "what depends on this package".
    #[must_use]
    pub fn inverted(&self) -> (r: Self)
        ensures
            r@ == inversion(self@),
            r@.valid(),
    {
        proof {
            use_type_invariant(self);
        }
        let ghost g = self@;
        let count: usize = self.nodes.len();
        let mut edges: Vec<Vec<usize>> = Vec::new();
        let mut i: usize = 0;
        while i < count
            invariant
                i <= count,
                edges@.len() == i,
                forall|t: int|
                    0 <= t < i ==> (#[trigger] edges@[t])@ == dependents(g.edges, t as usize, 0),
            decreases count - i,
        {
            let none: Vec<usize> = Vec::new();
            assert(none@ =~= dependents(g.edges, i, 0));
            edges.push(none);
            i = i + 1;
        }
        let mut from: usize = 0;
        while from < self.edges.len()
            invariant
                g == self@,
                g.valid(),
                count == g.nodes.len(),
                from <= self.edges.len(),
                self.edges@.len() == g.edges.len(),
                edges@.len() == count,
                forall|t: int|
                    0 <= t < count ==> (#[trigger] edges@[t])@ == dependents(
                        g.edges,
                        t as usize,
                        from as int,
                    ),
                forall|t: int, k: int|
                    0 <= t < count && 0 <= k < edges@[t]@.len() ==> (#[trigger] edges@[t]@[k])
                        < count,
            decreases self.edges.len() - from,
        {
            let deps = &self.edges[from];
            let ghost list = deps@;
            assert(g.edges[from as int] == list);
            let ghost base = edges@;
            let mut j: usize = 0;
            proof {
                assert forall|t: int| 0 <= t < count implies (#[trigger] edges@[t])@ == dependents(
                    g.edges,
                    t as usize,
                    from as int,
                ) + mentions(list.take(0), t as usize, from) by {
                    assert(mentions(list.take(0), t as usize, from) =~= seq![]);
                    assert(edges@[t]@ + mentions(list.take(0), t as usize, from) =~= edges@[t]@);
                }
            }
            while j < deps.len()
                invariant
                    g.valid(),
                    count == g.nodes.len(),
                    from < g.edges.len(),
                    g.edges[from as int] == list,
                    list == deps@,
                    j <= deps.len(),
                    edges@.len() == count,
                    forall|t: int|
                        0 <= t < count ==> (#[trigger] edges@[t])@ == dependents(
                            g.edges,
                            t as usize,
                            from as int,
                        ) + mentions(list.take(j as int), t as usize, from),
                    forall|t: int, k: int|
                        0 <= t < count && 0 <= k < edges@[t]@.len() ==> (#[trigger] edges@[t]@[k])
                            < count,
                decreases deps.len() - j,
            {
                let to: usize = deps[j];
                assert(g.edges[from as int][j as int] < g.nodes.len());
                let ghost before = edges@;
                edges[to].push(from);
                j = j + 1;
                proof {
                    assert(list.take(j as int).drop_last() =~= list.take(j - 1));
                    assert forall|t: int| 0 <= t < count implies (#[trigger] edges@[t])@
                        == dependents(g.edges, t as usize, from as int) + mentions(
                        list.take(j as int),
                        t as usize,
                        from,
                    ) by {
                        if t == to {
                            assert(edges@[t]@ =~= before[t]@.push(from));
                            assert(edges@[t]@ =~= dependents(g.edges, t as usize, from as int)
                                + mentions(list.take(j as int), t as usize, from));
                        } else {
                            assert(edges@[t] == before[t]);
                        }
                    }
                    assert forall|t: int, k: int|
                        0 <= t < count && 0 <= k < edges@[t]@.len() implies (
                    #[trigger] edges@[t]@[k]) < count by {
                        if t == to {
                            assert(edges@[t]@ =~= before[t]@.push(from));
                            if k < before[t]@.len() {
                                assert(before[t]@[k] < count);
                            }
                        } else {
                            assert(edges@[t] == before[t]);
                            assert(before[t]@[k] < count);
                        }
                    }
                }
            }
            assert(list.take(j as int) =~= list);
            from = from + 1;
        }
        let nodes = copy_nodes(&self.nodes);
        let roots = copy_list(&self.roots);
        let root_slots = index_roots(roots.as_slice());
        proof {
            let want = inversion(g);
            assert(lists(edges@) =~= want.edges);
            assert forall|t: int, k: int|
                0 <= t < want.edges.len() && 0 <= k < want.edges[t].len() implies (
            #[trigger] want.edges[t][k]) < want.nodes.len() by {
                assert(want.edges[t] == edges@[t]@);
                assert(edges@[t]@[k] < count);
            }
            assert forall|t: int| 0 <= t < want.edges.len() implies (#[trigger] want.edges[t]).len()
                <= usize::MAX by {
                assert(want.edges[t] == edges@[t]@);
                assert(edges@[t].len() <= usize::MAX);
            }
        }
        DependencyGraph { nodes, edges, roots, root_slots }
    }
}

} // verus!
