//! The traversal of a dependency graph.
use std::collections::HashSet;

use super::{slot_of, DependencyGraph, GraphView};
use vstd::prelude::*;

verus! {

broadcast use vstd::std_specs::hash::group_hash_axioms;

/// Why an appearance of a node does or does not show its dependencies below it.
///
/// Every reason a walk stops is named, rather than collapsed into one flag,
/// because they are different things to tell a reader: a repeat is shown in
/// full elsewhere, a cycle is shown higher on this same path, and a root has a
/// tree of its own in the forest.
#[derive(Debug, Clone, Copy, PartialEq, Eq, Structural)]
#[non_exhaustive]
pub enum Placement {
    /// Shown in full; its dependencies, if any, follow it.
    Full,
    /// Already expanded elsewhere in this walk, collapsed by
    /// [`WalkOptions::dedupe`]. Its dependencies are at its first appearance.
    Repeat,
    /// Already on the path from the root to here. Expanding it would not
    /// terminate, so the back-edge is cut, whatever the options say.
    Cycle,
    /// One of the forest's own roots, reached below the top level. Its subtree
    /// is shown at its own root entry, so this appearance points there.
    Root {
        /// Index into [`DependencyGraph::roots`] of the entry it points at.
        root: usize,
    },
    /// [`WalkOptions::max_depth`] stopped the walk here. Whether anything lies
    /// below is unknown from this appearance alone.
    Depth,
    /// [`WalkOptions::expand`] declined to open it. Never produced when no
    /// predicate is given.
    Collapsed,
}

/// One node, as a walk reaches it.
///
/// Handed to a [`Visitor`] by reference and valid only for that call: `path`
/// borrows the walk's own buffer, which is rewritten as the walk moves on.
#[derive(Debug, Clone, Copy)]
#[non_exhaustive]
pub struct Visit<'a> {
    /// Where this appearance sits: [`WalkOptions::prefix`], then the index of
    /// each *slot* taken from there, the position within the parent's
    /// dependency list, which is stable whatever the walk chooses to expand.
    pub path: &'a [usize],
    /// Edge depth below the forest's roots; a root is `0`.
    pub depth: usize,
    /// Index into [`DependencyGraph::nodes`].
    pub node: usize,
    /// Whether this appearance is expanded, and if not, why not.
    pub placement: Placement,
    /// How many direct dependencies the node has *in the graph*, whether or not
    /// this appearance shows them.
    pub degree: usize,
}

/// One thing a walk tells its visitor.
pub ghost enum Step {
    /// Arriving at a node.
    Enter { path: Seq<usize>, depth: usize, node: usize, placement: Placement, degree: usize },
    /// Done with a node and all below it.
    Leave { node: usize },
}

impl<'a> Visit<'a> {
    /// The step of arriving here.
    pub open spec fn step(self) -> Step {
        Step::Enter {
            path: self.path@,
            depth: self.depth,
            node: self.node,
            placement: self.placement,
            degree: self.degree,
        }
    }
}

/// The nodes entered and not yet left, the innermost last.
pub open spec fn open_nodes(trace: Seq<Step>) -> Seq<usize>
    decreases trace.len(),
{
    if trace.len() == 0 {
        seq![]
    } else {
        let before = open_nodes(trace.drop_last());
        match trace.last() {
            Step::Enter { node, .. } => before.push(node),
            Step::Leave { .. } => if before.len() > 0 {
                before.drop_last()
            } else {
                before
            },
        }
    }
}

/// Receives each node a walk reaches.
///
/// [`Self::enter`] and [`Self::leave`] are called in matched pairs around every
/// node the walk emits, so an implementor can build a nested structure without
/// tracking depth itself. `leave` is called even for a node not descended into.
/// [`Recorder`](super::Recorder) keeps every call as it came.
pub trait Visitor {
    /// What the visitor keeps true of itself.
    spec fn valid(&self) -> bool;

    /// Everything the visitor has been told so far.
    spec fn trace(&self) -> Seq<Step>;

    /// Called on arriving at a node, before any of its dependencies.
    fn enter(&mut self, visit: &Visit<'_>)
        requires
            old(self).valid(),
        ensures
            final(self).valid(),
            final(self).trace() == old(self).trace().push(visit.step()),
    ;

    /// Called after the node's dependencies, if any were walked; the node is the one
    /// entered last among those not left yet.
    fn leave(&mut self, node: usize)
        requires
            old(self).valid(),
            open_nodes(old(self).trace()).len() > 0,
            open_nodes(old(self).trace()).last() == node,
        ensures
            final(self).valid(),
            final(self).trace() == old(self).trace().push(Step::Leave { node }),
    ;
}

/// A question a walk asks about the node at a given [`Visit::path`].
///
/// [`Listed`](super::Listed) answers it from a list of paths.
pub trait PathPredicate {
    /// The answer.
    spec fn admits(&self, path: Seq<usize>) -> bool;

    /// Ask.
    fn ask(&self, path: &[usize]) -> (r: bool)
        ensures
            r == self.admits(path@),
    ;
}

/// How a walk decides what to expand.
///
/// The defaults are what an offline render wants, so a caller states only its
/// differences and leaves the rest to `..WalkOptions::default()`.
pub struct WalkOptions<'a> {
    /// Maximum edge depth. `Some(0)` = roots only; `None` = unlimited.
    pub max_depth: Option<usize>,
    /// Collapse a node's second and later appearances to [`Placement::Repeat`].
    pub dedupe: bool,
    /// Collapse a node that is one of the forest's own roots, reached below the
    /// top level, to [`Placement::Root`] instead of expanding a second copy.
    pub collapse_roots: bool,
    /// Prepended to every [`Visit::path`], for a caller whose paths are rooted
    /// above this graph.
    pub prefix: &'a [usize],
    /// Whether the node at this path should be expanded. `None` = always.
    ///
    /// Consulted last, so a repeat, a cycle, or a root is never expanded even
    /// when this says yes.
    pub expand: Option<&'a dyn PathPredicate>,
    /// Whether the node at this path should be emitted at all. `None` = always.
    ///
    /// A node this rejects is skipped along with its whole subtree, but its
    /// siblings keep their slot indices.
    pub include_node: Option<&'a dyn PathPredicate>,
    /// Maximum number of node appearances to emit before the walk stops. `None` =
    /// unlimited, which is only safe when the caller bounds the walk some other way.
    ///
    /// The walk enumerates *paths*, not nodes. With [`dedupe`](Self::dedupe) on, each
    /// node expands at most once and the count is bounded by the graph; with it off,
    /// a graph shaped like a ladder has a number of distinct simple paths exponential
    /// in its size. The budget is what makes such a walk terminate rather than appear
    /// to hang.
    pub max_visits: Option<usize>,
}

/// Default appearance budget for one walk: far above any real dependency forest, and
/// far below the point at which an exponential walk stops looking like a hang.
pub const DEFAULT_MAX_VISITS: usize = 1_000_000;

/// Hard recursion ceiling, independent of [`WalkOptions::max_depth`].
///
/// The walk is recursive, so depth costs stack. No real dependency chain approaches
/// this; a synthesized or corrupt lockfile can, and overflowing the stack aborts the
/// process.
pub const MAX_WALK_DEPTH: usize = 512;

/// What one [`DependencyGraph::walk`] did.
#[derive(Debug, Clone, Copy, PartialEq, Eq, Structural)]
pub struct WalkStats {
    /// Node appearances emitted.
    pub visits: usize,
    /// Whether the walk stopped early on [`WalkOptions::max_visits`] or
    /// [`MAX_WALK_DEPTH`], so the result is a prefix of the forest rather than all of it.
    pub truncated: bool,
}

impl Default for WalkStats {
    fn default() -> (r: Self)
        ensures
            r.visits == 0,
            !r.truncated,
    {
        WalkStats { visits: 0, truncated: false }
    }
}

impl<'a> Default for WalkOptions<'a> {
    fn default() -> (r: Self)
        ensures
            r.max_depth is None,
            r.dedupe,
            r.collapse_roots,
            r.prefix@.len() == 0,
            r.expand is None,
            r.include_node is None,
            r.max_visits == Some(DEFAULT_MAX_VISITS),
    {
        WalkOptions {
            max_depth: None,
            dedupe: true,
            collapse_roots: true,
            prefix: &[],
            expand: None,
            include_node: None,
            max_visits: Some(DEFAULT_MAX_VISITS),
        }
    }
}

/// What [`WalkOptions`] say.
pub ghost struct Rules<'a> {
    /// Maximum edge depth.
    pub max_depth: Option<usize>,
    /// Whether later appearances of a node collapse.
    pub dedupe: bool,
    /// Whether a root reached below the top level collapses.
    pub collapse_roots: bool,
    /// What every path begins with.
    pub prefix: Seq<usize>,
    /// Which nodes are expanded.
    pub expand: Option<&'a dyn PathPredicate>,
    /// Which nodes are emitted at all.
    pub include_node: Option<&'a dyn PathPredicate>,
    /// How many appearances are emitted at most.
    pub budget: usize,
}

impl<'a> View for WalkOptions<'a> {
    type V = Rules<'a>;

    open spec fn view(&self) -> Rules<'a> {
        Rules {
            max_depth: self.max_depth,
            dedupe: self.dedupe,
            collapse_roots: self.collapse_roots,
            prefix: self.prefix@,
            expand: self.expand,
            include_node: self.include_node,
            budget: match self.max_visits {
                Some(n) => n,
                None => usize::MAX,
            },
        }
    }
}

impl<'a> Rules<'a> {
    /// Whether the node at `path` may be expanded.
    pub open spec fn expands(self, path: Seq<usize>) -> bool {
        match self.expand {
            Some(p) => p.admits(path),
            None => true,
        }
    }

    /// Whether the node at `path` is emitted at all.
    pub open spec fn includes(self, path: Seq<usize>) -> bool {
        match self.include_node {
            Some(p) => p.admits(path),
            None => true,
        }
    }
}

/// Where a walk stands: what it has told, what it has expanded, what it may still tell.
pub ghost struct Progress {
    /// Everything told to the visitor.
    pub trace: Seq<Step>,
    /// Nodes already expanded anywhere in this walk, for `dedupe`.
    pub expanded: Set<usize>,
    /// Appearances still allowed.
    pub budget: int,
    /// Appearances emitted.
    pub visits: int,
    /// Whether something was left out for want of budget or stack.
    pub truncated: bool,
}

/// How an appearance of `node` is shown.
///
/// A cycle is cut first, so a back-edge to a package the reader is already standing
/// inside is reported as the cycle it is. A root is recognised before a repeat, so a
/// package reached after its own entry still points at that entry, but only when it has
/// dependencies to show. The depth limit comes next, and the predicate last.
pub open spec fn placement_of(
    g: GraphView,
    o: Rules,
    node: usize,
    depth: int,
    path: Seq<usize>,
    on_path: Set<usize>,
    expanded: Set<usize>,
) -> Placement {
    let degree = g.edges[node as int].len();
    if on_path.contains(node) {
        Placement::Cycle
    } else if o.collapse_roots && depth > 0 && degree > 0 && slot_of(g.roots, node) is Some {
        Placement::Root { root: slot_of(g.roots, node)->0 }
    } else if o.dedupe && expanded.contains(node) {
        Placement::Repeat
    } else if o.max_depth is Some && depth >= o.max_depth->0 {
        Placement::Depth
    } else if degree > 0 && !o.expands(path) {
        Placement::Collapsed
    } else {
        Placement::Full
    }
}

/// What remains below the recursion ceiling.
pub open spec fn room(depth: int) -> int {
    if depth < MAX_WALK_DEPTH {
        MAX_WALK_DEPTH - depth
    } else {
        0
    }
}

/// A walk that has visited one node, and all that it shows below it.
///
/// Only a full appearance counts as expanded: a depth-limited one must stay expandable
/// from a shallower path elsewhere. A package with a tree of its own does not count
/// either, or the leaf drawn here would collapse its own entry.
pub open spec fn walked(
    g: GraphView,
    o: Rules,
    node: usize,
    depth: int,
    path: Seq<usize>,
    on_path: Set<usize>,
    p: Progress,
) -> Progress
    decreases room(depth), 0int,
{
    if p.budget <= 0 || depth >= MAX_WALK_DEPTH {
        Progress { truncated: true, ..p }
    } else if !o.includes(path) {
        p
    } else {
        let deps = g.edges[node as int];
        let placement = placement_of(g, o, node, depth, path, on_path, p.expanded);
        let entered = Progress {
            trace: p.trace.push(
                Step::Enter {
                    path,
                    depth: depth as usize,
                    node,
                    placement,
                    degree: deps.len() as usize,
                },
            ),
            budget: p.budget - 1,
            visits: p.visits + 1,
            ..p
        };
        let below = if placement == Placement::Full {
            let own_entry = o.collapse_roots && depth > 0 && slot_of(g.roots, node) is Some;
            let opened = if o.dedupe && !own_entry {
                Progress { expanded: entered.expanded.insert(node), ..entered }
            } else {
                entered
            };
            walked_list(
                g,
                o,
                deps,
                deps.len() as int,
                depth + 1,
                path,
                on_path.insert(node),
                opened,
            )
        } else {
            entered
        };
        Progress { trace: below.trace.push(Step::Leave { node }), ..below }
    }
}

/// A walk that has visited the first `n` nodes of a list, in order, each at its slot.
pub open spec fn walked_list(
    g: GraphView,
    o: Rules,
    list: Seq<usize>,
    n: int,
    depth: int,
    path: Seq<usize>,
    on_path: Set<usize>,
    p: Progress,
) -> Progress
    decreases room(depth), n + 1,
{
    if n <= 0 {
        p
    } else {
        walked(
            g,
            o,
            list[n - 1],
            depth,
            path.push((n - 1) as usize),
            on_path,
            walked_list(g, o, list, n - 1, depth, path, on_path, p),
        )
    }
}

/// The walk of a whole forest, for a visitor that has been told `trace` before.
pub open spec fn forest(g: GraphView, o: Rules, trace: Seq<Step>) -> Progress {
    walked_list(
        g,
        o,
        g.roots,
        g.roots.len() as int,
        0,
        o.prefix,
        Set::empty(),
        Progress { trace, expanded: Set::empty(), budget: o.budget as int, visits: 0, truncated: false },
    )
}

/// A walk leaves every node it enters: what was open before is open after.
pub proof fn lemma_walk_balanced(
    g: GraphView,
    o: Rules,
    node: usize,
    depth: int,
    path: Seq<usize>,
    on_path: Set<usize>,
    p: Progress,
)
    ensures
        open_nodes(walked(g, o, node, depth, path, on_path, p).trace) == open_nodes(p.trace),
    decreases room(depth), 0int,
{
    if p.budget <= 0 || depth >= MAX_WALK_DEPTH || !o.includes(path) {
    } else {
        let deps = g.edges[node as int];
        let placement = placement_of(g, o, node, depth, path, on_path, p.expanded);
        let enter = Step::Enter {
            path,
            depth: depth as usize,
            node,
            placement,
            degree: deps.len() as usize,
        };
        let entered = Progress {
            trace: p.trace.push(enter),
            budget: p.budget - 1,
            visits: p.visits + 1,
            ..p
        };
        assert(entered.trace.drop_last() =~= p.trace);
        let own_entry = o.collapse_roots && depth > 0 && slot_of(g.roots, node) is Some;
        let opened = if o.dedupe && !own_entry {
            Progress { expanded: entered.expanded.insert(node), ..entered }
        } else {
            entered
        };
        let below = if placement == Placement::Full {
            lemma_list_balanced(
                g,
                o,
                deps,
                deps.len() as int,
                depth + 1,
                path,
                on_path.insert(node),
                opened,
            );
            walked_list(
                g,
                o,
                deps,
                deps.len() as int,
                depth + 1,
                path,
                on_path.insert(node),
                opened,
            )
        } else {
            entered
        };
        assert(open_nodes(below.trace) == open_nodes(p.trace).push(node));
        let done = below.trace.push(Step::Leave { node });
        assert(done.drop_last() =~= below.trace);
        assert(open_nodes(p.trace).push(node).drop_last() =~= open_nodes(p.trace));
    }
}

/// A walk over a list leaves every node it enters.
pub proof fn lemma_list_balanced(
    g: GraphView,
    o: Rules,
    list: Seq<usize>,
    n: int,
    depth: int,
    path: Seq<usize>,
    on_path: Set<usize>,
    p: Progress,
)
    ensures
        open_nodes(walked_list(g, o, list, n, depth, path, on_path, p).trace) == open_nodes(p.trace),
    decreases room(depth), n + 1,
{
    if n > 0 {
        lemma_list_balanced(g, o, list, n - 1, depth, path, on_path, p);
        lemma_walk_balanced(
            g,
            o,
            list[n - 1],
            depth,
            path.push((n - 1) as usize),
            on_path,
            walked_list(g, o, list, n - 1, depth, path, on_path, p),
        );
    }
}

/// The state one [`DependencyGraph::walk`] carries down the forest.
struct Walker<'a> {
    graph: &'a DependencyGraph,
    opts: &'a WalkOptions<'a>,
    /// The path to the node currently being visited.
    path: Vec<usize>,
    /// Nodes already expanded anywhere in this walk, for `dedupe`.
    expanded: HashSet<usize>,
    /// Nodes on the path from a root to here, for cutting cycles.
    on_path: HashSet<usize>,
    /// Appearances still allowed before the walk stops.
    budget: usize,
    stats: WalkStats,
}

impl<'a> Walker<'a> {
    /// Where this walk stands, for a visitor that has been told `trace`.
    spec fn progress(self, trace: Seq<Step>) -> Progress {
        Progress {
            trace,
            expanded: self.expanded@,
            budget: self.budget as int,
            visits: self.stats.visits as int,
            truncated: self.stats.truncated,
        }
    }

    /// Decide how this appearance of `node` is shown.
    fn placement(&self, node: usize, depth: usize, degree: usize) -> (r: Placement)
        requires
            self.graph@.valid(),
            node < self.graph@.nodes.len(),
            degree == self.graph@.edges[node as int].len(),
        ensures
            r == placement_of(
                self.graph@,
                self.opts@,
                node,
                depth as int,
                self.path@,
                self.on_path@,
                self.expanded@,
            ),
    {
        if self.on_path.contains(&node) {
            return Placement::Cycle;
        }
        if self.opts.collapse_roots && depth > 0 && degree > 0 {
            if let Some(root) = self.graph.root_slot(node) {
                return Placement::Root { root };
            }
        }
        if self.opts.dedupe && self.expanded.contains(&node) {
            return Placement::Repeat;
        }
        if let Some(max) = self.opts.max_depth {
            if depth >= max {
                return Placement::Depth;
            }
        }
        if degree > 0 {
            if let Some(expand) = self.opts.expand {
                if !expand.ask(self.path.as_slice()) {
                    return Placement::Collapsed;
                }
            }
        }
        Placement::Full
    }

    /// Visit one node and all that it shows below it.
    fn visit<V: Visitor + ?Sized>(&mut self, node: usize, depth: usize, visitor: &mut V)
        requires
            old(self).graph@.valid(),
            node < old(self).graph@.nodes.len(),
            depth <= MAX_WALK_DEPTH,
            old(self).budget + old(self).stats.visits <= usize::MAX,
            old(visitor).valid(),
        ensures
            final(visitor).valid(),
            final(self).graph == old(self).graph,
            final(self).opts == old(self).opts,
            final(self).path@ == old(self).path@,
            final(self).on_path@ == old(self).on_path@,
            final(self).budget + final(self).stats.visits == old(self).budget + old(
                self,
            ).stats.visits,
            final(self).progress(final(visitor).trace()) == walked(
                old(self).graph@,
                old(self).opts@,
                node,
                depth as int,
                old(self).path@,
                old(self).on_path@,
                old(self).progress(old(visitor).trace()),
            ),
        decreases room(depth as int), 0int,
    {
        let ghost g = self.graph@;
        let ghost o = self.opts@;
        let ghost path = self.path@;
        let ghost on_path = self.on_path@;
        let ghost start = self.progress(visitor.trace());
        // Both guards sit above `enter` so that a stopped walk never leaves an `enter`
        // without its `leave`.
        if self.budget == 0 || depth >= MAX_WALK_DEPTH {
            self.stats.truncated = true;
            return;
        }
        if let Some(p) = self.opts.include_node {
            if !p.ask(self.path.as_slice()) {
                return;
            }
        }
        self.budget = self.budget - 1;
        self.stats.visits = self.stats.visits + 1;
        let deps: &[usize] = self.graph.deps_of(node);
        let degree: usize = deps.len();
        let placement = self.placement(node, depth, degree);
        visitor.enter(&Visit { path: self.path.as_slice(), depth, node, placement, degree });
        let ghost entered = self.progress(visitor.trace());
        if placement == Placement::Full {
            let own_entry = self.opts.collapse_roots && depth > 0 && self.graph.root_slot(
                node,
            ).is_some();
            if self.opts.dedupe && !own_entry {
                self.expanded.insert(node);
            }
            let ghost opened = self.progress(visitor.trace());
            self.on_path.insert(node);
            let mut slot: usize = 0;
            while slot < deps.len()
                invariant
                    slot <= deps.len(),
                    depth < MAX_WALK_DEPTH,
                    g.valid(),
                    node < g.nodes.len(),
                    deps@ == g.edges[node as int],
                    self.graph@ == g,
                    self.opts@ == o,
                    self.path@ == path,
                    self.on_path@ == on_path.insert(node),
                    self.budget + self.stats.visits == old(self).budget + old(self).stats.visits,
                    old(self).budget + old(self).stats.visits <= usize::MAX,
                    self.graph == old(self).graph,
                    self.opts == old(self).opts,
                    visitor.valid(),
                    self.progress(visitor.trace()) == walked_list(
                        g,
                        o,
                        deps@,
                        slot as int,
                        depth + 1,
                        path,
                        on_path.insert(node),
                        opened,
                    ),
                decreases deps.len() - slot,
            {
                assert(g.edges[node as int][slot as int] < g.nodes.len());
                self.path.push(slot);
                self.visit(deps[slot], depth + 1, visitor);
                self.path.pop();
                assert(self.path@ =~= path);
                slot = slot + 1;
            }
            self.on_path.remove(&node);
            assert(self.on_path@ =~= on_path);
            proof {
                lemma_list_balanced(
                    g,
                    o,
                    deps@,
                    deps@.len() as int,
                    depth + 1,
                    path,
                    on_path.insert(node),
                    opened,
                );
            }
        }
        proof {
            assert(entered.trace.drop_last() =~= start.trace);
        }
        visitor.leave(node);
    }
}

impl DependencyGraph {
    /// Walk the forest depth-first, reporting every node reached to `visitor`.
    ///
    /// The rules for cycles, repeats, roots and the depth limit live here once.
    /// Cycles always terminate the walk, whatever the options say. Only subtrees that
    /// [`WalkOptions::expand`] admits are descended into, so a caller showing a
    /// mostly-closed tree pays for what it shows rather than for what the graph holds.
    pub fn walk<V: Visitor + ?Sized>(&self, opts: &WalkOptions<'_>, visitor: &mut V) -> (r: WalkStats)
        requires
            old(visitor).valid(),
        ensures
            final(visitor).valid(),
            final(visitor).trace() == forest(self@, opts@, old(visitor).trace()).trace,
            r.visits == forest(self@, opts@, old(visitor).trace()).visits,
            r.truncated == forest(self@, opts@, old(visitor).trace()).truncated,
            r.visits <= opts@.budget,
    {
        proof {
            use_type_invariant(self);
        }
        let ghost g = self@;
        let ghost o = opts@;
        let ghost start = visitor.trace();
        let mut path: Vec<usize> = Vec::new();
        let mut i: usize = 0;
        while i < opts.prefix.len()
            invariant
                i <= opts.prefix.len(),
                path@ == opts.prefix@.take(i as int),
            decreases opts.prefix.len() - i,
        {
            path.push(opts.prefix[i]);
            i = i + 1;
            assert(opts.prefix@.take(i as int) =~= opts.prefix@.take(i - 1).push(
                opts.prefix@[i - 1],
            ));
        }
        assert(opts.prefix@.take(i as int) =~= opts.prefix@);
        let budget: usize = match opts.max_visits {
            Some(n) => n,
            None => usize::MAX,
        };
        let mut walker = Walker {
            graph: self,
            opts,
            path,
            expanded: HashSet::new(),
            on_path: HashSet::new(),
            budget,
            stats: WalkStats { visits: 0, truncated: false },
        };
        let ghost first = walker.progress(start);
        assert(walker.on_path@ =~= Set::empty());
        assert(walker.expanded@ =~= Set::empty());
        let roots: &[usize] = self.roots();
        let mut slot: usize = 0;
        while slot < roots.len()
            invariant
                slot <= roots.len(),
                g.valid(),
                g == self@,
                roots@ == g.roots,
                walker.graph@ == g,
                walker.opts@ == o,
                walker.path@ == o.prefix,
                walker.on_path@ == Set::<usize>::empty(),
                walker.budget + walker.stats.visits == budget,
                visitor.valid(),
                walker.progress(visitor.trace()) == walked_list(
                    g,
                    o,
                    roots@,
                    slot as int,
                    0,
                    o.prefix,
                    Set::empty(),
                    first,
                ),
            decreases roots.len() - slot,
        {
            assert(g.roots[slot as int] < g.nodes.len());
            walker.path.push(slot);
            walker.visit(roots[slot], 0, visitor);
            walker.path.pop();
            assert(walker.path@ =~= o.prefix);
            slot = slot + 1;
        }
        walker.stats
    }
}

} // verus!
