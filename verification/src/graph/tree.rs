//! The rendered dependency tree.
use super::walk::{forest, open_nodes, Placement, Rules, Step, Visit, Visitor, WalkOptions};
use super::DependencyGraph;
use vstd::prelude::*;

verus! {

/// Options controlling how a [`Tree`] is expanded from a [`DependencyGraph`].
#[derive(Debug, Clone, Copy)]
pub struct TreeOptions {
    /// Maximum edge depth. `Some(0)` = roots only; `None` = unlimited.
    pub max_depth: Option<usize>,
    /// Collapse a package's second and later appearances to a `(*)` marker.
    pub dedupe: bool,
    /// Collapse a package that has a tree of its own in this forest to a pointer
    /// at that tree, rather than repeating its subtree wherever it is reached.
    pub collapse_roots: bool,
}

impl Default for TreeOptions {
    fn default() -> (r: Self)
        ensures
            r.max_depth is None,
            r.dedupe,
            r.collapse_roots,
    {
        TreeOptions { max_depth: None, dedupe: true, collapse_roots: true }
    }
}

/// A rendered dependency tree (a forest, one entry per root).
#[derive(Debug)]
pub struct Tree {
    /// The root nodes, each with their expanded subtree.
    pub roots: Vec<TreeNode>,
    /// Whether the walk stopped on its appearance budget or depth ceiling, so this is a
    /// prefix of the forest rather than all of it.
    ///
    /// A truncated tree that does not say so is a wrong answer wearing a complete one's
    /// clothes; a renderer is expected to tell the reader.
    pub truncated: bool,
}

/// One node in a [`Tree`], referencing a graph node by index.
#[derive(Debug)]
pub struct TreeNode {
    /// Index into [`DependencyGraph::nodes`].
    pub node: usize,
    /// Expanded children. Empty for a leaf and for every collapsed appearance;
    /// see [`Self::placement`] for which.
    pub children: Vec<TreeNode>,
    /// Whether this appearance is expanded, and if not, why not.
    pub placement: Placement,
}

impl TreeNode {
    /// Whether this appearance was collapsed to the `(*)` repeat marker: a
    /// dedupe repeat, or a cycle back-edge.
    ///
    /// A package shown at its own root entry is deliberately *not* one of these:
    /// it is a pointer to another tree, not a copy suppressed within this one.
    #[must_use]
    pub fn deduped(&self) -> (r: bool)
        ensures
            r == (self.placement == Placement::Repeat || self.placement == Placement::Cycle),
    {
        matches!(self.placement, Placement::Repeat | Placement::Cycle)
    }
}

/// A bracket around one appearance in a tree.
pub ghost enum Mark {
    /// The appearance begins.
    Open { node: usize, placement: Placement },
    /// The appearance ends.
    Close { node: usize },
}

/// The bracket of one step of a walk.
pub open spec fn mark_of(s: Step) -> Mark {
    match s {
        Step::Enter { node, placement, .. } => Mark::Open { node, placement },
        Step::Leave { node } => Mark::Close { node },
    }
}

/// The brackets of a walk.
pub open spec fn marks(trace: Seq<Step>) -> Seq<Mark> {
    trace.map_values(|s: Step| mark_of(s))
}

/// A tree written out with brackets around every appearance.
pub open spec fn written(t: TreeNode) -> Seq<Mark>
    decreases t, 0nat,
{
    seq![Mark::Open { node: t.node, placement: t.placement }] + written_list(
        t.children,
        t.children@.len(),
    ) + seq![Mark::Close { node: t.node }]
}

/// The first `n` trees of a list written out one after another.
pub open spec fn written_list(v: Vec<TreeNode>, n: nat) -> Seq<Mark>
    decreases v, n,
{
    if n == 0 || n > v@.len() {
        seq![]
    } else {
        written_list(v, (n - 1) as nat) + written(v@[n - 1])
    }
}

/// A forest written out.
pub open spec fn written_all(v: Vec<TreeNode>) -> Seq<Mark> {
    written_list(v, v@.len())
}

/// Only the trees of a list matter to what is written of it.
proof fn lemma_written_prefix(a: Vec<TreeNode>, b: Vec<TreeNode>, n: nat)
    requires
        n <= a@.len(),
        n <= b@.len(),
        forall|i: int| 0 <= i < n ==> a@[i] == b@[i],
    ensures
        written_list(a, n) == written_list(b, n),
    decreases n,
{
    if n > 0 {
        lemma_written_prefix(a, b, (n - 1) as nat);
    }
}

impl TreeNode {
    /// A tree of its own that is written the same.
    fn copied(&self) -> (r: Self)
        ensures
            r.node == self.node,
            r.placement == self.placement,
            written(r) == written(*self),
        decreases self,
    {
        let mut children: Vec<TreeNode> = Vec::new();
        let mut i: usize = 0;
        while i < self.children.len()
            invariant
                i <= self.children.len(),
                children@.len() == i,
                written_list(children, i as nat) == written_list(self.children, i as nat),
            decreases self.children.len() - i,
        {
            let ghost before = children;
            let child = self.children[i].copied();
            children.push(child);
            proof {
                lemma_written_prefix(children, before, i as nat);
            }
            i = i + 1;
        }
        TreeNode { node: self.node, children, placement: self.placement }
    }
}

impl Clone for TreeNode {
    fn clone(&self) -> (r: Self)
        ensures
            written(r) == written(*self),
    {
        self.copied()
    }
}

impl Clone for Tree {
    fn clone(&self) -> (r: Self)
        ensures
            written_all(r.roots) == written_all(self.roots),
            r.truncated == self.truncated,
    {
        let mut roots: Vec<TreeNode> = Vec::new();
        let mut i: usize = 0;
        while i < self.roots.len()
            invariant
                i <= self.roots.len(),
                roots@.len() == i,
                written_list(roots, i as nat) == written_list(self.roots, i as nat),
            decreases self.roots.len() - i,
        {
            let ghost before = roots;
            let root = self.roots[i].copied();
            roots.push(root);
            proof {
                lemma_written_prefix(roots, before, i as nat);
            }
            i = i + 1;
        }
        Tree { roots, truncated: self.truncated }
    }
}

/// What is written of the nodes still open, the outermost first.
spec fn written_open(stack: Seq<TreeNode>) -> Seq<Mark>
    decreases stack.len(),
{
    if stack.len() == 0 {
        seq![]
    } else {
        let t = stack.last();
        written_open(stack.drop_last()) + seq![
            Mark::Open { node: t.node, placement: t.placement },
        ] + written_all(t.children)
    }
}

/// Assembles a [`Tree`] from a walk, using the matched `enter`/`leave` pairs to
/// rebuild the nesting without tracking depth.
struct TreeBuilder {
    /// One frame per node currently open; the last is the node being filled.
    stack: Vec<TreeNode>,
    /// Completed root trees, in walk order.
    roots: Vec<TreeNode>,
    /// Everything the builder has been told.
    told: Ghost<Seq<Step>>,
}

impl Visitor for TreeBuilder {
    closed spec fn valid(&self) -> bool {
        &&& marks(self.told@) == written_all(self.roots) + written_open(self.stack@)
        &&& open_nodes(self.told@) == self.stack@.map_values(|t: TreeNode| t.node)
    }

    closed spec fn trace(&self) -> Seq<Step> {
        self.told@
    }

    fn enter(&mut self, visit: &Visit<'_>) {
        let ghost before = *self;
        let frame = TreeNode {
            node: visit.node,
            children: Vec::new(),
            placement: visit.placement,
        };
        self.stack.push(frame);
        self.told = Ghost(self.told@.push(visit.step()));
        proof {
            assert(self.told@.drop_last() =~= before.told@);
            assert(self.stack@.drop_last() =~= before.stack@);
            assert(written_all(frame.children) =~= seq![]);
            assert(marks(self.told@) =~= marks(before.told@).push(mark_of(visit.step())));
            assert(marks(self.told@) =~= written_all(self.roots) + written_open(self.stack@));
            assert(open_nodes(self.told@) =~= self.stack@.map_values(|t: TreeNode| t.node));
        }
    }

    fn leave(&mut self, node: usize) {
        let ghost before = *self;
        proof {
            assert(before.stack@.len() > 0);
            assert(before.stack@.map_values(|t: TreeNode| t.node).last()
                == before.stack@.last().node);
        }
        let popped = self.stack.pop();
        let ghost done_view = before.stack@.last();
        match popped {
            Some(done) => {
                let ghost rest = self.stack@;
                let last: usize = self.stack.len();
                if last > 0 {
                    match self.stack.pop() {
                        Some(mut parent) => {
                            let ghost old_parent = parent;
                            parent.children.push(done);
                            proof {
                                let n = old_parent.children@.len();
                                lemma_written_prefix(parent.children, old_parent.children, n);
                            }
                            self.stack.push(parent);
                            proof {
                                assert(self.stack@.drop_last() =~= rest.drop_last());
                                assert(self.stack@.map_values(|t: TreeNode| t.node)
                                    =~= rest.map_values(|t: TreeNode| t.node));
                                assert(written_open(self.stack@) =~= written_open(rest) + written(
                                    done,
                                ));
                            }
                        },
                        None => {},
                    }
                } else {
                    let ghost old_roots = self.roots;
                    self.roots.push(done);
                    proof {
                        lemma_written_prefix(self.roots, old_roots, old_roots@.len());
                        assert(written_all(self.roots) =~= written_all(old_roots) + written(done));
                        assert(written_open(rest) =~= seq![]);
                    }
                }
                self.told = Ghost(self.told@.push(Step::Leave { node }));
                proof {
                    assert(self.told@.drop_last() =~= before.told@);
                    assert(rest =~= before.stack@.drop_last());
                    assert(marks(self.told@) =~= marks(before.told@).push(Mark::Close { node }));
                    assert(marks(self.told@) =~= written_all(self.roots) + written_open(
                        self.stack@,
                    ));
                    assert(open_nodes(self.told@) =~= self.stack@.map_values(
                        |t: TreeNode| t.node,
                    ));
                }
            },
            None => {},
        }
    }
}

/// The rules a tree is rendered by.
pub open spec fn rules_of<'a>(opts: TreeOptions) -> Rules<'a> {
    Rules {
        max_depth: opts.max_depth,
        dedupe: opts.dedupe,
        collapse_roots: opts.collapse_roots,
        prefix: seq![],
        expand: None,
        include_node: None,
        budget: super::DEFAULT_MAX_VISITS,
    }
}

impl DependencyGraph {
    /// Expand the graph into a [`Tree`] from its roots.
    ///
    /// A thin assembly over [`Self::walk`], which owns every rule about what is
    /// expanded where.
    #[must_use]
    pub fn tree(&self, opts: &TreeOptions) -> (r: Tree)
        ensures
            written_all(r.roots) == marks(forest(self@, rules_of(*opts), seq![]).trace),
            r.truncated == forest(self@, rules_of(*opts), seq![]).truncated,
    {
        let prefix: [usize; 0] = [];
        let walk = WalkOptions {
            max_depth: opts.max_depth,
            dedupe: opts.dedupe,
            collapse_roots: opts.collapse_roots,
            prefix: &prefix,
            expand: None,
            include_node: None,
            max_visits: Some(super::DEFAULT_MAX_VISITS),
        };
        let mut builder = TreeBuilder {
            stack: Vec::new(),
            roots: Vec::new(),
            told: Ghost(Seq::empty()),
        };
        proof {
            assert(marks(builder.told@) =~= written_all(builder.roots) + written_open(
                builder.stack@,
            ));
            assert(open_nodes(builder.told@) =~= builder.stack@.map_values(|t: TreeNode| t.node));
        }
        let stats = self.walk(&walk, &mut builder);
        proof {
            assert(walk@.prefix =~= seq![]);
            assert(walk@ == rules_of(*opts));
            super::walk::lemma_list_balanced(
                self@,
                walk@,
                self@.roots,
                self@.roots.len() as int,
                0,
                seq![],
                Set::empty(),
                super::walk::Progress {
                    trace: seq![],
                    expanded: Set::empty(),
                    budget: walk@.budget as int,
                    visits: 0,
                    truncated: false,
                },
            );
            assert(builder.stack@.map_values(|t: TreeNode| t.node).len() == 0);
            assert(written_open(builder.stack@) =~= seq![]);
            assert(written_all(builder.roots) =~= marks(builder.told@));
        }
        Tree { roots: builder.roots, truncated: stats.truncated }
    }
}

} // verus!
