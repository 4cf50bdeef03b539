//! What holds of every graph and every walk.
use super::walk::{
    forest, lemma_list_balanced, open_nodes, placement_of, room, walked, walked_list, Placement,
    Progress, Rules, Step, MAX_WALK_DEPTH,
};
use super::{
    dependents, graph_of, inversion, kind_of, members_of, mentions, named, roots_named, roots_of,
    slot_of, targets, GraphView, NodeKind, NodeView,
};
use crate::lockfiles::cargo_lock_graph::{resolved, PackageView};
use crate::writing::{lemma_after, lemma_not_begins};
use vstd::prelude::*;

verus! {

/// How often `list` holds `x`.
pub open spec fn count_in(list: Seq<usize>, x: usize) -> int
    decreases list.len(),
{
    if list.len() == 0 {
        0
    } else {
        count_in(list.drop_last(), x) + if list.last() == x {
            1int
        } else {
            0
        }
    }
}

proof fn lemma_count_add(a: Seq<usize>, b: Seq<usize>, x: usize)
    ensures
        count_in(a + b, x) == count_in(a, x) + count_in(b, x),
    decreases b.len(),
{
    if b.len() == 0 {
        assert(a + b =~= a);
    } else {
        lemma_count_add(a, b.drop_last(), x);
        assert((a + b).drop_last() =~= a + b.drop_last());
    }
}

proof fn lemma_count_contains(list: Seq<usize>, x: usize)
    ensures
        count_in(list, x) >= 0,
        count_in(list, x) > 0 <==> list.contains(x),
    decreases list.len(),
{
    if list.len() > 0 {
        lemma_count_contains(list.drop_last(), x);
        if list.drop_last().contains(x) {
            let i = choose|i: int| 0 <= i < list.len() - 1 && list.drop_last()[i] == x;
            assert(list[i] == x);
        }
        if list.last() == x {
            assert(list[list.len() - 1] == x);
        }
        if list.contains(x) && list.last() != x {
            let i = choose|i: int| 0 <= i < list.len() && list[i] == x;
            assert(list.drop_last()[i] == x);
        }
    }
}

proof fn lemma_mentions(list: Seq<usize>, to: usize, from: usize, x: usize)
    ensures
        count_in(mentions(list, to, from), x) == if x == from {
            count_in(list, to)
        } else {
            0
        },
    decreases list.len(),
{
    if list.len() > 0 {
        lemma_mentions(list.drop_last(), to, from, x);
        let front = mentions(list.drop_last(), to, from);
        assert(front.push(from).drop_last() =~= front);
    }
}

proof fn lemma_dependents(edges: Seq<Seq<usize>>, to: usize, n: int, from: usize)
    requires
        0 <= n <= edges.len(),
        edges.len() <= usize::MAX,
    ensures
        count_in(dependents(edges, to, n), from) == if from < n {
            count_in(edges[from as int], to)
        } else {
            0
        },
    decreases n,
{
    if n > 0 {
        lemma_dependents(edges, to, n - 1, from);
        lemma_count_add(
            dependents(edges, to, n - 1),
            mentions(edges[n - 1], to, (n - 1) as usize),
            from,
        );
        lemma_mentions(edges[n - 1], to, (n - 1) as usize, from);
    }
}

#[verifier::rlimit(40)]
proof fn lemma_targets(packages: Seq<PackageView>, deps: Seq<Seq<char>>)
    ensures
        targets(packages, deps).no_duplicates(),
        forall|i: usize| #[trigger]
            targets(packages, deps).contains(i) <==> is_reached(packages, deps, i),
    decreases deps.len(),
{
    if deps.len() > 0 {
        let before = deps.drop_last();
        lemma_targets(packages, before);
        let front = targets(packages, before);
        let all = targets(packages, deps);
        assert forall|i: usize| #[trigger] all.contains(i) <==> is_reached(packages, deps, i) by {
            if is_reached(packages, before, i) {
                let k = choose|k: int|
                    0 <= k < before.len() && resolved(packages, #[trigger] before[k]) == Some(i);
                assert(deps[k] == before[k]);
                assert(front.contains(i));
                let j = choose|j: int| 0 <= j < front.len() && front[j] == i;
                assert(all[j] == i);
            }
            if resolved(packages, deps.last()) == Some(i) {
                assert(deps[deps.len() - 1] == deps.last());
                if !front.contains(i) {
                    assert(all[front.len() as int] == i);
                }
            }
            if is_reached(packages, deps, i) && !is_reached(packages, before, i) {
                let k = choose|k: int|
                    0 <= k < deps.len() && resolved(packages, #[trigger] deps[k]) == Some(i);
                if k < before.len() {
                    assert(before[k] == deps[k]);
                }
            }
            if all.contains(i) {
                let j = choose|j: int| 0 <= j < all.len() && all[j] == i;
                if j < front.len() {
                    assert(front[j] == i);
                    assert(front.contains(i));
                }
            }
        }
    }
}

/// Whether one of a list of references means a package.
pub open spec fn is_reached(packages: Seq<PackageView>, deps: Seq<Seq<char>>, i: usize) -> bool {
    exists|k: int| 0 <= k < deps.len() && resolved(packages, #[trigger] deps[k]) == Some(i)
}

/// In the graph of a lockfile a node depends on exactly the packages that its references
/// mean, and on each of them once.
pub proof fn law_dependencies_are_distinct(
    packages: Seq<PackageView>,
    members: Seq<Seq<char>>,
    roots: Seq<Seq<char>>,
    node: int,
)
    requires
        0 <= node < packages.len(),
    ensures
        graph_of(packages, members, roots).edges[node].no_duplicates(),
        forall|i: usize| #[trigger]
            graph_of(packages, members, roots).edges[node].contains(i) <==> is_reached(
                packages,
                packages[node].dependencies,
                i,
            ),
{
    lemma_targets(packages, packages[node].dependencies);
}

/// Inverting a graph reverses every edge: `to` depends on `from` in the inverted graph
/// exactly as often as `from` depends on `to` in the graph itself.
pub proof fn law_inverted_edges(g: GraphView, from: usize, to: usize)
    requires
        g.valid(),
        from < g.nodes.len(),
        to < g.nodes.len(),
    ensures
        count_in(inversion(g).edges[to as int], from) == count_in(g.edges[from as int], to),
        inversion(g).edges[to as int].contains(from) <==> g.edges[from as int].contains(to),
        inversion(g).nodes == g.nodes,
        inversion(g).roots == g.roots,
{
    lemma_dependents(g.edges, to, g.edges.len() as int, from);
    lemma_count_contains(inversion(g).edges[to as int], from);
    lemma_count_contains(g.edges[from as int], to);
}

/// Inverting twice gives back every edge, as often as it was there.
pub proof fn law_inverted_twice(g: GraphView, from: usize, to: usize)
    requires
        g.valid(),
        from < g.nodes.len(),
        to < g.nodes.len(),
    ensures
        count_in(inversion(inversion(g)).edges[from as int], to) == count_in(
            g.edges[from as int],
            to,
        ),
{
    law_inverted_edges(g, from, to);
    let h = inversion(g);
    lemma_dependents(h.edges, from, h.edges.len() as int, to);
}

/// A root's slot is the first entry of the roots that names it, and only roots have one.
pub proof fn law_root_slots(roots: Seq<usize>, node: usize)
    requires
        roots.len() <= usize::MAX,
    ensures
        slot_of(roots, node) matches Some(s) ==> s < roots.len() && roots[s as int] == node
            && forall|j: int| 0 <= j < s ==> roots[j] != node,
        slot_of(roots, node) is Some <==> roots.contains(node),
{
    super::lemma_slot(roots, node);
}

/// Every node a walk enters it leaves: nothing is open after the walk that was not
/// open before it.
pub proof fn law_walk_is_balanced(g: GraphView, o: Rules, trace: Seq<Step>)
    ensures
        open_nodes(forest(g, o, trace).trace) == open_nodes(trace),
{
    lemma_list_balanced(
        g,
        o,
        g.roots,
        g.roots.len() as int,
        0,
        o.prefix,
        Set::empty(),
        start(o, trace),
    );
}

/// How a walk begins.
pub open spec fn start(o: Rules, trace: Seq<Step>) -> Progress {
    Progress {
        trace,
        expanded: Set::empty(),
        budget: o.budget as int,
        visits: 0,
        truncated: false,
    }
}

/// How many nodes a walk has entered.
pub open spec fn entered(trace: Seq<Step>) -> int
    decreases trace.len(),
{
    if trace.len() == 0 {
        0
    } else {
        entered(trace.drop_last()) + if trace.last() is Enter {
            1int
        } else {
            0
        }
    }
}

pub(crate) proof fn lemma_walk_counts(
    g: GraphView,
    o: Rules,
    node: usize,
    depth: int,
    path: Seq<usize>,
    on_path: Set<usize>,
    p: Progress,
)
    requires
        p.budget >= 0,
    ensures
        ({
            let q = walked(g, o, node, depth, path, on_path, p);
            &&& q.budget >= 0
            &&& q.budget + q.visits == p.budget + p.visits
            &&& q.visits - p.visits == entered(q.trace) - entered(p.trace)
        }),
    decreases room(depth), 0int,
{
    if p.budget <= 0 || depth >= MAX_WALK_DEPTH || !o.includes(path) {
    } else {
        let deps = g.edges[node as int];
        let (entry, opened) = opening(g, o, node, depth, path, on_path, p);
        assert(entry.trace.drop_last() =~= p.trace);
        let below = if placement_of(g, o, node, depth, path, on_path, p.expanded)
            == Placement::Full {
            lemma_list_counts(
                g,
                o,
                deps,
                deps.len() as int,
                depth + 1,
                path,
                on_path.insert(node),
                opened,
            );
            walked_list(
                g,
                o,
                deps,
                deps.len() as int,
                depth + 1,
                path,
                on_path.insert(node),
                opened,
            )
        } else {
            entry
        };
        let q = walked(g, o, node, depth, path, on_path, p);
        assert(q == Progress { trace: below.trace.push(Step::Leave { node }), ..below });
        assert(q.trace.drop_last() =~= below.trace);
        assert(entered(q.trace) == entered(below.trace));
        assert(entered(entry.trace) == entered(p.trace) + 1);
    }
}

pub(crate) proof fn lemma_list_counts(
    g: GraphView,
    o: Rules,
    list: Seq<usize>,
    n: int,
    depth: int,
    path: Seq<usize>,
    on_path: Set<usize>,
    p: Progress,
)
    requires
        p.budget >= 0,
    ensures
        ({
            let q = walked_list(g, o, list, n, depth, path, on_path, p);
            &&& q.budget >= 0
            &&& q.budget + q.visits == p.budget + p.visits
            &&& q.visits - p.visits == entered(q.trace) - entered(p.trace)
        }),
    decreases room(depth), n + 1,
{
    if n > 0 {
        lemma_list_counts(g, o, list, n - 1, depth, path, on_path, p);
        lemma_walk_counts(
            g,
            o,
            list[n - 1],
            depth,
            path.push((n - 1) as usize),
            on_path,
            walked_list(g, o, list, n - 1, depth, path, on_path, p),
        );
    }
}

/// A walk on the point of its node's dependencies: after entering, and after noting
/// the node as expanded where that is noted.
pub open spec fn opening(
    g: GraphView,
    o: Rules,
    node: usize,
    depth: int,
    path: Seq<usize>,
    on_path: Set<usize>,
    p: Progress,
) -> (Progress, Progress) {
    let deps = g.edges[node as int];
    let entry = Progress {
        trace: p.trace.push(
            Step::Enter {
                path,
                depth: depth as usize,
                node,
                placement: placement_of(g, o, node, depth, path, on_path, p.expanded),
                degree: deps.len() as usize,
            },
        ),
        budget: p.budget - 1,
        visits: p.visits + 1,
        ..p
    };
    let own_entry = o.collapse_roots && depth > 0 && slot_of(g.roots, node) is Some;
    let opened = if o.dedupe && !own_entry {
        Progress { expanded: entry.expanded.insert(node), ..entry }
    } else {
        entry
    };
    (entry, opened)
}

/// A walk reports as many visits as it makes, and never more than its budget.
pub proof fn law_visits_are_bounded(g: GraphView, o: Rules, trace: Seq<Step>)
    ensures
        forest(g, o, trace).visits == entered(forest(g, o, trace).trace) - entered(trace),
        0 <= forest(g, o, trace).visits <= o.budget,
{
    lemma_list_counts(
        g,
        o,
        g.roots,
        g.roots.len() as int,
        0,
        o.prefix,
        Set::empty(),
        start(o, trace),
    );
    lemma_entered_grows(g, o, g.roots, g.roots.len() as int, 0, o.prefix, Set::empty(), start(o, trace));
}

proof fn lemma_entered_grows(
    g: GraphView,
    o: Rules,
    list: Seq<usize>,
    n: int,
    depth: int,
    path: Seq<usize>,
    on_path: Set<usize>,
    p: Progress,
)
    requires
        p.budget >= 0,
    ensures
        walked_list(g, o, list, n, depth, path, on_path, p).visits >= p.visits,
    decreases room(depth), n + 1,
{
    if n > 0 {
        lemma_entered_grows(g, o, list, n - 1, depth, path, on_path, p);
        lemma_list_counts(g, o, list, n - 1, depth, path, on_path, p);
        let q = walked_list(g, o, list, n - 1, depth, path, on_path, p);
        lemma_visit_grows(
            g,
            o,
            list[n - 1],
            depth,
            path.push((n - 1) as usize),
            on_path,
            q,
        );
    }
}

proof fn lemma_visit_grows(
    g: GraphView,
    o: Rules,
    node: usize,
    depth: int,
    path: Seq<usize>,
    on_path: Set<usize>,
    p: Progress,
)
    requires
        p.budget >= 0,
    ensures
        walked(g, o, node, depth, path, on_path, p).visits >= p.visits,
    decreases room(depth), 0int,
{
    if p.budget <= 0 || depth >= MAX_WALK_DEPTH || !o.includes(path) {
    } else {
        let deps = g.edges[node as int];
        let (entry, opened) = opening(g, o, node, depth, path, on_path, p);
        lemma_entered_grows(
            g,
            o,
            deps,
            deps.len() as int,
            depth + 1,
            path,
            on_path.insert(node),
            opened,
        );
    }
}

/// Whether the step at `i` reports a cycle exactly if its node is one already open.
pub open spec fn cycle_told(trace: Seq<Step>, i: int) -> bool {
    trace[i] matches Step::Enter { node, placement, .. } ==> (placement == Placement::Cycle
        <==> open_nodes(trace.take(i)).contains(node))
}

/// Whether every step does.
pub open spec fn cycles_told(trace: Seq<Step>) -> bool {
    forall|i: int| 0 <= i < trace.len() ==> #[trigger] cycle_told(trace, i)
}

proof fn lemma_cycles_push(trace: Seq<Step>, s: Step)
    requires
        cycles_told(trace),
        s matches Step::Enter { node, placement, .. } ==> (placement == Placement::Cycle
            <==> open_nodes(trace).contains(node)),
    ensures
        cycles_told(trace.push(s)),
{
    let t = trace.push(s);
    assert forall|i: int| 0 <= i < t.len() implies #[trigger] cycle_told(t, i) by {
        if i < trace.len() {
            assert(t.take(i) =~= trace.take(i));
            assert(cycle_told(trace, i));
        } else {
            assert(t.take(i) =~= trace);
        }
    }
}

#[verifier::rlimit(40)]
proof fn lemma_walk_cycles(
    g: GraphView,
    o: Rules,
    node: usize,
    depth: int,
    path: Seq<usize>,
    on_path: Set<usize>,
    p: Progress,
)
    requires
        cycles_told(p.trace),
        forall|n: usize| on_path.contains(n) <==> open_nodes(p.trace).contains(n),
    ensures
        cycles_told(walked(g, o, node, depth, path, on_path, p).trace),
    decreases room(depth), 0int,
{
    if p.budget <= 0 || depth >= MAX_WALK_DEPTH || !o.includes(path) {
    } else {
        let deps = g.edges[node as int];
        let (entry, opened) = opening(g, o, node, depth, path, on_path, p);
        lemma_cycles_push(p.trace, entry.trace.last());
        assert(entry.trace.drop_last() =~= p.trace);
        let inner = on_path.insert(node);
        let was = open_nodes(p.trace);
        assert forall|n: usize| inner.contains(n) <==> was.push(node).contains(n) by {
            if was.contains(n) {
                let i = choose|i: int| 0 <= i < was.len() && was[i] == n;
                assert(was.push(node)[i] == n);
            }
            if n == node {
                assert(was.push(node)[was.len() as int] == n);
            }
            if was.push(node).contains(n) && n != node {
                let i = choose|i: int| 0 <= i < was.len() + 1 && was.push(node)[i] == n;
                assert(was[i] == n);
            }
        }
        let below = if placement_of(g, o, node, depth, path, on_path, p.expanded)
            == Placement::Full {
            lemma_list_cycles(g, o, deps, deps.len() as int, depth + 1, path, inner, opened);
            walked_list(g, o, deps, deps.len() as int, depth + 1, path, inner, opened)
        } else {
            entry
        };
        lemma_cycles_push(below.trace, Step::Leave { node });
    }
}

proof fn lemma_list_cycles(
    g: GraphView,
    o: Rules,
    list: Seq<usize>,
    n: int,
    depth: int,
    path: Seq<usize>,
    on_path: Set<usize>,
    p: Progress,
)
    requires
        cycles_told(p.trace),
        forall|n: usize| on_path.contains(n) <==> open_nodes(p.trace).contains(n),
    ensures
        cycles_told(walked_list(g, o, list, n, depth, path, on_path, p).trace),
    decreases room(depth), n + 1,
{
    if n > 0 {
        lemma_list_cycles(g, o, list, n - 1, depth, path, on_path, p);
        lemma_list_balanced(g, o, list, n - 1, depth, path, on_path, p);
        lemma_walk_cycles(
            g,
            o,
            list[n - 1],
            depth,
            path.push((n - 1) as usize),
            on_path,
            walked_list(g, o, list, n - 1, depth, path, on_path, p),
        );
    }
}

/// A walk cuts exactly the back-edges: an appearance is reported as a cycle if and only
/// if its node is one that the walk is inside of at that point. So no node is ever
/// expanded below itself, whatever the options say.
pub proof fn law_cycles_are_cut(g: GraphView, o: Rules)
    ensures
        cycles_told(forest(g, o, seq![]).trace),
{
    let p = start(o, seq![]);
    assert(open_nodes(p.trace) =~= seq![]);
    lemma_list_cycles(g, o, g.roots, g.roots.len() as int, 0, o.prefix, Set::empty(), p);
}

/// Whether a step shows dependencies below its node.
pub open spec fn opens(s: Step) -> bool {
    s matches Step::Enter { placement, degree, .. } && placement == Placement::Full && degree > 0
}

/// The node of a step.
pub open spec fn node_at(s: Step) -> usize {
    match s {
        Step::Enter { node, .. } => node,
        Step::Leave { node } => node,
    }
}

/// Whether no two steps show the dependencies of one node.
pub open spec fn opened_once(trace: Seq<Step>) -> bool {
    forall|i: int, j: int|
        0 <= i < j < trace.len() && opens(#[trigger] trace[i]) && opens(#[trigger] trace[j])
            ==> node_at(trace[i]) != node_at(trace[j])
}

/// Whether every node whose dependencies are shown is noted.
spec fn opened_noted(trace: Seq<Step>, expanded: Set<usize>) -> bool {
    forall|i: int|
        0 <= i < trace.len() && opens(#[trigger] trace[i]) ==> expanded.contains(node_at(trace[i]))
}

#[verifier::rlimit(40)]
proof fn lemma_walk_once(
    g: GraphView,
    o: Rules,
    node: usize,
    depth: int,
    path: Seq<usize>,
    on_path: Set<usize>,
    p: Progress,
)
    requires
        g.valid(),
        node < g.nodes.len(),
        o.dedupe,
        opened_once(p.trace),
        opened_noted(p.trace, p.expanded),
    ensures
        ({
            let q = walked(g, o, node, depth, path, on_path, p);
            opened_once(q.trace) && opened_noted(q.trace, q.expanded)
        }),
    decreases room(depth), 0int,
{
    if p.budget <= 0 || depth >= MAX_WALK_DEPTH || !o.includes(path) {
    } else {
        let deps = g.edges[node as int];
        assert(deps.len() <= usize::MAX);
        let (entry, opened) = opening(g, o, node, depth, path, on_path, p);
        let t = entry.trace;
        assert forall|i: int, j: int|
            0 <= i < j < t.len() && opens(#[trigger] t[i]) && opens(#[trigger] t[j]) implies
            node_at(t[i]) != node_at(t[j]) by {
            assert(t[i] == p.trace[i]);
            if j < p.trace.len() {
                assert(t[j] == p.trace[j]);
            }
        }
        let full = placement_of(g, o, node, depth, path, on_path, p.expanded) == Placement::Full;
        if full {
            assert forall|i: int| 0 <= i < t.len() && opens(#[trigger] t[i]) implies
                opened.expanded.contains(node_at(t[i])) by {
                if i < p.trace.len() {
                    assert(t[i] == p.trace[i]);
                }
            }
            lemma_list_once(
                g,
                o,
                deps,
                deps.len() as int,
                depth + 1,
                path,
                on_path.insert(node),
                opened,
            );
        } else {
            assert forall|i: int| 0 <= i < t.len() && opens(#[trigger] t[i]) implies
                entry.expanded.contains(node_at(t[i])) by {
                if i < p.trace.len() {
                    assert(t[i] == p.trace[i]);
                }
            }
        }
        let below = if full {
            walked_list(
                g,
                o,
                deps,
                deps.len() as int,
                depth + 1,
                path,
                on_path.insert(node),
                opened,
            )
        } else {
            entry
        };
        let u = below.trace.push(Step::Leave { node });
        assert forall|i: int, j: int|
            0 <= i < j < u.len() && opens(#[trigger] u[i]) && opens(#[trigger] u[j]) implies
            node_at(u[i]) != node_at(u[j]) by {
            assert(u[i] == below.trace[i]);
            assert(u[j] == below.trace[j]);
        }
        assert forall|i: int| 0 <= i < u.len() && opens(#[trigger] u[i]) implies
            below.expanded.contains(node_at(u[i])) by {
            assert(u[i] == below.trace[i]);
        }
    }
}

proof fn lemma_list_once(
    g: GraphView,
    o: Rules,
    list: Seq<usize>,
    n: int,
    depth: int,
    path: Seq<usize>,
    on_path: Set<usize>,
    p: Progress,
)
    requires
        g.valid(),
        n <= list.len(),
        forall|i: int| 0 <= i < list.len() ==> (#[trigger] list[i]) < g.nodes.len(),
        o.dedupe,
        opened_once(p.trace),
        opened_noted(p.trace, p.expanded),
    ensures
        ({
            let q = walked_list(g, o, list, n, depth, path, on_path, p);
            opened_once(q.trace) && opened_noted(q.trace, q.expanded)
        }),
    decreases room(depth), n + 1,
{
    if n > 0 {
        lemma_list_once(g, o, list, n - 1, depth, path, on_path, p);
        lemma_walk_once(
            g,
            o,
            list[n - 1],
            depth,
            path.push((n - 1) as usize),
            on_path,
            walked_list(g, o, list, n - 1, depth, path, on_path, p),
        );
    }
}

/// With `dedupe` on, a walk shows the dependencies of a node at most once: the number of
/// appearances is bounded by the graph.
pub proof fn law_dedupe_expands_once(g: GraphView, o: Rules)
    requires
        g.valid(),
        o.dedupe,
    ensures
        opened_once(forest(g, o, seq![]).trace),
{
    lemma_list_once(
        g,
        o,
        g.roots,
        g.roots.len() as int,
        0,
        o.prefix,
        Set::empty(),
        start(o, seq![]),
    );
}

/// A package without a source is a member of the workspace if it is named as one, and
/// else a path; one whose source is a git URL is git; any other is of a registry, even
/// where it has a member's name.
pub proof fn law_node_kinds(name: Seq<char>, url: Seq<char>, members: Seq<Seq<char>>)
    ensures
        members.contains(name) ==> kind_of(name, None, members) == NodeKind::Workspace,
        !members.contains(name) ==> kind_of(name, None, members) == NodeKind::Path,
        kind_of(name, Some("git+"@ + url), members) == NodeKind::Git,
        kind_of(name, Some("registry+"@ + url), members) == NodeKind::Registry,
        kind_of(name, Some("sparse+"@ + url), members) == NodeKind::Registry,
{
    lemma_after("git+"@, url);
    reveal_strlit("git+");
    reveal_strlit("registry+");
    reveal_strlit("sparse+");
    lemma_not_begins("registry+"@ + url, "git+"@, 0);
    lemma_not_begins("sparse+"@ + url, "git+"@, 0);
}

/// The nodes of a lockfile's graph are its packages in order, by name and version, each
/// of the kind that its source and the members say.
pub proof fn law_nodes_are_packages(
    packages: Seq<PackageView>,
    members: Seq<Seq<char>>,
    roots: Seq<Seq<char>>,
    i: int,
)
    requires
        0 <= i < packages.len(),
    ensures
        ({
            let g = graph_of(packages, members, roots);
            &&& g.nodes.len() == packages.len()
            &&& g.edges.len() == packages.len()
            &&& g.nodes[i].name == packages[i].name
            &&& g.nodes[i].version == packages[i].version
            &&& g.nodes[i].kind == kind_of(packages[i].name, packages[i].source, members)
        }),
{
}

#[verifier::rlimit(40)]
proof fn lemma_named(nodes: Seq<NodeView>, name: Seq<char>, members: bool, n: int)
    requires
        0 <= n <= nodes.len() <= usize::MAX,
    ensures
        forall|x: usize| #[trigger]
            named(nodes, name, members, n).contains(x) <==> x < n && nodes[x as int].name == name && (
            members ==> nodes[x as int].kind == NodeKind::Workspace),
    decreases n,
{
    let all = named(nodes, name, members, n);
    if n > 0 {
        lemma_named(nodes, name, members, n - 1);
        let front = named(nodes, name, members, n - 1);
        assert forall|x: usize| #[trigger] all.contains(x) <==> x < n && nodes[x as int].name
            == name && (members ==> nodes[x as int].kind == NodeKind::Workspace) by {
            assert(front.contains(x) <==> x < n - 1 && nodes[x as int].name == name && (members
                ==> nodes[x as int].kind == NodeKind::Workspace));
            if front.contains(x) {
                let j = choose|j: int| 0 <= j < front.len() && front[j] == x;
                assert(all[j] == x);
            }
            if all.len() > front.len() {
                assert(all[front.len() as int] == (n - 1) as usize);
                if all.contains(x) && x != (n - 1) as usize {
                    let j = choose|j: int| 0 <= j < all.len() && all[j] == x;
                    assert(front[j] == x);
                }
            }
        }
    }
}

/// A root's name means every member of that name, and where no member has it, every node
/// that has.
pub proof fn law_roots_named(nodes: Seq<NodeView>, name: Seq<char>, x: usize)
    requires
        nodes.len() <= usize::MAX,
    ensures
        (exists|i: int|
            0 <= i < nodes.len() && (#[trigger] nodes[i]).name == name && nodes[i].kind
                == NodeKind::Workspace) ==> (roots_named(nodes, name).contains(x) <==> x
            < nodes.len() && nodes[x as int].name == name && nodes[x as int].kind
            == NodeKind::Workspace),
        !(exists|i: int|
            0 <= i < nodes.len() && (#[trigger] nodes[i]).name == name && nodes[i].kind
                == NodeKind::Workspace) ==> (roots_named(nodes, name).contains(x) <==> x
            < nodes.len() && nodes[x as int].name == name),
{
    let n = nodes.len() as int;
    lemma_named(nodes, name, true, n);
    lemma_named(nodes, name, false, n);
    let members = named(nodes, name, true, n);
    if exists|i: int|
        0 <= i < nodes.len() && (#[trigger] nodes[i]).name == name && nodes[i].kind
            == NodeKind::Workspace {
        let i = choose|i: int|
            0 <= i < nodes.len() && (#[trigger] nodes[i]).name == name && nodes[i].kind
                == NodeKind::Workspace;
        assert(members.contains(i as usize));
        assert(members.len() > 0);
    } else if members.len() > 0 {
        assert(members.contains(members[0]));
    }
}

/// One more root name adds the nodes it means after the others.
pub proof fn law_roots_one_more(nodes: Seq<NodeView>, names: Seq<Seq<char>>, name: Seq<char>)
    ensures
        roots_of(nodes, names.push(name)) == roots_of(nodes, names) + roots_named(nodes, name),
{
    assert(names.push(name).drop_last() =~= names);
}

#[verifier::rlimit(40)]
proof fn lemma_members(nodes: Seq<NodeView>, n: int)
    requires
        0 <= n <= nodes.len() <= usize::MAX,
    ensures
        forall|x: usize| #[trigger]
            members_of(nodes, n).contains(x) <==> x < n && nodes[x as int].kind
                == NodeKind::Workspace,
    decreases n,
{
    let all = members_of(nodes, n);
    if n > 0 {
        lemma_members(nodes, n - 1);
        let front = members_of(nodes, n - 1);
        assert forall|x: usize| #[trigger] all.contains(x) <==> x < n && nodes[x as int].kind
            == NodeKind::Workspace by {
            assert(front.contains(x) <==> x < n - 1 && nodes[x as int].kind == NodeKind::Workspace);
            if front.contains(x) {
                let j = choose|j: int| 0 <= j < front.len() && front[j] == x;
                assert(all[j] == x);
            }
            if all.len() > front.len() {
                assert(all[front.len() as int] == (n - 1) as usize);
                if all.contains(x) && x != (n - 1) as usize {
                    let j = choose|j: int| 0 <= j < all.len() && all[j] == x;
                    assert(front[j] == x);
                }
            }
        }
    }
}

/// Where the root names mean no node, the roots are the members of the workspace; where
/// they mean some, the roots are those.
pub proof fn law_roots_fall_back_to_members(
    packages: Seq<PackageView>,
    members: Seq<Seq<char>>,
    roots: Seq<Seq<char>>,
    x: usize,
)
    requires
        packages.len() <= usize::MAX,
    ensures
        ({
            let g = graph_of(packages, members, roots);
            let asked = roots_of(g.nodes, roots);
            &&& asked.len() > 0 ==> g.roots == asked
            &&& asked.len() == 0 ==> (g.roots.contains(x) <==> x < g.nodes.len() && g.nodes[x as int].kind
                == NodeKind::Workspace)
        }),
{
    let g = graph_of(packages, members, roots);
    lemma_members(g.nodes, g.nodes.len() as int);
}

} // verus!
