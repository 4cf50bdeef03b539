//! What a walk tells its visitor: which visit stands where, how each is placed, and what is
//! left out.
use super::laws::{lemma_list_counts, node_at, opening, start};
use super::walk::{
    forest, placement_of, room, walked, walked_list, Placement, Progress, Rules, Step,
    MAX_WALK_DEPTH,
};
use super::{slot_of, GraphView};
use vstd::prelude::*;

verus! {

/// The visits entered and not yet left, the innermost last.
pub open spec fn open_steps(trace: Seq<Step>) -> Seq<Step>
    decreases trace.len(),
{
    if trace.len() == 0 {
        seq![]
    } else {
        let before = open_steps(trace.drop_last());
        match trace.last() {
            Step::Enter { .. } => before.push(trace.last()),
            Step::Leave { .. } => if before.len() > 0 {
                before.drop_last()
            } else {
                before
            },
        }
    }
}

/// The path of a visit.
pub open spec fn path_at(s: Step) -> Seq<usize> {
    match s {
        Step::Enter { path, .. } => path,
        Step::Leave { .. } => seq![],
    }
}

/// Where a list of nodes is walked after some steps: the roots under the prefix at the
/// top, or the dependencies of the visit the walk is in, which is shown in full.
pub open spec fn is_list(
    g: GraphView,
    o: Rules,
    trace: Seq<Step>,
    list: Seq<usize>,
    depth: int,
    path: Seq<usize>,
) -> bool {
    let up = open_steps(trace);
    if up.len() == 0 {
        list == g.roots && depth == 0 && path == o.prefix
    } else {
        up.last() matches Step::Enter { path: p, depth: d, node: u, placement, .. } && placement
            == Placement::Full && u < g.nodes.len() && list == g.edges[u as int] && depth == d + 1
            && path == p
    }
}

/// Whether a visit after some steps stands in its slot: at the top it is a root at depth
/// 0, and below it is a dependency of the visit the walk is in, one deeper; its path is
/// extended by the slot in either case.
pub open spec fn is_slot(
    g: GraphView,
    o: Rules,
    trace: Seq<Step>,
    node: usize,
    depth: int,
    path: Seq<usize>,
) -> bool {
    exists|list: Seq<usize>| #[trigger]
        is_list(g, o, trace, list, depth, path.drop_last()) && path.len() > 0 && path.last()
            < list.len() && node == list[path.last() as int] && node < g.nodes.len()
}

/// Whether the slots of what was visited under a path come before another.
pub open spec fn slots_below(trace: Seq<Step>, path: Seq<usize>, slot: int) -> bool {
    forall|j: int|
        0 <= j < trace.len() && #[trigger] trace[j] is Enter && path_at(trace[j]).len() > path.len()
            && path_at(trace[j]).take(path.len() as int) == path ==> path_at(
            trace[j],
        )[path.len() as int] < slot
}

/// Whether the walk is in a visit of a node.
pub open spec fn inside(trace: Seq<Step>, node: usize) -> bool {
    exists|j: int| 0 <= j < open_steps(trace).len() && node_at(#[trigger] open_steps(trace)[j]) == node
}

/// Whether a step shows a node in full, and not as a leaf of which the own entry is still
/// to be shown.
pub open spec fn shows(g: GraphView, o: Rules, s: Step, node: usize) -> bool {
    s matches Step::Enter { node: n, placement, depth, .. } && n == node && placement
        == Placement::Full && !(o.collapse_roots && depth > 0 && slot_of(g.roots, node) is Some)
}

/// Whether a node was shown in full before.
pub open spec fn shown_before(g: GraphView, o: Rules, trace: Seq<Step>, node: usize) -> bool {
    exists|j: int| 0 <= j < trace.len() && shows(g, o, #[trigger] trace[j], node)
}

/// How a visit after some steps is placed, the first that applies: as a cycle where the
/// walk is in a visit of its node; as a root where it has a tree of its own; as a repeat
/// where it was shown before; as too deep; as collapsed; and else in full.
pub open spec fn placement_after(
    g: GraphView,
    o: Rules,
    trace: Seq<Step>,
    node: usize,
    depth: int,
    path: Seq<usize>,
) -> Placement {
    let degree = g.edges[node as int].len();
    if inside(trace, node) {
        Placement::Cycle
    } else if o.collapse_roots && depth > 0 && degree > 0 && slot_of(g.roots, node) is Some {
        Placement::Root { root: slot_of(g.roots, node)->0 }
    } else if o.dedupe && shown_before(g, o, trace, node) {
        Placement::Repeat
    } else if o.max_depth is Some && depth >= o.max_depth->0 {
        Placement::Depth
    } else if degree > 0 && !o.expands(path) {
        Placement::Collapsed
    } else {
        Placement::Full
    }
}

/// Whether a step nests after some others: a visit stands in its slot, after the slots
/// before it, not too deep, with as many dependencies as its node has; and a leave is that
/// of the visit the walk is in.
pub open spec fn nests(g: GraphView, o: Rules, trace: Seq<Step>, s: Step) -> bool {
    match s {
        Step::Enter { path, depth, node, degree, .. } => {
            &&& is_slot(g, o, trace, node, depth as int, path)
            &&& slots_below(trace, path.drop_last(), path.last() as int)
            &&& depth < MAX_WALK_DEPTH
            &&& degree == g.edges[node as int].len()
            &&& o.includes(path)
        },
        Step::Leave { node } => open_steps(trace).len() > 0 && node_at(open_steps(trace).last())
            == node,
    }
}

/// Whether a visit after some steps is placed as it should be.
pub open spec fn placed(g: GraphView, o: Rules, trace: Seq<Step>, s: Step) -> bool {
    s matches Step::Enter { path, depth, node, placement, .. } ==> placement == placement_after(
        g,
        o,
        trace,
        node,
        depth as int,
        path,
    )
}

/// Whether every step nests after those before it.
pub open spec fn all_nest(g: GraphView, o: Rules, trace: Seq<Step>) -> bool {
    forall|i: int| 0 <= i < trace.len() ==> nests(g, o, trace.take(i), #[trigger] trace[i])
}

/// Whether every visit is placed as it should be after the steps before it.
pub open spec fn all_placed(g: GraphView, o: Rules, trace: Seq<Step>) -> bool {
    forall|i: int| 0 <= i < trace.len() ==> placed(g, o, trace.take(i), #[trigger] trace[i])
}

proof fn lemma_step(g: GraphView, o: Rules, trace: Seq<Step>, s: Step)
    requires
        all_nest(g, o, trace),
        all_placed(g, o, trace),
        nests(g, o, trace, s),
        placed(g, o, trace, s),
    ensures
        all_nest(g, o, trace.push(s)),
        all_placed(g, o, trace.push(s)),
{
    let t = trace.push(s);
    assert forall|i: int| 0 <= i < t.len() implies nests(g, o, t.take(i), #[trigger] t[i])
        && placed(g, o, t.take(i), t[i]) by {
        if i < trace.len() {
            assert(t.take(i) =~= trace.take(i));
            assert(t[i] == trace[i]);
        } else {
            assert(t.take(i) =~= trace);
        }
    }
}

proof fn lemma_open(trace: Seq<Step>, s: Step)
    ensures
        s is Enter ==> open_steps(trace.push(s)) == open_steps(trace).push(s),
        s is Leave && open_steps(trace).len() > 0 ==> open_steps(trace.push(s)) == open_steps(
            trace,
        ).drop_last(),
{
    assert(trace.push(s).drop_last() =~= trace);
}

proof fn lemma_inside(trace: Seq<Step>, s: Step)
    requires
        s is Enter,
    ensures
        forall|n: usize| #[trigger]
            inside(trace.push(s), n) <==> inside(trace, n) || n == node_at(s),
{
    lemma_open(trace, s);
    let up = open_steps(trace);
    let now = open_steps(trace.push(s));
    assert forall|n: usize| #[trigger] inside(trace.push(s), n) <==> inside(trace, n) || n
        == node_at(s) by {
        if inside(trace, n) {
            let j = choose|j: int| 0 <= j < up.len() && node_at(#[trigger] up[j]) == n;
            assert(now[j] == up[j]);
        }
        if n == node_at(s) {
            assert(now[up.len() as int] == s);
        }
        if inside(trace.push(s), n) && n != node_at(s) {
            let j = choose|j: int| 0 <= j < now.len() && node_at(#[trigger] now[j]) == n;
            assert(up[j] == now[j]);
        }
    }
}

proof fn lemma_shown(g: GraphView, o: Rules, trace: Seq<Step>, s: Step)
    ensures
        forall|n: usize| #[trigger]
            shown_before(g, o, trace.push(s), n) <==> shown_before(g, o, trace, n) || shows(
                g,
                o,
                s,
                n,
            ),
{
    let t = trace.push(s);
    assert forall|n: usize| #[trigger] shown_before(g, o, t, n) <==> shown_before(g, o, trace, n)
        || shows(g, o, s, n) by {
        if shown_before(g, o, trace, n) {
            let j = choose|j: int| 0 <= j < trace.len() && shows(g, o, #[trigger] trace[j], n);
            assert(t[j] == trace[j]);
        }
        if shows(g, o, s, n) {
            assert(t[trace.len() as int] == s);
        }
        if shown_before(g, o, t, n) && !shows(g, o, s, n) {
            let j = choose|j: int| 0 <= j < t.len() && shows(g, o, #[trigger] t[j], n);
            assert(trace[j] == t[j]);
        }
    }
}

/// What a walk keeps true between its steps.
spec fn keeps(g: GraphView, o: Rules, on_path: Set<usize>, p: Progress) -> bool {
    &&& all_nest(g, o, p.trace)
    &&& all_placed(g, o, p.trace)
    &&& forall|n: usize| #[trigger] on_path.contains(n) <==> inside(p.trace, n)
    &&& o.dedupe ==> forall|n: usize| #[trigger]
        p.expanded.contains(n) <==> shown_before(g, o, p.trace, n)
}

/// What a part of a walk adds to its steps: visits under a path, at slots before one.
spec fn adds(before: Seq<Step>, after: Seq<Step>, path: Seq<usize>, slot: int) -> bool {
    &&& before.len() <= after.len()
    &&& after.take(before.len() as int) == before
    &&& open_steps(after) == open_steps(before)
    &&& forall|j: int|
        before.len() <= j < after.len() && #[trigger] after[j] is Enter ==> path_at(after[j]).len()
            > path.len() && path_at(after[j]).take(path.len() as int) == path && path_at(
            after[j],
        )[path.len() as int] < slot
}

proof fn lemma_inside_same(before: Seq<Step>, after: Seq<Step>)
    requires
        open_steps(after) == open_steps(before),
    ensures
        forall|n: usize| #[trigger] inside(after, n) <==> inside(before, n),
{
    assert forall|n: usize| #[trigger] inside(after, n) <==> inside(before, n) by {
        if inside(before, n) {
            let j = choose|j: int|
                0 <= j < open_steps(before).len() && node_at(#[trigger] open_steps(before)[j]) == n;
            assert(node_at(open_steps(after)[j]) == n);
        }
        if inside(after, n) {
            let j = choose|j: int|
                0 <= j < open_steps(after).len() && node_at(#[trigger] open_steps(after)[j]) == n;
            assert(node_at(open_steps(before)[j]) == n);
        }
    }
}

/// After a visit nothing under its path has been visited.
proof fn lemma_nothing_below(trace: Seq<Step>, enter: Step, path: Seq<usize>)
    requires
        path.len() > 0,
        path_at(enter) == path,
        slots_below(trace, path.drop_last(), path.last() as int),
    ensures
        slots_below(trace.push(enter), path, 0),
{
    let t = trace.push(enter);
    let base = path.drop_last();
    assert forall|j: int|
        0 <= j < t.len() && #[trigger] t[j] is Enter && path_at(t[j]).len() > path.len() && path_at(
            t[j],
        ).take(path.len() as int) == path implies path_at(t[j])[path.len() as int] < 0 by {
        let r = path_at(t[j]);
        if j < trace.len() {
            assert(t[j] == trace[j]);
            lemma_under(r, path);
        } else {
            assert(t[j] == enter);
        }
    }
}

/// What is under a path is under the path it extends, at its slot.
proof fn lemma_under(r: Seq<usize>, path: Seq<usize>)
    requires
        path.len() > 0,
        r.len() >= path.len(),
        r.take(path.len() as int) == path,
    ensures
        r.take(path.len() - 1) == path.drop_last(),
        r[path.len() - 1] == path.last(),
{
    assert forall|k: int| 0 <= k < path.len() implies r[k] == path[k] by {
        assert(r.take(path.len() as int)[k] == path[k]);
    }
    assert(r.take(path.len() - 1) =~= path.drop_last());
}

/// What a visit and all below it add.
proof fn lemma_visit_adds(
    p: Seq<Step>,
    enter: Step,
    t: Seq<Step>,
    leave: Step,
    path: Seq<usize>,
    slots: int,
)
    requires
        path.len() > 0,
        enter is Enter,
        leave is Leave,
        path_at(enter) == path,
        adds(p.push(enter), t, path, slots),
    ensures
        adds(p, t.push(leave), path.drop_last(), path.last() + 1),
        open_steps(t) == open_steps(p).push(enter),
{
    let t1 = p.push(enter);
    let q = t.push(leave);
    let base = path.drop_last();
    lemma_open(p, enter);
    lemma_open(t, leave);
    assert(open_steps(q) =~= open_steps(p));
    assert(q.take(p.len() as int) =~= p) by {
        assert forall|k: int| 0 <= k < p.len() implies q[k] == p[k] by {
            assert(t.take(t1.len() as int)[k] == t1[k]);
        }
    }
    assert forall|j: int| p.len() <= j < q.len() && #[trigger] q[j] is Enter implies path_at(
        q[j],
    ).len() > base.len() && path_at(q[j]).take(base.len() as int) == base && path_at(
        q[j],
    )[base.len() as int] < path.last() + 1 by {
        assert(j < t.len());
        assert(q[j] == t[j]);
        if j == p.len() {
            assert(t.take(t1.len() as int)[j] == t1[j]);
            assert(path.take(base.len() as int) =~= base);
        } else {
            lemma_under(path_at(t[j]), path);
        }
    }
}

/// What a walk keeps true, it keeps true on the point of a visit's dependencies.
proof fn lemma_opening_keeps(
    g: GraphView,
    o: Rules,
    node: usize,
    depth: int,
    path: Seq<usize>,
    on_path: Set<usize>,
    p: Progress,
)
    requires
        g.valid(),
        0 <= depth < MAX_WALK_DEPTH,
        o.includes(path),
        keeps(g, o, on_path, p),
        is_slot(g, o, p.trace, node, depth, path),
        slots_below(p.trace, path.drop_last(), path.last() as int),
    ensures
        ({
            let (entry, opened) = opening(g, o, node, depth, path, on_path, p);
            let full = placement_of(g, o, node, depth, path, on_path, p.expanded)
                == Placement::Full;
            &&& entry.trace == p.trace.push(entry.trace.last())
            &&& entry.trace.last() is Enter
            &&& path_at(entry.trace.last()) == path
            &&& opened.trace == entry.trace
            &&& full ==> keeps(g, o, on_path.insert(node), opened)
            &&& !full ==> keeps(g, o, on_path.insert(node), entry)
            &&& full ==> is_list(g, o, entry.trace, g.edges[node as int], depth + 1, path)
        }),
{
    let deps = g.edges[node as int];
    assert(deps.len() <= usize::MAX);
    let (entry, opened) = opening(g, o, node, depth, path, on_path, p);
    let enter = entry.trace.last();
    let t1 = p.trace.push(enter);
    assert(entry.trace =~= t1);
    let placement = placement_of(g, o, node, depth, path, on_path, p.expanded);
    assert(placement == placement_after(g, o, p.trace, node, depth, path)) by {
        assert(on_path.contains(node) <==> inside(p.trace, node));
        if o.dedupe {
            assert(p.expanded.contains(node) <==> shown_before(g, o, p.trace, node));
        }
    }
    lemma_step(g, o, p.trace, enter);
    lemma_open(p.trace, enter);
    lemma_inside(p.trace, enter);
    lemma_shown(g, o, p.trace, enter);
    let inner = on_path.insert(node);
    assert forall|n: usize| #[trigger] inner.contains(n) <==> inside(t1, n) by {
        assert(on_path.contains(n) <==> inside(p.trace, n));
    }
    if o.dedupe {
        assert forall|n: usize| placement == Placement::Full implies (
        #[trigger] opened.expanded.contains(n) <==> shown_before(g, o, t1, n)) by {
            assert(p.expanded.contains(n) <==> shown_before(g, o, p.trace, n));
            assert(shown_before(g, o, t1, n) <==> shown_before(g, o, p.trace, n) || shows(
                g,
                o,
                enter,
                n,
            ));
        }
        assert forall|n: usize| placement != Placement::Full implies (
        #[trigger] entry.expanded.contains(n) <==> shown_before(g, o, t1, n)) by {
            assert(p.expanded.contains(n) <==> shown_before(g, o, p.trace, n));
            assert(shown_before(g, o, t1, n) <==> shown_before(g, o, p.trace, n) || shows(
                g,
                o,
                enter,
                n,
            ));
        }
    }
}

/// What a walk keeps true, it keeps true when it leaves a visit.
proof fn lemma_leaving_keeps(
    g: GraphView,
    o: Rules,
    node: usize,
    on_path: Set<usize>,
    p: Progress,
    enter: Step,
    below: Progress,
)
    requires
        keeps(g, o, on_path, p),
        keeps(g, o, on_path.insert(node), below),
        node_at(enter) == node,
        open_steps(below.trace) == open_steps(p.trace).push(enter),
    ensures
        keeps(
            g,
            o,
            on_path,
            Progress { trace: below.trace.push(Step::Leave { node }), ..below },
        ),
{
    let leave = Step::Leave { node };
    let t2 = below.trace;
    let q = Progress { trace: t2.push(leave), ..below };
    lemma_step(g, o, t2, leave);
    lemma_open(t2, leave);
    lemma_shown(g, o, t2, leave);
    assert(open_steps(q.trace) =~= open_steps(p.trace));
    lemma_inside_same(p.trace, q.trace);
    assert forall|n: usize| #[trigger] on_path.contains(n) <==> inside(q.trace, n) by {
        assert(inside(q.trace, n) <==> inside(p.trace, n));
    }
    if o.dedupe {
        assert forall|n: usize| #[trigger]
            q.expanded.contains(n) <==> shown_before(g, o, q.trace, n) by {
            assert(below.expanded.contains(n) <==> shown_before(g, o, t2, n));
            assert(shown_before(g, o, t2.push(leave), n) <==> shown_before(g, o, t2, n) || shows(
                g,
                o,
                leave,
                n,
            ));
        }
    }
}

proof fn lemma_visit_told(
    g: GraphView,
    o: Rules,
    node: usize,
    depth: int,
    path: Seq<usize>,
    on_path: Set<usize>,
    p: Progress,
)
    requires
        g.valid(),
        0 <= depth,
        keeps(g, o, on_path, p),
        is_slot(g, o, p.trace, node, depth, path),
        slots_below(p.trace, path.drop_last(), path.last() as int),
    ensures
        ({
            let q = walked(g, o, node, depth, path, on_path, p);
            &&& keeps(g, o, on_path, q)
            &&& adds(p.trace, q.trace, path.drop_last(), path.last() + 1)
        }),
    decreases room(depth), 0int,
{
    let q = walked(g, o, node, depth, path, on_path, p);
    if p.budget <= 0 || depth >= MAX_WALK_DEPTH || !o.includes(path) {
        assert(q.trace == p.trace);
        assert(p.trace.take(p.trace.len() as int) =~= p.trace);
    } else {
        let deps = g.edges[node as int];
        let (entry, opened) = opening(g, o, node, depth, path, on_path, p);
        let enter = entry.trace.last();
        let inner = on_path.insert(node);
        let full = placement_of(g, o, node, depth, path, on_path, p.expanded) == Placement::Full;
        lemma_opening_keeps(g, o, node, depth, path, on_path, p);
        lemma_nothing_below(p.trace, enter, path);
        let below = if full {
            walked_list(g, o, deps, deps.len() as int, depth + 1, path, inner, opened)
        } else {
            entry
        };
        if full {
            assert(deps.len() <= usize::MAX);
            assert forall|i: int| 0 <= i < deps.len() implies (#[trigger] deps[i]) < g.nodes.len() by {
                assert(g.edges[node as int][i] < g.nodes.len());
            }
            lemma_list_told(g, o, deps, deps.len() as int, depth + 1, path, inner, opened);
        } else {
            assert(entry.trace.take(entry.trace.len() as int) =~= entry.trace);
        }
        let leave = Step::Leave { node };
        lemma_visit_adds(p.trace, enter, below.trace, leave, path, deps.len() as int);
        lemma_leaving_keeps(g, o, node, on_path, p, enter, below);
        assert(q == Progress { trace: below.trace.push(leave), ..below });
    }
}

proof fn lemma_list_told(
    g: GraphView,
    o: Rules,
    list: Seq<usize>,
    n: int,
    depth: int,
    path: Seq<usize>,
    on_path: Set<usize>,
    p: Progress,
)
    requires
        g.valid(),
        0 <= depth,
        0 <= n <= list.len() <= usize::MAX,
        forall|i: int| 0 <= i < list.len() ==> (#[trigger] list[i]) < g.nodes.len(),
        keeps(g, o, on_path, p),
        is_list(g, o, p.trace, list, depth, path),
        slots_below(p.trace, path, 0),
    ensures
        ({
            let q = walked_list(g, o, list, n, depth, path, on_path, p);
            &&& keeps(g, o, on_path, q)
            &&& adds(p.trace, q.trace, path, n)
        }),
    decreases room(depth), n + 1,
{
    if n <= 0 {
        assert(p.trace.take(p.trace.len() as int) =~= p.trace);
    } else {
        let m = walked_list(g, o, list, n - 1, depth, path, on_path, p);
        lemma_list_told(g, o, list, n - 1, depth, path, on_path, p);
        let slot = (n - 1) as usize;
        let here = path.push(slot);
        assert(here.drop_last() =~= path);
        assert(is_list(g, o, m.trace, list, depth, path));
        assert(is_slot(g, o, m.trace, list[n - 1], depth, here));
        assert(slots_below(m.trace, path, n - 1)) by {
            assert forall|j: int|
                0 <= j < m.trace.len() && #[trigger] m.trace[j] is Enter && path_at(
                    m.trace[j],
                ).len() > path.len() && path_at(m.trace[j]).take(path.len() as int)
                    == path implies path_at(m.trace[j])[path.len() as int] < n - 1 by {
                if j < p.trace.len() {
                    assert(m.trace.take(p.trace.len() as int)[j] == p.trace[j]);
                    assert(p.trace[j] is Enter);
                }
            }
        }
        lemma_visit_told(g, o, list[n - 1], depth, here, on_path, m);
        let q = walked_list(g, o, list, n, depth, path, on_path, p);
        assert(q == walked(g, o, list[n - 1], depth, here, on_path, m));
        assert(q.trace.take(p.trace.len() as int) =~= p.trace) by {
            assert forall|k: int| 0 <= k < p.trace.len() implies q.trace[k] == p.trace[k] by {
                assert(q.trace.take(m.trace.len() as int)[k] == m.trace[k]);
                assert(m.trace.take(p.trace.len() as int)[k] == p.trace[k]);
            }
        }
        assert forall|j: int|
            p.trace.len() <= j < q.trace.len() && #[trigger] q.trace[j] is Enter implies path_at(
            q.trace[j],
        ).len() > path.len() && path_at(q.trace[j]).take(path.len() as int) == path && path_at(
            q.trace[j],
        )[path.len() as int] < n by {
            if j < m.trace.len() {
                assert(q.trace.take(m.trace.len() as int)[j] == m.trace[j]);
                assert(m.trace[j] is Enter);
            }
        }
    }
}

proof fn lemma_forest_told(g: GraphView, o: Rules)
    requires
        g.valid(),
    ensures
        all_nest(g, o, forest(g, o, seq![]).trace),
        all_placed(g, o, forest(g, o, seq![]).trace),
        open_steps(forest(g, o, seq![]).trace).len() == 0,
{
    let p = start(o, seq![]);
    assert(open_steps(p.trace) =~= seq![]);
    lemma_list_told(g, o, g.roots, g.roots.len() as int, 0, o.prefix, Set::empty(), p);
}

/// A walk's calls nest like brackets, whether it is truncated or not: every leave is that
/// of the visit the walk is in, and at the end it is in none. A visit at the top has depth
/// 0, the prefix and its slot for a path, and the root in that slot for a node; a visit
/// below another has that shown in full, is one deeper, and has its path with the slot and
/// the dependency in that slot. Slots ascend, and the degree is the number of
/// dependencies.
pub proof fn law_walk_nests(g: GraphView, o: Rules)
    requires
        g.valid(),
    ensures
        all_nest(g, o, forest(g, o, seq![]).trace),
        open_steps(forest(g, o, seq![]).trace).len() == 0,
{
    lemma_forest_told(g, o);
}

/// Every visit of a walk is placed by the first reason that applies after what
/// was told before it.
pub proof fn law_walk_places(g: GraphView, o: Rules)
    requires
        g.valid(),
    ensures
        all_placed(g, o, forest(g, o, seq![]).trace),
{
    lemma_forest_told(g, o);
}

/// A walk that has been told something before goes on as one that has not.
spec fn after(t: Seq<Step>, p: Progress) -> Progress {
    Progress { trace: t + p.trace, ..p }
}

proof fn lemma_visit_appends(
    g: GraphView,
    o: Rules,
    node: usize,
    depth: int,
    path: Seq<usize>,
    on_path: Set<usize>,
    p: Progress,
    t: Seq<Step>,
)
    ensures
        walked(g, o, node, depth, path, on_path, after(t, p)) == after(
            t,
            walked(g, o, node, depth, path, on_path, p),
        ),
    decreases room(depth), 0int,
{
    if p.budget <= 0 || depth >= MAX_WALK_DEPTH || !o.includes(path) {
    } else {
        let deps = g.edges[node as int];
        let (entry, opened) = opening(g, o, node, depth, path, on_path, p);
        let (entry2, opened2) = opening(g, o, node, depth, path, on_path, after(t, p));
        assert(entry2.trace =~= t + entry.trace);
        assert(opened2 == after(t, opened));
        let inner = on_path.insert(node);
        lemma_list_appends(g, o, deps, deps.len() as int, depth + 1, path, inner, opened, t);
        let below = if placement_of(g, o, node, depth, path, on_path, p.expanded)
            == Placement::Full {
            walked_list(g, o, deps, deps.len() as int, depth + 1, path, inner, opened)
        } else {
            entry
        };
        let leave = Step::Leave { node };
        assert((t + below.trace).push(leave) =~= t + below.trace.push(leave));
    }
}

proof fn lemma_list_appends(
    g: GraphView,
    o: Rules,
    list: Seq<usize>,
    n: int,
    depth: int,
    path: Seq<usize>,
    on_path: Set<usize>,
    p: Progress,
    t: Seq<Step>,
)
    ensures
        walked_list(g, o, list, n, depth, path, on_path, after(t, p)) == after(
            t,
            walked_list(g, o, list, n, depth, path, on_path, p),
        ),
    decreases room(depth), n + 1,
{
    if n > 0 {
        lemma_list_appends(g, o, list, n - 1, depth, path, on_path, p, t);
        lemma_visit_appends(
            g,
            o,
            list[n - 1],
            depth,
            path.push((n - 1) as usize),
            on_path,
            walked_list(g, o, list, n - 1, depth, path, on_path, p),
            t,
        );
    }
}

/// What a walk tells does not depend on what its visitor was told before: it comes after
/// that.
pub proof fn law_walk_appends(g: GraphView, o: Rules, trace: Seq<Step>)
    ensures
        forest(g, o, trace).trace == trace + forest(g, o, seq![]).trace,
        forest(g, o, trace).visits == forest(g, o, seq![]).visits,
        forest(g, o, trace).truncated == forest(g, o, seq![]).truncated,
{
    let p = start(o, seq![]);
    assert(trace + seq![] =~= trace);
    lemma_list_appends(g, o, g.roots, g.roots.len() as int, 0, o.prefix, Set::empty(), p, trace);
}

proof fn lemma_visit_grows(
    g: GraphView,
    o: Rules,
    node: usize,
    depth: int,
    path: Seq<usize>,
    on_path: Set<usize>,
    p: Progress,
)
    ensures
        ({
            let q = walked(g, o, node, depth, path, on_path, p);
            &&& p.trace.len() <= q.trace.len()
            &&& q.trace.take(p.trace.len() as int) == p.trace
            &&& p.truncated ==> q.truncated
            &&& p.budget >= 0 ==> 0 <= q.budget <= p.budget
        }),
    decreases room(depth), 0int,
{
    assert(p.trace.take(p.trace.len() as int) =~= p.trace);
    if p.budget <= 0 || depth >= MAX_WALK_DEPTH || !o.includes(path) {
    } else {
        let deps = g.edges[node as int];
        let (entry, opened) = opening(g, o, node, depth, path, on_path, p);
        let inner = on_path.insert(node);
        lemma_list_grows(g, o, deps, deps.len() as int, depth + 1, path, inner, opened);
        let q = walked(g, o, node, depth, path, on_path, p);
        assert(entry.trace.take(entry.trace.len() as int) =~= entry.trace);
        let below = if placement_of(g, o, node, depth, path, on_path, p.expanded)
            == Placement::Full {
            walked_list(g, o, deps, deps.len() as int, depth + 1, path, inner, opened)
        } else {
            entry
        };
        assert(q.trace == below.trace.push(Step::Leave { node }));
        assert(q.trace.take(p.trace.len() as int) =~= p.trace) by {
            assert forall|k: int| 0 <= k < p.trace.len() implies q.trace[k] == p.trace[k] by {
                assert(below.trace.take(entry.trace.len() as int)[k] == entry.trace[k]);
            }
        }
    }
}

proof fn lemma_list_grows(
    g: GraphView,
    o: Rules,
    list: Seq<usize>,
    n: int,
    depth: int,
    path: Seq<usize>,
    on_path: Set<usize>,
    p: Progress,
)
    ensures
        ({
            let q = walked_list(g, o, list, n, depth, path, on_path, p);
            &&& p.trace.len() <= q.trace.len()
            &&& q.trace.take(p.trace.len() as int) == p.trace
            &&& p.truncated ==> q.truncated
            &&& p.budget >= 0 ==> 0 <= q.budget <= p.budget
        }),
    decreases room(depth), n + 1,
{
    assert(p.trace.take(p.trace.len() as int) =~= p.trace);
    if n > 0 {
        let m = walked_list(g, o, list, n - 1, depth, path, on_path, p);
        lemma_list_grows(g, o, list, n - 1, depth, path, on_path, p);
        lemma_visit_grows(g, o, list[n - 1], depth, path.push((n - 1) as usize), on_path, m);
        let q = walked_list(g, o, list, n, depth, path, on_path, p);
        assert(q.trace.take(p.trace.len() as int) =~= p.trace) by {
            assert forall|k: int| 0 <= k < p.trace.len() implies q.trace[k] == p.trace[k] by {
                assert(q.trace.take(m.trace.len() as int)[k] == m.trace[k]);
                assert(m.trace.take(p.trace.len() as int)[k] == p.trace[k]);
            }
        }
    }
}

/// Whether a path is visited at a step or later.
pub open spec fn visited(trace: Seq<Step>, from: int, path: Seq<usize>) -> bool {
    exists|j: int|
        from <= j < trace.len() && #[trigger] trace[j] is Enter && path_at(trace[j]) == path
}

/// Whether every slot of a list that is not left out is visited at a step or later.
pub open spec fn all_visited(
    o: Rules,
    trace: Seq<Step>,
    from: int,
    path: Seq<usize>,
    slots: int,
) -> bool {
    forall|s: int|
        0 <= s < slots && o.includes(#[trigger] path.push(s as usize)) ==> visited(
            trace,
            from,
            path.push(s as usize),
        )
}

/// Whether every dependency slot of every visit shown in full, from a step on, is visited
/// after it unless it is left out.
pub open spec fn all_complete(g: GraphView, o: Rules, trace: Seq<Step>, from: int) -> bool {
    forall|i: int|
        from <= i < trace.len() ==> (#[trigger] trace[i] matches Step::Enter {
            path,
            node,
            placement,
            ..
        } ==> placement == Placement::Full ==> all_visited(
            o,
            trace,
            i,
            path,
            g.edges[node as int].len() as int,
        ))
}

proof fn lemma_visited_longer(t: Seq<Step>, u: Seq<Step>, from: int, to: int, path: Seq<usize>)
    requires
        visited(t, from, path),
        0 <= to <= from,
        t.len() <= u.len(),
        u.take(t.len() as int) == t,
    ensures
        visited(u, to, path),
{
    let j = choose|j: int|
        from <= j < t.len() && #[trigger] t[j] is Enter && path_at(t[j]) == path;
    assert(u.take(t.len() as int)[j] == u[j]);
}

proof fn lemma_complete_longer(g: GraphView, o: Rules, t: Seq<Step>, u: Seq<Step>, from: int)
    requires
        0 <= from <= t.len() <= u.len(),
        u.take(t.len() as int) == t,
        all_complete(g, o, t, from),
    ensures
        forall|i: int|
            from <= i < t.len() ==> (#[trigger] u[i] matches Step::Enter {
                path,
                node,
                placement,
                ..
            } ==> placement == Placement::Full ==> all_visited(
                o,
                u,
                i,
                path,
                g.edges[node as int].len() as int,
            )),
{
    assert forall|i: int| from <= i < t.len() implies (#[trigger] u[i] matches Step::Enter {
        path,
        node,
        placement,
        ..
    } ==> placement == Placement::Full ==> all_visited(
        o,
        u,
        i,
        path,
        g.edges[node as int].len() as int,
    )) by {
        assert(u.take(t.len() as int)[i] == t[i]);
        if let Step::Enter { path, node, placement, .. } = u[i] {
            if placement == Placement::Full {
                let slots = g.edges[node as int].len() as int;
                assert(all_visited(o, t, i, path, slots));
                assert forall|s: int|
                    0 <= s < slots && o.includes(#[trigger] path.push(s as usize)) implies visited(
                    u,
                    i,
                    path.push(s as usize),
                ) by {
                    lemma_visited_longer(t, u, i, i, path.push(s as usize));
                }
            }
        }
    }
}

proof fn lemma_visit_complete(
    g: GraphView,
    o: Rules,
    node: usize,
    depth: int,
    path: Seq<usize>,
    on_path: Set<usize>,
    p: Progress,
)
    requires
        !walked(g, o, node, depth, path, on_path, p).truncated,
    ensures
        ({
            let q = walked(g, o, node, depth, path, on_path, p);
            &&& all_complete(g, o, q.trace, p.trace.len() as int)
            &&& o.includes(path) ==> visited(q.trace, p.trace.len() as int, path)
        }),
    decreases room(depth), 0int,
{
    if p.budget <= 0 || depth >= MAX_WALK_DEPTH || !o.includes(path) {
    } else {
        let deps = g.edges[node as int];
        let (entry, opened) = opening(g, o, node, depth, path, on_path, p);
        let inner = on_path.insert(node);
        let full = placement_of(g, o, node, depth, path, on_path, p.expanded) == Placement::Full;
        let below = if full {
            walked_list(g, o, deps, deps.len() as int, depth + 1, path, inner, opened)
        } else {
            entry
        };
        let q = walked(g, o, node, depth, path, on_path, p);
        let from = p.trace.len() as int;
        let t = below.trace;
        assert(q.trace == t.push(Step::Leave { node }));
        assert(q.trace.take(t.len() as int) =~= t);
        assert(entry.trace.take(entry.trace.len() as int) =~= entry.trace);
        if full {
            lemma_list_grows(g, o, deps, deps.len() as int, depth + 1, path, inner, opened);
            lemma_list_complete(g, o, deps, deps.len() as int, depth + 1, path, inner, opened);
            lemma_complete_longer(g, o, t, q.trace, from + 1);
        }
        assert(t.take(entry.trace.len() as int)[from] == entry.trace[from]);
        assert(q.trace[from] == entry.trace[from]);
        assert forall|i: int| from <= i < q.trace.len() implies (
        #[trigger] q.trace[i] matches Step::Enter { path: r, node: n, placement, .. }
            ==> placement == Placement::Full ==> all_visited(
            o,
            q.trace,
            i,
            r,
            g.edges[n as int].len() as int,
        )) by {
            if i == from && full {
                assert forall|s: int|
                    0 <= s < deps.len() && o.includes(#[trigger] path.push(s as usize)) implies visited(
                    q.trace,
                    from,
                    path.push(s as usize),
                ) by {
                    assert(visited(t, from + 1, path.push(s as usize)));
                    lemma_visited_longer(t, q.trace, from + 1, from, path.push(s as usize));
                }
            }
        }
    }
}

proof fn lemma_list_complete(
    g: GraphView,
    o: Rules,
    list: Seq<usize>,
    n: int,
    depth: int,
    path: Seq<usize>,
    on_path: Set<usize>,
    p: Progress,
)
    requires
        !walked_list(g, o, list, n, depth, path, on_path, p).truncated,
    ensures
        ({
            let q = walked_list(g, o, list, n, depth, path, on_path, p);
            &&& all_complete(g, o, q.trace, p.trace.len() as int)
            &&& all_visited(o, q.trace, p.trace.len() as int, path, n)
        }),
    decreases room(depth), n + 1,
{
    if n > 0 {
        let from = p.trace.len() as int;
        let m = walked_list(g, o, list, n - 1, depth, path, on_path, p);
        let here = path.push((n - 1) as usize);
        let q = walked_list(g, o, list, n, depth, path, on_path, p);
        lemma_visit_grows(g, o, list[n - 1], depth, here, on_path, m);
        lemma_list_grows(g, o, list, n - 1, depth, path, on_path, p);
        lemma_list_complete(g, o, list, n - 1, depth, path, on_path, p);
        lemma_visit_complete(g, o, list[n - 1], depth, here, on_path, m);
        lemma_complete_longer(g, o, m.trace, q.trace, from);
        assert(all_complete(g, o, q.trace, from)) by {
            assert forall|i: int| from <= i < q.trace.len() implies (
            #[trigger] q.trace[i] matches Step::Enter { path: r, node: u, placement, .. }
                ==> placement == Placement::Full ==> all_visited(
                o,
                q.trace,
                i,
                r,
                g.edges[u as int].len() as int,
            )) by {}
        }
        assert forall|s: int|
            0 <= s < n && o.includes(#[trigger] path.push(s as usize)) implies visited(
            q.trace,
            from,
            path.push(s as usize),
        ) by {
            if s < n - 1 {
                lemma_visited_longer(m.trace, q.trace, from, from, path.push(s as usize));
            } else {
                assert(q.trace.take(q.trace.len() as int) =~= q.trace);
                lemma_visited_longer(q.trace, q.trace, m.trace.len() as int, from, here);
            }
        }
    }
}

/// A walk that is not truncated visits every root slot, and every dependency slot of every
/// visit it shows in full, unless it is left out.
pub proof fn law_walk_is_complete(g: GraphView, o: Rules)
    requires
        !forest(g, o, seq![]).truncated,
    ensures
        all_visited(o, forest(g, o, seq![]).trace, 0, o.prefix, g.roots.len() as int),
        all_complete(g, o, forest(g, o, seq![]).trace, 0),
{
    let p = start(o, seq![]);
    lemma_list_complete(g, o, g.roots, g.roots.len() as int, 0, o.prefix, Set::empty(), p);
}

/// Whether a visit with dependencies is shown in full as deep as a walk goes.
pub open spec fn met_ceiling(trace: Seq<Step>) -> bool {
    exists|i: int| 0 <= i < trace.len() && #[trigger] is_ceiling(trace[i])
}

/// Whether a step is such a visit.
pub open spec fn is_ceiling(s: Step) -> bool {
    s matches Step::Enter { depth, placement, degree, .. } && placement == Placement::Full && depth
        == MAX_WALK_DEPTH - 1 && degree > 0
}

proof fn lemma_ceiling_longer(t: Seq<Step>, u: Seq<Step>)
    requires
        met_ceiling(t),
        t.len() <= u.len(),
        u.take(t.len() as int) == t,
    ensures
        met_ceiling(u),
{
    let i = choose|i: int| 0 <= i < t.len() && #[trigger] is_ceiling(t[i]);
    assert(u.take(t.len() as int)[i] == u[i]);
}

proof fn lemma_visit_truncated(
    g: GraphView,
    o: Rules,
    node: usize,
    depth: int,
    path: Seq<usize>,
    on_path: Set<usize>,
    p: Progress,
)
    requires
        g.valid(),
        node < g.nodes.len(),
        0 <= depth,
        p.budget >= 0,
    ensures
        ({
            let q = walked(g, o, node, depth, path, on_path, p);
            q.truncated ==> p.truncated || q.budget == 0 || depth >= MAX_WALK_DEPTH || met_ceiling(
                q.trace,
            )
        }),
    decreases room(depth), 0int,
{
    if p.budget <= 0 || depth >= MAX_WALK_DEPTH || !o.includes(path) {
    } else {
        let deps = g.edges[node as int];
        let (entry, opened) = opening(g, o, node, depth, path, on_path, p);
        let inner = on_path.insert(node);
        let full = placement_of(g, o, node, depth, path, on_path, p.expanded) == Placement::Full;
        let q = walked(g, o, node, depth, path, on_path, p);
        if full {
            let below = walked_list(g, o, deps, deps.len() as int, depth + 1, path, inner, opened);
            lemma_list_grows(g, o, deps, deps.len() as int, depth + 1, path, inner, opened);
            assert forall|i: int| 0 <= i < deps.len() implies (#[trigger] deps[i]) < g.nodes.len() by {
                assert(g.edges[node as int][i] < g.nodes.len());
            }
            lemma_list_truncated(g, o, deps, deps.len() as int, depth + 1, path, inner, opened);
            assert(q.trace == below.trace.push(Step::Leave { node }));
            assert(q.trace.take(below.trace.len() as int) =~= below.trace);
            if depth + 1 >= MAX_WALK_DEPTH && deps.len() > 0 {
                assert(deps.len() <= usize::MAX);
                let from = p.trace.len() as int;
                assert(is_ceiling(entry.trace[from]));
                assert(met_ceiling(entry.trace));
                lemma_ceiling_longer(entry.trace, below.trace);
            }
            if met_ceiling(below.trace) {
                lemma_ceiling_longer(below.trace, q.trace);
            }
        }
    }
}

proof fn lemma_list_truncated(
    g: GraphView,
    o: Rules,
    list: Seq<usize>,
    n: int,
    depth: int,
    path: Seq<usize>,
    on_path: Set<usize>,
    p: Progress,
)
    requires
        g.valid(),
        n <= list.len(),
        forall|i: int| 0 <= i < list.len() ==> (#[trigger] list[i]) < g.nodes.len(),
        0 <= depth,
        p.budget >= 0,
    ensures
        ({
            let q = walked_list(g, o, list, n, depth, path, on_path, p);
            q.truncated ==> p.truncated || q.budget == 0 || (n > 0 && depth >= MAX_WALK_DEPTH)
                || met_ceiling(q.trace)
        }),
    decreases room(depth), n + 1,
{
    if n > 0 {
        let m = walked_list(g, o, list, n - 1, depth, path, on_path, p);
        let here = path.push((n - 1) as usize);
        let q = walked_list(g, o, list, n, depth, path, on_path, p);
        lemma_list_grows(g, o, list, n - 1, depth, path, on_path, p);
        lemma_visit_grows(g, o, list[n - 1], depth, here, on_path, m);
        lemma_list_truncated(g, o, list, n - 1, depth, path, on_path, p);
        lemma_visit_truncated(g, o, list[n - 1], depth, here, on_path, m);
        if met_ceiling(m.trace) {
            lemma_ceiling_longer(m.trace, q.trace);
        }
    }
}

/// A walk is truncated only where it has used up its budget, or has shown a visit with
/// dependencies in full as deep as it goes: a cycle alone never truncates it.
pub proof fn law_why_truncated(g: GraphView, o: Rules)
    requires
        g.valid(),
    ensures
        forest(g, o, seq![]).truncated ==> forest(g, o, seq![]).visits == o.budget || met_ceiling(
            forest(g, o, seq![]).trace,
        ),
{
    let p = start(o, seq![]);
    lemma_list_truncated(g, o, g.roots, g.roots.len() as int, 0, o.prefix, Set::empty(), p);
    lemma_list_counts(g, o, g.roots, g.roots.len() as int, 0, o.prefix, Set::empty(), p);
}

} // verus!
