use dependable_core::graph::{Event, Listed, Recorder, WalkOptions, WalkStats};
use dependable_core::{DependencyGraph, LockedPackage, Placement, ResolvedLockfile, TreeOptions};

fn graph(edges: &[(&str, &[&str])], roots: &[&str]) -> DependencyGraph {
    let packages = edges
        .iter()
        .map(|(name, deps)| {
            LockedPackage::new(
                (*name).to_owned(),
                "1.0.0".to_owned(),
                None,
                deps.iter().map(|d| (*d).to_owned()).collect(),
            )
        })
        .collect();
    let roots: Vec<String> = roots.iter().map(|r| (*r).to_owned()).collect();
    DependencyGraph::from_resolved(&ResolvedLockfile::from_packages(packages), &[], &roots)
}

fn walk(g: &DependencyGraph, options: &WalkOptions<'_>) -> (Vec<Event>, WalkStats) {
    let mut recorder = Recorder::new();
    let stats = g.walk(options, &mut recorder);
    (recorder.events, stats)
}

fn entered(events: &[Event]) -> Vec<(Vec<usize>, usize, Placement)> {
    let mut out = Vec::new();
    for event in events {
        if let Event::Enter { path, node, placement, .. } = event {
            out.push((path.clone(), *node, *placement));
        }
    }
    out
}

#[test]
fn every_node_entered_is_left() {
    let g = graph(&[("a", &["b", "c"]), ("b", &["d"]), ("c", &["d", "a"]), ("d", &[])], &["a"]);
    let (events, stats) = walk(&g, &WalkOptions::default());
    let mut open: Vec<(usize, Vec<usize>)> = Vec::new();
    for event in &events {
        match event {
            Event::Enter { path, depth, node, degree, .. } => {
                assert_eq!(path.len(), depth + 1);
                assert_eq!(*depth, open.len());
                assert_eq!(*degree, g.deps_of(*node).len());
                let slot = path[path.len() - 1];
                match open.last() {
                    Some((parent, above)) => {
                        assert_eq!(path[..path.len() - 1], above[..]);
                        assert_eq!(g.deps_of(*parent)[slot], *node);
                    }
                    None => assert_eq!(g.roots()[slot], *node),
                }
                open.push((*node, path.clone()));
            }
            Event::Leave { node } => assert_eq!(open.pop().map(|o| o.0), Some(*node)),
        }
    }
    assert!(open.is_empty());
    assert_eq!(stats.visits, events.len() / 2);
    assert!(!stats.truncated);
}

#[test]
fn each_visit_says_why_it_is_not_expanded() {
    let g = graph(
        &[("a", &["b", "c", "r"]), ("b", &["a", "d"]), ("c", &["d"]), ("d", &["e"]), ("e", &[]), ("r", &["e"])],
        &["a", "r"],
    );
    let (events, _) = walk(&g, &WalkOptions::default());
    assert_eq!(
        entered(&events),
        vec![
            (vec![0], 0, Placement::Full),
            (vec![0, 0], 1, Placement::Full),
            (vec![0, 0, 0], 0, Placement::Cycle),
            (vec![0, 0, 1], 3, Placement::Full),
            (vec![0, 0, 1, 0], 4, Placement::Full),
            (vec![0, 1], 2, Placement::Full),
            (vec![0, 1, 0], 3, Placement::Repeat),
            (vec![0, 2], 5, Placement::Root { root: 1 }),
            (vec![1], 5, Placement::Full),
            (vec![1, 0], 4, Placement::Repeat),
        ]
    );
    let mut shallow = WalkOptions::default();
    shallow.max_depth = Some(0);
    let (events, stats) = walk(&g, &shallow);
    assert_eq!(entered(&events)[0], (vec![0], 0, Placement::Depth));
    assert_eq!(stats, WalkStats { visits: 2, truncated: false });
}

#[test]
fn a_walk_is_complete_or_says_it_is_not() {
    let g = graph(&[("a", &["b", "c"]), ("b", &[]), ("c", &[])], &["a"]);
    let mut budget = WalkOptions::default();
    budget.max_visits = Some(2);
    let (events, stats) = walk(&g, &budget);
    assert_eq!(stats, WalkStats { visits: 2, truncated: true });
    assert_eq!(entered(&events).len(), 2);
    budget.max_visits = Some(3);
    let (events, stats) = walk(&g, &budget);
    assert_eq!(stats, WalkStats { visits: 3, truncated: false });
    let paths: Vec<Vec<usize>> = entered(&events).into_iter().map(|e| e.0).collect();
    assert_eq!(paths, vec![vec![0], vec![0, 0], vec![0, 1]]);
}

#[test]
fn a_walk_goes_on_from_what_was_recorded() {
    let g = graph(&[("a", &["b"]), ("b", &[])], &["a"]);
    let mut recorder = Recorder::new();
    g.walk(&WalkOptions::default(), &mut recorder);
    let once = recorder.events.clone();
    g.walk(&WalkOptions::default(), &mut recorder);
    assert_eq!(recorder.events.len(), 2 * once.len());
    assert_eq!(recorder.events[once.len()..], once[..]);
}

#[test]
fn a_predicate_leaves_a_node_out_or_closed() {
    let g = graph(&[("a", &["b", "c"]), ("b", &["d"]), ("c", &[]), ("d", &[])], &["a"]);
    let closed = Listed { paths: vec![vec![0, 0]], answer: false };
    let mut expand = WalkOptions::default();
    expand.expand = Some(&closed);
    let (events, stats) = walk(&g, &expand);
    assert_eq!(stats.visits, 3);
    assert_eq!(entered(&events)[1].2, Placement::Collapsed);
    let mut shown = WalkOptions::default();
    shown.include_node = Some(&closed);
    let (events, stats) = walk(&g, &shown);
    assert_eq!(stats.visits, 2);
    assert_eq!(entered(&events)[1].0, vec![0, 1]);
    let only = Listed { paths: vec![vec![0]], answer: true };
    shown.include_node = Some(&only);
    assert_eq!(walk(&g, &shown).1.visits, 1);
    assert_eq!(walk(&g, &WalkOptions::default()).1.visits, 4);
}

#[test]
fn inverting_twice_gives_the_edges_back() {
    let g = graph(&[("a", &["b", "c"]), ("b", &["c"]), ("c", &[])], &["a"]);
    let twice = g.inverted().inverted();
    for node in 0..g.nodes().len() {
        let mut before = g.deps_of(node).to_vec();
        let mut after = twice.deps_of(node).to_vec();
        before.sort();
        after.sort();
        assert_eq!(before, after);
    }
    assert_eq!(g.inverted().deps_of(2).len(), 2);
}

#[test]
fn a_cycle_is_cut() {
    let g = graph(&[("a", &["b"]), ("b", &["a"])], &["a"]);
    let mut options = TreeOptions::default();
    options.dedupe = false;
    options.collapse_roots = false;
    let tree = g.tree(&options);
    assert_eq!(tree.roots[0].children[0].children[0].placement, Placement::Cycle);
    assert!(tree.roots[0].children[0].children[0].children.is_empty());
}

#[test]
fn a_dependency_named_twice_is_one_edge() {
    let g = graph(&[("a", &["b", "c", "b", "b 1.0.0"]), ("b", &[]), ("c", &[])], &["a"]);
    assert_eq!(g.deps_of(0), [1, 2]);
}
