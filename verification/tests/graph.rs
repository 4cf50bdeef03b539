use dependable_core::graph::{
    DependencyGraph, NodeKind, Placement, Recorder, Tree, TreeNode, TreeOptions,
};
use dependable_core::graph::walk::MAX_WALK_DEPTH;
use dependable_core::{
    parse_cargo_lock_graph, LockedPackage, ResolvedLockfile, WalkOptions,
};

fn package(name: &str, dependencies: Vec<String>) -> LockedPackage {
    LockedPackage::new(
        name.to_owned(),
        "1.0.0".to_owned(),
        Some("registry+https://x".to_owned()),
        dependencies,
    )
}

fn graph(packages: Vec<LockedPackage>, root: &str) -> DependencyGraph {
    let resolved = ResolvedLockfile::from_packages(packages);
    DependencyGraph::from_resolved(&resolved, &[], &[root.to_owned()])
}

fn names(set: &[&str]) -> Vec<String> {
    set.iter().map(|s| (*s).to_owned()).collect()
}

fn flatten_node<'a>(
    g: &'a DependencyGraph,
    n: &TreeNode,
    out: &mut Vec<(&'a str, &'a str, bool)>,
) {
    let node = &g.nodes()[n.node];
    out.push((&node.name, &node.version, n.deduped()));
    for c in &n.children {
        flatten_node(g, c, out);
    }
}

fn flatten<'a>(g: &'a DependencyGraph, t: &Tree) -> Vec<(&'a str, &'a str, bool)> {
    let mut out = Vec::new();
    for r in &t.roots {
        flatten_node(g, r, &mut out);
    }
    out
}

#[test]
fn classifies_workspace_registry_git_and_path() {
    let lock = r#"
[[package]]
name = "app"
version = "0.1.0"
dependencies = ["lib", "serde", "gitdep", "localdep"]

[[package]]
name = "lib"
version = "0.1.0"

[[package]]
name = "serde"
version = "1.0.0"
source = "registry+https://github.com/rust-lang/crates.io-index"

[[package]]
name = "gitdep"
version = "0.1.0"
source = "git+https://example.com/g#abc"

[[package]]
name = "localdep"
version = "0.1.0"
"#;
    let resolved = parse_cargo_lock_graph(lock).unwrap();
    let g = DependencyGraph::from_resolved(&resolved, &names(&["app", "lib"]), &["app".into()]);
    let kind = |name: &str| g.nodes().iter().find(|n| n.name == name).unwrap().kind;
    assert_eq!(kind("app"), NodeKind::Workspace);
    assert_eq!(kind("lib"), NodeKind::Workspace);
    assert_eq!(kind("serde"), NodeKind::Registry);
    assert_eq!(kind("gitdep"), NodeKind::Git);
    assert_eq!(kind("localdep"), NodeKind::Path);
}

#[test]
fn a_registry_crate_sharing_a_member_name_is_not_a_member() {

    let lock = r#"
[[package]]
name = "a"
version = "0.1.0"
dependencies = ["b 9.0.0"]

[[package]]
name = "b"
version = "0.1.0"

[[package]]
name = "b"
version = "9.0.0"
source = "registry+https://github.com/rust-lang/crates.io-index"
"#;
    let resolved = parse_cargo_lock_graph(lock).unwrap();
    let g = DependencyGraph::from_resolved(&resolved, &names(&["a", "b"]), &["a".into()]);
    let kind_at = |version: &str| {
        g.nodes()
            .iter()
            .find(|n| n.name == "b" && n.version == version)
            .unwrap()
            .kind
    };
    assert_eq!(kind_at("0.1.0"), NodeKind::Workspace, "the member");
    assert_eq!(kind_at("9.0.0"), NodeKind::Registry, "the namesake");
}

#[test]
fn a_member_namesake_from_the_registry_is_not_a_root() {
    let lock = r#"
[[package]]
name = "a"
version = "0.1.0"
dependencies = ["b 9.0.0"]

[[package]]
name = "b"
version = "0.1.0"

[[package]]
name = "b"
version = "9.0.0"
source = "registry+https://github.com/rust-lang/crates.io-index"
"#;
    let resolved = parse_cargo_lock_graph(lock).unwrap();
    let g = DependencyGraph::from_resolved(
        &resolved,
        &names(&["a", "b"]),
        &["a".into(), "b".into()],
    );
    let roots: Vec<(&str, &str)> = g
        .roots()
        .iter()
        .map(|&i| (g.nodes()[i].name.as_str(), g.nodes()[i].version.as_str()))
        .collect();
    assert_eq!(
        roots,
        vec![("a", "0.1.0"), ("b", "0.1.0")],
        "asking for member `b` must not also root its registry namesake"
    );
    assert_eq!(g.root_slot(g.roots()[1]), Some(1));
}

#[test]
fn a_root_name_matching_no_member_keeps_every_version() {

    let lock = r#"
[[package]]
name = "app"
version = "0.1.0"
dependencies = ["dep 1.0.0", "dep 2.0.0"]

[[package]]
name = "dep"
version = "1.0.0"
source = "registry+https://x"

[[package]]
name = "dep"
version = "2.0.0"
source = "registry+https://x"
"#;
    let resolved = parse_cargo_lock_graph(lock).unwrap();
    let g = DependencyGraph::from_resolved(&resolved, &names(&["app"]), &["dep".into()]);
    assert_eq!(g.roots().len(), 2);
}

#[test]
fn forward_tree_has_expected_shape() {
    let lock = r#"
[[package]]
name = "app"
version = "0.1.0"
dependencies = ["lib"]

[[package]]
name = "lib"
version = "0.1.0"
dependencies = ["serde"]

[[package]]
name = "serde"
version = "1.0.0"
source = "registry+https://github.com/rust-lang/crates.io-index"
"#;
    let resolved = parse_cargo_lock_graph(lock).unwrap();
    let g = DependencyGraph::from_resolved(&resolved, &names(&["app", "lib"]), &["app".into()]);
    let tree = g.tree(&TreeOptions::default());
    assert_eq!(
        flatten(&g, &tree),
        vec![
            ("app", "0.1.0", false),
            ("lib", "0.1.0", false),
            ("serde", "1.0.0", false),
        ]
    );
}

#[test]
fn diamond_dedupes_second_appearance() {
    let lock = r#"
[[package]]
name = "app"
version = "0.1.0"
dependencies = ["b", "c"]

[[package]]
name = "b"
version = "0.1.0"
source = "registry+https://x"
dependencies = ["d"]

[[package]]
name = "c"
version = "0.1.0"
source = "registry+https://x"
dependencies = ["d"]

[[package]]
name = "d"
version = "0.1.0"
source = "registry+https://x"
"#;
    let resolved = parse_cargo_lock_graph(lock).unwrap();
    let g = DependencyGraph::from_resolved(&resolved, &names(&["app"]), &["app".into()]);
    let flat = flatten(&g, &g.tree(&TreeOptions::default()));

    let d_full = flat.iter().filter(|(n, _, ded)| *n == "d" && !ded).count();
    let d_dedup = flat.iter().filter(|(n, _, ded)| *n == "d" && *ded).count();
    assert_eq!(d_full, 1);
    assert_eq!(d_dedup, 1);

    let no_dedupe = TreeOptions {
        max_depth: None,
        dedupe: false,
        ..TreeOptions::default()
    };
    let flat2 = flatten(&g, &g.tree(&no_dedupe));
    assert_eq!(
        flat2.iter().filter(|(n, _, ded)| *n == "d" && !ded).count(),
        2
    );
}

fn under_root<'a>(g: &DependencyGraph, t: &'a Tree, root: &str, name: &str) -> &'a TreeNode {
    let entry = t
        .roots
        .iter()
        .find(|r| g.nodes()[r.node].name == root)
        .expect("root entry");
    entry
        .children
        .iter()
        .find(|c| g.nodes()[c.node].name == name)
        .expect("child")
}

#[test]
fn a_member_reached_under_another_member_points_at_its_own_root() {
    let lock = r#"
[[package]]
name = "a"
version = "0.1.0"
dependencies = ["b"]

[[package]]
name = "b"
version = "0.1.0"
dependencies = ["serde"]

[[package]]
name = "serde"
version = "1.0.0"
source = "registry+https://x"
"#;
    let resolved = parse_cargo_lock_graph(lock).unwrap();
    let g = DependencyGraph::from_resolved(
        &resolved,
        &names(&["a", "b"]),
        &["a".into(), "b".into()],
    );
    let tree = g.tree(&TreeOptions::default());

    let b_under_a = under_root(&g, &tree, "a", "b");
    assert_eq!(
        b_under_a.placement,
        Placement::Root { root: 1 },
        "`b` has a tree of its own, so here it is a pointer at it"
    );
    assert!(b_under_a.children.is_empty(), "and carries no copy of it");
    assert!(
        !b_under_a.deduped(),
        "a pointer is not the `(*)` repeat marker"
    );

    let b_root = &tree.roots[1];
    assert_eq!(g.nodes()[b_root.node].name, "b");
    assert_eq!(b_root.placement, Placement::Full);
    assert_eq!(
        flatten(
            &g,
            &Tree {
                roots: vec![b_root.clone()],
                truncated: false,
            }
        ),
        vec![("b", "0.1.0", false), ("serde", "1.0.0", false)],
    );
}

#[test]
fn a_member_with_no_dependencies_is_a_leaf_not_a_pointer() {

    let lock = r#"
[[package]]
name = "a"
version = "0.1.0"
dependencies = ["b"]

[[package]]
name = "b"
version = "0.1.0"
"#;
    let resolved = parse_cargo_lock_graph(lock).unwrap();
    let g = DependencyGraph::from_resolved(
        &resolved,
        &names(&["a", "b"]),
        &["a".into(), "b".into()],
    );
    let tree = g.tree(&TreeOptions::default());

    assert_eq!(under_root(&g, &tree, "a", "b").placement, Placement::Full);

    assert_eq!(
        tree.roots[1].placement,
        Placement::Full,
        "`b`'s own entry stays the place it is shown"
    );
    assert!(!tree.roots[1].deduped());
}

#[test]
fn a_registry_namesake_of_a_member_still_expands_in_place() {

    let lock = r#"
[[package]]
name = "a"
version = "0.1.0"
dependencies = ["b 9.0.0"]

[[package]]
name = "b"
version = "0.1.0"

[[package]]
name = "b"
version = "9.0.0"
source = "registry+https://x"
dependencies = ["serde"]

[[package]]
name = "serde"
version = "1.0.0"
source = "registry+https://x"
"#;
    let resolved = parse_cargo_lock_graph(lock).unwrap();
    let g = DependencyGraph::from_resolved(
        &resolved,
        &names(&["a", "b"]),
        &["a".into(), "b".into()],
    );
    let tree = g.tree(&TreeOptions::default());

    let namesake = under_root(&g, &tree, "a", "b");
    assert_eq!(g.nodes()[namesake.node].version, "9.0.0");
    assert_eq!(
        namesake.placement,
        Placement::Full,
        "the registry crate is not the member, so it expands where it is used"
    );
    assert_eq!(g.nodes()[namesake.children[0].node].name, "serde");
}

#[test]
fn disabling_root_collapse_restores_expansion_in_place() {
    let lock = r#"
[[package]]
name = "a"
version = "0.1.0"
dependencies = ["b"]

[[package]]
name = "b"
version = "0.1.0"
dependencies = ["serde"]

[[package]]
name = "serde"
version = "1.0.0"
source = "registry+https://x"
"#;
    let resolved = parse_cargo_lock_graph(lock).unwrap();
    let g = DependencyGraph::from_resolved(
        &resolved,
        &names(&["a", "b"]),
        &["a".into(), "b".into()],
    );
    let opts = TreeOptions {
        dedupe: false,
        collapse_roots: false,
        ..TreeOptions::default()
    };
    let flat = flatten(&g, &g.tree(&opts));
    assert_eq!(
        flat.iter().filter(|(n, _, _)| *n == "serde").count(),
        2,
        "with both collapses off, `b`'s subtree is drawn under `a` and again at its own root"
    );
}

#[test]
fn cycle_terminates() {

    let lock = r#"
[[package]]
name = "a"
version = "0.1.0"
dependencies = ["b"]

[[package]]
name = "b"
version = "0.1.0"
dependencies = ["a"]
"#;
    let resolved = parse_cargo_lock_graph(lock).unwrap();
    let g = DependencyGraph::from_resolved(&resolved, &names(&["a", "b"]), &["a".into()]);

    let flat = flatten(
        &g,
        &g.tree(&TreeOptions {
            max_depth: None,
            dedupe: false,
            ..TreeOptions::default()
        }),
    );
    assert_eq!(
        flat,
        vec![
            ("a", "0.1.0", false),
            ("b", "0.1.0", false),
            ("a", "0.1.0", true),
        ]
    );
}

#[test]
fn duplicate_versions_are_distinct_nodes() {
    let lock = r#"
[[package]]
name = "app"
version = "0.1.0"
dependencies = ["dep 1.0.0", "dep 2.0.0"]

[[package]]
name = "dep"
version = "1.0.0"
source = "registry+https://x"

[[package]]
name = "dep"
version = "2.0.0"
source = "registry+https://x"
"#;
    let resolved = parse_cargo_lock_graph(lock).unwrap();
    let g = DependencyGraph::from_resolved(&resolved, &names(&["app"]), &["app".into()]);
    let flat = flatten(&g, &g.tree(&TreeOptions::default()));
    assert!(flat.contains(&("dep", "1.0.0", false)));
    assert!(flat.contains(&("dep", "2.0.0", false)));
}

#[test]
fn depth_limit_controls_expansion() {
    let lock = r#"
[[package]]
name = "app"
version = "0.1.0"
dependencies = ["lib"]

[[package]]
name = "lib"
version = "0.1.0"
dependencies = ["serde"]

[[package]]
name = "serde"
version = "1.0.0"
source = "registry+https://x"
"#;
    let resolved = parse_cargo_lock_graph(lock).unwrap();
    let g = DependencyGraph::from_resolved(&resolved, &names(&["app", "lib"]), &["app".into()]);
    let roots_only = g.tree(&TreeOptions {
        max_depth: Some(0),
        dedupe: true,
        ..TreeOptions::default()
    });
    assert_eq!(flatten(&g, &roots_only), vec![("app", "0.1.0", false)]);

    let one_deep = g.tree(&TreeOptions {
        max_depth: Some(1),
        dedupe: true,
        ..TreeOptions::default()
    });
    assert_eq!(
        flatten(&g, &one_deep),
        vec![("app", "0.1.0", false), ("lib", "0.1.0", false)]
    );
}

#[test]
fn inverted_shows_dependents() {

    let lock = r#"
[[package]]
name = "app"
version = "0.1.0"
dependencies = ["lib"]

[[package]]
name = "lib"
version = "0.1.0"
dependencies = ["serde"]

[[package]]
name = "serde"
version = "1.0.0"
source = "registry+https://x"
"#;
    let resolved = parse_cargo_lock_graph(lock).unwrap();
    let g =
        DependencyGraph::from_resolved(&resolved, &names(&["app", "lib"]), &["serde".into()]);
    let inv = g.inverted();
    let flat = flatten(&inv, &inv.tree(&TreeOptions::default()));
    assert_eq!(
        flat,
        vec![
            ("serde", "1.0.0", false),
            ("lib", "0.1.0", false),
            ("app", "0.1.0", false),
        ]
    );
}

#[test]
fn a_very_deep_chain_terminates_and_says_it_was_truncated() {
    let depth = MAX_WALK_DEPTH + 50;
    let mut packages = Vec::new();
    for n in 0..depth {
        let next = if n + 1 < depth { vec![format!("c{}", n + 1)] } else { vec![] };
        packages.push(package(&format!("c{n}"), next));
    }
    let g = graph(packages, "c0");
    let tree = g.tree(&TreeOptions::default());
    assert!(
        tree.truncated,
        "a chain past the ceiling must report truncation"
    );
}

#[test]
fn an_exponential_walk_is_bounded_by_its_budget() {

    let layers = 40usize;
    let mut packages = Vec::new();
    for layer in 0..layers {
        for side in 0..2 {
            let next = if layer + 1 < layers {
                vec![format!("n{}_0", layer + 1), format!("n{}_1", layer + 1)]
            } else {
                vec![]
            };
            packages.push(package(&format!("n{layer}_{side}"), next));
        }
    }
    let g = graph(packages, "n0_0");
    let opts = WalkOptions {
        dedupe: false,
        collapse_roots: false,
        max_visits: Some(10_000),
        ..WalkOptions::default()
    };
    let mut builder = Recorder::new();
    let stats = g.walk(&opts, &mut builder);
    assert!(stats.truncated);
    assert!(
        stats.visits <= 10_000,
        "emitted {} appearances",
        stats.visits
    );
}

#[test]
fn deps_of_an_unknown_index_is_empty() {
    let g = graph(Vec::new(), "a");
    assert!(g.deps_of(0).is_empty());
    assert!(g.deps_of(usize::MAX).is_empty());
}

#[test]
fn a_self_edge_terminates() {
    let g = graph(vec![package("a", vec!["a".to_owned()])], "a");
    let tree = g.tree(&TreeOptions::default());
    assert!(!tree.truncated, "a self-edge is cut, not budgeted away");
}
