use dependable_core::{parse_bun_lock_graph, ResolvedLockfile};

const LOCK: &str = r#"{
  "lockfileVersion": 1,
  "workspaces": {
    "": {
      "name": "app",
      "version": "1.0.0",
      "dependencies": { "react": "^19.0.0" },
      "devDependencies": { "typescript": "^5.0.0" },
    },
  },
  "packages": {
    "react": ["react@19.0.0", "", { "dependencies": { "scheduler": "^0.25.0" } }, "sha512-a"],
    "scheduler": ["scheduler@0.25.0", "", {}, "sha512-b"],
    "typescript": ["typescript@5.4.0", "", {}, "sha512-c"],
  },
}"#;

fn flatten(resolved: &ResolvedLockfile) -> Vec<(String, Vec<String>)> {
    resolved
        .packages
        .iter()
        .map(|p| {
            (
                format!("{} {}", p.name, p.version).trim().to_owned(),
                p.dependencies.clone(),
            )
        })
        .collect()
}

#[test]
fn the_root_comes_from_the_workspaces_object() {

    let resolved = parse_bun_lock_graph(LOCK).unwrap();
    let root = &resolved.packages[0];
    assert_eq!(root.name, "app");
    assert_eq!(root.version, "1.0.0");
    assert_eq!(root.source, None, "the project is local");
    assert_eq!(
        root.dependencies,
        ["react 19.0.0", "typescript 5.4.0"],
        "dev dependencies are edges too"
    );
}

#[test]
fn the_graph_is_transitive() {
    let resolved = parse_bun_lock_graph(LOCK).unwrap();
    let react = flatten(&resolved)
        .into_iter()
        .find(|(id, _)| id == "react 19.0.0")
        .expect("react");
    assert_eq!(react.1, ["scheduler 0.25.0"]);
}

#[test]
fn an_installed_package_is_marked_as_external() {
    let resolved = parse_bun_lock_graph(LOCK).unwrap();
    let react = resolved
        .packages
        .iter()
        .find(|p| p.name == "react")
        .expect("react");
    assert!(
        react
            .source
            .as_deref()
            .is_some_and(|s| s.contains("registry")),
        "an installed package came from a registry"
    );
}

#[test]
fn a_nested_version_shadows_the_one_above_it() {

    const NESTED: &str = r#"{
  "workspaces": { "": { "name": "app", "dependencies": { "a": "^1", "b": "^1" } } },
  "packages": {
    "a": ["a@1.0.0", "", { "dependencies": { "shared": "^2.0.0" } }, "h"],
    "a/shared": ["shared@2.0.0", "", {}, "h"],
    "b": ["b@1.0.0", "", { "dependencies": { "shared": "^1.0.0" } }, "h"],
    "shared": ["shared@1.0.0", "", {}, "h"],
  },
}"#;
    let resolved = parse_bun_lock_graph(NESTED).unwrap();
    let by = |name: &str| {
        resolved
            .packages
            .iter()
            .find(|p| p.name == name && !p.version.is_empty())
            .cloned()
            .unwrap_or_else(|| panic!("missing {name}"))
    };
    assert_eq!(
        by("a").dependencies,
        ["shared 2.0.0"],
        "a resolves to the copy nested under it"
    );
    assert_eq!(
        by("b").dependencies,
        ["shared 1.0.0"],
        "b falls through to the top-level copy"
    );
}

#[test]
fn a_dependency_with_no_entry_is_dropped_rather_than_invented() {
    const MISSING: &str = r#"{
  "workspaces": { "": { "name": "app", "dependencies": { "ghost": "^1" } } },
  "packages": {},
}"#;
    let resolved = parse_bun_lock_graph(MISSING).unwrap();
    assert_eq!(resolved.packages[0].dependencies, [] as [String; 0]);
}

#[test]
fn an_empty_lockfile_is_not_an_error() {
    let resolved = parse_bun_lock_graph("{}").unwrap();
    assert!(resolved.packages.is_empty());
}

#[test]
fn a_scoped_package_keeps_its_scope() {
    const SCOPED: &str = r#"{
  "workspaces": { "": { "name": "app", "dependencies": { "@acme/ui": "^2" } } },
  "packages": { "@acme/ui": ["@acme/ui@2.1.0", "", {}, "h"] },
}"#;
    let resolved = parse_bun_lock_graph(SCOPED).unwrap();
    assert_eq!(resolved.packages[0].dependencies, ["@acme/ui 2.1.0"]);
}

#[test]
fn every_edge_resolves() {
    let lock = r#"{
  "workspaces": {
    "": { "name": "app", "dependencies": { "a": "1", "lib": "workspace:*", "gone": "1" } },
    "packages/lib": { "name": "lib", "dependencies": { "b": "2" } },
  },
  "packages": {
    "a": ["a@1.0.0", "", { "dependencies": { "b": "1" } }, "x"],
    "b": ["b@2.0.0", "", {}, "x"],
    "a/b": ["b@1.0.0", "", {}, "x"],
    "lib": ["lib@workspace:packages/lib"],
  },
}"#;
    let resolved = parse_bun_lock_graph(lock).unwrap();
    let mut edges = Vec::new();
    for p in &resolved.packages {
        for d in &p.dependencies {
            let to = &resolved.packages[resolved.resolve(d).unwrap()];
            edges.push((p.name.as_str(), to.name.as_str(), to.version.as_str()));
        }
    }
    assert_eq!(
        edges,
        vec![("app", "a", "1.0.0"), ("app", "lib", ""), ("lib", "b", "2.0.0"), ("a", "b", "1.0.0")]
    );
}
