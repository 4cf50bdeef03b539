use dependable_core::lockfiles::bun_lock_graph::NPM_SOURCE;
use dependable_core::{parse_package_lock_graph, ResolvedLockfile};
use std::collections::HashMap;

fn edges(lock: &ResolvedLockfile) -> HashMap<&str, Vec<&str>> {
    lock.packages
        .iter()
        .map(|p| {
            let mut deps: Vec<&str> = p
                .dependencies
                .iter()
                .filter_map(|d| lock.resolve(d))
                .map(|i| lock.packages[i].name.as_str())
                .collect();
            deps.sort_unstable();
            (p.name.as_str(), deps)
        })
        .collect()
}

#[test]
fn reads_the_root_project_and_its_direct_dependencies() {
    let lock = r#"{
  "lockfileVersion": 3,
  "packages": {
    "": { "name": "app", "version": "1.0.0", "dependencies": { "react": "^18.0.0" },
          "devDependencies": { "typescript": "^5.0.0" } },
    "node_modules/react": { "version": "18.2.0" },
    "node_modules/typescript": { "version": "5.4.2" }
  }
}"#;
    let resolved = parse_package_lock_graph(lock).unwrap();
    let edges = edges(&resolved);
    assert_eq!(
        edges["app"],
        vec!["react", "typescript"],
        "dev deps included"
    );
}

#[test]
fn a_nested_copy_shadows_the_hoisted_one() {

    let lock = r#"{
  "packages": {
    "": { "name": "app", "version": "1.0.0",
          "dependencies": { "a": "^1.0.0", "b": "^2.0.0" } },
    "node_modules/a": { "version": "1.0.0", "dependencies": { "b": "^1.0.0" } },
    "node_modules/a/node_modules/b": { "version": "1.0.0" },
    "node_modules/b": { "version": "2.0.0" }
  }
}"#;
    let resolved = parse_package_lock_graph(lock).unwrap();

    let a = resolved
        .packages
        .iter()
        .find(|p| p.name == "a")
        .expect("a is present");
    assert_eq!(
        a.dependencies,
        vec!["b 1.0.0"],
        "a resolves to its nested b"
    );

    let root = &resolved.packages[0];
    assert!(
        root.dependencies.contains(&"b 2.0.0".to_owned()),
        "the root resolves to the hoisted b: {:?}",
        root.dependencies
    );
}

#[test]
fn walks_out_to_an_enclosing_node_modules() {

    let lock = r#"{
  "packages": {
    "": { "name": "app", "version": "1.0.0", "dependencies": { "a": "^1.0.0" } },
    "node_modules/a": { "version": "1.0.0", "dependencies": { "b": "^1.0.0" } },
    "node_modules/a/node_modules/b": { "version": "1.0.0",
                                       "dependencies": { "c": "^1.0.0" } },
    "node_modules/c": { "version": "3.0.0" }
  }
}"#;
    let resolved = parse_package_lock_graph(lock).unwrap();
    assert_eq!(edges(&resolved)["b"], vec!["c"]);
}

#[test]
fn keeps_scoped_names_intact() {
    let lock = r#"{
  "packages": {
    "": { "name": "app", "version": "1.0.0",
          "dependencies": { "@scope/pkg": "^2.0.0" } },
    "node_modules/@scope/pkg": { "version": "2.1.0" }
  }
}"#;
    let resolved = parse_package_lock_graph(lock).unwrap();
    assert_eq!(edges(&resolved)["app"], vec!["@scope/pkg"]);
}

#[test]
fn edges_an_alias_to_the_package_it_resolves_to() {

    let lock = r#"{
  "packages": {
    "": { "name": "app", "version": "1.0.0", "dependencies": { "alias": "npm:real@^1" } },
    "node_modules/alias": { "name": "real", "version": "1.2.3" }
  }
}"#;
    let resolved = parse_package_lock_graph(lock).unwrap();
    assert_eq!(edges(&resolved)["app"], vec!["real"]);
}

#[test]
fn classifies_installed_packages_as_external_and_the_root_as_local() {
    let lock = r#"{
  "packages": {
    "": { "name": "app", "version": "1.0.0" },
    "node_modules/react": { "version": "18.2.0" }
  }
}"#;
    let resolved = parse_package_lock_graph(lock).unwrap();
    assert_eq!(resolved.packages[0].source, None, "root is local");
    assert_eq!(
        resolved.packages[1].source.as_deref(),
        Some(NPM_SOURCE),
        "installed packages carry a registry source"
    );
}

#[test]
fn records_a_git_install_as_a_git_source() {
    let lock = r#"{
  "packages": {
    "": { "name": "app", "version": "1.0.0", "dependencies": { "forked": "*" } },
    "node_modules/forked": { "version": "1.0.0",
                             "resolved": "git+https://example.com/forked.git#abc" }
  }
}"#;
    let resolved = parse_package_lock_graph(lock).unwrap();
    assert!(
        resolved.packages[1]
            .source
            .as_deref()
            .is_some_and(|s| s.starts_with("git+")),
        "a git install must not look like a registry package"
    );
}

#[test]
fn drops_a_dependency_that_was_never_installed() {

    let lock = r#"{
  "packages": {
    "": { "name": "app", "version": "1.0.0",
          "optionalDependencies": { "fsevents": "^2.0.0" } }
  }
}"#;
    let resolved = parse_package_lock_graph(lock).unwrap();
    assert!(resolved.packages[0].dependencies.is_empty());
}

#[test]
fn survives_a_lockfile_with_no_packages_map() {
    let resolved = parse_package_lock_graph(r#"{"lockfileVersion": 1}"#).unwrap();
    assert!(resolved.packages.is_empty());
}
