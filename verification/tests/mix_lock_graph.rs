use dependable_core::lockfiles::mix_lock_graph::split_top_level;
use dependable_core::text::chars_of;
use dependable_core::{parse_mix_lock_graph, ResolvedLockfile};

const LOCK: &str = r#"%{
  "ecto": {:hex, :ecto, "3.10.3", "aaa", [:mix], [{:telemetry, "~> 0.4 or ~> 1.0", [hex: :telemetry, repo: "hexpm", optional: false]}, {:decimal, "~> 2.0", [hex: :decimal, repo: "hexpm", optional: false]}], "hexpm", "bbb"},
  "decimal": {:hex, :decimal, "2.1.1", "ccc", [:mix], [], "hexpm", "ddd"},
  "telemetry": {:hex, :telemetry, "1.2.1", "iii", [:rebar3], [], "hexpm", "jjj"},
  "forked": {:git, "https://example.com/forked.git", "a1b2", []},
}
"#;

fn deps_of<'a>(lock: &'a ResolvedLockfile, name: &str) -> Vec<&'a str> {
    let pkg = lock
        .packages
        .iter()
        .find(|p| p.name == name)
        .expect("package present");
    let mut deps: Vec<&str> = pkg
        .dependencies
        .iter()
        .filter_map(|d| lock.resolve(d))
        .map(|i| lock.packages[i].name.as_str())
        .collect();
    deps.sort_unstable();
    deps
}

#[test]
fn reads_hex_packages_and_their_versions() {
    let resolved = parse_mix_lock_graph(LOCK).unwrap();
    let mut found: Vec<(&str, &str)> = resolved
        .packages
        .iter()
        .map(|p| (p.name.as_str(), p.version.as_str()))
        .collect();
    found.sort_unstable();
    assert_eq!(
        found,
        vec![
            ("decimal", "2.1.1"),
            ("ecto", "3.10.3"),
            ("telemetry", "1.2.1"),
        ],
        "the git-sourced entry has no resolved version"
    );
}

#[test]
fn reads_edges_from_the_dependency_element() {
    let resolved = parse_mix_lock_graph(LOCK).unwrap();
    assert_eq!(deps_of(&resolved, "ecto"), vec!["decimal", "telemetry"]);
    assert!(deps_of(&resolved, "telemetry").is_empty(), "empty dep list");
}

#[test]
fn does_not_mistake_the_build_tools_element_for_dependencies() {

    let resolved = parse_mix_lock_graph(LOCK).unwrap();
    for pkg in &resolved.packages {
        assert!(
            !pkg.dependencies.iter().any(|d| d == "mix" || d == "rebar3"),
            "{} picked up a build tool as a dependency: {:?}",
            pkg.name,
            pkg.dependencies
        );
    }
}

#[test]
fn splits_only_at_the_top_level() {
    let chars = chars_of(r#":hex, :a, "1.0", [{:b, "~> 1, 2"}], "x""#);
    let parts: Vec<String> =
        split_top_level(&chars).iter().map(|part| part.iter().collect()).collect();
    assert_eq!(parts.len(), 5, "the nested comma must not split: {parts:?}");
    assert_eq!(parts[3].trim(), r#"[{:b, "~> 1, 2"}]"#);
}

#[test]
fn a_brace_inside_a_string_does_not_close_the_entry() {
    let lock = r#"%{
  "weird": {:hex, :weird, "1.0.0", "a}b", [:mix], [{:dep, "~> 1.0", []}], "hexpm", "c"},
  "dep": {:hex, :dep, "2.0.0", "x", [:mix], [], "hexpm", "y"},
}
"#;
    let resolved = parse_mix_lock_graph(lock).unwrap();
    assert_eq!(resolved.packages.len(), 2);
    assert_eq!(deps_of(&resolved, "weird"), vec!["dep"]);
}

#[test]
fn survives_an_empty_lockfile() {
    let resolved = parse_mix_lock_graph("%{}\n").unwrap();
    assert!(resolved.packages.is_empty());
}
