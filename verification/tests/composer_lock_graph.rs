use dependable_core::lockfiles::composer_lock_graph::is_platform_requirement;
use dependable_core::{parse_composer_lock_graph, ResolvedLockfile};

const LOCK: &str = r#"{
  "packages": [
    { "name": "monolog/monolog", "version": "2.1.0",
      "require": { "php": ">=7.2", "psr/log": "^1.0", "ext-json": "*" } },
    { "name": "psr/log", "version": "v1.1.4", "require": { "php": ">=5.3.0" } }
  ],
  "packages-dev": [
    { "name": "phpunit/phpunit", "version": "9.5.0",
      "require": { "monolog/monolog": "^2.0" } }
  ]
}"#;

fn deps_of<'a>(lock: &'a ResolvedLockfile, name: &str) -> Vec<&'a str> {
    let pkg = lock
        .packages
        .iter()
        .find(|p| p.name == name)
        .expect("package present");
    pkg.dependencies
        .iter()
        .filter_map(|d| lock.resolve(d))
        .map(|i| lock.packages[i].name.as_str())
        .collect()
}

#[test]
fn reads_packages_from_both_sections() {
    let resolved = parse_composer_lock_graph(LOCK).unwrap();
    let mut names: Vec<&str> = resolved.packages.iter().map(|p| p.name.as_str()).collect();
    names.sort_unstable();
    assert_eq!(names, vec!["monolog/monolog", "phpunit/phpunit", "psr/log"]);
}

#[test]
fn keeps_real_edges_and_drops_platform_requirements() {
    let resolved = parse_composer_lock_graph(LOCK).unwrap();
    assert_eq!(
        deps_of(&resolved, "monolog/monolog"),
        vec!["psr/log"],
        "php and ext-json are runtime constraints, not packages"
    );
    assert!(deps_of(&resolved, "psr/log").is_empty());
}

#[test]
fn edges_a_dev_package_to_the_package_it_requires() {
    let resolved = parse_composer_lock_graph(LOCK).unwrap();
    assert_eq!(
        deps_of(&resolved, "phpunit/phpunit"),
        vec!["monolog/monolog"]
    );
}

#[test]
fn strips_a_leading_v_from_the_version_tag() {
    let resolved = parse_composer_lock_graph(LOCK).unwrap();
    let psr = resolved
        .packages
        .iter()
        .find(|p| p.name == "psr/log")
        .expect("psr/log");
    assert_eq!(psr.version, "1.1.4");
}

#[test]
fn treats_every_platform_family_as_a_non_package() {
    for name in [
        "php",
        "PHP",
        "php-64bit",
        "ext-mbstring",
        "lib-curl",
        "composer-plugin-api",
        "composer-runtime-api",
        "hhvm",
    ] {
        assert!(is_platform_requirement(name), "{name} should be platform");
    }
    for name in ["psr/log", "phpunit/phpunit", "league/flysystem"] {
        assert!(!is_platform_requirement(name), "{name} is a real package");
    }
}

#[test]
fn survives_a_lockfile_with_no_packages() {
    let resolved = parse_composer_lock_graph(r#"{"packages": []}"#).unwrap();
    assert!(resolved.packages.is_empty());
}
