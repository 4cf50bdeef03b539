use dependable_core::npmrc::nerf_dart;
use dependable_core::{parse_npmrc, NpmrcConfig};

#[test]
fn parses_default_registry_scopes_and_tokens() {
    let content = "registry=https://registry.npmjs.org/\n@corp:registry=https://npm.corp.example/\n//npm.corp.example/:_authToken=corp-secret\n//registry.npmjs.org/:_authToken=public-secret\n; a comment\n# another\nsave-exact=true\n";
    let c = parse_npmrc(content);
    assert_eq!(
        c.default_registry.as_deref(),
        Some("https://registry.npmjs.org/")
    );
    assert_eq!(
        c.scope_registries.get("@corp").map(String::as_str),
        Some("https://npm.corp.example/")
    );
    assert_eq!(
        c.token_for("https://npm.corp.example/"),
        Some("corp-secret")
    );

    assert_eq!(
        c.token_for("https://registry.npmjs.org"),
        Some("public-secret")
    );
}

#[test]
fn ignores_blank_comment_and_unknown_lines() {
    let c = parse_npmrc("\n\n; comment\nsave-exact=true\nnot-a-pair\n");
    assert_eq!(c, NpmrcConfig::default());
}

#[test]
fn merge_lets_higher_precedence_win() {
    let user = parse_npmrc("registry=https://user.example/\n//user.example/:_authToken=u\n");
    let project =
        parse_npmrc("registry=https://project.example/\n@x:registry=https://x.example/\n");
    let merged = user.merge(project);
    assert_eq!(
        merged.default_registry.as_deref(),
        Some("https://project.example/")
    );

    assert_eq!(merged.token_for("https://user.example/"), Some("u"));
    assert_eq!(
        merged.scope_registries.get("@x").map(String::as_str),
        Some("https://x.example/")
    );
}

#[test]
fn nerf_dart_normalizes_scheme_and_trailing_slash() {
    assert_eq!(nerf_dart("https://host/path"), "//host/path/");
    assert_eq!(nerf_dart("//host/path/"), "//host/path/");
    assert_eq!(nerf_dart("http://host"), "//host/");
}

#[test]
fn a_token_is_found_whatever_the_scheme() {
    let c = parse_npmrc("//host:1/p:_authToken=t\n");
    for url in ["https://host:1/p", "http://host:1/p/", "x://host:1/p///", "//host:1/p", "host:1/p/"] {
        assert_eq!(nerf_dart(url), "//host:1/p/", "{url}");
        assert_eq!(c.token_for(url), Some("t"), "{url}");
    }
    assert_eq!(c.default_registry, None);
    assert!(c.scope_registries.is_empty());
}
