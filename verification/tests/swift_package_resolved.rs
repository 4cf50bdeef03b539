use dependable_core::{
    parse_swift_package_resolved, swift_package_name, swift_package_name_variants,
    swift_package_resolved_items, DependencyKind, Item, LockfileData, PackageSource,
    ParseError,
};

fn locked(data: &LockfileData, name: &str) -> Vec<String> {
    data.versions.get(name).cloned().unwrap_or_default()
}

const V2: &str = r#"{
  "pins" : [
    {
      "identity" : "swift-nio",
      "kind" : "remoteSourceControl",
      "location" : "https://github.com/apple/swift-nio.git",
      "state" : {
        "revision" : "635b2589494c97e48c62514bc8b37ced762e0a62",
        "version" : "2.65.0"
      }
    },
    {
      "identity" : "vapor",
      "kind" : "remoteSourceControl",
      "location" : "https://github.com/vapor/vapor",
      "state" : {
        "revision" : "0f1b6d1e1d6c86b2a2c5b0a1f8a1c8d5e1f0a9b8",
        "version" : "4.92.1"
      }
    }
  ],
  "version" : 2
}
"#;

fn items(content: &str) -> Vec<Item> {
    swift_package_resolved_items(content).expect("well-formed Package.resolved")
}

fn find<'a>(items: &'a [Item], name: &str) -> &'a Item {
    items
        .iter()
        .find(|item| item.name == name)
        .unwrap_or_else(|| panic!("no pin {name}"))
}

#[test]
fn reads_every_pin_as_a_dependency() {
    let items = items(V2);
    let names: Vec<&str> = items.iter().map(|i| i.name.as_str()).collect();
    assert_eq!(
        names,
        ["github.com/apple/swift-nio", "github.com/vapor/vapor"]
    );

    let nio = find(&items, "github.com/apple/swift-nio");
    assert_eq!(nio.locked_version.as_deref(), Some("2.65.0"));
    assert_eq!(nio.version_constraint, "2.65.0");
    assert_eq!(
        nio.source,
        PackageSource::Locked,
        "the version came from this file, not from a declaration anywhere"
    );
}

#[test]
fn a_pin_is_checkable_but_has_nowhere_to_be_rewritten() {
    let nio = find(&items(V2), "github.com/apple/swift-nio").clone();
    assert!(nio.is_checkable());
    assert!(!nio.has_position());
    assert!(!nio.is_rewritable());
}

#[test]
fn a_pin_is_never_claimed_to_be_a_direct_dependency() {
    for item in items(V2) {
        assert_eq!(item.kind, DependencyKind::Indirect, "{}", item.name);
        assert!(!item.kind.is_direct(), "{}", item.name);
    }
}

#[test]
fn v3_reads_the_same_pins_as_v2() {
    let v3 = V2.replace("\"version\" : 2", "\"version\" : 3").replace(
        "\"pins\" : [",
        "\"originHash\" : \"abc123\",\n  \"pins\" : [",
    );
    assert_eq!(items(&v3), items(V2));
}

#[test]
fn v1_pins_are_read_from_their_own_spelling() {
    let v1 = r#"{
  "object": {
    "pins": [
      {
        "package": "SwiftNIO",
        "repositoryURL": "https://github.com/apple/swift-nio.git",
        "state": { "branch": null, "revision": "635b25", "version": "2.65.0" }
      }
    ]
  },
  "version": 1
}"#;
    let items = items(v1);
    assert_eq!(items.len(), 1);
    assert_eq!(items[0].name, "github.com/apple/swift-nio");
    assert_eq!(items[0].locked_version.as_deref(), Some("2.65.0"));
}

#[test]
fn a_branch_pin_is_a_git_dependency() {
    let lock = r#"{
  "pins": [
    {
      "identity": "experimental",
      "kind": "remoteSourceControl",
      "location": "https://github.com/acme/experimental.git",
      "state": { "branch": "main", "revision": "deadbeef" }
    }
  ],
  "version": 2
}"#;
    let items = items(lock);
    assert_eq!(items[0].source, PackageSource::Git);
    assert_eq!(items[0].version_constraint, "main");
    assert_eq!(items[0].locked_version, None);
    assert!(!items[0].is_checkable());
}

#[test]
fn a_local_package_is_named_by_its_identity_and_never_fetched() {
    let lock = r#"{
  "pins": [
    { "identity": "helpers", "kind": "fileSystem", "location": "/Users/me/helpers", "state": {} }
  ],
  "version": 2
}"#;
    let items = items(lock);
    assert_eq!(items[0].name, "helpers");
    assert_eq!(items[0].source, PackageSource::Local);
    assert!(!items[0].is_checkable());
}

#[test]
fn a_package_name_is_the_url_osv_keys_advisories_by() {
    let cases = [
        (
            "https://github.com/vapor/vapor.git",
            "github.com/vapor/vapor",
        ),
        ("https://github.com/vapor/vapor", "github.com/vapor/vapor"),
        (
            "https://github.com/vapor/vapor.git/",
            "github.com/vapor/vapor",
        ),
        ("http://example.com/a/b.git", "example.com/a/b"),
        ("git://github.com/vapor/vapor.git", "github.com/vapor/vapor"),
        (
            "ssh://git@github.com/vapor/vapor.git",
            "github.com/vapor/vapor",
        ),
        ("git@github.com:vapor/vapor.git", "github.com/vapor/vapor"),
        (
            "git+https://github.com/vapor/vapor.git",
            "github.com/vapor/vapor",
        ),
    ];
    for (location, expected) in cases {
        assert_eq!(swift_package_name(location), expected, "{location}");
    }
}

#[test]
fn a_port_is_stripped_from_the_host() {
    let cases = [
        (
            "ssh://git@github.com:22/apple/swift-nio.git",
            "github.com/apple/swift-nio",
        ),
        (
            "https://github.com:443/apple/swift-nio.git",
            "github.com/apple/swift-nio",
        ),
        (
            "git://GitHub.com:9418/apple/swift-nio",
            "github.com/apple/swift-nio",
        ),

        (
            "ssh://git@github.com:22/weichsel/ZIPFoundation.git",
            "github.com/weichsel/ZIPFoundation",
        ),
    ];
    for (location, expected) in cases {
        assert_eq!(swift_package_name(location), expected, "{location}");
    }
}

#[test]
fn an_scp_shorthand_colon_is_a_path_separator_whatever_follows_it() {
    let cases = [

        (
            "git@github.com:1024jp/GzipSwift.git",
            "github.com/1024jp/GzipSwift",
        ),

        ("git@github.com:42/pkg.git", "github.com/42/pkg"),
        ("git@github.com:vapor/vapor.git", "github.com/vapor/vapor"),

        (
            "ssh://git@github.com:22/apple/swift-nio.git",
            "github.com/apple/swift-nio",
        ),
        (
            "https://github.com:443/apple/swift-nio.git",
            "github.com/apple/swift-nio",
        ),
    ];
    for (location, expected) in cases {
        assert_eq!(swift_package_name(location), expected, "{location}");
    }
}

#[test]
fn an_ipv6_literal_keeps_its_colons() {
    let cases = [
        ("https://[::1]/apple/swift-nio.git", "[::1]/apple/swift-nio"),

        (
            "ssh://git@[::1]:22/apple/swift-nio",
            "[::1]/apple/swift-nio",
        ),

        ("[::1]:22", "[::1]/22"),

        ("[2001:db8::1]", "[2001:db8::1]"),
    ];
    for (location, expected) in cases {
        assert_eq!(swift_package_name(location), expected, "{location}");
    }
}

#[test]
fn a_mixed_case_repository_path_is_preserved_exactly() {
    let cases = [
        (
            "https://github.com/weichsel/ZIPFoundation.git",
            "github.com/weichsel/ZIPFoundation",
        ),
        (
            "https://github.com/marmelroy/Zip",
            "github.com/marmelroy/Zip",
        ),
        (
            "git@github.com:migueldeicaza/SwiftTerm.git",
            "github.com/migueldeicaza/SwiftTerm",
        ),
    ];
    for (location, expected) in cases {
        assert_eq!(swift_package_name(location), expected, "{location}");
    }
}

#[test]
fn the_host_is_lowercased_and_the_path_is_not() {
    assert_eq!(
        swift_package_name("https://GitHub.com/vapor/vapor.git"),
        "github.com/vapor/vapor"
    );
    assert_eq!(
        swift_package_name("https://GitHub.COM/weichsel/ZIPFoundation.git"),
        "github.com/weichsel/ZIPFoundation"
    );
    assert_eq!(
        swift_package_name("git@GitHub.com:marmelroy/Zip.git"),
        "github.com/marmelroy/Zip"
    );
}

#[test]
fn a_mixed_case_name_offers_its_lowercase_spelling_as_a_second_key() {
    assert_eq!(
        swift_package_name_variants("github.com/Vapor/Vapor"),
        ["github.com/vapor/vapor"]
    );
    assert!(swift_package_name_variants("github.com/vapor/vapor").is_empty());
}

#[test]
fn locked_versions_agree_with_the_items() {
    let data = parse_swift_package_resolved(V2).unwrap();
    assert_eq!(locked(&data, "github.com/apple/swift-nio"), ["2.65.0"]);
    assert_eq!(locked(&data, "github.com/vapor/vapor"), ["4.92.1"]);
    assert_eq!(data.versions.len(), 2);
}

#[test]
fn an_unrelated_pins_key_is_not_a_pin_list() {
    let lock = r#"{ "meta": { "pins": [ { "location": "https://x/y.git" } ] } }"#;
    assert!(items(lock).is_empty());
}

#[test]
fn a_malformed_file_reads_as_unread_not_as_a_short_list() {
    assert!(swift_package_resolved_items("not json at all {{{").is_none());
    assert!(swift_package_resolved_items("").is_none());
    assert!(parse_swift_package_resolved("not json at all {{{").is_err());
}

#[test]
fn a_truncated_file_is_unread_rather_than_partially_read() {

    for cut in 1..V2.trim_end().len() {
        let truncated = &V2[..cut];
        assert!(
            swift_package_resolved_items(truncated).is_none(),
            "a prefix of {cut} bytes must not read as a dependency list"
        );
    }

    assert_eq!(items(V2).len(), 2);
}

#[test]
fn an_unread_file_says_why() {
    match parse_swift_package_resolved(r#"{ "pins": [ NaN ] }"#) {
        Err(ParseError::Malformed(why)) => assert_eq!(
            why,
            "Package.resolved is not well-formed JSON, so the pins it records could not be \
             read; this file is the whole dependency list of a Swift project, so a partial \
             read of it is not a shorter answer but a wrong one"
        ),
        other => panic!("{other:?}"),
    }
}
