use dependable_core::{GradleCatalogParser, Item, PackageSource, Parser};

const CATALOG: &str = r#"
[versions]
kotlin = "1.9.24"
junit = { require = "5.10.0" }
guava = "33.0.0-jre"

[libraries]
kotlin-stdlib = { module = "org.jetbrains.kotlin:kotlin-stdlib", version.ref = "kotlin" }
kotlin-reflect = { module = "org.jetbrains.kotlin:kotlin-reflect", version.ref = "kotlin" }
junit-jupiter = { module = "org.junit.jupiter:junit-jupiter", version.ref = "junit" }
okhttp = { module = "com.squareup.okhttp3:okhttp", version = "4.12.0" }
guava = { group = "com.google.guava", name = "guava", version = "32.1.3-jre" }
commons = "org.apache.commons:commons-lang3:3.14.0"

[plugins]
kotlin-jvm = { id = "org.jetbrains.kotlin.jvm", version.ref = "kotlin" }

[bundles]
testing = ["junit-jupiter"]
"#;

fn items(content: &str) -> Vec<Item> {
    GradleCatalogParser.parse(content).expect("parses").items
}

fn find<'a>(items: &'a [Item], name: &str) -> &'a Item {
    items
        .iter()
        .find(|item| item.name == name)
        .unwrap_or_else(|| panic!("no item {name}"))
}

fn slice<'a>(content: &'a str, item: &Item) -> &'a str {
    let line = content.lines().nth(item.version_line).expect("line");
    &line[item.version_col_start..item.version_col_end]
}

#[test]
fn a_coordinate_is_one_name_however_it_is_spelled() {
    let parsed = items(CATALOG);
    let names: Vec<&str> = parsed.iter().map(|i| i.name.as_str()).collect();
    assert_eq!(
        names,
        vec![
            "org.jetbrains.kotlin:kotlin-stdlib",
            "org.jetbrains.kotlin:kotlin-reflect",
            "org.junit.jupiter:junit-jupiter",
            "com.squareup.okhttp3:okhttp",
            "com.google.guava:guava",
            "org.apache.commons:commons-lang3",
        ],
        "`module`, `group`+`name`, and the shorthand all name one package; \
             `[plugins]` and `[bundles]` name none, and source order is kept"
    );
}

#[test]
fn a_stated_version_is_rewritable_where_it_is_written() {
    let parsed = items(CATALOG);
    let okhttp = find(&parsed, "com.squareup.okhttp3:okhttp");
    assert_eq!(okhttp.version_constraint, "4.12.0");
    assert_eq!(slice(CATALOG, okhttp), "4.12.0");
    assert!(okhttp.is_rewritable());

    let guava = find(&parsed, "com.google.guava:guava");
    assert_eq!(guava.version_constraint, "32.1.3-jre");
    assert_eq!(slice(CATALOG, guava), "32.1.3-jre");

    let commons = find(&parsed, "org.apache.commons:commons-lang3");
    assert_eq!(commons.version_constraint, "3.14.0");
    assert_eq!(
        slice(CATALOG, commons),
        "3.14.0",
        "the shorthand's span is the version, not the whole coordinate"
    );
}

#[test]
fn a_reference_used_once_points_at_the_versions_line() {
    let parsed = items(CATALOG);
    let junit = find(&parsed, "org.junit.jupiter:junit-jupiter");
    assert_eq!(junit.version_constraint, "5.10.0");
    assert_eq!(slice(CATALOG, junit), "5.10.0");
    assert_eq!(
        CATALOG.lines().nth(junit.version_line),
        Some("junit = { require = \"5.10.0\" }"),
        "the rich-version form states the literal too"
    );
    assert!(junit.is_rewritable());
}

#[test]
fn a_shared_reference_is_resolved_but_never_rewritten() {
    let parsed = items(CATALOG);
    for name in [
        "org.jetbrains.kotlin:kotlin-stdlib",
        "org.jetbrains.kotlin:kotlin-reflect",
    ] {
        let item = find(&parsed, name);
        assert_eq!(item.source, PackageSource::Inherited);
        assert_eq!(item.version_constraint, "1.9.24", "still checked");
        assert!(item.is_checkable(), "{name}");
        assert!(!item.is_rewritable(), "{name}");
        assert!(!item.has_position(), "{name}");
    }
}

#[test]
fn an_entry_stating_no_version_states_nothing_to_check() {

    let parsed = items(
        "[libraries]\n\
             bom = { module = \"org.example:managed\" }\n\
             dangling = { module = \"org.example:other\", version.ref = \"absent\" }\n",
    );
    assert!(parsed.is_empty());
}

#[test]
fn a_catalog_that_is_not_toml_is_an_error_not_an_empty_project() {
    assert!(GradleCatalogParser.parse("[versions").is_err());
}
