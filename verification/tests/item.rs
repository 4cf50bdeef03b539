use dependable_core::{parse, resolve_workspace_inheritance, Item, ManifestKind};

fn items(content: &str) -> Vec<Item> {
    parse(ManifestKind::CargoToml, content)
        .expect("parses")
        .items
}

fn find(items: &[Item], name: &str) -> Item {
    items
        .iter()
        .find(|item| item.name == name)
        .unwrap_or_else(|| panic!("no item {name}"))
        .clone()
}

#[test]
fn a_registry_item_is_checkable_positioned_and_rewritable() {
    let serde = find(&items("[dependencies]\nserde = \"1.0\"\n"), "serde");
    assert!(serde.is_checkable());
    assert!(serde.has_position());
    assert!(serde.is_rewritable());
}

#[test]
fn a_constraint_less_requirement_has_a_position_but_nothing_to_rewrite() {
    let parsed = parse(ManifestKind::RequirementsTxt, "flask==1.0\nnumpy\n")
        .expect("parses")
        .items;
    let numpy = find(&parsed, "numpy");

    assert!(numpy.is_checkable(), "a bare requirement is still fetched");
    assert!(numpy.has_position(), "line 2 of this very file");
    assert_eq!(numpy.version_line, 1);
    assert!(!numpy.is_rewritable(), "the span is zero-width");
}

#[test]
fn path_and_git_items_are_neither() {
    let parsed = items(
        "[dependencies]\nutil = { path = \"../util\" }\ng = { git = \"https://example.com/g\" }\n",
    );
    for name in ["util", "g"] {
        let item = find(&parsed, name);
        assert!(!item.is_checkable(), "{name}");
        assert!(!item.has_position(), "{name}");
        assert!(!item.is_rewritable(), "{name}");
    }
}

#[test]
fn an_inherited_item_becomes_checkable_but_never_rewritable() {
    let declarations = items("[workspace.dependencies]\nserde = \"1.0.200\"\n");
    let mut parsed = items("[dependencies]\nserde.workspace = true\n");

    let unresolved = find(&parsed, "serde");
    assert!(!unresolved.is_checkable(), "no constraint yet");
    assert!(!unresolved.is_rewritable());

    let _ = resolve_workspace_inheritance(&mut parsed, &declarations);

    let resolved = find(&parsed, "serde");
    assert!(resolved.is_checkable(), "the root supplied a constraint");
    assert!(
        !resolved.has_position(),
        "a resolved constraint still has no home in this file"
    );
    assert!(!resolved.is_rewritable());
}
