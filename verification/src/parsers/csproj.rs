//! Reader of C#/.NET project files (`*.csproj`, `Directory.Packages.props`).
//!
//! A walk over every `<PackageReference>` and `<PackageVersion>` element, taking the
//! package name from `Include` (or `Update`) and the constraint from the `Version`
//! attribute, with the exact byte range of its value. Entries without a `Version`
//! attribute (central-package-managed references) and MSBuild property values
//! (`$(SomeVersion)`) are skipped. A `<PackageVersion>` is a central declaration that
//! projects opt into.
use super::place::{add_item, item_between, make_between, opt_item, with_item};
use super::position::{is_starts, line_starts, starts_of};
use super::spans::{lemma_between, lemma_told_with, told, with_note, written_if_positioned};
use super::{Parser, Reading};
use crate::error::ParseError;
use crate::item::{item_views, DependencyKind, Item, ItemView, PackageSource};
use crate::manifest::{items_only, ManifestKind, ParsedManifest};
use crate::text::{any, chars_of, has_any, str_eq, Class};
use crate::width::{byte_len, str_bytes};
use crate::xml::{
    attribute_of, attribute_stands, find_attribute, is_verbatim, node_views, nodes_stand,
    parse_nodes, ranges, text_stands, xml_document, AttributeView, XmlNode, XmlView,
};
use vstd::prelude::*;

verus! {

/// Parses `*.csproj` / `Directory.Packages.props`.
pub struct CsprojParser;

/// The kind of what an element declares.
pub open spec fn tag_kind(tag: Seq<char>) -> Option<DependencyKind> {
    if tag == "PackageReference"@ {
        Some(DependencyKind::Normal)
    } else if tag == "PackageVersion"@ {
        Some(DependencyKind::Workspace)
    } else {
        None
    }
}

/// The package that an element names.
pub open spec fn package_of(node: XmlView) -> Option<Seq<char>> {
    match attribute_of(node.attributes, "Include"@, true) {
        Some(a) => Some(a.value),
        None => match attribute_of(node.attributes, "Update"@, true) {
            Some(a) => Some(a.value),
            None => None,
        },
    }
}

/// The dependency that a node declares.
pub open spec fn csproj_item(starts: Seq<usize>, node: XmlView) -> Option<ItemView> {
    match (tag_kind(node.name), package_of(node), attribute_of(node.attributes, "Version"@, false)) {
        (Some(kind), Some(name), Some(version)) => if has_any(version.value, Class::Is('$')) {
            None
        } else {
            Some(
                item_between(
                    starts,
                    name,
                    version.value,
                    PackageSource::Registry,
                    kind,
                    version.from,
                    version.to,
                ),
            )
        },
        _ => None,
    }
}

/// The dependencies that some nodes declare, in order.
pub open spec fn csproj_items(starts: Seq<usize>, nodes: Seq<XmlView>) -> Seq<ItemView>
    decreases nodes.len(),
{
    if nodes.len() == 0 {
        seq![]
    } else {
        with_item(csproj_items(starts, nodes.drop_last()), csproj_item(starts, nodes.last()))
    }
}

/// Find the package that an element names.
fn package_name(node: &XmlNode) -> (r: Option<String>)
    ensures
        package_of(node@) == match r {
            Some(s) => Some(s@),
            None => None,
        },
{
    match find_attribute(node, "Include", true) {
        Some(a) => Some(a.value.clone()),
        None => match find_attribute(node, "Update", true) {
            Some(a) => Some(a.value.clone()),
            None => None,
        },
    }
}

/// Build the item of a node.
fn build_item(node: &XmlNode, starts: &[usize]) -> (r: Option<Item>)
    requires
        is_starts(starts@),
    ensures
        opt_item(r) == csproj_item(starts@, node@),
{
    let kind = if str_eq(node.name.as_str(), "PackageReference") {
        DependencyKind::Normal
    } else if str_eq(node.name.as_str(), "PackageVersion") {
        DependencyKind::Workspace
    } else {
        return None;
    };
    let name = match package_name(node) {
        Some(n) => n,
        None => {
            return None;
        },
    };
    match find_attribute(node, "Version", false) {
        Some(version) => {
            let chars = chars_of(version.value.as_str());
            // MSBuild property references (`$(FooVersion)`) are not versions.
            if any(chars.as_slice(), Class::Is('$')) {
                return None;
            }
            Some(
                make_between(
                    starts,
                    name,
                    version.value.clone(),
                    PackageSource::Registry,
                    kind,
                    version.range.start,
                    version.range.end,
                ),
            )
        },
        None => None,
    }
}

/// The dependencies that the nodes of a document declare, in order.
pub fn items_from(nodes: &Vec<XmlNode>, starts: &[usize]) -> (r: Vec<Item>)
    requires
        is_starts(starts@),
    ensures
        item_views(r@) == csproj_items(starts@, node_views(nodes@)),
{
    let ghost all = node_views(nodes@);
    let mut items: Vec<Item> = Vec::new();
    let mut i: usize = 0;
    assert(item_views(items@) =~= csproj_items(starts@, all.take(0)));
    while i < nodes.len()
        invariant
            i <= nodes.len(),
            is_starts(starts@),
            all == node_views(nodes@),
            item_views(items@) == csproj_items(starts@, all.take(i as int)),
        decreases nodes.len() - i,
    {
        proof {
            assert(all.take(i + 1).drop_last() =~= all.take(i as int));
            assert(all.take(i + 1).last() == nodes@[i as int]@);
        }
        let item = build_item(&nodes[i], starts);
        add_item(&mut items, item);
        i = i + 1;
    }
    assert(all.take(i as int) =~= all);
    items
}

/// Whether the version of a node is written verbatim.
pub open spec fn verbatim_version(node: XmlView) -> bool {
    attribute_of(node.attributes, "Version"@, false) matches Some(a) && is_verbatim(a)
}

/// Which of the dependencies that some nodes declare are written verbatim.
pub open spec fn csproj_plain(starts: Seq<usize>, nodes: Seq<XmlView>) -> Seq<bool>
    decreases nodes.len(),
{
    if nodes.len() == 0 {
        seq![]
    } else {
        with_note(
            csproj_plain(starts, nodes.drop_last()),
            csproj_item(starts, nodes.last()),
            verbatim_version(nodes.last()),
        )
    }
}

proof fn lemma_attribute_stands(
    content: Seq<char>,
    attributes: Seq<AttributeView>,
    name: Seq<char>,
    plain: bool,
)
    requires
        forall|j: int|
            0 <= j < attributes.len() ==> attribute_stands(content, #[trigger] attributes[j]),
    ensures
        attribute_of(attributes, name, plain) matches Some(a) ==> attribute_stands(content, a),
    decreases attributes.len(),
{
    if attributes.len() > 0 {
        let rest = attributes.drop_first();
        assert forall|j: int| 0 <= j < rest.len() implies attribute_stands(
            content,
            #[trigger] rest[j],
        ) by {
            assert(rest[j] == attributes[j + 1]);
        }
        lemma_attribute_stands(content, rest, name, plain);
    }
}

proof fn lemma_node_written(content: Seq<char>, node: XmlView)
    requires
        byte_len(content) <= usize::MAX,
        forall|j: int|
            0 <= j < node.attributes.len() ==> attribute_stands(
                content,
                #[trigger] node.attributes[j],
            ),
        verbatim_version(node),
    ensures
        written_if_positioned(content, csproj_item(starts_of(content), node)),
{
    let v = attribute_of(node.attributes, "Version"@, false)->0;
    lemma_attribute_stands(content, node.attributes, "Version"@, false);
    if csproj_item(starts_of(content), node) is Some {
        let (a, b) = choose|a: int, b: int| #[trigger]
            ranges(content, v.from, v.to, a, b) && content.subrange(a, b) == v.value;
        lemma_between(
            content,
            package_of(node)->0,
            v.value,
            PackageSource::Registry,
            tag_kind(node.name)->0,
            a,
            b,
        );
    }
}

proof fn lemma_csproj_told(content: Seq<char>, nodes: Seq<XmlView>)
    requires
        byte_len(content) <= usize::MAX,
        nodes_stand(content, nodes),
    ensures
        told(
            content,
            csproj_items(starts_of(content), nodes),
            csproj_plain(starts_of(content), nodes),
        ),
    decreases nodes.len(),
{
    if nodes.len() > 0 {
        let front = nodes.drop_last();
        let node = nodes.last();
        assert(nodes_stand(content, front)) by {
            assert forall|i: int| 0 <= i < front.len() implies ((
            #[trigger] front[i]).is_text ==> text_stands(content, front[i])) && forall|j: int|
                0 <= j < front[i].attributes.len() ==> attribute_stands(
                    content,
                    #[trigger] front[i].attributes[j],
                ) by {
                assert(front[i] == nodes[i]);
            }
        }
        lemma_csproj_told(content, front);
        assert(node == nodes[nodes.len() - 1]);
        assert forall|j: int| 0 <= j < node.attributes.len() implies attribute_stands(
            content,
            #[trigger] node.attributes[j],
        ) by {
            assert(node.attributes[j] == nodes[nodes.len() - 1].attributes[j]);
        }
        if verbatim_version(node) {
            lemma_node_written(content, node);
        }
        lemma_told_with(
            content,
            csproj_items(starts_of(content), front),
            csproj_plain(starts_of(content), front),
            csproj_item(starts_of(content), node),
            verbatim_version(node),
        );
    }
}

impl Parser for CsprojParser {
    open spec fn reads(&self, content: Seq<char>) -> Reading {
        match xml_document(content) {
            Ok(nodes) => Reading::Read(
                items_only(ManifestKind::Csproj, csproj_items(starts_of(content), nodes)),
            ),
            Err(e) => Reading::Malformed(e),
        }
    }

    open spec fn plain(&self, content: Seq<char>) -> Seq<bool> {
        match xml_document(content) {
            Ok(nodes) => csproj_plain(starts_of(content), nodes),
            Err(_) => seq![],
        }
    }

    fn parse(&self, content: &str) -> (r: Result<ParsedManifest, ParseError>) {
        match parse_nodes(content) {
            Ok(nodes) => {
                let total: usize = str_bytes(content);
                proof {
                    lemma_csproj_told(content@, node_views(nodes@));
                }
                let starts = line_starts(content);
                let items = items_from(&nodes, starts.as_slice());
                Ok(ParsedManifest::of_items(ManifestKind::Csproj, items))
            },
            Err(e) => Err(ParseError::Malformed(e)),
        }
    }
}

} // verus!
