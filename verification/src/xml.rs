//! XML documents as plain lists of nodes.
//!
//! The `roxmltree` crate does the parsing. Its document is copied into a list of
//! [`XmlNode`]s in document order, each with the position of its parent, and every rule
//! is stated and proved over that list.
use crate::text::{any, has_any, opt_string, part, str_eq, Class};
use crate::width::{byte_len, lemma_offset_grows, width};
use std::ops::Range;
use vstd::prelude::*;

verus! {

/// An attribute.
#[derive(Debug)]
pub struct XmlAttribute {
    /// The namespace, where it has one.
    pub namespace: Option<String>,
    /// The local name.
    pub name: String,
    /// The value.
    pub value: String,
    /// The byte range of the value, its quotes left out.
    pub range: Range<usize>,
}

/// What an [`XmlAttribute`] says.
pub ghost struct AttributeView {
    /// The namespace.
    pub namespace: Option<Seq<char>>,
    /// The local name.
    pub name: Seq<char>,
    /// The value.
    pub value: Seq<char>,
    /// Where the value begins.
    pub from: usize,
    /// Where the value ends.
    pub to: usize,
}

impl View for XmlAttribute {
    type V = AttributeView;

    open spec fn view(&self) -> AttributeView {
        AttributeView {
            namespace: opt_string(self.namespace),
            name: self.name@,
            value: self.value@,
            from: self.range.start,
            to: self.range.end,
        }
    }
}

/// What a list of attributes says.
pub open spec fn attribute_views(v: Seq<XmlAttribute>) -> Seq<AttributeView> {
    v.map_values(|a: XmlAttribute| a@)
}

/// A node of a document.
#[derive(Debug)]
pub struct XmlNode {
    /// The position of the parent; `None` for the document itself.
    pub parent: Option<usize>,
    /// Whether it is an element.
    pub is_element: bool,
    /// Whether it is text.
    pub is_text: bool,
    /// The local name of an element; empty for any other node.
    pub name: String,
    /// The text of a text node or a comment, or the text that an element begins with.
    pub text: Option<String>,
    /// Its byte range.
    pub range: Range<usize>,
    /// The attributes of an element.
    pub attributes: Vec<XmlAttribute>,
}

/// What an [`XmlNode`] says.
pub ghost struct XmlView {
    /// The position of the parent.
    pub parent: Option<usize>,
    /// Whether it is an element.
    pub is_element: bool,
    /// Whether it is text.
    pub is_text: bool,
    /// The local name.
    pub name: Seq<char>,
    /// The text.
    pub text: Option<Seq<char>>,
    /// Where it begins.
    pub from: usize,
    /// Where it ends.
    pub to: usize,
    /// The attributes.
    pub attributes: Seq<AttributeView>,
}

impl View for XmlNode {
    type V = XmlView;

    open spec fn view(&self) -> XmlView {
        XmlView {
            parent: self.parent,
            is_element: self.is_element,
            is_text: self.is_text,
            name: self.name@,
            text: opt_string(self.text),
            from: self.range.start,
            to: self.range.end,
            attributes: attribute_views(self.attributes@),
        }
    }
}

/// What a list of nodes says.
pub open spec fn node_views(v: Seq<XmlNode>) -> Seq<XmlView> {
    v.map_values(|n: XmlNode| n@)
}

/// Whether a part of a text has a byte range.
pub open spec fn ranges(text: Seq<char>, from: usize, to: usize, a: int, b: int) -> bool {
    0 <= a <= b <= text.len() && from == byte_len(text.take(a)) && to == byte_len(text.take(b))
}

/// Whether the value of an attribute is as long as its range, and has no space that a tab
/// or a line end may stand for.
pub open spec fn is_verbatim(a: AttributeView) -> bool {
    a.from <= a.to && a.to - a.from == byte_len(a.value) && !has_any(a.value, Class::Is(' '))
}

/// Whether the value of an attribute that is verbatim is what a text has in its range.
pub open spec fn attribute_stands(text: Seq<char>, v: AttributeView) -> bool {
    is_verbatim(v) ==> exists|a: int, b: int| #[trigger]
        ranges(text, v.from, v.to, a, b) && text.subrange(a, b) == v.value
}

/// Whether a text node that is as long as its range, and whose range holds no markup, no
/// reference and no carriage return, is what a text has in that range.
pub open spec fn text_stands(text: Seq<char>, node: XmlView) -> bool {
    node.text matches Some(raw) ==> node.from <= node.to && node.to - node.from == byte_len(raw)
        ==> exists|a: int, b: int| #[trigger]
        ranges(text, node.from, node.to, a, b) && (!has_any(
            text.subrange(a, b),
            Class::In("<&\r"),
        ) ==> text.subrange(a, b) == raw)
}

/// Whether the attributes and texts of some nodes stand where they say they do.
pub open spec fn nodes_stand(text: Seq<char>, nodes: Seq<XmlView>) -> bool {
    forall|i: int|
        0 <= i < nodes.len() ==> ((#[trigger] nodes[i]).is_text ==> text_stands(text, nodes[i]))
            && forall|j: int|
            0 <= j < nodes[i].attributes.len() ==> attribute_stands(
                text,
                #[trigger] nodes[i].attributes[j],
            )
}

/// The nodes of the document that a text is, in document order, or why it is none.
pub uninterp spec fn xml_document(text: Seq<char>) -> Result<Seq<XmlView>, Seq<char>>;

/// `roxmltree::Document::parse`, then its `descendants`, one plain node for each, or the
/// text of the error. Claimed: the nodes, or the error, depend on the text alone; and an
/// attribute value or a text that is written verbatim stands in the byte range it is said
/// to have.
#[verifier::external_body]
pub(crate) fn parse_nodes(text: &str) -> (r: Result<Vec<XmlNode>, String>)
    ensures
        match r {
            Ok(v) => xml_document(text@) == Ok::<Seq<XmlView>, Seq<char>>(node_views(v@)),
            Err(e) => xml_document(text@) == Err::<Seq<XmlView>, Seq<char>>(e@),
        },
        r matches Ok(v) ==> nodes_stand(text@, node_views(v@)),
{
    let doc = roxmltree::Document::parse(text).map_err(|e| e.to_string())?;
    Ok(doc.descendants().map(|n| XmlNode {
        parent: n.parent().map(|p| p.id().get_usize()),
        is_element: n.is_element(), is_text: n.is_text(),
        name: n.tag_name().name().to_owned(),
        text: n.text().map(str::to_owned),
        range: n.range(),
        attributes: n.attributes().map(|a| XmlAttribute {
            namespace: a.namespace().map(str::to_owned), name: a.name().to_owned(),
            value: a.value().to_owned(), range: a.range_value(),
        }).collect(),
    }).collect())
}

/// Which children of a node are looked for.
#[derive(Clone, Copy)]
pub enum Want<'a> {
    /// Elements.
    Element,
    /// Elements with a name.
    Named(&'a str),
    /// Text.
    Text,
}

impl<'a> Want<'a> {
    /// Whether a node is one of those.
    pub open spec fn fits(self, node: XmlView) -> bool {
        match self {
            Want::Element => node.is_element,
            Want::Named(tag) => node.is_element && node.name == tag@,
            Want::Text => node.is_text,
        }
    }

    /// Whether a node is one of those.
    pub fn accepts(self, node: &XmlNode) -> (r: bool)
        ensures
            r == self.fits(node@),
    {
        match self {
            Want::Element => node.is_element,
            Want::Named(tag) => node.is_element && str_eq(node.name.as_str(), tag),
            Want::Text => node.is_text,
        }
    }
}

/// Whether a node is a child of the one at a position, and one that is looked for.
pub open spec fn is_child(node: XmlView, parent: int, want: Want) -> bool {
    node.parent matches Some(p) && p == parent && want.fits(node)
}

/// The first child of a node that is looked for, at or after a position.
pub open spec fn next_child(nodes: Seq<XmlView>, parent: int, want: Want, from: int) -> Option<int>
    decreases nodes.len() - from,
{
    if from < 0 || from >= nodes.len() {
        None
    } else if is_child(nodes[from], parent, want) {
        Some(from)
    } else {
        next_child(nodes, parent, want, from + 1)
    }
}

/// The child element with a name, the first where there are several.
pub open spec fn child_named(nodes: Seq<XmlView>, parent: Option<int>, tag: &str) -> Option<int> {
    match parent {
        Some(p) => next_child(nodes, p, Want::Named(tag), 0),
        None => None,
    }
}

/// The root element.
pub open spec fn root_element(nodes: Seq<XmlView>) -> Option<int> {
    next_child(nodes, 0, Want::Element, 0)
}

/// A position, where there is one.
pub open spec fn opt_index(o: Option<usize>) -> Option<int> {
    match o {
        Some(i) => Some(i as int),
        None => None,
    }
}

/// Find the first child of a node that is looked for, at or after a position.
pub fn find_child(nodes: &Vec<XmlNode>, parent: usize, want: Want, from: usize) -> (r: Option<
    usize,
>)
    ensures
        opt_index(r) == next_child(node_views(nodes@), parent as int, want, from as int),
        r matches Some(i) ==> from <= i < nodes@.len() && is_child(nodes@[i as int]@, parent as int, want),
{
    let ghost all = node_views(nodes@);
    let mut i: usize = from;
    while i < nodes.len()
        invariant
            from <= i,
            all == node_views(nodes@),
            next_child(all, parent as int, want, from as int) == next_child(
                all,
                parent as int,
                want,
                i as int,
            ),
        decreases nodes.len() - i,
    {
        assert(all[i as int] == nodes@[i as int]@);
        if let Some(p) = nodes[i].parent {
            if p == parent && want.accepts(&nodes[i]) {
                return Some(i);
            }
        }
        i = i + 1;
    }
    None
}

/// Find the child element with a name.
pub fn find_named(nodes: &Vec<XmlNode>, parent: Option<usize>, tag: &str) -> (r: Option<usize>)
    ensures
        opt_index(r) == child_named(node_views(nodes@), opt_index(parent), tag),
        r matches Some(i) ==> i < nodes@.len(),
{
    match parent {
        Some(p) => find_child(nodes, p, Want::Named(tag), 0),
        None => None,
    }
}

/// Find the root element.
pub fn find_root(nodes: &Vec<XmlNode>) -> (r: Option<usize>)
    ensures
        opt_index(r) == root_element(node_views(nodes@)),
        r matches Some(i) ==> i < nodes@.len(),
{
    find_child(nodes, 0, Want::Element, 0)
}

/// The first attribute with a local name; with `plain`, only one of no namespace.
pub open spec fn attribute_of(attributes: Seq<AttributeView>, name: Seq<char>, plain: bool) -> Option<
    AttributeView,
>
    decreases attributes.len(),
{
    if attributes.len() == 0 {
        None
    } else if attributes[0].name == name && (plain ==> attributes[0].namespace is None) {
        Some(attributes[0])
    } else {
        attribute_of(attributes.drop_first(), name, plain)
    }
}

/// Find the first attribute with a local name; with `plain`, only one of no namespace.
pub fn find_attribute<'a>(node: &'a XmlNode, name: &str, plain: bool) -> (r: Option<
    &'a XmlAttribute,
>)
    ensures
        attribute_of(node@.attributes, name@, plain) == match r {
            Some(a) => Some(a@),
            None => None,
        },
{
    let ghost all = attribute_views(node.attributes@);
    let mut i: usize = 0;
    assert(all.skip(0) =~= all);
    while i < node.attributes.len()
        invariant
            i <= node.attributes.len(),
            all == attribute_views(node.attributes@),
            attribute_of(all, name@, plain) == attribute_of(all.skip(i as int), name@, plain),
        decreases node.attributes.len() - i,
    {
        let a = &node.attributes[i];
        proof {
            assert(all.skip(i as int)[0] == a@);
            assert(all.skip(i as int).drop_first() =~= all.skip(i + 1));
        }
        if str_eq(a.name.as_str(), name) && (!plain || a.namespace.is_none()) {
            return Some(a);
        }
        i = i + 1;
    }
    None
}

/// Whether a byte range of a text holds no markup, no reference and no carriage return.
pub open spec fn is_bare(text: Seq<char>, from: usize, to: usize) -> bool {
    exists|a: int, b: int| #[trigger]
        ranges(text, from, to, a, b) && !has_any(text.subrange(a, b), Class::In("<&\r"))
}

/// No two positions of a text have one byte offset.
pub proof fn lemma_one_range(text: Seq<char>, from: usize, to: usize, a: int, b: int, c: int, d: int)
    requires
        ranges(text, from, to, a, b),
        ranges(text, from, to, c, d),
    ensures
        a == c,
        b == d,
{
    lemma_one_position(text, a, c);
    lemma_one_position(text, b, d);
}

proof fn lemma_one_position(text: Seq<char>, a: int, b: int)
    requires
        0 <= a <= text.len(),
        0 <= b <= text.len(),
        byte_len(text.take(a)) == byte_len(text.take(b)),
    ensures
        a == b,
{
    if a < b {
        lemma_offset_grows(text, a, b);
    } else if b < a {
        lemma_offset_grows(text, b, a);
    }
}

/// Find the position at a byte offset.
fn find_offset(text: &[char], offset: usize) -> (r: Option<usize>)
    requires
        byte_len(text@) <= usize::MAX,
    ensures
        match r {
            Some(i) => i <= text@.len() && byte_len(text@.take(i as int)) == offset,
            None => forall|i: int|
                0 <= i <= text@.len() ==> #[trigger] byte_len(text@.take(i)) != offset,
        },
{
    let mut at: usize = 0;
    let mut i: usize = 0;
    assert(text@.take(0) =~= seq![]);
    loop
        invariant
            i <= text@.len(),
            byte_len(text@) <= usize::MAX,
            at == byte_len(text@.take(i as int)),
            forall|j: int| 0 <= j < i ==> #[trigger] byte_len(text@.take(j)) != offset,
        decreases text@.len() - i,
    {
        if at == offset {
            return Some(i);
        }
        if i == text.len() {
            return None;
        }
        proof {
            assert(text@.take(i + 1).drop_last() =~= text@.take(i as int));
            lemma_offset_grows(text@, i + 1, text@.len() as int);
            assert(text@.take(text@.len() as int) =~= text@);
        }
        at = at + width(text[i]);
        i = i + 1;
    }
}

/// Whether a byte range of a text holds no markup, no reference and no carriage return.
pub fn bare(text: &[char], from: usize, to: usize) -> (r: bool)
    requires
        byte_len(text@) <= usize::MAX,
    ensures
        r == is_bare(text@, from, to),
{
    match (find_offset(text, from), find_offset(text, to)) {
        (Some(a), Some(b)) => {
            if a > b {
                proof {
                    lemma_offset_grows(text@, b as int, a as int);
                    if is_bare(text@, from, to) {
                        let (c, d) = choose|c: int, d: int| #[trigger]
                            ranges(text@, from, to, c, d);
                        lemma_one_position(text@, a as int, c);
                        lemma_one_position(text@, b as int, d);
                    }
                }
                return false;
            }
            let found = any(part(text, a, b), Class::In("<&\r"));
            proof {
                assert(ranges(text@, from, to, a as int, b as int));
                if is_bare(text@, from, to) {
                    let (c, d) = choose|c: int, d: int| #[trigger]
                        ranges(text@, from, to, c, d) && !has_any(
                            text@.subrange(c, d),
                            Class::In("<&\r"),
                        );
                    lemma_one_range(text@, from, to, a as int, b as int, c, d);
                }
            }
            !found
        },
        _ => false,
    }
}

} // verus!
