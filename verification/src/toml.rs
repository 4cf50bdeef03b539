//! TOML documents as plain trees.
//!
//! The `toml_edit` crate does the parsing. What the readers of this crate look at is
//! copied out of its document into a [`TomlNode`], a plain tree, and every rule is
//! stated and proved over that tree.
use crate::split::strings;
use crate::text::{opt_string, str_eq};
use crate::width::byte_len;
use toml_edit::Item as TomlItem;
use vstd::prelude::*;

verus! {

/// A parsed TOML item, opaque here.
#[verifier::external_type_specification]
#[verifier::external_body]
pub struct ExTomlItem(TomlItem);

/// A TOML syntax error, opaque here.
#[verifier::external_type_specification]
#[verifier::external_body]
pub struct ExTomlError(toml_edit::TomlError);

/// What a TOML item is: a string and where it is written, a boolean, an array of
/// values, a table (inline or not) in document order, an array of tables, or anything
/// else.
pub ghost enum TomlTree {
    /// A string, and the byte range of its literal, quotes included.
    Text { value: Seq<char>, span: Option<(usize, usize)> },
    /// A boolean.
    Flag(bool),
    /// An array of values.
    List(Seq<TomlTree>),
    /// A table.
    Table(Seq<(Seq<char>, TomlTree)>),
    /// An array of tables.
    Tables(Seq<TomlTree>),
    /// Anything else.
    Other,
}

/// Whether the literal of a string is written in one pair of quotes and without a
/// backslash.
pub open spec fn is_plain(literal: Seq<char>) -> bool {
    (literal.len() == 2 || literal[0] != literal[1]) && !literal.contains('\\')
}

/// Whether the literal of a string stands between two positions of a text, which are
/// those of a byte range: it begins and ends with the same quote, and what a plain one
/// has between them is the string.
pub open spec fn literal_at(
    text: Seq<char>,
    value: Seq<char>,
    span: (usize, usize),
    a: int,
    b: int,
) -> bool {
    &&& 0 <= a
    &&& a + 2 <= b <= text.len()
    &&& span.0 == byte_len(text.take(a))
    &&& span.1 == byte_len(text.take(b))
    &&& text[a] == '"' || text[a] == '\''
    &&& text[b - 1] == text[a]
    &&& is_plain(text.subrange(a, b)) ==> text.subrange(a + 1, b - 1) == value
}

/// Whether every string of a tree has its literal at the byte range it is said to have.
pub open spec fn literals_stand(text: Seq<char>, tree: TomlTree) -> bool
    decreases tree,
{
    match tree {
        TomlTree::Text { value, span } => span matches Some(at) ==> exists|a: int, b: int|
            literal_at(text, value, at, a, b),
        TomlTree::List(l) => forall|i: int|
            0 <= i < l.len() ==> literals_stand(text, #[trigger] l[i]),
        TomlTree::Table(e) => forall|i: int|
            0 <= i < e.len() ==> literals_stand(text, (#[trigger] e[i]).1),
        TomlTree::Tables(l) => forall|i: int|
            0 <= i < l.len() ==> literals_stand(text, #[trigger] l[i]),
        _ => true,
    }
}

/// What a parsed item is.
pub uninterp spec fn toml_tree(item: TomlItem) -> TomlTree;

/// The root of the document that a text is, where it is one.
pub uninterp spec fn toml_document(text: Seq<char>) -> Option<TomlTree>;

/// `toml_edit::ImDocument::parse`, then the document's root item. Claimed: whether the
/// text is a document, and what its root is, depend on the text alone; and the span of a
/// string is the byte range of its literal, whose content, where it has one pair of
/// quotes and no backslash, is the string.
#[verifier::external_body]
fn parse_item(text: &str) -> (r: Result<TomlItem, toml_edit::TomlError>)
    ensures
        match r {
            Ok(item) => toml_document(text@) == Some(toml_tree(item)),
            Err(_) => toml_document(text@) is None,
        },
        r matches Ok(item) ==> literals_stand(text@, toml_tree(item)),
{
    toml_edit::ImDocument::parse(text.to_owned()).map(|doc| doc.into_item())
}

/// `toml_edit::Item::as_str`: the content of a string, `None` for any other item.
#[verifier::external_body]
fn item_text(item: &TomlItem) -> (r: Option<String>)
    ensures
        match r {
            Some(s) => toml_tree(*item) is Text && toml_tree(*item)->value == s@,
            None => !(toml_tree(*item) is Text),
        },
{
    item.as_str().map(|s| s.to_owned())
}

/// `toml_edit::Item::span`: the byte range an item was read from. Claimed of strings
/// only.
#[verifier::external_body]
fn item_span(item: &TomlItem) -> (r: Option<(usize, usize)>)
    ensures
        toml_tree(*item) is Text ==> r == toml_tree(*item)->span,
{
    item.span().map(|s| (s.start, s.end))
}

/// `toml_edit::Item::as_bool`: the value of a boolean, `None` for any other item.
#[verifier::external_body]
fn item_flag(item: &TomlItem) -> (r: Option<bool>)
    ensures
        match r {
            Some(b) => toml_tree(*item) == TomlTree::Flag(b),
            None => !(toml_tree(*item) is Flag),
        },
{
    item.as_bool()
}

/// What a list of items is.
pub open spec fn toml_trees(items: Seq<TomlItem>) -> Seq<TomlTree> {
    items.map_values(|i: TomlItem| toml_tree(i))
}

/// What a list of named items is.
pub open spec fn toml_entries(items: Seq<(String, TomlItem)>) -> Seq<
    (Seq<char>, TomlTree),
> {
    items.map_values(|e: (String, TomlItem)| (e.0@, toml_tree(e.1)))
}

/// `toml_edit::Item::as_array`: the values of an array, in order, `None` for any other
/// item.
#[verifier::external_body]
fn item_list(item: &TomlItem) -> (r: Option<Vec<TomlItem>>)
    ensures
        match r {
            Some(v) => toml_tree(*item) == TomlTree::List(toml_trees(v@)),
            None => !(toml_tree(*item) is List),
        },
{
    let array = item.as_array()?;
    Some(array.iter().map(|v| TomlItem::Value(v.clone())).collect())
}

/// `toml_edit::Item::as_array_of_tables`: the tables of an array of tables, in order,
/// `None` for any other item.
#[verifier::external_body]
fn item_tables(item: &TomlItem) -> (r: Option<Vec<TomlItem>>)
    ensures
        match r {
            Some(v) => toml_tree(*item) == TomlTree::Tables(toml_trees(v@)),
            None => !(toml_tree(*item) is Tables),
        },
{
    let array = item.as_array_of_tables()?;
    Some(array.iter().map(|t| TomlItem::Table(t.clone())).collect())
}

/// `toml_edit::Item::as_table_like`: the keys and values of a table, inline or not, in
/// document order, `None` for any other item.
#[verifier::external_body]
fn item_entries(item: &TomlItem) -> (r: Option<Vec<(String, TomlItem)>>)
    ensures
        match r {
            Some(v) => toml_tree(*item) == TomlTree::Table(toml_entries(v@)),
            None => !(toml_tree(*item) is Table),
        },
{
    let table = item.as_table_like()?;
    Some(table.iter().map(|(k, v)| (k.to_owned(), v.clone())).collect())
}

/// A TOML item as a plain value.
#[derive(Debug)]
pub enum TomlNode {
    /// A string, and the byte range of its literal, quotes included.
    Text {
        /// The content.
        value: String,
        /// The range.
        span: Option<(usize, usize)>,
    },
    /// A boolean.
    Flag(bool),
    /// An array of values.
    List(Vec<TomlNode>),
    /// A table, in document order.
    Table(Vec<(String, TomlNode)>),
    /// An array of tables.
    Tables(Vec<TomlNode>),
    /// Anything else.
    Other,
}

/// What a node is.
pub open spec fn tree_of(n: TomlNode) -> TomlTree
    decreases n,
{
    match n {
        TomlNode::Text { value, span } => TomlTree::Text { value: value@, span },
        TomlNode::Flag(b) => TomlTree::Flag(b),
        TomlNode::List(v) => TomlTree::List(
            Seq::new(
                v@.len(),
                |i: int|
                    if 0 <= i < v@.len() {
                        tree_of(v[i])
                    } else {
                        arbitrary()
                    },
            ),
        ),
        TomlNode::Table(v) => TomlTree::Table(
            Seq::new(
                v@.len(),
                |i: int|
                    if 0 <= i < v@.len() {
                        (v[i].0@, tree_of(v[i].1))
                    } else {
                        arbitrary()
                    },
            ),
        ),
        TomlNode::Tables(v) => TomlTree::Tables(
            Seq::new(
                v@.len(),
                |i: int|
                    if 0 <= i < v@.len() {
                        tree_of(v[i])
                    } else {
                        arbitrary()
                    },
            ),
        ),
        TomlNode::Other => TomlTree::Other,
    }
}

impl View for TomlNode {
    type V = TomlTree;

    open spec fn view(&self) -> TomlTree {
        tree_of(*self)
    }
}

/// Copy items out.
fn copy_items(items: &Vec<TomlItem>, Ghost(parent): Ghost<TomlTree>) -> (r: Vec<TomlNode>)
    requires
        parent == TomlTree::List(toml_trees(items@)) || parent == TomlTree::Tables(
            toml_trees(items@),
        ),
    ensures
        r@.len() == items@.len(),
        forall|i: int| 0 <= i < r@.len() ==> tree_of(#[trigger] r@[i]) == toml_tree(items@[i]),
    decreases parent, 0int,
{
    let mut out: Vec<TomlNode> = Vec::new();
    let mut i: usize = 0;
    while i < items.len()
        invariant
            i <= items.len(),
            out@.len() == i,
            parent == TomlTree::List(toml_trees(items@)) || parent == TomlTree::Tables(
                toml_trees(items@),
            ),
            forall|j: int| 0 <= j < i ==> tree_of(#[trigger] out@[j]) == toml_tree(items@[j]),
        decreases items.len() - i,
    {
        proof {
            let s = toml_trees(items@);
            assert(s[i as int] == toml_tree(items@[i as int]));
            assert(decreases_to!(s => s[i as int]));
            if parent is List {
                assert(decreases_to!(parent => parent->List_0));
            } else {
                assert(decreases_to!(parent => parent->Tables_0));
            }
        }
        out.push(copy_item(&items[i]));
        i = i + 1;
    }
    out
}

/// Copy an item out.
fn copy_item(item: &TomlItem) -> (r: TomlNode)
    ensures
        tree_of(r) == toml_tree(*item),
    decreases toml_tree(*item), 1int,
{
    let ghost tree = toml_tree(*item);
    if let Some(value) = item_text(item) {
        return TomlNode::Text { value, span: item_span(item) };
    }
    if let Some(b) = item_flag(item) {
        return TomlNode::Flag(b);
    }
    if let Some(items) = item_list(item) {
        let nodes = copy_items(&items, Ghost(tree));
        let r = TomlNode::List(nodes);
        proof {
            let s = tree_of(r)->List_0;
            assert(s =~= toml_trees(items@));
        }
        return r;
    }
    if let Some(items) = item_tables(item) {
        let nodes = copy_items(&items, Ghost(tree));
        let r = TomlNode::Tables(nodes);
        proof {
            let s = tree_of(r)->Tables_0;
            assert(s =~= toml_trees(items@));
        }
        return r;
    }
    if let Some(entries) = item_entries(item) {
        let mut nodes: Vec<(String, TomlNode)> = Vec::new();
        let mut i: usize = 0;
        while i < entries.len()
            invariant
                i <= entries.len(),
                nodes@.len() == i,
                tree == TomlTree::Table(toml_entries(entries@)),
                tree == toml_tree(*item),
                forall|j: int|
                    0 <= j < i ==> (#[trigger] nodes@[j]).0@ == entries@[j].0@ && tree_of(
                        nodes@[j].1,
                    ) == toml_tree(entries@[j].1),
            decreases entries.len() - i,
        {
            proof {
                let s = toml_entries(entries@);
                assert(s[i as int].1 == toml_tree(entries@[i as int].1));
                assert(decreases_to!(s => s[i as int]));
                assert(decreases_to!(tree => tree->Table_0));
            }
            nodes.push((entries[i].0.clone(), copy_item(&entries[i].1)));
            i = i + 1;
        }
        let r = TomlNode::Table(nodes);
        proof {
            let s = tree_of(r)->Table_0;
            assert(s =~= toml_entries(entries@));
        }
        return r;
    }
    TomlNode::Other
}

/// Parse a TOML document into a plain tree.
pub fn parse_document(text: &str) -> (r: Result<TomlNode, toml_edit::TomlError>)
    ensures
        match r {
            Ok(node) => toml_document(text@) == Some(node@),
            Err(_) => toml_document(text@) is None,
        },
        r matches Ok(node) ==> literals_stand(text@, node@),
{
    match parse_item(text) {
        Ok(item) => Ok(copy_item(&item)),
        Err(e) => Err(e),
    }
}

/// The first value under a key.
pub open spec fn lookup(entries: Seq<(Seq<char>, TomlTree)>, key: Seq<char>) -> Option<TomlTree>
    decreases entries.len(),
{
    if entries.len() == 0 {
        None
    } else if entries[0].0 == key {
        Some(entries[0].1)
    } else {
        lookup(entries.drop_first(), key)
    }
}

impl TomlTree {
    /// The keys and values of a table; none for any other item.
    pub open spec fn entries(self) -> Seq<(Seq<char>, TomlTree)> {
        match self {
            TomlTree::Table(e) => e,
            _ => seq![],
        }
    }

    /// The value under a key of a table.
    pub open spec fn get(self, key: Seq<char>) -> Option<TomlTree> {
        lookup(self.entries(), key)
    }

    /// The content of a string.
    pub open spec fn text(self) -> Option<Seq<char>> {
        match self {
            TomlTree::Text { value, .. } => Some(value),
            _ => None,
        }
    }

    /// The values of an array; none for any other item.
    pub open spec fn list(self) -> Seq<TomlTree> {
        match self {
            TomlTree::List(l) => l,
            _ => seq![],
        }
    }

    /// The tables of an array of tables; none for any other item.
    pub open spec fn tables(self) -> Seq<TomlTree> {
        match self {
            TomlTree::Tables(l) => l,
            _ => seq![],
        }
    }
}

/// The value under a key, where there is a table to look in.
pub open spec fn get_in(tree: Option<TomlTree>, key: Seq<char>) -> Option<TomlTree> {
    match tree {
        Some(t) => t.get(key),
        None => None,
    }
}

/// The content of a string, where there is one.
pub open spec fn text_in(tree: Option<TomlTree>) -> Option<Seq<char>> {
    match tree {
        Some(t) => t.text(),
        None => None,
    }
}

/// What a list of nodes is.
pub open spec fn trees_of(v: Seq<TomlNode>) -> Seq<TomlTree> {
    v.map_values(|n: TomlNode| n@)
}

/// What a list of named nodes is.
pub open spec fn entries_of(v: Seq<(String, TomlNode)>) -> Seq<(Seq<char>, TomlTree)> {
    v.map_values(|e: (String, TomlNode)| (e.0@, e.1@))
}

/// What a node is in terms of what it holds.
pub proof fn lemma_tree_of(n: TomlNode)
    ensures
        n matches TomlNode::List(v) ==> n@ == TomlTree::List(trees_of(v@)),
        n matches TomlNode::Tables(v) ==> n@ == TomlTree::Tables(trees_of(v@)),
        n matches TomlNode::Table(v) ==> n@ == TomlTree::Table(entries_of(v@)),
{
    match n {
        TomlNode::List(v) => {
            assert(n@->List_0 =~= trees_of(v@));
        },
        TomlNode::Tables(v) => {
            assert(n@->Tables_0 =~= trees_of(v@));
        },
        TomlNode::Table(v) => {
            assert(n@->Table_0 =~= entries_of(v@));
        },
        _ => {},
    }
}

/// What an optional node is.
pub open spec fn opt_tree(o: Option<&TomlNode>) -> Option<TomlTree> {
    match o {
        Some(n) => Some(n@),
        None => None,
    }
}

impl TomlNode {
    /// The value under a key of a table.
    pub fn get(&self, key: &str) -> (r: Option<&TomlNode>)
        ensures
            opt_tree(r) == self@.get(key@),
    {
        proof {
            lemma_tree_of(*self);
        }
        match self {
            TomlNode::Table(v) => {
                let ghost all = entries_of(v@);
                let mut i: usize = 0;
                assert(all.skip(0) =~= all);
                while i < v.len()
                    invariant
                        i <= v.len(),
                        all == entries_of(v@),
                        self@ == TomlTree::Table(all),
                        lookup(all, key@) == lookup(all.skip(i as int), key@),
                    decreases v.len() - i,
                {
                    assert(all.skip(i as int)[0] == (v@[i as int].0@, v@[i as int].1@));
                    if str_eq(v[i].0.as_str(), key) {
                        return Some(&v[i].1);
                    }
                    assert(all.skip(i as int).drop_first() =~= all.skip(i + 1));
                    i = i + 1;
                }
                None
            },
            _ => None,
        }
    }

    /// The content of a string.
    pub fn text(&self) -> (r: Option<&String>)
        ensures
            match r {
                Some(s) => self@.text() == Some(s@),
                None => self@.text() is None,
            },
    {
        match self {
            TomlNode::Text { value, .. } => Some(value),
            _ => None,
        }
    }

    /// The value of a boolean.
    pub fn flag(&self) -> (r: Option<bool>)
        ensures
            match r {
                Some(b) => self@ == TomlTree::Flag(b),
                None => !(self@ is Flag),
            },
    {
        match self {
            TomlNode::Flag(b) => Some(*b),
            _ => None,
        }
    }

    /// The keys and values of a table.
    pub fn entries(&self) -> (r: Option<&Vec<(String, TomlNode)>>)
        ensures
            match r {
                Some(v) => self@ == TomlTree::Table(entries_of(v@)),
                None => !(self@ is Table),
            },
    {
        proof {
            lemma_tree_of(*self);
        }
        match self {
            TomlNode::Table(v) => Some(v),
            _ => None,
        }
    }

    /// The values of an array.
    pub fn list(&self) -> (r: Option<&Vec<TomlNode>>)
        ensures
            match r {
                Some(v) => self@ == TomlTree::List(trees_of(v@)),
                None => !(self@ is List),
            },
    {
        proof {
            lemma_tree_of(*self);
        }
        match self {
            TomlNode::List(v) => Some(v),
            _ => None,
        }
    }

    /// The tables of an array of tables.
    pub fn tables(&self) -> (r: Option<&Vec<TomlNode>>)
        ensures
            match r {
                Some(v) => self@ == TomlTree::Tables(trees_of(v@)),
                None => !(self@ is Tables),
            },
    {
        proof {
            lemma_tree_of(*self);
        }
        match self {
            TomlNode::Tables(v) => Some(v),
            _ => None,
        }
    }
}

/// The value under a key, where there is a table to look in.
pub fn node_in<'a>(node: Option<&'a TomlNode>, key: &str) -> (r: Option<&'a TomlNode>)
    ensures
        opt_tree(r) == get_in(opt_tree(node), key@),
{
    match node {
        Some(n) => n.get(key),
        None => None,
    }
}

/// The content of a string of its own, where there is one.
pub fn text_at(node: Option<&TomlNode>) -> (r: Option<String>)
    ensures
        opt_string(r) == text_in(opt_tree(node)),
{
    match node {
        Some(n) => match n.text() {
            Some(s) => Some(s.clone()),
            None => None,
        },
        None => None,
    }
}

/// The strings among the values of a list, in order.
pub open spec fn texts_among(list: Seq<TomlTree>) -> Seq<Seq<char>>
    decreases list.len(),
{
    if list.len() == 0 {
        seq![]
    } else {
        match list.last().text() {
            Some(s) => texts_among(list.drop_last()).push(s),
            None => texts_among(list.drop_last()),
        }
    }
}

/// The strings of an array, in order; none where there is no array.
pub open spec fn texts_in(tree: Option<TomlTree>) -> Seq<Seq<char>> {
    match tree {
        Some(t) => texts_among(t.list()),
        None => seq![],
    }
}

/// The strings of an array, in order; none where there is no array.
pub fn string_array(node: Option<&TomlNode>) -> (r: Vec<String>)
    ensures
        strings(r@) == texts_in(opt_tree(node)),
{
    let mut out: Vec<String> = Vec::new();
    if let Some(n) = node {
        if let Some(v) = n.list() {
            let ghost all = trees_of(v@);
            let mut i: usize = 0;
            assert(strings(out@) =~= texts_among(all.take(0)));
            while i < v.len()
                invariant
                    i <= v.len(),
                    all == trees_of(v@),
                    strings(out@) == texts_among(all.take(i as int)),
                decreases v.len() - i,
            {
                proof {
                    assert(all.take(i + 1).drop_last() =~= all.take(i as int));
                    assert(all.take(i + 1).last() == v@[i as int]@);
                }
                if let Some(s) = v[i].text() {
                    let ghost before = strings(out@);
                    let copy = s.clone();
                    out.push(copy);
                    assert(strings(out@) =~= before.push(s@));
                }
                i = i + 1;
            }
            assert(all.take(i as int) =~= all);
            return out;
        }
    }
    assert(strings(out@) =~= seq![]);
    out
}

} // verus!
