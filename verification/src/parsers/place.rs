//! Items and where they are written.
use super::position::{is_starts, located, offset_to_line_col};
use crate::item::{
    item_views, lemma_item_views_push, DependencyKind, Item, ItemView, PackageSource,
};
use crate::text::{part, string_of};
use crate::width::{byte_len, column, lemma_byte_len_bounds, lemma_offset_grows};
use vstd::prelude::*;

verus! {

/// The sum of two offsets, or the largest offset where it would be larger.
pub open spec fn plus(a: usize, b: usize) -> usize {
    if a + b <= usize::MAX {
        (a + b) as usize
    } else {
        usize::MAX
    }
}

/// The difference of two offsets, or 0 where it would be negative.
pub open spec fn minus(a: usize, b: usize) -> usize {
    if a >= b {
        (a - b) as usize
    } else {
        0
    }
}

/// An item that states no version here.
pub open spec fn bare_item(name: Seq<char>, source: PackageSource, kind: DependencyKind) -> ItemView {
    ItemView {
        name,
        version_constraint: seq![],
        source,
        version_line: 0,
        version_col_start: 0,
        version_col_end: 0,
        registry: None,
        locked_version: None,
        kind,
    }
}

/// An item whose version is the text between two byte offsets.
pub open spec fn item_between(
    starts: Seq<usize>,
    name: Seq<char>,
    constraint: Seq<char>,
    source: PackageSource,
    kind: DependencyKind,
    from: usize,
    to: usize,
) -> ItemView {
    let (line, col) = located(starts, from);
    ItemView {
        name,
        version_constraint: constraint,
        source,
        version_line: line,
        version_col_start: col,
        version_col_end: plus(col, minus(to, from)),
        registry: None,
        locked_version: None,
        kind,
    }
}

/// An item whose version is the content of a quoted string.
pub open spec fn quoted_item(
    starts: Seq<usize>,
    name: Seq<char>,
    constraint: Seq<char>,
    source: PackageSource,
    kind: DependencyKind,
    span: (usize, usize),
) -> ItemView {
    item_between(starts, name, constraint, source, kind, plus(span.0, 1), minus(span.1, 1))
}

/// An item that states no version here.
pub fn make_bare(name: String, source: PackageSource, kind: DependencyKind) -> (r: Item)
    ensures
        r@ == bare_item(name@, source, kind),
{
    let r = Item {
        name,
        version_constraint: String::new(),
        source,
        version_line: 0,
        version_col_start: 0,
        version_col_end: 0,
        registry: None,
        locked_version: None,
        kind,
    };
    assert(r@.version_constraint =~= seq![]);
    r
}

/// An item whose version is the text between two byte offsets.
pub fn make_between(
    starts: &[usize],
    name: String,
    constraint: String,
    source: PackageSource,
    kind: DependencyKind,
    from: usize,
    to: usize,
) -> (r: Item)
    requires
        is_starts(starts@),
    ensures
        r@ == item_between(starts@, name@, constraint@, source, kind, from, to),
{
    let (line, col): (usize, usize) = offset_to_line_col(starts, from);
    let wide: usize = if to >= from {
        to - from
    } else {
        0
    };
    let end: usize = if usize::MAX - col >= wide {
        col + wide
    } else {
        usize::MAX
    };
    Item {
        name,
        version_constraint: constraint,
        source,
        version_line: line,
        version_col_start: col,
        version_col_end: end,
        registry: None,
        locked_version: None,
        kind,
    }
}

/// An item whose version is the content of a quoted string.
pub fn make_quoted(
    starts: &[usize],
    name: String,
    constraint: String,
    source: PackageSource,
    kind: DependencyKind,
    span: (usize, usize),
) -> (r: Item)
    requires
        is_starts(starts@),
    ensures
        r@ == quoted_item(starts@, name@, constraint@, source, kind, span),
{
    let from: usize = if span.0 < usize::MAX {
        span.0 + 1
    } else {
        usize::MAX
    };
    let to: usize = if span.1 > 0 {
        span.1 - 1
    } else {
        0
    };
    make_between(starts, name, constraint, source, kind, from, to)
}

/// What an optional item says.
pub open spec fn opt_item(o: Option<Item>) -> Option<ItemView> {
    match o {
        Some(i) => Some(i@),
        None => None,
    }
}

/// A list with one more item, where there is one.
pub open spec fn with_item(items: Seq<ItemView>, o: Option<ItemView>) -> Seq<ItemView> {
    match o {
        Some(i) => items.push(i),
        None => items,
    }
}

/// Add an item to a list, where there is one.
pub fn add_item(items: &mut Vec<Item>, o: Option<Item>)
    ensures
        item_views(final(items)@) == with_item(item_views(old(items)@), opt_item(o)),
{
    if let Some(i) = o {
        proof {
            lemma_item_views_push(items@, i);
        }
        items.push(i);
    }
}

/// The sum of two offsets, or the largest offset where it would be larger.
pub fn offset_plus(a: usize, b: usize) -> (r: usize)
    ensures
        r == plus(a, b),
{
    if usize::MAX - a >= b {
        a + b
    } else {
        usize::MAX
    }
}

/// An item whose version is a part of a line.
pub open spec fn line_item(
    name: Seq<char>,
    kind: DependencyKind,
    number: usize,
    line: Seq<char>,
    from: int,
    to: int,
) -> ItemView {
    ItemView {
        name,
        version_constraint: line.subrange(from, to),
        source: PackageSource::Registry,
        version_line: number,
        version_col_start: byte_len(line.take(from)) as usize,
        version_col_end: byte_len(line.take(to)) as usize,
        registry: None,
        locked_version: None,
        kind,
    }
}

/// An item whose version is a part of a line.
pub fn make_line(
    name: String,
    kind: DependencyKind,
    number: usize,
    line: &[char],
    from: usize,
    to: usize,
) -> (r: Item)
    requires
        from <= to <= line@.len(),
    ensures
        r@ == line_item(name@, kind, number, line@, from as int, to as int),
{
    Item {
        name,
        version_constraint: string_of(part(line, from, to)),
        source: PackageSource::Registry,
        version_line: number,
        version_col_start: column(line, from),
        version_col_end: column(line, to),
        registry: None,
        locked_version: None,
        kind,
    }
}

/// The columns of an item on a line are in order, within the line, and as far apart as
/// its version is long.
pub proof fn law_line_item_span(
    name: Seq<char>,
    kind: DependencyKind,
    number: usize,
    line: Seq<char>,
    from: int,
    to: int,
)
    requires
        0 <= from <= to <= line.len(),
        byte_len(line) <= usize::MAX,
    ensures
        ({
            let i = line_item(name, kind, number, line, from, to);
            &&& i.version_col_end - i.version_col_start == byte_len(i.version_constraint)
            &&& i.version_col_end <= byte_len(line)
        }),
{
    lemma_offset_grows(line, from, to);
    lemma_byte_len_bounds(line.take(from));
}

} // verus!
