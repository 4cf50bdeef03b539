//! What an item's line and columns say: where in the manifest its version is written.
use super::place::{item_between, line_item, plus, quoted_item, with_item};
use super::position::{last_line, law_position_of_character, newlines, starts_of};
use crate::item::{DependencyKind, ItemView, PackageSource};
use crate::split::{lines_of, without_return};
use crate::text::{first, lemma_first, Class};
use crate::toml::{is_plain, literal_at, literals_stand, lookup, TomlTree};
use crate::width::{byte_len, lemma_byte_len_bounds, lemma_offset_grows};
use vstd::prelude::*;

verus! {

/// Whether the line and columns of an item are those of a part of a text: its line is the
/// number of line feeds before that part, its columns count the bytes since the last of
/// them, and they are as far apart as the part is long.
pub open spec fn spans(content: Seq<char>, item: ItemView, a: int, b: int) -> bool {
    &&& 0 <= a <= b <= content.len()
    &&& item.version_line == newlines(content.take(a))
    &&& item.version_col_start == byte_len(last_line(content.take(a)))
    &&& item.version_col_end == item.version_col_start + byte_len(content.subrange(a, b))
}

/// Whether the constraint of an item is what stands in a text at the item's line and
/// columns.
pub open spec fn is_written(content: Seq<char>, item: ItemView) -> bool {
    exists|a: int, b: int| #[trigger]
        spans(content, item, a, b) && content.subrange(a, b) == item.version_constraint
}

/// Whether all items are where they say they are.
pub open spec fn all_written(content: Seq<char>, items: Seq<ItemView>) -> bool {
    forall|i: int| 0 <= i < items.len() ==> is_written(content, #[trigger] items[i])
}

/// Whether all items with a position are where they say they are.
pub open spec fn positioned_written(content: Seq<char>, items: Seq<ItemView>) -> bool {
    forall|i: int|
        0 <= i < items.len() && (#[trigger] items[i]).positioned() ==> is_written(content, items[i])
}

/// Whether every item with a position is where it says it is, as far as it is noted as
/// written plainly.
pub open spec fn told(content: Seq<char>, items: Seq<ItemView>, plain: Seq<bool>) -> bool {
    &&& plain.len() == items.len()
    &&& forall|i: int|
        0 <= i < items.len() && plain[i] && (#[trigger] items[i]).positioned() ==> is_written(
            content,
            items[i],
        )
}

/// The notes on a list of items that are all written plainly.
pub open spec fn all_plain(items: Seq<ItemView>) -> Seq<bool> {
    items.map_values(|i: ItemView| true)
}

/// The notes on a list with one more item, where there is one.
pub open spec fn with_note(plain: Seq<bool>, item: Option<ItemView>, note: bool) -> Seq<bool> {
    match item {
        Some(_) => plain.push(note),
        None => plain,
    }
}

/// Items that are all where they say they are may all be noted as plain.
pub proof fn lemma_all_told(content: Seq<char>, items: Seq<ItemView>)
    requires
        positioned_written(content, items),
    ensures
        told(content, items, all_plain(items)),
{
}

/// One more item that is where it says it is.
pub proof fn lemma_told_with(
    content: Seq<char>,
    items: Seq<ItemView>,
    plain: Seq<bool>,
    item: Option<ItemView>,
    note: bool,
)
    requires
        told(content, items, plain),
        note ==> written_if_positioned(content, item),
    ensures
        told(content, with_item(items, item), with_note(plain, item, note)),
{
    if let Some(i) = item {
        let more = items.push(i);
        let notes = plain.push(note);
        assert forall|k: int|
            0 <= k < more.len() && notes[k] && (#[trigger] more[k]).positioned() implies is_written(
            content,
            more[k],
        ) by {
            if k < items.len() {
                assert(more[k] == items[k]);
            }
        }
    }
}

/// Two lists one after the other.
pub proof fn lemma_told_add(
    content: Seq<char>,
    a: Seq<ItemView>,
    f: Seq<bool>,
    b: Seq<ItemView>,
    g: Seq<bool>,
)
    requires
        told(content, a, f),
        told(content, b, g),
    ensures
        told(content, a + b, f + g),
{
    assert forall|k: int|
        0 <= k < (a + b).len() && (f + g)[k] && (#[trigger] (a + b)[k]).positioned() implies is_written(
        content,
        (a + b)[k],
    ) by {
        if k < a.len() {
            assert((a + b)[k] == a[k]);
        } else {
            assert((a + b)[k] == b[k - a.len()]);
        }
    }
}

/// Whether all items that can be rewritten are where they say they are.
pub open spec fn rewritable_written(content: Seq<char>, items: Seq<ItemView>) -> bool {
    forall|i: int|
        0 <= i < items.len() && (#[trigger] items[i]).rewritable() ==> is_written(content, items[i])
}

/// An item between the byte offsets of two characters spans what is between them.
pub proof fn lemma_between(
    content: Seq<char>,
    name: Seq<char>,
    constraint: Seq<char>,
    source: PackageSource,
    kind: DependencyKind,
    a: int,
    b: int,
)
    requires
        byte_len(content) <= usize::MAX,
        0 <= a <= b <= content.len(),
    ensures
        spans(
            content,
            item_between(
                starts_of(content),
                name,
                constraint,
                source,
                kind,
                byte_len(content.take(a)) as usize,
                byte_len(content.take(b)) as usize,
            ),
            a,
            b,
        ),
{
    law_position_of_character(content, a);
    lemma_offset_grows(content, a, b);
    lemma_byte_len_bounds(content.take(a));
    lemma_byte_len_bounds(content.subrange(a, b));
    lemma_line_bounds(content.take(a));
    lemma_byte_len_bounds(content);
}

/// A text has no more line feeds than characters, and its last line is no longer than it.
proof fn lemma_line_bounds(s: Seq<char>)
    ensures
        0 <= newlines(s) <= s.len(),
        0 <= byte_len(last_line(s)) <= byte_len(s),
    decreases s.len(),
{
    if s.len() > 0 {
        lemma_line_bounds(s.drop_last());
        if s.last() != '\n' {
            assert(last_line(s).drop_last() =~= last_line(s.drop_last()));
        }
    }
}

/// Where the line with a number begins.
pub open spec fn line_start(content: Seq<char>, n: int) -> int
    decreases n,
{
    if n <= 0 {
        0
    } else {
        let end = first(content, Class::Is('\n'));
        end + 1 + line_start(content.skip(end + 1), n - 1)
    }
}

/// Text without a line feed after a text does not change its number of line feeds, and
/// adds to its last line.
proof fn lemma_same_line(front: Seq<char>, more: Seq<char>)
    requires
        forall|i: int| 0 <= i < more.len() ==> more[i] != '\n',
    ensures
        newlines(front + more) == newlines(front),
        last_line(front + more) == last_line(front) + more,
    decreases more.len(),
{
    if more.len() == 0 {
        assert(front + more =~= front);
        assert(last_line(front) + more =~= last_line(front));
    } else {
        let less = more.drop_last();
        assert forall|i: int| 0 <= i < less.len() implies less[i] != '\n' by {
            assert(less[i] == more[i]);
        }
        lemma_same_line(front, less);
        assert((front + more).drop_last() =~= front + less);
        assert((front + more).last() == more.last());
        assert((last_line(front) + less).push(more.last()) =~= last_line(front) + more);
    }
}

/// The line feeds of two texts are those of the one and those of the other, and the last
/// line is that of the second where it holds a line feed or follows one.
proof fn lemma_newlines_add(a: Seq<char>, b: Seq<char>)
    requires
        a.len() == 0 || a.last() == '\n',
    ensures
        newlines(a + b) == newlines(a) + newlines(b),
        last_line(a + b) == last_line(b),
    decreases b.len(),
{
    if b.len() == 0 {
        assert(a + b =~= a);
    } else {
        lemma_newlines_add(a, b.drop_last());
        assert((a + b).drop_last() =~= a + b.drop_last());
        assert((a + b).last() == b.last());
    }
}

/// A line of a text stands where it begins, as many line feeds before it as its number
/// says, and no other character of its line.
pub proof fn lemma_line(content: Seq<char>, n: int)
    requires
        0 <= n < lines_of(content).len(),
    ensures
        ({
            let p = line_start(content, n);
            let line = lines_of(content)[n];
            &&& 0 <= p
            &&& p + line.len() <= content.len()
            &&& content.subrange(p, p + line.len()) == line
            &&& newlines(content.take(p)) == n
            &&& last_line(content.take(p)) == Seq::<char>::empty()
            &&& forall|i: int| 0 <= i < line.len() ==> line[i] != '\n'
        }),
    decreases content.len(),
{
    let end = first(content, Class::Is('\n'));
    lemma_first(content, Class::Is('\n'));
    assert forall|i: int| 0 <= i < end implies content[i] != '\n' by {
        assert(!Class::Is('\n').has(content[i]));
    }
    if end < content.len() {
        let rest = content.skip(end + 1);
        let whole = content.take(end);
        assert(lines_of(content) == seq![without_return(whole)] + lines_of(rest));
        if n == 0 {
            let line = without_return(whole);
            assert(lines_of(content)[0] == line);
            assert(line.len() <= whole.len());
            assert(content.take(0) =~= seq![]);
            assert(content.subrange(0, line.len() as int) =~= line);
        } else {
            assert(lines_of(content)[n] == lines_of(rest)[n - 1]);
            lemma_line(rest, n - 1);
            let q = line_start(rest, n - 1);
            let line = lines_of(rest)[n - 1];
            let p = line_start(content, n);
            assert(p == end + 1 + q);
            assert(content.subrange(p, p + line.len()) =~= rest.subrange(q, q + line.len()));
            let head = content.take(end + 1);
            assert(content.take(p) =~= head + rest.take(q));
            assert(head.last() == content[end]);
            assert(Class::Is('\n').has(content[end]));
            lemma_newlines_add(head, rest.take(q));
            assert(head.drop_last() =~= whole);
            lemma_same_line(Seq::empty(), whole);
            assert(Seq::<char>::empty() + whole =~= whole);
        }
    } else {
        assert(content.len() > 0);
        assert(lines_of(content) =~= seq![content]);
        assert(content.take(0) =~= seq![]);
        assert(content.subrange(0, content.len() as int) =~= content);
    }
}

/// An item on a line of a text is where it says it is.
pub proof fn lemma_on_line(
    content: Seq<char>,
    name: Seq<char>,
    kind: DependencyKind,
    n: int,
    from: int,
    to: int,
)
    requires
        byte_len(content) <= usize::MAX,
        0 <= n < lines_of(content).len(),
        0 <= from <= to <= lines_of(content)[n].len(),
    ensures
        is_written(
            content,
            line_item(name, kind, n as usize, lines_of(content)[n], from, to),
        ),
{
    let line = lines_of(content)[n];
    let p = line_start(content, n);
    let item = line_item(name, kind, n as usize, line, from, to);
    lemma_line(content, n);
    lemma_line_bounds(content.take(p));
    lemma_byte_len_bounds(content);
    let a = p + from;
    let b = p + to;
    assert(content.take(a) =~= content.take(p) + line.take(from)) by {
        assert forall|i: int| p <= i < a implies content[i] == line[i - p] by {
            assert(content.subrange(p, p + line.len())[i - p] == line[i - p]);
        }
    }
    lemma_same_line(content.take(p), line.take(from));
    assert(Seq::<char>::empty() + line.take(from) =~= line.take(from));
    assert(content.subrange(a, b) =~= line.subrange(from, to)) by {
        assert forall|i: int| a <= i < b implies content[i] == line[i - p] by {
            assert(content.subrange(p, p + line.len())[i - p] == line[i - p]);
        }
    }
    lemma_offset_grows(line, from, to);
    lemma_byte_len_bounds(line.take(from));
    lemma_byte_len_bounds(line.subrange(from, to));
    // The line is a part of the content, so its bytes are counted without loss.
    lemma_offset_grows(content, p, p + line.len());
    lemma_byte_len_bounds(content.take(p));
    assert(spans(content, item, a, b));
}

/// Whether an item is where it says it is does not depend on its name or its lock.
pub proof fn lemma_same_place(content: Seq<char>, i: ItemView, j: ItemView)
    requires
        is_written(content, i),
        i.version_constraint == j.version_constraint,
        i.version_line == j.version_line,
        i.version_col_start == j.version_col_start,
        i.version_col_end == j.version_col_end,
    ensures
        is_written(content, j),
{
    let (a, b) = choose|a: int, b: int| #[trigger]
        spans(content, i, a, b) && content.subrange(a, b) == i.version_constraint;
    assert(spans(content, j, a, b));
}

/// A part of the beginning of a line is that part of the line.
pub proof fn lemma_line_prefix(
    name: Seq<char>,
    kind: DependencyKind,
    n: usize,
    line: Seq<char>,
    m: int,
    from: int,
    to: int,
)
    requires
        0 <= from <= to <= m <= line.len(),
    ensures
        line_item(name, kind, n, line.take(m), from, to) == line_item(
            name,
            kind,
            n,
            line,
            from,
            to,
        ),
{
    assert(line.take(m).subrange(from, to) =~= line.subrange(from, to));
    assert(line.take(m).take(from) =~= line.take(from));
    assert(line.take(m).take(to) =~= line.take(to));
}

/// Whether the item, where there is one with a position, is where it says it is.
pub open spec fn written_if_positioned(content: Seq<char>, item: Option<ItemView>) -> bool {
    item matches Some(i) ==> i.positioned() ==> is_written(content, i)
}

/// Whether the literal at a byte range is written in one pair of quotes and without a
/// backslash.
pub open spec fn plain_at(content: Seq<char>, span: (usize, usize)) -> bool {
    forall|a: int, b: int|
        0 <= a < b <= content.len() && span.0 == #[trigger] byte_len(content.take(a)) && span.1
            == #[trigger] byte_len(content.take(b)) ==> is_plain(content.subrange(a, b))
}

/// Whether every string of a tree is written in one pair of quotes and without a
/// backslash.
pub open spec fn plain_strings(content: Seq<char>, tree: TomlTree) -> bool
    decreases tree,
{
    match tree {
        TomlTree::Text { span, .. } => span matches Some(at) ==> plain_at(content, at),
        TomlTree::List(l) => forall|i: int|
            0 <= i < l.len() ==> plain_strings(content, #[trigger] l[i]),
        TomlTree::Table(e) => forall|i: int|
            0 <= i < e.len() ==> plain_strings(content, (#[trigger] e[i]).1),
        TomlTree::Tables(l) => forall|i: int|
            0 <= i < l.len() ==> plain_strings(content, #[trigger] l[i]),
        _ => true,
    }
}

proof fn lemma_lookup_stands(content: Seq<char>, e: Seq<(Seq<char>, TomlTree)>, key: Seq<char>)
    requires
        forall|i: int| 0 <= i < e.len() ==> literals_stand(content, (#[trigger] e[i]).1),
    ensures
        lookup(e, key) matches Some(t) ==> literals_stand(content, t),
        (forall|i: int| 0 <= i < e.len() ==> plain_strings(content, (#[trigger] e[i]).1)) ==> (
        lookup(e, key) matches Some(t) ==> plain_strings(content, t)),
    decreases e.len(),
{
    if e.len() > 0 {
        let rest = e.drop_first();
        assert forall|i: int| 0 <= i < rest.len() implies literals_stand(
            content,
            (#[trigger] rest[i]).1,
        ) by {
            assert(rest[i] == e[i + 1]);
        }
        lemma_lookup_stands(content, rest, key);
        if forall|i: int| 0 <= i < e.len() ==> plain_strings(content, (#[trigger] e[i]).1) {
            assert forall|i: int| 0 <= i < rest.len() implies plain_strings(
                content,
                (#[trigger] rest[i]).1,
            ) by {
                assert(rest[i] == e[i + 1]);
            }
        }
    }
}

/// What stands in a tree stands under each of its keys, and what is plain in it is plain
/// there.
pub proof fn lemma_get_stands(content: Seq<char>, tree: TomlTree, key: Seq<char>)
    requires
        literals_stand(content, tree),
    ensures
        tree.get(key) matches Some(t) ==> literals_stand(content, t),
        plain_strings(content, tree) ==> (tree.get(key) matches Some(t) ==> plain_strings(
            content,
            t,
        )),
{
    lemma_lookup_stands(content, tree.entries(), key);
}

/// A quote is one byte, so the content of a literal begins one byte after it.
proof fn lemma_inside(content: Seq<char>, a: int, b: int)
    requires
        byte_len(content) <= usize::MAX,
        0 <= a,
        a + 2 <= b <= content.len(),
        content[a] == '"' || content[a] == '\'',
        content[b - 1] == content[a],
    ensures
        byte_len(content.take(a + 1)) == byte_len(content.take(a)) + 1,
        byte_len(content.take(b - 1)) == byte_len(content.take(b)) - 1,
        0 <= byte_len(content.take(a)),
        byte_len(content.take(b)) <= usize::MAX,
{
    assert(content.take(a + 1).drop_last() =~= content.take(a));
    assert(content.take(b).drop_last() =~= content.take(b - 1));
    lemma_offset_grows(content, a, b);
    lemma_byte_len_bounds(content.take(a));
}

/// The item of a plain string literal is where it says it is.
pub proof fn lemma_quoted(
    content: Seq<char>,
    name: Seq<char>,
    value: Seq<char>,
    source: PackageSource,
    kind: DependencyKind,
    at: (usize, usize),
)
    requires
        byte_len(content) <= usize::MAX,
        exists|a: int, b: int| literal_at(content, value, at, a, b),
        plain_at(content, at),
    ensures
        is_written(content, quoted_item(starts_of(content), name, value, source, kind, at)),
{
    let (a, b) = choose|a: int, b: int| literal_at(content, value, at, a, b);
    lemma_inside(content, a, b);
    lemma_offset_grows(content, a + 1, b - 1);
    lemma_between(content, name, value, source, kind, a + 1, b - 1);
    let item = quoted_item(starts_of(content), name, value, source, kind, at);
    assert(spans(content, item, a + 1, b - 1));
    assert(content.subrange(a + 1, b - 1) == value);
}

/// The item of a part of a plain string literal is where it says it is.
pub proof fn lemma_quoted_part(
    content: Seq<char>,
    name: Seq<char>,
    value: Seq<char>,
    source: PackageSource,
    kind: DependencyKind,
    at: (usize, usize),
    from: int,
    to: int,
)
    requires
        byte_len(content) <= usize::MAX,
        exists|a: int, b: int| literal_at(content, value, at, a, b),
        plain_at(content, at),
        0 <= from <= to <= value.len(),
    ensures
        ({
            let start = plus(plus(at.0, 1), byte_len(value.take(from)) as usize);
            is_written(
                content,
                item_between(
                    starts_of(content),
                    name,
                    value.subrange(from, to),
                    source,
                    kind,
                    start,
                    plus(start, byte_len(value.subrange(from, to)) as usize),
                ),
            )
        }),
{
    let (a, b) = choose|a: int, b: int| literal_at(content, value, at, a, b);
    lemma_inside(content, a, b);
    assert(content.subrange(a + 1, b - 1) == value);
    let c = a + 1 + from;
    let d = a + 1 + to;
    lemma_offset_grows(content, a + 1, c);
    lemma_offset_grows(content, c, d);
    assert(content.subrange(a + 1, c) =~= value.take(from));
    assert(content.subrange(c, d) =~= value.subrange(from, to));
    lemma_byte_len_bounds(value.take(from));
    lemma_byte_len_bounds(value.subrange(from, to));
    lemma_between(content, name, value.subrange(from, to), source, kind, c, d);
}

} // verus!
