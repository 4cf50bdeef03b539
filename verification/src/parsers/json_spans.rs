//! Where the string values of a JSON document stand, and the dependencies they declare.
use super::alias::{alias_item, alias_of, registry_of};
use super::composer_json::{composer_item, composer_items, composer_kind, composer_plain};
use super::deno_json::{deno_item, deno_items, deno_plain};
use super::json_scan::{
    ahead, document_scan, elements_scan, law_unescaped_plain, lemma_elements_scan,
    lemma_members_scan, lemma_string_end, lemma_trivia_end, lemma_value_scan, members_scan,
    string_at, string_end, trivia_end, unescaped, value_scan, StringView,
};
use super::package_json::{entry_of, is_stated, package_item, package_items, package_plain};
use super::place::item_between;
use super::position::starts_of;
use super::spans::{
    is_written, lemma_between, lemma_told_with, rewritable_written, told, written_if_positioned,
};
use crate::item::{DependencyKind, PackageSource};
use crate::number::decimal;
use crate::text::{last, lemma_last, Class};
use crate::width::{byte_len, lemma_byte_len_bounds, lemma_offset_grows};
use vstd::prelude::*;

verus! {

/// Whether a string value is what stands between two positions of a document, with a
/// quote on either side.
pub open spec fn stands_at(s: Seq<char>, v: StringView, a: int, b: int) -> bool {
    &&& 0 < a <= b < s.len()
    &&& s[a - 1] == '"'
    &&& s[b] == '"'
    &&& v.content_start == byte_len(s.take(a)) as usize
    &&& v.content_end == byte_len(s.take(b)) as usize
    &&& v.value == unescaped(s.subrange(a, b))
    &&& v.escaped == s.subrange(a, b).contains('\\')
}

/// Whether a string value stands in a document where it says it does.
pub open spec fn is_found(s: Seq<char>, v: StringView) -> bool {
    exists|a: int, b: int| stands_at(s, v, a, b)
}

/// Whether all string values stand where they say they do.
pub open spec fn all_found(s: Seq<char>, found: Seq<StringView>) -> bool {
    forall|i: int| 0 <= i < found.len() ==> is_found(s, #[trigger] found[i])
}

proof fn lemma_all_found_add(s: Seq<char>, a: Seq<StringView>, b: Seq<StringView>)
    requires
        all_found(s, a),
        all_found(s, b),
    ensures
        all_found(s, a + b),
{
    assert forall|i: int| 0 <= i < (a + b).len() implies is_found(s, #[trigger] (a + b)[i]) by {
        if i < a.len() {
            assert((a + b)[i] == a[i]);
        } else {
            assert((a + b)[i] == b[i - a.len()]);
        }
    }
}

proof fn lemma_value_found(s: Seq<char>, i: int, path: Seq<Seq<char>>)
    requires
        0 <= i <= s.len(),
    ensures
        all_found(s, value_scan(s, i, path).found),
    decreases ahead(s, i), 0int,
{
    if i < s.len() {
        if s[i] == '{' {
            lemma_members_found(s, i + 1, path);
        } else if s[i] == '[' {
            lemma_elements_found(s, i + 1, path, 0);
        } else if s[i] == '"' {
            lemma_string_end(s, i + 1);
            let end = string_end(s, i + 1);
            if end < s.len() {
                let v = value_scan(s, i, path).found[0];
                assert(stands_at(s, v, i + 1, end));
            }
        }
    }
}

proof fn lemma_members_found(s: Seq<char>, i: int, path: Seq<Seq<char>>)
    requires
        0 <= i <= s.len(),
    ensures
        all_found(s, members_scan(s, i, path).found),
    decreases ahead(s, i), 1int,
{
    lemma_trivia_end(s, i);
    let t = trivia_end(s, i);
    if t < s.len() {
        if s[t] == '}' {
        } else if s[t] != '"' {
            lemma_members_found(s, t + 1, path);
            lemma_all_found_add(s, seq![], members_scan(s, t + 1, path).found);
        } else {
            lemma_string_end(s, t + 1);
            let end = string_end(s, t + 1);
            if end < s.len() {
                lemma_trivia_end(s, end + 1);
                let c = trivia_end(s, end + 1);
                if c >= s.len() || s[c] != ':' {
                    lemma_members_found(s, c, path);
                    lemma_all_found_add(s, seq![], members_scan(s, c, path).found);
                } else {
                    lemma_trivia_end(s, c + 1);
                    let v = trivia_end(s, c + 1);
                    let key = unescaped(s.subrange(t + 1, end));
                    lemma_value_scan(s, v, path.push(key));
                    lemma_value_found(s, v, path.push(key));
                    let value = value_scan(s, v, path.push(key));
                    lemma_members_found(s, value.next, path);
                    lemma_all_found_add(
                        s,
                        value.found,
                        members_scan(s, value.next, path).found,
                    );
                }
            }
        }
    }
}

proof fn lemma_elements_found(s: Seq<char>, i: int, path: Seq<Seq<char>>, n: nat)
    requires
        0 <= i <= s.len(),
    ensures
        all_found(s, elements_scan(s, i, path, n).found),
    decreases ahead(s, i), 1int,
{
    lemma_trivia_end(s, i);
    let t = trivia_end(s, i);
    if t < s.len() {
        if s[t] == ']' {
        } else if s[t] == ',' {
            lemma_elements_found(s, t + 1, path, n);
        } else {
            let value = value_scan(s, t, path.push(decimal(n)));
            lemma_value_scan(s, t, path.push(decimal(n)));
            lemma_value_found(s, t, path.push(decimal(n)));
            lemma_elements_found(s, value.next, path, n + 1);
            lemma_all_found_add(
                s,
                value.found,
                elements_scan(s, value.next, path, n + 1).found,
            );
        }
    }
}

/// Every string value of a document stands between two quotes at the byte offsets
/// recorded for it, and is what is written there without its escapes.
pub proof fn law_values_stand_where_recorded(s: Seq<char>)
    ensures
        all_found(s, document_scan(s).found),
{
    lemma_trivia_end(s, 0);
    lemma_value_found(s, trivia_end(s, 0), seq![]);
}

/// Whether string values stand one after another between two byte offsets, none within
/// another.
pub open spec fn in_order(found: Seq<StringView>, from: int, to: int) -> bool {
    &&& forall|i: int|
        0 <= i < found.len() ==> from < (#[trigger] found[i]).content_start
            && found[i].content_start <= found[i].content_end < to
    &&& forall|i: int, j: int|
        0 <= i < j < found.len() ==> (#[trigger] found[i]).content_end < (
        #[trigger] found[j]).content_start
}

/// Where a position is, in bytes.
spec fn offset(s: Seq<char>, i: int) -> int {
    byte_len(s.take(i))
}

/// Values between two positions, and then values from there on, are in order.
proof fn lemma_in_order_add(
    s: Seq<char>,
    a: Seq<StringView>,
    b: Seq<StringView>,
    from: int,
    mid: int,
    to: int,
)
    requires
        0 <= from <= mid <= to <= s.len(),
        in_order(a, offset(s, from), offset(s, mid)),
        in_order(b, offset(s, mid), offset(s, to)),
    ensures
        in_order(a + b, offset(s, from), offset(s, to)),
{
    lemma_offset_grows(s, from, mid);
    lemma_offset_grows(s, mid, to);
    let c = a + b;
    assert forall|i: int| 0 <= i < c.len() implies offset(s, from) < (
    #[trigger] c[i]).content_start && c[i].content_start <= c[i].content_end < offset(s, to) by {
        if i < a.len() {
            assert(c[i] == a[i]);
        } else {
            assert(c[i] == b[i - a.len()]);
        }
    }
    assert forall|i: int, j: int| 0 <= i < j < c.len() implies (#[trigger] c[i]).content_end < (
    #[trigger] c[j]).content_start by {
        if j < a.len() {
            assert(c[i] == a[i] && c[j] == a[j]);
        } else if i < a.len() {
            assert(c[i] == a[i] && c[j] == b[j - a.len()]);
        } else {
            assert(c[i] == b[i - a.len()] && c[j] == b[j - a.len()]);
        }
    }
}

/// Values in order are so from any earlier position on.
proof fn lemma_in_order_from(s: Seq<char>, found: Seq<StringView>, from: int, mid: int, to: int)
    requires
        0 <= from <= mid <= to <= s.len(),
        in_order(found, offset(s, mid), offset(s, to)),
    ensures
        in_order(found, offset(s, from), offset(s, to)),
{
    lemma_offset_grows(s, from, mid);
}

proof fn lemma_value_order(s: Seq<char>, i: int, path: Seq<Seq<char>>)
    requires
        0 <= i <= s.len(),
        byte_len(s) <= usize::MAX,
    ensures
        in_order(
            value_scan(s, i, path).found,
            offset(s, i),
            offset(s, value_scan(s, i, path).next),
        ),
    decreases ahead(s, i), 0int,
{
    lemma_value_scan(s, i, path);
    let next = value_scan(s, i, path).next;
    if i < s.len() {
        if s[i] == '{' {
            lemma_members_order(s, i + 1, path);
            lemma_members_scan(s, i + 1, path);
            lemma_in_order_from(s, value_scan(s, i, path).found, i, i + 1, next);
        } else if s[i] == '[' {
            lemma_elements_order(s, i + 1, path, 0);
            lemma_elements_scan(s, i + 1, path, 0);
            lemma_in_order_from(s, value_scan(s, i, path).found, i, i + 1, next);
        } else if s[i] == '"' {
            lemma_string_end(s, i + 1);
            let end = string_end(s, i + 1);
            if end < s.len() {
                lemma_offset_grows(s, i, i + 1);
                lemma_offset_grows(s, i + 1, end);
                lemma_offset_grows(s, end, end + 1);
                lemma_byte_len_bounds(s.take(i + 1));
                lemma_byte_len_bounds(s.take(end));
                let found = value_scan(s, i, path).found;
                assert(found.len() == 1 && found[0] == string_at(s, i + 1, path));
            }
        }
    }
}

proof fn lemma_members_order(s: Seq<char>, i: int, path: Seq<Seq<char>>)
    requires
        0 <= i <= s.len(),
        byte_len(s) <= usize::MAX,
    ensures
        in_order(
            members_scan(s, i, path).found,
            offset(s, i),
            offset(s, members_scan(s, i, path).next),
        ),
    decreases ahead(s, i), 1int,
{
    lemma_members_scan(s, i, path);
    let scan = members_scan(s, i, path);
    lemma_trivia_end(s, i);
    let t = trivia_end(s, i);
    if t < s.len() {
        if s[t] == '}' {
        } else if s[t] != '"' {
            lemma_members_order(s, t + 1, path);
            lemma_members_scan(s, t + 1, path);
            assert(scan.found =~= members_scan(s, t + 1, path).found);
            lemma_in_order_from(s, scan.found, i, t + 1, scan.next);
        } else {
            lemma_string_end(s, t + 1);
            let end = string_end(s, t + 1);
            if end < s.len() {
                lemma_trivia_end(s, end + 1);
                let c = trivia_end(s, end + 1);
                if c >= s.len() || s[c] != ':' {
                    lemma_members_order(s, c, path);
                    lemma_members_scan(s, c, path);
                    assert(scan.found =~= members_scan(s, c, path).found);
                    lemma_in_order_from(s, scan.found, i, c, scan.next);
                } else {
                    lemma_trivia_end(s, c + 1);
                    let v = trivia_end(s, c + 1);
                    let key = unescaped(s.subrange(t + 1, end));
                    lemma_value_scan(s, v, path.push(key));
                    lemma_value_order(s, v, path.push(key));
                    let value = value_scan(s, v, path.push(key));
                    lemma_members_order(s, value.next, path);
                    lemma_members_scan(s, value.next, path);
                    let rest = members_scan(s, value.next, path);
                    lemma_in_order_add(s, value.found, rest.found, v, value.next, rest.next);
                    lemma_in_order_from(s, scan.found, i, v, scan.next);
                }
            }
        }
    }
}

proof fn lemma_elements_order(s: Seq<char>, i: int, path: Seq<Seq<char>>, n: nat)
    requires
        0 <= i <= s.len(),
        byte_len(s) <= usize::MAX,
    ensures
        in_order(
            elements_scan(s, i, path, n).found,
            offset(s, i),
            offset(s, elements_scan(s, i, path, n).next),
        ),
    decreases ahead(s, i), 1int,
{
    lemma_elements_scan(s, i, path, n);
    let scan = elements_scan(s, i, path, n);
    lemma_trivia_end(s, i);
    let t = trivia_end(s, i);
    if t < s.len() {
        if s[t] == ']' {
        } else if s[t] == ',' {
            lemma_elements_order(s, t + 1, path, n);
            lemma_elements_scan(s, t + 1, path, n);
            lemma_in_order_from(s, scan.found, i, t + 1, scan.next);
        } else {
            let value = value_scan(s, t, path.push(decimal(n)));
            lemma_value_scan(s, t, path.push(decimal(n)));
            lemma_value_order(s, t, path.push(decimal(n)));
            lemma_elements_order(s, value.next, path, n + 1);
            lemma_elements_scan(s, value.next, path, n + 1);
            let rest = elements_scan(s, value.next, path, n + 1);
            lemma_in_order_add(s, value.found, rest.found, t, value.next, rest.next);
            lemma_in_order_from(s, scan.found, i, t, scan.next);
        }
    }
}

/// The string values of a document come in the order in which they are written, and none
/// lies within another.
pub proof fn law_values_ascend(s: Seq<char>)
    requires
        byte_len(s) <= usize::MAX,
    ensures
        in_order(document_scan(s).found, 0, byte_len(s)),
{
    lemma_trivia_end(s, 0);
    let t = trivia_end(s, 0);
    lemma_value_order(s, t, seq![]);
    lemma_value_scan(s, t, seq![]);
    let next = value_scan(s, t, seq![]).next;
    lemma_offset_grows(s, 0, t);
    lemma_byte_len_bounds(s.take(0));
    lemma_offset_grows(s, next, s.len() as int);
}

/// The item of a value that is written without escapes is where it says it is.
proof fn lemma_plain_item(
    content: Seq<char>,
    v: StringView,
    name: Seq<char>,
    source: PackageSource,
    kind: DependencyKind,
)
    requires
        byte_len(content) <= usize::MAX,
        is_found(content, v),
        !v.escaped,
    ensures
        is_written(
            content,
            item_between(
                starts_of(content),
                name,
                v.value,
                source,
                kind,
                v.content_start,
                v.content_end,
            ),
        ),
{
    let (a, b) = choose|a: int, b: int| stands_at(content, v, a, b);
    law_unescaped_plain(content.subrange(a, b));
    lemma_between(content, name, v.value, source, kind, a, b);
}

/// The item of an alias that is written without escapes is where it says it is.
proof fn lemma_alias_item(
    content: Seq<char>,
    v: StringView,
    source: PackageSource,
    kind: DependencyKind,
)
    requires
        byte_len(content) <= usize::MAX,
        is_found(content, v),
        !v.escaped,
        v.value.len() >= 4,
    ensures
        is_written(content, alias_item(starts_of(content), v, source, kind, true)),
{
    let (a, b) = choose|a: int, b: int| stands_at(content, v, a, b);
    law_unescaped_plain(content.subrange(a, b));
    let al = alias_of(v.value, 4);
    let rest = v.value.skip(4);
    lemma_last(rest, Class::Is('@'));
    let m = a + al.at;
    assert(content.subrange(m, b) =~= al.version) by {
        assert(v.value == content.subrange(a, b));
    }
    lemma_offset_grows(content, a, m);
    lemma_offset_grows(content, m, b);
    assert(content.subrange(a, m) =~= v.value.take(al.at));
    lemma_byte_len_bounds(content.take(a));
    lemma_byte_len_bounds(v.value.take(al.at));
    lemma_byte_len_bounds(content.take(b));
    lemma_between(content, al.name, al.version, source, kind, m, b);
}

/// An alias is at least as long as its prefix.
proof fn lemma_alias_len(value: Seq<char>)
    requires
        registry_of(value) is Some,
    ensures
        value.len() >= 4,
{
    reveal_strlit("npm:");
    reveal_strlit("jsr:");
}

/// A dependency of a `package.json` that can be rewritten has its constraint at the line
/// and columns recorded for it.
pub proof fn law_package_json_written(content: Seq<char>)
    requires
        byte_len(content) <= usize::MAX,
    ensures
        rewritable_written(
            content,
            package_items(
                starts_of(content),
                document_scan(content).found,
                document_scan(content).found,
            ),
        ),
{
    let found = document_scan(content).found;
    law_values_stand_where_recorded(content);
    lemma_package_written(content, found, found.len() as int);
    assert(found.take(found.len() as int) =~= found);
}

proof fn lemma_package_written(content: Seq<char>, found: Seq<StringView>, k: int)
    requires
        byte_len(content) <= usize::MAX,
        all_found(content, found),
        0 <= k <= found.len(),
    ensures
        rewritable_written(content, package_items(starts_of(content), found, found.take(k))),
    decreases k,
{
    if k > 0 {
        lemma_package_written(content, found, k - 1);
        assert(found.take(k).drop_last() =~= found.take(k - 1));
        assert(found.take(k).last() == found[k - 1]);
        lemma_package_item(content, found, found[k - 1]);
    }
}

proof fn lemma_package_item(content: Seq<char>, found: Seq<StringView>, v: StringView)
    requires
        byte_len(content) <= usize::MAX,
        is_found(content, v),
    ensures
        package_item(starts_of(content), found, v) matches Some(item) ==> item.rewritable()
            ==> is_written(content, item),
        is_stated(v) ==> written_if_positioned(
            content,
            package_item(starts_of(content), found, v),
        ),
{
    if let Some((key, kind)) = entry_of(v.path) {
        if !v.escaped {
            lemma_plain_item(content, v, key, PackageSource::Registry, kind);
            if let Some(source) = registry_of(v.value) {
                lemma_alias_len(v.value);
                lemma_alias_item(content, v, source, kind);
            }
        }
        if let Some(item) = package_item(starts_of(content), found, v) {
            if v.value.len() == 0 {
                if registry_of(v.value) is Some {
                    lemma_alias_len(v.value);
                }
            }
        }
    }
}

/// A dependency of a `deno.json` whose specifier is written without escapes has its
/// constraint at the line and columns recorded for it.
pub proof fn law_deno_json_written(content: Seq<char>, i: int)
    requires
        byte_len(content) <= usize::MAX,
        0 <= i < document_scan(content).found.len(),
        !document_scan(content).found[i].escaped,
    ensures
        deno_item(starts_of(content), document_scan(content).found[i]) matches Some(item)
            ==> is_written(content, item),
{
    let v = document_scan(content).found[i];
    law_values_stand_where_recorded(content);
    assert(is_found(content, v));
    if let Some(source) = registry_of(v.value) {
        lemma_alias_len(v.value);
        lemma_alias_item(content, v, source, DependencyKind::Normal);
    }
}

/// A dependency of a `composer.json` whose constraint is written without escapes has it at
/// the line and columns recorded for it.
pub proof fn law_composer_json_written(content: Seq<char>, i: int)
    requires
        byte_len(content) <= usize::MAX,
        0 <= i < document_scan(content).found.len(),
        !document_scan(content).found[i].escaped,
    ensures
        composer_item(starts_of(content), document_scan(content).found[i]) matches Some(item)
            ==> is_written(content, item),
{
    let v = document_scan(content).found[i];
    law_values_stand_where_recorded(content);
    assert(is_found(content, v));
    if composer_item(starts_of(content), v) is Some {
        lemma_plain_item(
            content,
            v,
            v.path[1],
            PackageSource::Registry,
            composer_kind(v.path[0])->0,
        );
    }
}

/// The dependencies of a document that are noted as plain are where they say they are.
pub proof fn lemma_deno_told(content: Seq<char>)
    requires
        byte_len(content) <= usize::MAX,
    ensures
        told(
            content,
            deno_items(starts_of(content), document_scan(content).found),
            deno_plain(starts_of(content), document_scan(content).found),
        ),
{
    let found = document_scan(content).found;
    lemma_deno_told_to(content, found.len() as int);
    assert(found.take(found.len() as int) =~= found);
}

proof fn lemma_deno_told_to(content: Seq<char>, k: int)
    requires
        byte_len(content) <= usize::MAX,
        0 <= k <= document_scan(content).found.len(),
    ensures
        told(
            content,
            deno_items(starts_of(content), document_scan(content).found.take(k)),
            deno_plain(starts_of(content), document_scan(content).found.take(k)),
        ),
    decreases k,
{
    if k > 0 {
        let starts = starts_of(content);
        let found = document_scan(content).found;
        lemma_deno_told_to(content, k - 1);
        assert(found.take(k).drop_last() =~= found.take(k - 1));
        let v = found[k - 1];
        assert(found.take(k).last() == v);
        if !v.escaped {
            law_deno_json_written(content, k - 1);
        }
        lemma_told_with(
            content,
            deno_items(starts, found.take(k - 1)),
            deno_plain(starts, found.take(k - 1)),
            deno_item(starts, v),
            !v.escaped,
        );
    }
}

/// The dependencies of a document that are noted as plain are where they say they are.
pub proof fn lemma_composer_told(content: Seq<char>)
    requires
        byte_len(content) <= usize::MAX,
    ensures
        told(
            content,
            composer_items(starts_of(content), document_scan(content).found),
            composer_plain(starts_of(content), document_scan(content).found),
        ),
{
    let found = document_scan(content).found;
    lemma_composer_told_to(content, found.len() as int);
    assert(found.take(found.len() as int) =~= found);
}

proof fn lemma_composer_told_to(content: Seq<char>, k: int)
    requires
        byte_len(content) <= usize::MAX,
        0 <= k <= document_scan(content).found.len(),
    ensures
        told(
            content,
            composer_items(starts_of(content), document_scan(content).found.take(k)),
            composer_plain(starts_of(content), document_scan(content).found.take(k)),
        ),
    decreases k,
{
    if k > 0 {
        let starts = starts_of(content);
        let found = document_scan(content).found;
        lemma_composer_told_to(content, k - 1);
        assert(found.take(k).drop_last() =~= found.take(k - 1));
        let v = found[k - 1];
        assert(found.take(k).last() == v);
        if !v.escaped {
            law_composer_json_written(content, k - 1);
        }
        lemma_told_with(
            content,
            composer_items(starts, found.take(k - 1)),
            composer_plain(starts, found.take(k - 1)),
            composer_item(starts, v),
            !v.escaped,
        );
    }
}

/// The dependencies of a document that are noted as plain are where they say they are.
pub proof fn lemma_package_told(content: Seq<char>)
    requires
        byte_len(content) <= usize::MAX,
    ensures
        told(
            content,
            package_items(starts_of(content), document_scan(content).found, document_scan(content).found),
            package_plain(starts_of(content), document_scan(content).found, document_scan(content).found),
        ),
{
    let found = document_scan(content).found;
    lemma_package_told_to(content, found.len() as int);
    assert(found.take(found.len() as int) =~= found);
}

proof fn lemma_package_told_to(content: Seq<char>, k: int)
    requires
        byte_len(content) <= usize::MAX,
        0 <= k <= document_scan(content).found.len(),
    ensures
        told(
            content,
            package_items(starts_of(content), document_scan(content).found, document_scan(content).found.take(k)),
            package_plain(starts_of(content), document_scan(content).found, document_scan(content).found.take(k)),
        ),
    decreases k,
{
    if k > 0 {
        let starts = starts_of(content);
        let found = document_scan(content).found;
        lemma_package_told_to(content, k - 1);
        assert(found.take(k).drop_last() =~= found.take(k - 1));
        let v = found[k - 1];
        assert(found.take(k).last() == v);
        if is_stated(v) {
            law_values_stand_where_recorded(content);
            lemma_package_item(content, found, v);
        }
        lemma_told_with(
            content,
            package_items(starts, found, found.take(k - 1)),
            package_plain(starts, found, found.take(k - 1)),
            package_item(starts, found, v),
            is_stated(v),
        );
    }
}

} // verus!
