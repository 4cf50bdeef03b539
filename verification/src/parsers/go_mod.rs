//! Reader of Go `go.mod` files.
//!
//! A line reader: the `require (...)` block and single-line `require` directives, with
//! the byte span of each version token. `module`, `go`, `replace`, `exclude`, and line
//! comments are ignored, but for a `// indirect`.
use super::place::{add_item, line_item, make_line, opt_item, with_item};
use super::spans::{
    all_plain, all_written, is_written, lemma_all_told, lemma_on_line, lemma_same_place,
};
use super::{Parser, Reading};
use crate::error::ParseError;
use crate::item::{item_views, DependencyKind, Item, ItemView};
use crate::manifest::{items_only, ManifestKind, ParsedManifest};
use crate::semver::normalize::{normal_version, normalize_version};
use crate::split::{lines, lines_of, texts};
use crate::text::{
    after_prefix, begins, chars_of, count_leading, find, find_str, leading, lemma_find,
    lemma_leading, part, skip, starts_with, string_of, strip_prefix, take, trim_start,
    trim_start_of, Class,
};
use crate::width::{byte_len, str_bytes};
use vstd::prelude::*;

verus! {

/// Parses `go.mod`.
pub struct GoModParser;

/// Where the next word at or after a position begins.
pub open spec fn word_start(code: Seq<char>, from: int) -> int {
    from + leading(code.skip(from), Class::AsciiSpace)
}

/// Where the word that begins at a position ends.
pub open spec fn word_end(code: Seq<char>, from: int) -> int {
    from + leading(code.skip(from), Class::NotAsciiSpace)
}

/// The part of a line before a `//`.
pub open spec fn code_of(line: Seq<char>) -> Seq<char> {
    let n = find(line, "//"@);
    if n < 0 {
        line
    } else {
        line.take(n)
    }
}

/// Whether the comment of a line marks a requirement as indirect.
pub open spec fn is_indirect(line: Seq<char>) -> bool {
    let n = find(line, "//"@);
    n >= 0 && begins(trim_start_of(line.skip(n + "//"@.len()), Class::Space), "indirect"@)
}

/// The `<module> <version>` pair of a line, from a position on.
///
/// A `go.mod` version is the *resolved* version (Go's minimum-version selection), so it
/// is both the constraint, with its `v`, and the locked version, as semver.
pub open spec fn go_entry(line: Seq<char>, from: int, number: usize) -> Option<ItemView> {
    let code = code_of(line);
    let a = word_start(code, if from < code.len() { from } else { code.len() as int });
    let b = word_end(code, a);
    let c = word_start(code, b);
    let d = word_end(code, c);
    if a >= code.len() || c >= code.len() {
        None
    } else {
        let kind = if is_indirect(line) {
            DependencyKind::Indirect
        } else {
            DependencyKind::Normal
        };
        let item = line_item(code.subrange(a, b), kind, number, line, c, d);
        Some(
            ItemView { locked_version: Some(normal_version(item.version_constraint)), ..item },
        )
    }
}

/// What follows a `require` that is the directive keyword and not a longer word.
pub open spec fn directive(line: Seq<char>) -> Option<Seq<char>> {
    match after_prefix(trim_start_of(line, Class::Space), "require"@) {
        Some(after) => if after.len() == 0 || Class::Space.has(after[0]) || after[0] == '(' {
            Some(after)
        } else {
            None
        },
        None => None,
    }
}

/// Whether a line opens a `require` block.
pub open spec fn opens_block(line: Seq<char>) -> bool {
    directive(line) matches Some(after) && begins(trim_start_of(after, Class::Space), "("@)
}

/// Whether some lines end within a `require` block.
pub open spec fn in_block(lines: Seq<Seq<char>>) -> bool
    decreases lines.len(),
{
    if lines.len() == 0 {
        false
    } else if in_block(lines.drop_last()) {
        !begins(trim_start_of(lines.last(), Class::Space), ")"@)
    } else {
        opens_block(lines.last())
    }
}

/// What the last of some lines requires.
pub open spec fn required(lines: Seq<Seq<char>>) -> Option<ItemView> {
    let line = lines.last();
    let number = (lines.len() - 1) as usize;
    if in_block(lines.drop_last()) {
        if begins(trim_start_of(line, Class::Space), ")"@) {
            None
        } else {
            go_entry(line, 0, number)
        }
    } else if directive(line) is Some && !opens_block(line) {
        go_entry(line, leading(line, Class::Space) + "require"@.len(), number)
    } else {
        None
    }
}

/// What some lines require, in order.
pub open spec fn go_items(lines: Seq<Seq<char>>) -> Seq<ItemView>
    decreases lines.len(),
{
    if lines.len() == 0 {
        seq![]
    } else {
        with_item(go_items(lines.drop_last()), required(lines))
    }
}

/// The next word at or after a position: where it begins and ends.
fn next_token(code: &[char], from: usize) -> (r: Option<(usize, usize)>)
    requires
        from <= code@.len(),
    ensures
        word_start(code@, from as int) <= code@.len(),
        match r {
            Some((a, b)) => a == word_start(code@, from as int) && b == word_end(code@, a as int)
                && a < code@.len() && a <= b <= code@.len(),
            None => word_start(code@, from as int) >= code@.len(),
        },
{
    let len: usize = code.len();
    let start: usize = from + count_leading(skip(code, from), Class::AsciiSpace);
    if start >= len {
        return None;
    }
    let end: usize = start + count_leading(skip(code, start), Class::NotAsciiSpace);
    Some((start, end))
}

/// Parse a `<module> <version>` pair from `line` starting at `from`, ignoring any
/// trailing `// comment`.
fn parse_entry(line: &[char], from: usize, number: usize) -> (r: Option<Item>)
    ensures
        opt_item(r) == go_entry(line@, from as int, number),
{
    let comment = chars_of("//");
    let len: usize = line.len();
    let (code, indirect) = match find_str(line, "//") {
        Some(n) => {
            let after = skip(line, n + comment.len());
            (take(line, n), starts_with(trim_start(after, Class::Space), "indirect"))
        },
        None => (line, false),
    };
    assert(code@ == code_of(line@));
    assert(indirect == is_indirect(line@));
    let at: usize = if from < code.len() {
        from
    } else {
        code.len()
    };
    let (a, b) = match next_token(code, at) {
        Some(t) => t,
        None => {
            return None;
        },
    };
    let (c, d) = match next_token(code, b) {
        Some(t) => t,
        None => {
            return None;
        },
    };
    let kind = if indirect {
        DependencyKind::Indirect
    } else {
        DependencyKind::Normal
    };
    let mut item = make_line(string_of(part(code, a, b)), kind, number, line, c, d);
    item.locked_version = Some(normalize_version(item.version_constraint.as_str()));
    Some(item)
}

/// What follows a `require` that is the directive keyword.
fn after_keyword<'a>(line: &'a [char]) -> (r: Option<&'a [char]>)
    ensures
        directive(line@) == match r {
            Some(t) => Some(t@),
            None => None,
        },
{
    match strip_prefix(trim_start(line, Class::Space), "require") {
        Some(after) => if after.len() == 0 || Class::Space.holds(after[0]) || after[0] == '(' {
            Some(after)
        } else {
            None
        },
        None => None,
    }
}

impl Parser for GoModParser {
    open spec fn reads(&self, content: Seq<char>) -> Reading {
        Reading::Read(items_only(ManifestKind::GoMod, go_items(lines_of(content))))
    }

    open spec fn plain(&self, content: Seq<char>) -> Seq<bool> {
        all_plain(go_items(lines_of(content)))
    }

    fn parse(&self, content: &str) -> (r: Result<ParsedManifest, ParseError>) {
        let chars = chars_of(content);
        let all_lines = lines(chars.as_slice());
        let ghost all = texts(all_lines@);
        let mut items: Vec<Item> = Vec::new();
        let mut block = false;
        let keyword = chars_of("require");
        let mut i: usize = 0;
        assert(item_views(items@) =~= go_items(all.take(0)));
        while i < all_lines.len()
            invariant
                i <= all_lines.len(),
                all == texts(all_lines@),
                keyword@ == "require"@,
                block == in_block(all.take(i as int)),
                item_views(items@) == go_items(all.take(i as int)),
            decreases all_lines.len() - i,
        {
            let line = all_lines[i];
            proof {
                assert(all.take(i + 1).drop_last() =~= all.take(i as int));
                assert(all.take(i + 1).last() == line@);
                assert(all.take(i + 1).len() == i + 1);
                lemma_leading(line@, Class::Space);
            }
            let item = if block {
                if starts_with(trim_start(line, Class::Space), ")") {
                    block = false;
                    None
                } else {
                    parse_entry(line, 0, i)
                }
            } else {
                match after_keyword(line) {
                    Some(after) => if starts_with(trim_start(after, Class::Space), "(") {
                        block = true;
                        None
                    } else {
                        // Single-line `require <module> <version>`; skip the keyword.
                        let indent: usize = count_leading(line, Class::Space);
                        let len: usize = line.len();
                        assert(indent + keyword@.len() <= len) by {
                            let t = trim_start_of(line@, Class::Space);
                            assert(begins(t, "require"@));
                        }
                        parse_entry(line, indent + keyword.len(), i)
                    },
                    None => None,
                }
            };
            add_item(&mut items, item);
            i = i + 1;
        }
        assert(all.take(i as int) =~= all);
        let total: usize = str_bytes(content);
        proof {
            law_go_mod_written(content@);
            lemma_all_told(content@, go_items(all));
        }
        Ok(ParsedManifest::of_items(ManifestKind::GoMod, items))
    }
}

/// The two words of an entry lie within the code of its line.
proof fn lemma_go_entry(content: Seq<char>, n: int, from: int)
    requires
        byte_len(content) <= usize::MAX,
        0 <= n < lines_of(content).len(),
        0 <= from,
    ensures
        go_entry(lines_of(content)[n], from, n as usize) matches Some(item) ==> is_written(
            content,
            item,
        ),
{
    let line = lines_of(content)[n];
    if let Some(item) = go_entry(line, from, n as usize) {
        let code = code_of(line);
        lemma_find(line, "//"@);
        let s = if from < code.len() {
            from
        } else {
            code.len() as int
        };
        lemma_leading(code.skip(s), Class::AsciiSpace);
        let a = word_start(code, s);
        lemma_leading(code.skip(a), Class::NotAsciiSpace);
        let b = word_end(code, a);
        lemma_leading(code.skip(b), Class::AsciiSpace);
        let c = word_start(code, b);
        lemma_leading(code.skip(c), Class::NotAsciiSpace);
        let d = word_end(code, c);
        let kind = if is_indirect(line) {
            DependencyKind::Indirect
        } else {
            DependencyKind::Normal
        };
        lemma_on_line(content, code.subrange(a, b), kind, n, c, d);
        lemma_same_place(
            content,
            line_item(code.subrange(a, b), kind, n as usize, line, c, d),
            item,
        );
    }
}

proof fn lemma_go_written(content: Seq<char>, k: int)
    requires
        byte_len(content) <= usize::MAX,
        0 <= k <= lines_of(content).len(),
    ensures
        all_written(content, go_items(lines_of(content).take(k))),
    decreases k,
{
    if k > 0 {
        let lines = lines_of(content).take(k);
        lemma_go_written(content, k - 1);
        assert(lines.drop_last() =~= lines_of(content).take(k - 1));
        assert(lines.last() == lines_of(content)[k - 1]);
        lemma_go_entry(content, k - 1, 0);
        lemma_leading(lines.last(), Class::Space);
        lemma_go_entry(
            content,
            k - 1,
            leading(lines.last(), Class::Space) + "require"@.len(),
        );
    }
}

/// Every version that is read from a `go.mod` stands at the line and columns recorded for
/// it.
pub proof fn law_go_mod_written(content: Seq<char>)
    requires
        byte_len(content) <= usize::MAX,
    ensures
        all_written(content, go_items(lines_of(content))),
{
    lemma_go_written(content, lines_of(content).len() as int);
    assert(lines_of(content).take(lines_of(content).len() as int) =~= lines_of(content));
}

} // verus!
