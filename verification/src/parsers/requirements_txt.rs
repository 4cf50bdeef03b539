//! Reader of Python `requirements.txt` (and `*.in`).
//!
//! A line reader: one requirement per line. Comment lines, option lines (`-r`,
//! `-e`, `--hash`), local paths (`./…`), and VCS/URL requirements are skipped, as
//! is any line whose comment contains `dependable: disable-check`. The shared
//! [`parse_pep508_spec`] (also used for `pyproject.toml`) finds the name and the
//! version constraint.
use super::place::{add_item, line_item, make_line, opt_item, with_item};
use super::spans::{all_plain, all_written, lemma_all_told, lemma_on_line};
use super::{Parser, Reading};
use crate::error::ParseError;
use crate::item::{item_views, DependencyKind, Item, ItemView};
use crate::manifest::{items_only, ManifestKind, ParsedManifest};
use crate::split::{lines, lines_of, texts};
use crate::text::{
    ascii_space, begins, chars_of, count_leading, find, find_str, first, is_ascii_space, leading,
    lemma_first, lemma_leading, lemma_trailing, position, skip, starts_with, string_of, take,
    trim_end, trim_end_of, Class,
};
use crate::width::{byte_len, str_bytes};
use vstd::prelude::*;

verus! {

/// Parses `requirements.txt`.
pub struct RequirementsTxtParser;

/// The parts of a PEP 508 requirement: the name is what comes before `name_end`, and the
/// constraint stands between `from` and `to`.
#[derive(Clone, Copy)]
pub struct Requirement508 {
    /// Where the name ends.
    pub name_end: usize,
    /// Where the constraint begins.
    pub from: usize,
    /// Where the constraint ends.
    pub to: usize,
}

/// Where what follows the name and an optional `[extra1,extra2]` begins.
pub open spec fn after_extras(spec: Seq<char>, name_end: int) -> int {
    let a = name_end + leading(spec.skip(name_end), Class::AsciiSpace);
    if a < spec.len() && spec[a] == '[' {
        let close = a + first(spec.skip(a), Class::Is(']'));
        let b = if close < spec.len() {
            close + 1
        } else {
            a
        };
        b + leading(spec.skip(b), Class::AsciiSpace)
    } else {
        a
    }
}

/// The parts of a PEP 508 requirement (no comment, no white space before it): the
/// distribution name up to the first operator, and the constraint up to an environment
/// marker. `name @ url` is not a registry version. The constraint of a bare requirement
/// (`numpy`) is empty, and stands at the end.
pub open spec fn parts508(spec: Seq<char>) -> Option<(int, int, int)> {
    let n = first(spec, Class::In("<>=!~;[ \t@("));
    let p = after_extras(spec, n);
    let rest = spec.skip(p);
    let constraint = trim_end_of(rest.take(first(rest, Class::Is(';'))), Class::Space);
    if n == 0 || (p < spec.len() && spec[p] == '@') {
        None
    } else if constraint.len() == 0 {
        Some((n, spec.len() as int, spec.len() as int))
    } else {
        Some((n, p, p + constraint.len()))
    }
}

/// Parse a PEP 508 requirement spec. Strips `[extras]` and `;` markers.
pub fn parse_pep508_spec(spec: &[char]) -> (r: Option<Requirement508>)
    ensures
        match r {
            Some(q) => parts508(spec@) == Some((q.name_end as int, q.from as int, q.to as int))
                && q.name_end <= spec@.len() && q.from <= q.to <= spec@.len(),
            None => parts508(spec@) is None,
        },
{
    // Name: up to the first operator, `[`, `;`, `@`, or white space.
    let n: usize = position(spec, Class::In("<>=!~;[ \t@("));
    if n == 0 {
        return None;
    }
    let len: usize = spec.len();
    // Skip white space and an optional `[extra1,extra2]`.
    let mut p: usize = n + count_leading(skip(spec, n), Class::AsciiSpace);
    if p < spec.len() && spec[p] == '[' {
        let close: usize = position(skip(spec, p), Class::Is(']'));
        if close < spec.len() - p {
            p = p + close + 1;
        }
        p = p + count_leading(skip(spec, p), Class::AsciiSpace);
    }
    assert(p == after_extras(spec@, n as int));
    // `name @ url` form is not a registry version.
    if p < spec.len() && spec[p] == '@' {
        return None;
    }
    // The constraint runs to a `;` environment marker or the end.
    let rest = skip(spec, p);
    let constraint = trim_end(take(rest, position(rest, Class::Is(';'))), Class::Space);
    if constraint.len() == 0 {
        return Some(Requirement508 { name_end: n, from: spec.len(), to: spec.len() });
    }
    proof {
        lemma_first(rest@, Class::Is(';'));
        lemma_trailing(rest@.take(first(rest@, Class::Is(';'))), Class::Space);
    }
    Some(Requirement508 { name_end: n, from: p, to: p + constraint.len() })
}

/// Where the comment of a line begins, at or after a position: a `#` at the start or after
/// white space; the end of the line where there is none.
pub open spec fn comment_start(line: Seq<char>, i: int) -> int
    decreases line.len() - i,
{
    if i >= line.len() {
        line.len() as int
    } else if line[i] == '#' && (i == 0 || is_ascii_space(line[i - 1])) {
        i
    } else {
        comment_start(line, i + 1)
    }
}

/// Find where the comment of a line begins.
fn find_comment(line: &[char]) -> (r: usize)
    ensures
        r == comment_start(line@, 0),
        r <= line@.len(),
{
    let mut i: usize = 0;
    while i < line.len()
        invariant
            i <= line.len(),
            comment_start(line@, 0) == comment_start(line@, i as int),
        decreases line.len() - i,
    {
        if line[i] == '#' && (i == 0 || ascii_space(line[i - 1])) {
            return i;
        }
        i = i + 1;
    }
    i
}

/// What is left of a requirement line without its comment and the white space at its end.
pub open spec fn requirement_code(line: Seq<char>) -> Seq<char> {
    trim_end_of(line.take(comment_start(line, 0)), Class::Space)
}

/// Whether a requirement is none of a registry: an option (`-r`, `-e`, `--hash`), a local
/// path (`./`, `../`, `.`), a VCS requirement or a URL.
pub open spec fn is_elsewhere(body: Seq<char>) -> bool {
    body[0] == '-' || body[0] == '.' || begins(body, "git+"@) || find(body, "://"@) >= 0
}

/// What a line requires.
pub open spec fn line_requirement(line: Seq<char>, number: usize) -> Option<ItemView> {
    let n = comment_start(line, 0);
    let code = requirement_code(line);
    let at = leading(line.take(n), Class::Space);
    let body = code.skip(at);
    if find(line.skip(n), "dependable: disable-check"@) >= 0 || at >= code.len() || is_elsewhere(
        body,
    ) {
        None
    } else {
        match parts508(body) {
            Some((name_end, from, to)) => Some(
                line_item(
                    body.take(name_end),
                    DependencyKind::Normal,
                    number,
                    line,
                    at + from,
                    at + to,
                ),
            ),
            None => None,
        }
    }
}

/// What some lines require, in order.
pub open spec fn line_requirements(lines: Seq<Seq<char>>) -> Seq<ItemView>
    decreases lines.len(),
{
    if lines.len() == 0 {
        seq![]
    } else {
        with_item(
            line_requirements(lines.drop_last()),
            line_requirement(lines.last(), (lines.len() - 1) as usize),
        )
    }
}

/// Read one line.
fn parse_line(line: &[char], number: usize) -> (r: Option<Item>)
    ensures
        opt_item(r) == line_requirement(line@, number),
{
    // Split off a trailing comment; honor the disable-check directive.
    let n: usize = find_comment(line);
    if find_str(skip(line, n), "dependable: disable-check").is_some() {
        return None;
    }
    let uncommented = take(line, n);
    let code = trim_end(uncommented, Class::Space);
    let at: usize = count_leading(uncommented, Class::Space);
    if at >= code.len() {
        return None;
    }
    let body = skip(code, at);
    // Skip option lines and local paths, and VCS/URL requirements.
    if body[0] == '-' || body[0] == '.' || starts_with(body, "git+") || find_str(
        body,
        "://",
    ).is_some() {
        return None;
    }
    match parse_pep508_spec(body) {
        Some(q) => {
            let name = string_of(take(body, q.name_end));
            proof {
                lemma_trailing(uncommented@, Class::Space);
            }
            Some(make_line(name, DependencyKind::Normal, number, line, at + q.from, at + q.to))
        },
        None => None,
    }
}

impl Parser for RequirementsTxtParser {
    open spec fn reads(&self, content: Seq<char>) -> Reading {
        Reading::Read(
            items_only(ManifestKind::RequirementsTxt, line_requirements(lines_of(content))),
        )
    }

    open spec fn plain(&self, content: Seq<char>) -> Seq<bool> {
        all_plain(line_requirements(lines_of(content)))
    }

    fn parse(&self, content: &str) -> (r: Result<ParsedManifest, ParseError>) {
        let chars = chars_of(content);
        let all_lines = lines(chars.as_slice());
        let ghost all = texts(all_lines@);
        let mut items: Vec<Item> = Vec::new();
        let mut i: usize = 0;
        assert(item_views(items@) =~= line_requirements(all.take(0)));
        while i < all_lines.len()
            invariant
                i <= all_lines.len(),
                all == texts(all_lines@),
                item_views(items@) == line_requirements(all.take(i as int)),
            decreases all_lines.len() - i,
        {
            proof {
                assert(all.take(i + 1).drop_last() =~= all.take(i as int));
                assert(all.take(i + 1).last() == all_lines@[i as int]@);
                assert(all.take(i + 1).len() == i + 1);
            }
            let item = parse_line(all_lines[i], i);
            add_item(&mut items, item);
            i = i + 1;
        }
        assert(all.take(i as int) =~= all);
        let total: usize = str_bytes(content);
        proof {
            law_requirements_written(content@);
            lemma_all_told(content@, line_requirements(all));
        }
        Ok(ParsedManifest::of_items(ManifestKind::RequirementsTxt, items))
    }
}

/// The parts of a requirement lie within it, in order.
pub proof fn lemma_parts508(spec: Seq<char>)
    ensures
        parts508(spec) matches Some((n, from, to)) ==> 0 < n <= spec.len() && 0 <= from <= to
            <= spec.len(),
{
    let n = first(spec, Class::In("<>=!~;[ \t@("));
    lemma_first(spec, Class::In("<>=!~;[ \t@("));
    lemma_leading(spec.skip(n), Class::AsciiSpace);
    let a = n + leading(spec.skip(n), Class::AsciiSpace);
    lemma_first(spec.skip(a), Class::Is(']'));
    let close = a + first(spec.skip(a), Class::Is(']'));
    let b = if close < spec.len() {
        close + 1
    } else {
        a
    };
    lemma_leading(spec.skip(b), Class::AsciiSpace);
    let p = after_extras(spec, n);
    let rest = spec.skip(p);
    lemma_first(rest, Class::Is(';'));
    lemma_trailing(rest.take(first(rest, Class::Is(';'))), Class::Space);
}

proof fn lemma_comment_start(line: Seq<char>, i: int)
    requires
        0 <= i <= line.len(),
    ensures
        i <= comment_start(line, i) <= line.len(),
    decreases line.len() - i,
{
    if i < line.len() {
        lemma_comment_start(line, i + 1);
    }
}

proof fn lemma_requirements_written(content: Seq<char>, k: int)
    requires
        byte_len(content) <= usize::MAX,
        0 <= k <= lines_of(content).len(),
    ensures
        all_written(content, line_requirements(lines_of(content).take(k))),
    decreases k,
{
    if k > 0 {
        let lines = lines_of(content).take(k);
        lemma_requirements_written(content, k - 1);
        assert(lines.drop_last() =~= lines_of(content).take(k - 1));
        let line = lines_of(content)[k - 1];
        assert(lines.last() == line);
        lemma_comment_start(line, 0);
        let n = comment_start(line, 0);
        lemma_trailing(line.take(n), Class::Space);
        lemma_leading(line.take(n), Class::Space);
        let at = leading(line.take(n), Class::Space);
        let body = requirement_code(line).skip(at);
        lemma_parts508(body);
        if line_requirement(line, (k - 1) as usize) is Some {
            let (name_end, from, to) = parts508(body)->0;
            lemma_on_line(
                content,
                body.take(name_end),
                DependencyKind::Normal,
                k - 1,
                at + from,
                at + to,
            );
        }
    }
}

/// Every version that is read from a `requirements.txt` stands at the line and columns
/// recorded for it.
pub proof fn law_requirements_written(content: Seq<char>)
    requires
        byte_len(content) <= usize::MAX,
    ensures
        all_written(content, line_requirements(lines_of(content))),
{
    lemma_requirements_written(content, lines_of(content).len() as int);
    assert(lines_of(content).take(lines_of(content).len() as int) =~= lines_of(content));
}

} // verus!
