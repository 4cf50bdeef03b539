//! A scanner of block-style YAML maps, as far as manifests need one.
use super::place::{add_item, line_item, make_line, opt_item, with_item};
use super::pubspec_yaml::{is_version_value, looks_like_version};
use super::spans::{all_written, lemma_line_prefix, lemma_on_line};
use crate::item::{item_views, DependencyKind, Item, ItemView};
use crate::split::{lines, lines_of, texts};
use crate::text::{
    ascii_space, chars_of, count_leading, first, is_ascii_space, is_str, leading, lemma_first,
    lemma_leading, lemma_trailing, part, position, skip, string_of, take, trim, trim_start_of,
    trimmed, Class,
};
use crate::width::{byte_len, column};
use vstd::prelude::*;

verus! {

/// The manifests that are read as block-style YAML.
#[derive(Clone, Copy, PartialEq, Eq, Structural)]
pub enum Dialect {
    /// `pnpm-workspace.yaml`.
    Pnpm,
    /// `pubspec.yaml`.
    Pubspec,
}

/// Where the comment of a line begins, at or after a position: a `#` at the start or after
/// white space, and outside quotes; the end of the line where there is none.
pub open spec fn yaml_comment(line: Seq<char>, i: int, single: bool, double: bool) -> int
    decreases line.len() - i,
{
    if i >= line.len() {
        line.len() as int
    } else if line[i] == '\'' && !double {
        yaml_comment(line, i + 1, !single, double)
    } else if line[i] == '"' && !single {
        yaml_comment(line, i + 1, single, !double)
    } else if line[i] == '#' && !single && !double && (i == 0 || is_ascii_space(line[i - 1])) {
        i
    } else {
        yaml_comment(line, i + 1, single, double)
    }
}

/// A line without its comment.
pub open spec fn uncommented(line: Seq<char>) -> Seq<char> {
    line.take(yaml_comment(line, 0, false, false))
}

/// How far a line is indented, in bytes.
pub open spec fn indent_of(line: Seq<char>) -> int {
    byte_len(line.take(leading(line, Class::Space)))
}

/// The key of a line.
pub open spec fn key_of(line: Seq<char>) -> Seq<char> {
    trimmed(line.take(first(line, Class::Is(':'))))
}

/// Whether a value stands in a pair of quotes.
pub open spec fn is_quoted(value: Seq<char>) -> bool {
    value.len() >= 2 && ((value[0] == '"' && value.last() == '"') || (value[0] == '\''
        && value.last() == '\''))
}

/// Where the value of a `key: value` line begins and ends, without the quotes around it;
/// `None` for a line that is no more than a header.
pub open spec fn value_span(line: Seq<char>) -> Option<(int, int)> {
    let colon = first(line, Class::Is(':'));
    let after = line.skip(colon + 1);
    let from = colon + 1 + leading(after, Class::Space);
    let value = trimmed(after);
    if colon >= line.len() || key_of(line).len() == 0 || value.len() == 0 {
        None
    } else if is_quoted(value) {
        Some((from + 1, from + value.len() - 1))
    } else {
        Some((from, from + value.len()))
    }
}

impl Dialect {
    /// The kind of what is declared under a top-level key.
    pub open spec fn kind_under(self, key: Seq<char>) -> Option<DependencyKind> {
        match self {
            Dialect::Pnpm => if key == "catalog"@ || key == "catalogs"@ {
                Some(DependencyKind::Workspace)
            } else {
                None
            },
            Dialect::Pubspec => if key == "dependencies"@ {
                Some(DependencyKind::Normal)
            } else if key == "dev_dependencies"@ {
                Some(DependencyKind::Dev)
            } else {
                None
            },
        }
    }

    /// Whether an entry with a value declares a dependency.
    pub open spec fn declares(self, indent: int, value: Seq<char>) -> bool {
        self == Dialect::Pubspec ==> indent == 2 && looks_like_version(value)
    }

    /// What a line with a comment cut off declares within a section.
    pub open spec fn entry(self, kind: DependencyKind, line: Seq<char>, number: usize) -> Option<
        ItemView,
    > {
        match value_span(line) {
            Some((from, to)) => if self.declares(indent_of(line), line.subrange(from, to)) {
                Some(line_item(key_of(line), kind, number, line, from, to))
            } else {
                None
            },
            None => None,
        }
    }

    /// The section that some lines end within, where it declares dependencies.
    pub open spec fn section(self, lines: Seq<Seq<char>>) -> Option<DependencyKind>
        decreases lines.len(),
    {
        if lines.len() == 0 {
            None
        } else {
            let line = uncommented(lines.last());
            if trimmed(line).len() > 0 && indent_of(line) == 0 {
                self.kind_under(key_of(line))
            } else {
                self.section(lines.drop_last())
            }
        }
    }

    /// What the last of some lines declares.
    pub open spec fn last_entry(self, lines: Seq<Seq<char>>) -> Option<ItemView> {
        let line = uncommented(lines.last());
        match self.section(lines.drop_last()) {
            Some(kind) => if trimmed(line).len() > 0 && indent_of(line) > 0 {
                self.entry(kind, line, (lines.len() - 1) as usize)
            } else {
                None
            },
            None => None,
        }
    }

    /// What some lines declare, in order.
    pub open spec fn items(self, lines: Seq<Seq<char>>) -> Seq<ItemView>
        decreases lines.len(),
    {
        if lines.len() == 0 {
            seq![]
        } else {
            with_item(self.items(lines.drop_last()), self.last_entry(lines))
        }
    }
}

/// Strip a YAML line comment.
fn strip_comment(line: &[char]) -> (r: &[char])
    ensures
        r@ == uncommented(line@),
{
    let mut single = false;
    let mut double = false;
    let mut i: usize = 0;
    while i < line.len()
        invariant
            i <= line.len(),
            yaml_comment(line@, 0, false, false) == yaml_comment(line@, i as int, single, double),
        decreases line.len() - i,
    {
        let c = line[i];
        if c == '\'' && !double {
            single = !single;
        } else if c == '"' && !single {
            double = !double;
        } else if c == '#' && !single && !double && (i == 0 || ascii_space(line[i - 1])) {
            return take(line, i);
        }
        i = i + 1;
    }
    assert(line@.take(i as int) =~= line@);
    line
}

/// The key of a line (`catalog:` → `catalog`).
fn line_key(line: &[char]) -> (r: &[char])
    ensures
        r@ == key_of(line@),
{
    trim(take(line, position(line, Class::Is(':'))))
}

/// Find where the value of a `key: value` line begins and ends.
fn parse_entry(line: &[char]) -> (r: Option<(usize, usize)>)
    ensures
        match r {
            Some((a, b)) => value_span(line@) == Some((a as int, b as int)) && a <= b
                <= line@.len(),
            None => value_span(line@) is None,
        },
{
    let colon: usize = position(line, Class::Is(':'));
    let len: usize = line.len();
    if colon >= len {
        return None;
    }
    if line_key(line).len() == 0 {
        return None;
    }
    let after = skip(line, colon + 1);
    let lead: usize = count_leading(after, Class::Space);
    let value = trim(after);
    if value.len() == 0 {
        return None;
    }
    let from: usize = colon + 1 + lead;
    proof {
        lemma_trailing(trim_start_of(after@, Class::Space), Class::Space);
    }
    let end: usize = from + value.len();
    let n: usize = value.len();
    // Strip matching surrounding quotes.
    if n >= 2 && ((value[0] == '"' && value[n - 1] == '"') || (value[0] == '\'' && value[n - 1]
        == '\'')) {
        Some((from + 1, end - 1))
    } else {
        Some((from, end))
    }
}

impl Dialect {
    /// The kind of what is declared under a top-level key.
    fn kind_of_key(self, key: &[char]) -> (r: Option<DependencyKind>)
        ensures
            r == self.kind_under(key@),
    {
        match self {
            Dialect::Pnpm => if is_str(key, "catalog") || is_str(key, "catalogs") {
                Some(DependencyKind::Workspace)
            } else {
                None
            },
            Dialect::Pubspec => if is_str(key, "dependencies") {
                Some(DependencyKind::Normal)
            } else if is_str(key, "dev_dependencies") {
                Some(DependencyKind::Dev)
            } else {
                None
            },
        }
    }

    /// What a line declares within a section.
    fn read_entry(self, kind: DependencyKind, line: &[char], number: usize) -> (r: Option<Item>)
        ensures
            opt_item(r) == self.entry(kind, line@, number),
    {
        match parse_entry(line) {
            Some((from, to)) => {
                let indent: usize = column(line, count_leading(line, Class::Space));
                let counts = self == Dialect::Pnpm || (indent == 2 && is_version_value(
                    part(line, from, to),
                ));
                if counts {
                    Some(make_line(string_of(line_key(line)), kind, number, line, from, to))
                } else {
                    None
                }
            },
            None => None,
        }
    }

    /// Read what a document declares.
    pub fn read(self, content: &str) -> (r: Vec<Item>)
        ensures
            item_views(r@) == self.items(lines_of(content@)),
    {
        let chars = chars_of(content);
        let all_lines = lines(chars.as_slice());
        let ghost all = texts(all_lines@);
        let mut items: Vec<Item> = Vec::new();
        let mut section: Option<DependencyKind> = None;
        let mut i: usize = 0;
        assert(item_views(items@) =~= self.items(all.take(0)));
        while i < all_lines.len()
            invariant
                i <= all_lines.len(),
                all == texts(all_lines@),
                section == self.section(all.take(i as int)),
                item_views(items@) == self.items(all.take(i as int)),
            decreases all_lines.len() - i,
        {
            proof {
                assert(all.take(i + 1).drop_last() =~= all.take(i as int));
                assert(all.take(i + 1).last() == all_lines@[i as int]@);
                assert(all.take(i + 1).len() == i + 1);
            }
            let line = strip_comment(all_lines[i]);
            if trim(line).len() > 0 {
                let indent: usize = column(line, count_leading(line, Class::Space));
                if indent == 0 {
                    section = self.kind_of_key(line_key(line));
                } else if let Some(kind) = section {
                    let item = self.read_entry(kind, line, i);
                    add_item(&mut items, item);
                }
            }
            i = i + 1;
        }
        assert(all.take(i as int) =~= all);
        items
    }
}

proof fn lemma_yaml_comment(line: Seq<char>, i: int, single: bool, double: bool)
    requires
        0 <= i <= line.len(),
    ensures
        i <= yaml_comment(line, i, single, double) <= line.len(),
    decreases line.len() - i,
{
    if i < line.len() {
        lemma_yaml_comment(line, i + 1, single, double);
        lemma_yaml_comment(line, i + 1, !single, double);
        lemma_yaml_comment(line, i + 1, single, !double);
    }
}

/// A value lies within its line.
proof fn lemma_value_span(line: Seq<char>)
    ensures
        value_span(line) matches Some((from, to)) ==> 0 <= from <= to <= line.len(),
{
    let colon = first(line, Class::Is(':'));
    lemma_first(line, Class::Is(':'));
    if colon < line.len() {
        let after = line.skip(colon + 1);
        lemma_leading(after, Class::Space);
        lemma_trailing(trim_start_of(after, Class::Space), Class::Space);
    }
}

proof fn lemma_yaml_written(content: Seq<char>, dialect: Dialect, k: int)
    requires
        byte_len(content) <= usize::MAX,
        0 <= k <= lines_of(content).len(),
    ensures
        all_written(content, dialect.items(lines_of(content).take(k))),
    decreases k,
{
    if k > 0 {
        let lines = lines_of(content).take(k);
        lemma_yaml_written(content, dialect, k - 1);
        assert(lines.drop_last() =~= lines_of(content).take(k - 1));
        let whole = lines_of(content)[k - 1];
        assert(lines.last() == whole);
        let line = uncommented(whole);
        let m = yaml_comment(whole, 0, false, false);
        lemma_yaml_comment(whole, 0, false, false);
        lemma_value_span(line);
        if dialect.last_entry(lines) is Some {
            let kind = dialect.section(lines.drop_last())->0;
            let (from, to) = value_span(line)->0;
            lemma_line_prefix(key_of(line), kind, (k - 1) as usize, whole, m, from, to);
            lemma_on_line(content, key_of(line), kind, k - 1, from, to);
        }
    }
}

/// Every version that is read from block-style YAML stands at the line and columns
/// recorded for it.
pub proof fn law_yaml_written(content: Seq<char>, dialect: Dialect)
    requires
        byte_len(content) <= usize::MAX,
    ensures
        all_written(content, dialect.items(lines_of(content))),
{
    lemma_yaml_written(content, dialect, lines_of(content).len() as int);
    assert(lines_of(content).take(lines_of(content).len() as int) =~= lines_of(content));
}

} // verus!
