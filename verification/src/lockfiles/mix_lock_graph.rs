//! Reader of Elixir `mix.lock` that preserves the resolved dependency graph.
//!
//! `mix.lock` is an Elixir map literal whose values are tuples:
//!
//! ```text
//! "phoenix": {:hex, :phoenix, "1.7.10", "sha", [:mix], [{:telemetry, "~> 1.0", […]}], "hexpm", "sha"},
//! ```
//!
//! Element 2 is the resolved version and element 5 is the dependency list. Because
//! those elements nest braces and brackets, they are found by splitting the tuple at
//! its top level rather than by a pattern over the whole entry.
use super::cargo_lock_graph::{LockedPackage, PackageView, ResolvedLockfile};
use crate::error::ParseError;
use crate::parsers::json_scan::{ahead, find_string_end, later, lemma_string_end, string_end};
use crate::parsers::place::plus;
use crate::pattern::{find_matches, match_views, part_views, regex_matches, Part, PartView};
use crate::split::{strings, texts};
use crate::text::{
    after_prefix, before_suffix, chars_of, is_str, part, skip, string_of, strip_prefix,
    strip_suffix, trim, trimmed,
};
use crate::width::{byte_len, offsets, str_bytes};
use vstd::prelude::*;

verus! {

/// Index of the resolved version within a `:hex` tuple.
pub const VERSION_ELEMENT: usize = 2;

/// Index of the dependency list within a `:hex` tuple.
pub const DEPS_ELEMENT: usize = 5;

/// The registry source recorded for Hex packages.
pub const HEX_SOURCE: &'static str = "registry+https://hex.pm";

/// The start of one lockfile entry, `"name": {`.
pub const ENTRY_PATTERN: &'static str = r#""([^"]+)":\s*\{"#;

/// A dependency atom at the head of a `{:name, "req", […]}` tuple.
pub const DEP_PATTERN: &'static str = r"\{\s*:(\w+)\s*,";

/// The position of the brace that closes a group entered `depth` times before `i`.
/// Quoted strings are skipped, so a brace inside a string never closes the group.
pub open spec fn closing(s: Seq<char>, i: int, depth: int) -> Option<int>
    decreases ahead(s, i),
{
    if i >= s.len() {
        None
    } else if s[i] == '"' {
        closing(s, later(string_end(s, i + 1), i) + 1, depth)
    } else if s[i] == '{' {
        closing(s, i + 1, depth + 1)
    } else if s[i] == '}' {
        if depth == 1 {
            Some(i)
        } else {
            closing(s, i + 1, depth - 1)
        }
    } else {
        closing(s, i + 1, depth)
    }
}

/// A closing brace is found within the text, at or after where the search begins.
proof fn lemma_closing(s: Seq<char>, i: int, depth: int)
    requires
        0 <= i,
    ensures
        closing(s, i, depth) matches Some(c) ==> i <= c < s.len(),
    decreases ahead(s, i),
{
    if i < s.len() {
        if s[i] == '"' {
            lemma_closing(s, later(string_end(s, i + 1), i) + 1, depth);
        } else if s[i] == '{' {
            lemma_closing(s, i + 1, depth + 1);
        } else if s[i] == '}' {
            if depth != 1 {
                lemma_closing(s, i + 1, depth - 1);
            }
        } else {
            lemma_closing(s, i + 1, depth);
        }
    }
}

/// The text enclosed by a pair of braces, given the position just past the opening one.
pub open spec fn enclosed(s: Seq<char>, start: int) -> Option<Seq<char>> {
    match closing(s, start, 1) {
        Some(end) => Some(s.subrange(start, end)),
        None => None,
    }
}

/// The parts of a tuple body from `start` on, where the scan has come to `i` at the
/// given depth: split at the commas that sit at its top level, ignoring commas nested
/// inside brackets, braces, or strings.
pub open spec fn top_parts(s: Seq<char>, start: int, i: int, depth: int) -> Seq<Seq<char>>
    decreases ahead(s, i),
{
    if i >= s.len() {
        seq![s.skip(start)]
    } else if s[i] == '"' {
        top_parts(s, start, later(string_end(s, i + 1), i) + 1, depth)
    } else if s[i] == '{' || s[i] == '[' || s[i] == '(' {
        top_parts(s, start, i + 1, depth + 1)
    } else if s[i] == '}' || s[i] == ']' || s[i] == ')' {
        top_parts(
            s,
            start,
            i + 1,
            if depth > 0 {
                depth - 1
            } else {
                0
            },
        )
    } else if s[i] == ',' && depth == 0 {
        seq![s.subrange(start, i)] + top_parts(s, i + 1, i + 1, depth)
    } else {
        top_parts(s, start, i + 1, depth)
    }
}

/// The elements of a tuple body.
pub open spec fn elements_of(body: Seq<char>) -> Seq<Seq<char>> {
    top_parts(body, 0, 0, 0)
}

/// The content of a quoted element.
pub open spec fn unquoted(element: Seq<char>) -> Option<Seq<char>> {
    match after_prefix(trimmed(element), "\""@) {
        Some(s) => before_suffix(s, "\""@),
        None => None,
    }
}

/// The position at a byte offset, where a character begins or the text ends there.
pub open spec fn position_at(s: Seq<char>, n: int, offset: usize) -> Option<int>
    decreases n + 1,
{
    if n < 0 {
        None
    } else if byte_len(s.take(n)) == offset {
        Some(n)
    } else {
        position_at(s, n - 1, offset)
    }
}

/// The first groups of a list of matches.
pub open spec fn first_groups(matches: Seq<Seq<PartView>>) -> Seq<Seq<char>>
    decreases matches.len(),
{
    if matches.len() == 0 {
        seq![]
    } else if matches.last().len() > 1 {
        first_groups(matches.drop_last()).push(matches.last()[1].text)
    } else {
        first_groups(matches.drop_last())
    }
}

/// The package of one entry, given the name and the tuple body. A non-Hex entry
/// (`{:git, …}`) resolves to no published version.
pub open spec fn hex_package(name: Seq<char>, body: Seq<char>) -> Option<PackageView> {
    let elements = elements_of(body);
    if elements.len() <= VERSION_ELEMENT || trimmed(elements[0]) != ":hex"@ {
        None
    } else {
        match unquoted(elements[VERSION_ELEMENT as int]) {
            Some(version) => Some(
                PackageView {
                    name,
                    version,
                    source: Some(HEX_SOURCE@),
                    dependencies: if elements.len() > DEPS_ELEMENT {
                        first_groups(
                            regex_matches(DEP_PATTERN@, elements[DEPS_ELEMENT as int]),
                        )
                    } else {
                        seq![]
                    },
                },
            ),
            None => None,
        }
    }
}

/// The package of one match of the entry pattern.
pub open spec fn entry_package(content: Seq<char>, m: Seq<PartView>) -> Option<PackageView> {
    if m.len() < 2 {
        None
    } else {
        let open = plus(m[0].start, byte_len(m[0].text) as usize);
        match position_at(content, content.len() as int, open) {
            Some(start) => match enclosed(content, start) {
                Some(body) => hex_package(m[1].text, body),
                None => None,
            },
            None => None,
        }
    }
}

/// The packages of a list of matches of the entry pattern, in order.
pub open spec fn mix_packages(content: Seq<char>, matches: Seq<Seq<PartView>>) -> Seq<PackageView>
    decreases matches.len(),
{
    if matches.len() == 0 {
        seq![]
    } else {
        let front = mix_packages(content, matches.drop_last());
        match entry_package(content, matches.last()) {
            Some(p) => front.push(p),
            None => front,
        }
    }
}

/// The text enclosed by a pair of braces.
pub fn balanced<'a>(s: &'a [char], start: usize) -> (r: Option<&'a [char]>)
    requires
        start <= s@.len(),
    ensures
        crate::text::opt_text(r) == enclosed(s@, start as int),
{
    // Braces open beside the one that is to be closed.
    let mut nested: usize = 0;
    let mut i: usize = start;
    while i < s.len()
        invariant
            start <= i <= s.len(),
            nested <= i - start,
            closing(s@, start as int, 1) == closing(s@, i as int, nested + 1),
        decreases s.len() - i,
    {
        let c = s[i];
        if c == '"' {
            proof {
                lemma_string_end(s@, i + 1);
            }
            let end: usize = find_string_end(s, i + 1);
            if end < s.len() {
                i = end + 1;
            } else {
                proof {
                    assert(closing(s@, end + 1, nested + 1) is None);
                    assert(closing(s@, s@.len() as int, nested + 1) is None);
                }
                i = s.len();
            }
        } else if c == '{' {
            nested = nested + 1;
            i = i + 1;
        } else if c == '}' {
            if nested == 0 {
                return Some(part(s, start, i));
            }
            nested = nested - 1;
            i = i + 1;
        } else {
            i = i + 1;
        }
    }
    None
}

/// Split a tuple body on the commas that sit at its top level, ignoring commas
/// nested inside brackets, braces, or strings.
pub fn split_top_level<'a>(s: &'a [char]) -> (r: Vec<&'a [char]>)
    ensures
        texts(r@) == elements_of(s@),
{
    let mut parts: Vec<&[char]> = Vec::new();
    let mut depth: usize = 0;
    let mut start: usize = 0;
    let mut i: usize = 0;
    assert(texts(parts@) + top_parts(s@, 0, 0, 0) =~= elements_of(s@));
    while i < s.len()
        invariant
            start <= i <= s.len(),
            depth <= i,
            texts(parts@) + top_parts(s@, start as int, i as int, depth as int) == elements_of(
                s@,
            ),
        decreases s.len() - i,
    {
        let c = s[i];
        if c == '"' {
            proof {
                lemma_string_end(s@, i + 1);
            }
            let end: usize = find_string_end(s, i + 1);
            if end < s.len() {
                i = end + 1;
            } else {
                proof {
                    assert(top_parts(s@, start as int, end + 1, depth as int) == seq![
                        s@.skip(start as int),
                    ]);
                    assert(top_parts(s@, start as int, s@.len() as int, depth as int) == seq![
                        s@.skip(start as int),
                    ]);
                }
                i = s.len();
            }
        } else if c == '{' || c == '[' || c == '(' {
            depth = depth + 1;
            i = i + 1;
        } else if c == '}' || c == ']' || c == ')' {
            if depth > 0 {
                depth = depth - 1;
            }
            i = i + 1;
        } else if c == ',' && depth == 0 {
            let ghost before = texts(parts@);
            let piece = part(s, start, i);
            parts.push(piece);
            proof {
                let rest = top_parts(s@, i + 1, i + 1, 0);
                assert(texts(parts@) =~= before.push(piece@));
                assert(before + (seq![piece@] + rest) =~= texts(parts@) + rest);
            }
            start = i + 1;
            i = i + 1;
        } else {
            i = i + 1;
        }
    }
    let ghost before = texts(parts@);
    let piece = skip(s, start);
    parts.push(piece);
    assert(texts(parts@) =~= before + seq![piece@]);
    parts
}

/// The content of a quoted element, or `None` when it is not a string.
fn unquote(element: &[char]) -> (r: Option<String>)
    ensures
        crate::text::opt_string(r) == unquoted(element@),
{
    match strip_prefix(trim(element), "\"") {
        Some(s) => match strip_suffix(s, "\"") {
            Some(t) => Some(string_of(t)),
            None => None,
        },
        None => None,
    }
}

/// The first groups of a list of matches.
pub fn collect_first(matches: &Vec<Vec<Part>>) -> (r: Vec<String>)
    ensures
        strings(r@) == first_groups(match_views(matches@)),
{
    let ghost all = match_views(matches@);
    let mut out: Vec<String> = Vec::new();
    let mut i: usize = 0;
    assert(strings(out@) =~= first_groups(all.take(0)));
    while i < matches.len()
        invariant
            i <= matches.len(),
            all == match_views(matches@),
            strings(out@) == first_groups(all.take(i as int)),
        decreases matches.len() - i,
    {
        let m = &matches[i];
        proof {
            assert(all.take(i + 1).drop_last() =~= all.take(i as int));
            assert(all.take(i + 1).last() == part_views(m@));
        }
        if m.len() > 1 {
            let ghost before = strings(out@);
            let text = m[1].text.clone();
            out.push(text);
            assert(strings(out@) =~= before.push(m@[1].text@));
        }
        i = i + 1;
    }
    assert(all.take(i as int) =~= all);
    out
}

/// What an optional package says.
pub open spec fn opt_package(o: Option<LockedPackage>) -> Option<PackageView> {
    match o {
        Some(p) => Some(p@),
        None => None,
    }
}

/// The package of one entry.
fn package_of(name: &String, body: &[char]) -> (r: Option<LockedPackage>)
    ensures
        opt_package(r) == hex_package(name@, body@),
{
    let elements = split_top_level(body);
    assert(forall|k: int|
        0 <= k < elements@.len() ==> (#[trigger] elements@[k])@ == elements_of(body@)[k]) by {
        assert forall|k: int| 0 <= k < elements@.len() implies (#[trigger] elements@[k])@
            == elements_of(body@)[k] by {
            assert(texts(elements@)[k] == elements@[k]@);
        }
    }
    assert(elements@.len() == texts(elements@).len());
    if elements.len() <= VERSION_ELEMENT || !is_str(trim(elements[0]), ":hex") {
        return None;
    }
    match unquote(elements[VERSION_ELEMENT]) {
        Some(version) => {
            let dependencies = if elements.len() > DEPS_ELEMENT {
                let list = string_of(elements[DEPS_ELEMENT]);
                let matches = find_matches(DEP_PATTERN, list.as_str());
                collect_first(&matches)
            } else {
                let none: Vec<String> = Vec::new();
                assert(strings(none@) =~= seq![]);
                none
            };
            Some(
                LockedPackage::new(
                    name.clone(),
                    version,
                    Some(HEX_SOURCE.to_owned()),
                    dependencies,
                ),
            )
        },
        None => None,
    }
}

/// The position at a byte offset.
fn find_position(s: &[char], table: &Vec<usize>, offset: usize) -> (r: Option<usize>)
    requires
        table@.len() == s@.len() + 1,
        forall|i: int| 0 <= i <= s@.len() ==> #[trigger] table@[i] == byte_len(s@.take(i)),
    ensures
        match r {
            Some(i) => i <= s@.len() && position_at(s@, s@.len() as int, offset) == Some(
                i as int,
            ),
            None => position_at(s@, s@.len() as int, offset) is None,
        },
{
    let mut n: usize = table.len();
    while n > 0
        invariant
            n <= table.len(),
            table@.len() == s@.len() + 1,
            forall|i: int| 0 <= i <= s@.len() ==> #[trigger] table@[i] == byte_len(s@.take(i)),
            position_at(s@, s@.len() as int, offset) == position_at(s@, n - 1, offset),
        decreases n,
    {
        n = n - 1;
        assert(table@[n as int] == byte_len(s@.take(n as int)));
        if table[n] == offset {
            return Some(n);
        }
    }
    None
}

/// The packages of the matches of the entry pattern in a `mix.lock`.
pub fn packages_from(content: &str, matches: &Vec<Vec<Part>>) -> (r: ResolvedLockfile)
    ensures
        r@ == mix_packages(content@, match_views(matches@)),
{
    let total: usize = str_bytes(content);
    let chars = chars_of(content);
    let table = offsets(chars.as_slice());
    let ghost all = match_views(matches@);
    let mut packages: Vec<LockedPackage> = Vec::new();
    let mut i: usize = 0;
    assert(packages@.map_values(|p: LockedPackage| p@) =~= mix_packages(content@, all.take(0)));
    while i < matches.len()
        invariant
            i <= matches.len(),
            chars@ == content@,
            table@.len() == chars@.len() + 1,
            forall|k: int|
                0 <= k <= chars@.len() ==> #[trigger] table@[k] == byte_len(chars@.take(k)),
            all == match_views(matches@),
            packages@.map_values(|p: LockedPackage| p@) == mix_packages(
                content@,
                all.take(i as int),
            ),
        decreases matches.len() - i,
    {
        let m = &matches[i];
        let ghost view = part_views(m@);
        proof {
            assert(all.take(i + 1).drop_last() =~= all.take(i as int));
            assert(all.take(i + 1).last() == view);
        }
        if m.len() >= 2 {
            assert(view[0] == m@[0]@ && view[1] == m@[1]@);
            let wide: usize = str_bytes(m[0].text.as_str());
            let open: usize = m[0].start.saturating_add(wide);
            assert(open == plus(m@[0].start, byte_len(m@[0].text@) as usize));
            if let Some(start) = find_position(chars.as_slice(), &table, open) {
                if let Some(body) = balanced(chars.as_slice(), start) {
                    if let Some(p) = package_of(&m[1].text, body) {
                        let ghost before = packages@.map_values(|p: LockedPackage| p@);
                        packages.push(p);
                        assert(packages@.map_values(|p: LockedPackage| p@) =~= before.push(p@));
                    }
                }
            }
        }
        i = i + 1;
    }
    assert(all.take(i as int) =~= all);
    ResolvedLockfile::from_packages(packages)
}

/// Parse `mix.lock` into a [`ResolvedLockfile`], preserving edges.
///
/// Only `:hex` entries become nodes: a `{:git, …}` entry has no resolved semver
/// version. Mix resolves one version per package, so a bare name is an unambiguous
/// edge reference.
///
/// Never fails: a lockfile that does not parse yields no packages.
pub fn parse_mix_lock_graph(content: &str) -> (r: Result<ResolvedLockfile, ParseError>)
    ensures
        r matches Ok(lock) && lock@ == mix_packages(
            content@,
            regex_matches(ENTRY_PATTERN@, content@),
        ),
{
    let matches = find_matches(ENTRY_PATTERN, content);
    Ok(packages_from(content, &matches))
}

} // verus!
