//! Reader of Dart / Flutter `pubspec.yaml`.
//!
//! Reads the `dependencies` and `dev_dependencies` maps, recording each version value's
//! position. Only direct, 2-space-indented entries with an inline version constraint are
//! checked; nested maps (`sdk:` / `path:` / `git:` / `hosted:`) introduce a package
//! header with no inline value and are skipped, as is the `environment` block.
use super::yaml_block::{law_yaml_written, Dialect};
use super::spans::{all_plain, lemma_all_told};
use super::{Parser, Reading};
use crate::error::ParseError;
use crate::manifest::{items_only, ManifestKind, ParsedManifest};
use crate::split::lines_of;
use crate::text::{
    alnum, count_leading, digit, is_alnum, is_digit, is_str, leading, skip, Class,
};
use crate::width::str_bytes;
use vstd::prelude::*;

verus! {

/// Parses `pubspec.yaml`.
pub struct PubspecYamlParser;

/// Whether a character may stand in a version.
pub open spec fn is_version_char(c: char) -> bool {
    is_alnum(c) || c == '.' || c == '+' || c == '-' || c == '_'
}

/// Where the version begins in a constraint of one clause: after an operator (one of
/// `<>~=^`, then an optional `=`) and white space.
pub open spec fn clause_start(v: Seq<char>) -> int {
    let a: int = if v.len() > 0 && (v[0] == '<' || v[0] == '>' || v[0] == '~' || v[0] == '='
        || v[0] == '^') {
        1
    } else {
        0
    };
    let b = if a < v.len() && v[a] == '=' {
        a + 1
    } else {
        a
    };
    b + leading(v.skip(b), Class::AsciiSpace)
}

/// Whether a character stands between the parts of a pre-release or build suffix.
pub open spec fn is_separator(c: char) -> bool {
    c == '.' || c == '+' || c == '-'
}

/// Whether the character at a position fits in a version whose core, the run of digits and
/// points it begins with, ends at another: a point of the core stands before a digit, and
/// a separator after it before a letter, a digit or `_`.
pub open spec fn fits_at(v: Seq<char>, core: int, j: int) -> bool {
    &&& is_version_char(v[j])
    &&& is_separator(v[j]) ==> j + 1 < v.len() && if j < core {
        is_digit(v[j + 1])
    } else {
        is_version_char(v[j + 1]) && !is_separator(v[j + 1])
    }
}

/// Whether a value looks like a version constraint of one clause: `any`, or an operator,
/// white space, and a version: digits and points with a digit after each point, and then
/// pre-release and build suffixes.
pub open spec fn looks_like_version(v: Seq<char>) -> bool {
    let i = clause_start(v);
    let core = i + leading(v.skip(i), Class::In("0123456789."));
    v == "any"@ || (i < v.len() && is_digit(v[i]) && forall|j: int|
        i <= j < v.len() ==> #[trigger] fits_at(v, core, j))
}

/// Whether a value looks like a single-clause version constraint (or the literal `any`).
/// This filters out non-version values such as `sdk: flutter` while keeping `^1.2.0`,
/// `>=1.0.0`, `1.8.3`, and pre-release/build suffixes.
pub fn is_version_value(v: &[char]) -> (r: bool)
    ensures
        r == looks_like_version(v@),
{
    if is_str(v, "any") {
        return true;
    }
    let mut i: usize = 0;
    if v.len() > 0 && (v[0] == '<' || v[0] == '>' || v[0] == '~' || v[0] == '=' || v[0] == '^') {
        i = 1;
    }
    if i < v.len() && v[i] == '=' {
        i = i + 1;
    }
    let len: usize = v.len();
    i = i + count_leading(skip(v, i), Class::AsciiSpace);
    let ghost start = i as int;
    assert(start == clause_start(v@));
    let core: usize = i + count_leading(skip(v, i), Class::In("0123456789."));
    // Require at least one leading digit for the version core.
    if i >= v.len() || !digit(v[i]) {
        return false;
    }
    while i < v.len()
        invariant
            start <= i <= v.len(),
            start == clause_start(v@),
            start < v@.len(),
            is_digit(v@[start]),
            core == start + leading(v@.skip(start), Class::In("0123456789.")),
            v@ != "any"@,
            forall|j: int| start <= j < i ==> #[trigger] fits_at(v@, core as int, j),
        decreases v.len() - i,
    {
        let c = v[i];
        let separates = c == '.' || c == '+' || c == '-';
        let mut fits = alnum(c) || c == '_' || separates;
        if separates {
            fits = i + 1 < v.len() && if i < core {
                digit(v[i + 1])
            } else {
                alnum(v[i + 1]) || v[i + 1] == '_'
            };
        }
        assert(fits == fits_at(v@, core as int, i as int));
        if !fits {
            return false;
        }
        i = i + 1;
    }
    true
}

impl Parser for PubspecYamlParser {
    open spec fn reads(&self, content: Seq<char>) -> Reading {
        Reading::Read(
            items_only(ManifestKind::PubspecYaml, Dialect::Pubspec.items(lines_of(content))),
        )
    }

    open spec fn plain(&self, content: Seq<char>) -> Seq<bool> {
        all_plain(Dialect::Pubspec.items(lines_of(content)))
    }

    fn parse(&self, content: &str) -> (r: Result<ParsedManifest, ParseError>) {
        let items = Dialect::Pubspec.read(content);
        let total: usize = str_bytes(content);
        proof {
            law_yaml_written(content@, Dialect::Pubspec);
            lemma_all_told(content@, Dialect::Pubspec.items(lines_of(content@)));
        }
        Ok(ParsedManifest::of_items(ManifestKind::PubspecYaml, items))
    }
}

} // verus!
