//! Hex (`~>`) to semver constraint translation for Elixir.
//!
//! Hex *versions* are already semver, so only *constraints* need translating. The
//! `~>` operator differs from semver's `~`: `~> 2.1` means `>=2.1.0, <3.0.0` (only
//! the last given component is bounded), whereas `~> 2.1.3` means `>=2.1.3,
//! <2.2.0`. The comparison operators (`>=`, `>`, `<=`, `<`, `==`) map directly and a
//! bare version is exact.
//!
//! `and` (intersection) is semver's comma. `or` (union) has no semver spelling, so one
//! clause has to be chosen: the one with the highest lower bound, because Hex does not
//! require clauses in ascending order.
use super::parts::{
    all_trimmed, lemma_numbers_len, numbers, opt_chars, pad_segments, padded, parse_numbers,
    prefixed, trim_all, write_triple,
};
use super::version::{is_before, parse_version, semver_before, semver_version, triple};
use crate::split::{
    concat, join, joined, pieces, pieces_by, push_all, push_str, split, split_str, texts,
};
use crate::text::{
    after_prefix, chars_of, first, position, skip, string_of, strip_prefix, take, trim, trimmed,
    Class,
};
use vstd::prelude::*;

verus! {

/// A version operand as a padded `X.Y.Z[-pre][+build]` text.
pub open spec fn hex_version(version: Seq<char>) -> Option<Seq<char>> {
    let v = trimmed(version);
    let n = first(v, Class::In("-+"));
    match padded(pieces(v.take(n), Class::Is('.'))) {
        Some(core) => Some(core + v.skip(n)),
        None => None,
    }
}

/// A number larger by one, or the largest.
pub open spec fn next(n: u64) -> u64 {
    if n < u64::MAX {
        (n + 1) as u64
    } else {
        n
    }
}

/// A `~>` clause: `~> a.b.c` is `>=a.b.c, <a.(b+1).0`, and `~> a.b` is
/// `>=a.b.0, <(a+1).0.0`.
pub open spec fn hex_tilde(version: Seq<char>) -> Option<Seq<char>> {
    let core = version.take(first(version, Class::In("-+")));
    match (numbers(all_trimmed(pieces(core, Class::Is('.')))), hex_version(version)) {
        (Some(nums), Some(low)) => {
            let high = if nums.len() >= 3 {
                triple(nums[0], next(nums[1]), 0)
            } else {
                triple(next(nums[0]), 0, 0)
            };
            Some(">="@ + low + ", <"@ + high)
        },
        _ => None,
    }
}

/// A version after an operator.
pub open spec fn with_op(op: Seq<char>, version: Option<Seq<char>>) -> Option<Seq<char>> {
    match version {
        Some(v) => Some(op + v),
        None => None,
    }
}

/// One clause, where it can be translated. The longer operators are tried first; a bare
/// version is an exact match.
pub open spec fn hex_clause(clause: Seq<char>) -> Option<Seq<char>> {
    let c = trimmed(clause);
    if let Some(rest) = after_prefix(c, "~>"@) {
        hex_tilde(trimmed(rest))
    } else if let Some(rest) = after_prefix(c, ">="@) {
        with_op(">="@, hex_version(trimmed(rest)))
    } else if let Some(rest) = after_prefix(c, "<="@) {
        with_op("<="@, hex_version(trimmed(rest)))
    } else if let Some(rest) = after_prefix(c, "=="@) {
        with_op("="@, hex_version(trimmed(rest)))
    } else if let Some(rest) = after_prefix(c, ">"@) {
        with_op(">"@, hex_version(trimmed(rest)))
    } else if let Some(rest) = after_prefix(c, "<"@) {
        with_op("<"@, hex_version(trimmed(rest)))
    } else {
        with_op("="@, hex_version(c))
    }
}

/// The translations of a list of clauses, where each has one.
pub open spec fn hex_clauses(clauses: Seq<Seq<char>>) -> Option<Seq<Seq<char>>>
    decreases clauses.len(),
{
    if clauses.len() == 0 {
        Some(seq![])
    } else {
        match (hex_clauses(clauses.drop_last()), hex_clause(trimmed(clauses.last()))) {
            (Some(front), Some(c)) => Some(front.push(c)),
            _ => None,
        }
    }
}

/// One branch of a union, where it can be translated.
pub open spec fn hex_branch(branch: Seq<char>) -> Option<Seq<char>> {
    match hex_clauses(pieces_by(branch, " and "@)) {
        Some(parts) => Some(joined(parts, ", "@)),
        None => None,
    }
}

/// The version that a lower bound names.
pub open spec fn bound_version(part: Seq<char>) -> Option<Seq<char>> {
    let p = trimmed(part);
    let rest = if let Some(r) = after_prefix(p, ">="@) {
        Some(r)
    } else if let Some(r) = after_prefix(p, "="@) {
        Some(r)
    } else {
        after_prefix(p, ">"@)
    };
    match rest {
        Some(r) => if semver_version(trimmed(r)) is Some {
            Some(trimmed(r))
        } else {
            None
        },
        None => None,
    }
}

/// The larger of two versions.
pub open spec fn larger(best: Option<Seq<char>>, v: Option<Seq<char>>) -> Option<Seq<char>> {
    match (best, v) {
        (Some(b), Some(x)) => if semver_before(b, x) {
            Some(x)
        } else {
            Some(b)
        },
        (None, x) => x,
        (b, None) => b,
    }
}

/// The largest version that a lower bound among the parts names.
pub open spec fn largest_bound(parts: Seq<Seq<char>>) -> Option<Seq<char>>
    decreases parts.len(),
{
    if parts.len() == 0 {
        None
    } else {
        larger(largest_bound(parts.drop_last()), bound_version(parts.last()))
    }
}

/// The lowest version a translated branch admits, for ranking the branches of a union.
pub open spec fn lower_bound_of(converted: Seq<char>) -> Seq<char> {
    match largest_bound(pieces(converted, Class::Is(','))) {
        Some(v) => v,
        None => "0.0.0"@,
    }
}

/// The branch with the highest lower bound among those that can be translated, the first
/// where there are several.
pub open spec fn best_branch(branches: Seq<Seq<char>>) -> Option<Seq<char>>
    decreases branches.len(),
{
    if branches.len() == 0 {
        None
    } else {
        let front = best_branch(branches.drop_last());
        match (front, hex_branch(trimmed(branches.last()))) {
            (Some(b), Some(c)) => if semver_before(lower_bound_of(b), lower_bound_of(c)) {
                Some(c)
            } else {
                Some(b)
            },
            (None, c) => c,
            (b, None) => b,
        }
    }
}

/// Whether a translated branch has the highest lower bound: no other that can be
/// translated admits only later versions.
pub open spec fn is_highest(c: Seq<char>, branches: Seq<Seq<char>>) -> bool {
    forall|i: int|
        0 <= i < branches.len() ==> (hex_branch(trimmed(#[trigger] branches[i])) matches Some(d)
            ==> d == c || !semver_before(lower_bound_of(c), lower_bound_of(d)))
}

/// A Hex requirement in semver's spelling; empty where it has none.
pub open spec fn hex_requirement(constraint: Seq<char>) -> Seq<char> {
    match best_branch(pieces_by(constraint, " or "@)) {
        Some(c) => c,
        None => seq![],
    }
}

/// Normalize a Hex version operand into a padded text.
fn to_semver_version(version: &[char]) -> (r: Option<Vec<char>>)
    ensures
        opt_chars(r) == hex_version(version@),
{
    let v = trim(version);
    let n: usize = position(v, Class::In("-+"));
    let segs = split(take(v, n), Class::Is('.'));
    match pad_segments(&segs) {
        Some(core) => Some(concat(core.as_slice(), skip(v, n))),
        None => None,
    }
}

/// A number larger by one, or the largest.
fn saturating_next(n: u64) -> (r: u64)
    ensures
        r == next(n),
{
    if n < u64::MAX {
        n + 1
    } else {
        n
    }
}

/// Expand a Hex `~>` clause. Components are parsed straight from a manifest, so the
/// largest number is reachable input.
fn tilde(version: &[char]) -> (r: Option<Vec<char>>)
    ensures
        opt_chars(r) == hex_tilde(version@),
{
    // Split off any pre-release/build so that only the numeric components count.
    let core = take(version, position(version, Class::In("-+")));
    let pieces_of = split(core, Class::Is('.'));
    let trimmed_parts = trim_all(&pieces_of);
    let nums = match parse_numbers(&trimmed_parts) {
        Some(nums) => nums,
        None => {
            return None;
        },
    };
    proof {
        lemma_numbers_len(texts(trimmed_parts@));
        assert(texts(trimmed_parts@).len() == texts(pieces_of@).len());
        assert(nums@.len() >= 1);
    }
    let low = match to_semver_version(version) {
        Some(low) => low,
        None => {
            return None;
        },
    };
    let high = if nums.len() >= 3 {
        // Bound the minor: only the patch may float.
        write_triple(nums[0], saturating_next(nums[1]), 0)
    } else {
        // Bound the major: the minor may float.
        write_triple(saturating_next(nums[0]), 0, 0)
    };
    let mut out = chars_of(">=");
    push_all(&mut out, low.as_slice());
    push_str(&mut out, ", <");
    push_all(&mut out, high.as_slice());
    assert(out@ =~= ">="@ + low@ + ", <"@ + high@);
    Some(out)
}

/// A version operand after an operator.
fn operand(op: &str, version: &[char]) -> (r: Option<Vec<char>>)
    ensures
        opt_chars(r) == with_op(op@, hex_version(version@)),
{
    match to_semver_version(version) {
        Some(v) => Some(prefixed(op, v.as_slice())),
        None => None,
    }
}

/// Translate one clause.
fn convert_clause(clause: &[char]) -> (r: Option<Vec<char>>)
    ensures
        opt_chars(r) == hex_clause(clause@),
{
    let c = trim(clause);
    if let Some(rest) = strip_prefix(c, "~>") {
        return tilde(trim(rest));
    }
    if let Some(rest) = strip_prefix(c, ">=") {
        return operand(">=", trim(rest));
    }
    if let Some(rest) = strip_prefix(c, "<=") {
        return operand("<=", trim(rest));
    }
    if let Some(rest) = strip_prefix(c, "==") {
        return operand("=", trim(rest));
    }
    if let Some(rest) = strip_prefix(c, ">") {
        return operand(">", trim(rest));
    }
    if let Some(rest) = strip_prefix(c, "<") {
        return operand("<", trim(rest));
    }
    operand("=", c)
}

proof fn lemma_clauses_none(clauses: Seq<Seq<char>>, n: int)
    requires
        0 <= n <= clauses.len(),
        hex_clauses(clauses.take(n)) is None,
    ensures
        hex_clauses(clauses) is None,
    decreases clauses.len(),
{
    if n < clauses.len() {
        assert(clauses.drop_last().take(n) =~= clauses.take(n));
        lemma_clauses_none(clauses.drop_last(), n);
    } else {
        assert(clauses.take(n) =~= clauses);
    }
}

/// Translate one branch of a union.
fn convert_branch(branch: &[char]) -> (r: Option<Vec<char>>)
    ensures
        opt_chars(r) == hex_branch(branch@),
{
    let clauses = split_str(branch, " and ");
    let ghost all = texts(clauses@);
    let mut out: Vec<Vec<char>> = Vec::new();
    let mut i: usize = 0;
    assert(hex_clauses(all.take(0)) == Some(out@.map_values(|p: Vec<char>| p@))) by {
        assert(out@.map_values(|p: Vec<char>| p@) =~= seq![]);
    }
    while i < clauses.len()
        invariant
            i <= clauses.len(),
            all == texts(clauses@),
            all == pieces_by(branch@, " and "@),
            hex_clauses(all.take(i as int)) == Some(out@.map_values(|p: Vec<char>| p@)),
        decreases clauses.len() - i,
    {
        proof {
            assert(all.take(i + 1).drop_last() =~= all.take(i as int));
            assert(all.take(i + 1).last() == clauses@[i as int]@);
        }
        match convert_clause(trim(clauses[i])) {
            Some(c) => {
                let ghost before = out@.map_values(|p: Vec<char>| p@);
                let ghost text = c@;
                out.push(c);
                assert(out@.map_values(|p: Vec<char>| p@) =~= before.push(text));
            },
            None => {
                proof {
                    lemma_clauses_none(all, i + 1);
                }
                return None;
            },
        }
        i = i + 1;
    }
    assert(all.take(i as int) =~= all);
    Some(join(&out, ", "))
}

/// The lowest version a translated branch admits, used only to rank union branches.
fn lower_bound(converted: &[char]) -> (r: String)
    ensures
        r@ == lower_bound_of(converted@),
{
    let parts = split(converted, Class::Is(','));
    let ghost all = texts(parts@);
    let mut best: Option<String> = None;
    let mut i: usize = 0;
    while i < parts.len()
        invariant
            i <= parts.len(),
            all == texts(parts@),
            crate::text::opt_string(best) == largest_bound(all.take(i as int)),
        decreases parts.len() - i,
    {
        proof {
            assert(all.take(i + 1).drop_last() =~= all.take(i as int));
            assert(all.take(i + 1).last() == parts@[i as int]@);
        }
        let p = trim(parts[i]);
        let rest: Option<&[char]> = match strip_prefix(p, ">=") {
            Some(r) => Some(r),
            None => match strip_prefix(p, "=") {
                Some(r) => Some(r),
                None => strip_prefix(p, ">"),
            },
        };
        if let Some(r) = rest {
            let text = string_of(trim(r));
            if parse_version(text.as_str()).is_some() {
                best = match best {
                    Some(b) => if is_before(b.as_str(), text.as_str()) {
                        Some(text)
                    } else {
                        Some(b)
                    },
                    None => Some(text),
                };
            }
        }
        i = i + 1;
    }
    assert(all.take(i as int) =~= all);
    match best {
        Some(v) => v,
        None => "0.0.0".to_owned(),
    }
}

/// Convert a Hex version requirement into a `semver::VersionReq`-compatible string.
///
/// A constraint that cannot be translated returns the **empty string**, which is the one
/// signal [`try_to_semver_constraint`](super::normalize::try_to_semver_constraint) reads
/// as a failed translation.
#[must_use]
pub fn hex_constraint_to_semver(constraint: &str) -> (r: String)
    ensures
        r@ == hex_requirement(constraint@),
        // Of a union, the branch that admits the highest versions.
        best_branch(pieces_by(constraint@, " or "@)) matches Some(c) ==> is_highest(
            c,
            pieces_by(constraint@, " or "@),
        ),
{
    let chars = chars_of(constraint);
    let branches = split_str(chars.as_slice(), " or ");
    let ghost all = texts(branches@);
    let mut best: Option<Vec<char>> = None;
    let mut i: usize = 0;
    while i < branches.len()
        invariant
            i <= branches.len(),
            all == texts(branches@),
            opt_chars(best) == best_branch(all.take(i as int)),
            match best {
                Some(b) => is_highest(b@, all.take(i as int)),
                None => forall|j: int| 0 <= j < i ==> hex_branch(trimmed(#[trigger] all[j])) is None,
            },
        decreases branches.len() - i,
    {
        let ghost seen = all.take(i as int);
        let ghost now = all.take(i + 1);
        proof {
            assert(now.drop_last() =~= seen);
            assert(now.last() == branches@[i as int]@);
            assert forall|j: int| 0 <= j < i implies #[trigger] now[j] == seen[j] && all[j]
                == seen[j] by {}
        }
        if let Some(c) = convert_branch(trim(branches[i])) {
            best = match best {
                Some(b) => {
                    let have = lower_bound(b.as_slice());
                    let bound = lower_bound(c.as_slice());
                    if is_before(have.as_str(), bound.as_str()) {
                        assert(is_highest(c@, now)) by {
                            assert forall|j: int| 0 <= j < now.len() implies (hex_branch(
                                trimmed(#[trigger] now[j]),
                            ) matches Some(d) ==> d == c@ || !semver_before(
                                lower_bound_of(c@),
                                lower_bound_of(d),
                            )) by {
                                if j < i {
                                    assert(now[j] == seen[j]);
                                }
                            }
                        }
                        Some(c)
                    } else {
                        Some(b)
                    }
                },
                None => Some(c),
            };
        }
        i = i + 1;
    }
    assert(all.take(i as int) =~= all);
    match best {
        Some(c) => string_of(c.as_slice()),
        None => {
            let none = String::new();
            assert(none@ =~= seq![]);
            none
        },
    }
}

} // verus!
