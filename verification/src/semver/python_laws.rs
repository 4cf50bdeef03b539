//! What PEP 440 versions and constraints come to.
use super::dotted::{decimals, dotted, lemma_dotted, lemma_dotted_few};
use super::elixir::with_op;
use super::maven::tokens_of;
use super::parts::{all_trimmed, is_digits, padded_numbers, segment};
use super::python::{
    leading_digits, nonempty, pep440_clause, pep440_clauses, pep440_compatible, pep440_exact,
    pep440_requirement, pep440_version, public_part, suffix_of, suffix_word, unmarked,
};
use super::version::triple;
use crate::number::{decimal, law_decimal_reads_back};
use crate::split::pieces;
use crate::text::{before_suffix, has_any, is_alpha, is_digit, is_space, trimmed, Class};
use crate::writing::{
    is_plain, is_plain_char, is_solid, lemma_after, lemma_ahead, lemma_first_at, lemma_first_none,
    lemma_joined, lemma_leading_at, lemma_lowered_same, lemma_next_piece, lemma_not_begins,
    lemma_one_piece, lemma_plain, lemma_plain_char, lemma_signs, lemma_trimmed_same,
};
use vstd::prelude::*;

verus! {

/// Whether a text is one of PEP 440's four comparisons.
pub open spec fn is_comparison(op: Seq<char>) -> bool {
    op == ">="@ || op == "<="@ || op == ">"@ || op == "<"@
}

/// Whether a text is one clause of a constraint as it is written, without a marker.
pub open spec fn is_clause(c: Seq<char>) -> bool {
    is_solid(c) && !has_any(c, Class::Is(',')) && !has_any(c, Class::Is(';'))
}

/// A constraint of one clause comes to what the clause does.
#[verifier::rlimit(60)]
proof fn lemma_one_clause(c: Seq<char>)
    requires
        is_clause(c),
    ensures
        pep440_requirement(c) == match pep440_clause(c) {
            Some(t) => t,
            None => seq![],
        },
{
    reveal_with_fuel(pep440_clauses, 2);
    lemma_one_piece(c, Class::Is(','));
    lemma_first_none(c, Class::Is(';'));
    lemma_trimmed_same(c);
    assert(seq![c].drop_last() =~= Seq::<Seq<char>>::empty());
    if let Some(t) = pep440_clause(c) {
        assert(Seq::<Seq<char>>::empty().push(t) =~= seq![t]);
        lemma_joined(t, t, ", "@);
    } else {
        lemma_joined(c, c, ", "@);
    }
}

/// A sign before a plain text, with or without a space between, is a clause, and what
/// follows the sign is the text.
#[verifier::rlimit(60)]
proof fn lemma_signed(op: Seq<char>, v: Seq<char>)
    requires
        is_plain(v),
        op.len() > 0,
        forall|i: int|
            0 <= i < op.len() ==> !is_space(#[trigger] op[i]) && op[i] != ',' && op[i] != ';',
    ensures
        is_clause(op + v),
        is_clause(op + " "@ + v),
        op + " "@ + v == op + (" "@ + v),
        (op + v)[op.len() as int] == v[0],
        is_plain_char(v[0]),
        trimmed(v) == v,
        trimmed(" "@ + v) == v,
{
    lemma_signs();
    lemma_plain(v);
    assert(is_plain_char(v[0]) && is_plain_char(v.last()));
    lemma_plain_char(v[0]);
    lemma_plain_char(v.last());
    let a = op + v;
    let b = op + " "@ + v;
    assert(b =~= op + (" "@ + v));
    assert(a[0] == op[0] && b[0] == op[0]);
    assert(a.last() == v.last() && b.last() == v.last());
    assert forall|i: int| 0 <= i < a.len() implies #[trigger] a[i] != ',' && a[i] != ';' by {
        if i < op.len() {
            assert(a[i] == op[i]);
        } else {
            assert(a[i] == v[i - op.len()]);
            lemma_plain_char(v[i - op.len()]);
        }
    }
    assert forall|i: int| 0 <= i < b.len() implies #[trigger] b[i] != ',' && b[i] != ';' by {
        if i < op.len() {
            assert(b[i] == op[i]);
        } else if i > op.len() {
            assert(b[i] == v[i - op.len() - 1]);
            lemma_plain_char(v[i - op.len() - 1]);
        }
    }
}

/// What a clause of a sign and a text comes to, where the text does not go on with a
/// sign.
#[verifier::rlimit(60)]
proof fn lemma_signed_clause(op: Seq<char>, rest: Seq<char>)
    requires
        op == "==="@ || op == "=="@ || op == "~="@ || op == "!="@ || is_comparison(op) || op == "^"@
            || op == "~"@ || op == "="@,
        rest.len() > 0,
        rest[0] != '=' && rest[0] != '>',
    ensures
        is_comparison(op) ==> pep440_clause(op + rest) == with_op(op, pep440_version(trimmed(rest))),
        op == "==="@ || op == "=="@ ==> pep440_clause(op + rest) == pep440_exact(trimmed(rest)),
        op == "="@ ==> pep440_clause(op + rest) == with_op("="@, pep440_version(trimmed(rest))),
        op == "~="@ ==> pep440_clause(op + rest) == pep440_compatible(trimmed(rest)),
        op == "!="@ ==> pep440_clause(op + rest) is None,
        op == "^"@ ==> pep440_clause(op + rest) == Some("^"@ + trimmed(rest)),
        op == "~"@ ==> pep440_clause(op + rest) == Some("~"@ + trimmed(rest)),
{
    lemma_signs();
    let c = op + rest;
    let n = op.len() as int;
    lemma_after(op, rest);
    assert(c[0] == op[0]);
    assert(c[n] == rest[0]);
    assert(n > 1 ==> c[1] == op[1]);
    if c == "*"@ {
        assert(c[0] == '*');
    }
    if op != "==="@ {
        lemma_not_begins(c, "==="@, if op[0] != '=' { 0 } else if n == 1 { 1 } else { 2 });
        if op != "=="@ {
            lemma_not_begins(c, "=="@, if op[0] != '=' { 0 } else { 1 });
        }
    }
    if op[0] != '=' && op != "~="@ {
        lemma_not_begins(c, "~="@, if op[0] != '~' { 0 } else { 1 });
    }
    if op != "!="@ && op[0] != '=' {
        lemma_not_begins(c, "!="@, 0);
    }
    if op[0] == '=' && n == 1 {
        lemma_not_begins(c, "~="@, 0);
        lemma_not_begins(c, "!="@, 0);
        lemma_not_begins(c, ">="@, 0);
        lemma_not_begins(c, "<="@, 0);
        lemma_not_begins(c, "^"@, 0);
        lemma_not_begins(c, "~"@, 0);
        lemma_not_begins(c, ">"@, 0);
        lemma_not_begins(c, "<"@, 0);
    }
    if op[0] == '>' || op[0] == '<' || op[0] == '^' || op == "~"@ {
        if op != ">="@ {
            lemma_not_begins(c, ">="@, if op[0] != '>' { 0 } else { 1 });
        }
        if op != "<="@ {
            lemma_not_begins(c, "<="@, if op[0] != '<' { 0 } else { 1 });
        }
        if op[0] != '^' {
            lemma_not_begins(c, "^"@, 0);
        }
        if op[0] != '~' {
            lemma_not_begins(c, "~"@, 0);
        }
        if op[0] != '>' {
            lemma_not_begins(c, ">"@, 0);
        }
    }
}

/// A comparison with a version translates to the same comparison with the version's
/// semver spelling, with or without a space between; with what is no version, to nothing.
pub proof fn law_pep440_comparison(op: Seq<char>, v: Seq<char>)
    requires
        is_comparison(op),
        is_plain(v),
    ensures
        match pep440_version(v) {
            Some(t) => pep440_requirement(op + v) == op + t && pep440_requirement(op + " "@ + v)
                == op + t,
            None => pep440_requirement(op + v).len() == 0 && pep440_requirement(
                op + " "@ + v,
            ).len() == 0,
        },
{
    lemma_signs();
    lemma_signed(op, v);
    lemma_plain_char(v[0]);
    lemma_one_clause(op + v);
    lemma_one_clause(op + " "@ + v);
    lemma_signed_clause(op, v);
    assert((" "@ + v)[0] == ' ');
    lemma_signed_clause(op, " "@ + v);
}

/// `==`, `===` and `=` before a version admit that version alone, `^` and `~` are kept as
/// they are, and `!=` says nothing that semver could.
pub proof fn law_pep440_equality(v: Seq<char>)
    requires
        is_plain(v),
    ensures
        pep440_version(v) matches Some(t) ==> {
            &&& pep440_requirement("=="@ + v) == "="@ + t
            &&& pep440_requirement("==="@ + v) == "="@ + t
            &&& pep440_requirement("="@ + v) == "="@ + t
        },
        pep440_requirement("^"@ + v) == "^"@ + v,
        pep440_requirement("~"@ + v) == "~"@ + v,
        pep440_requirement("!="@ + v).len() == 0,
{
    lemma_signs();
    lemma_equality("=="@, v);
    lemma_equality("==="@, v);
    lemma_equality("="@, v);
    lemma_equality("^"@, v);
    lemma_equality("~"@, v);
    lemma_equality("!="@, v);
}

proof fn lemma_equality(op: Seq<char>, v: Seq<char>)
    requires
        is_plain(v),
        op == "==="@ || op == "=="@ || op == "="@ || op == "!="@ || op == "^"@ || op == "~"@,
    ensures
        op == "==="@ || op == "=="@ || op == "="@ ==> (pep440_version(v) matches Some(t)
            ==> pep440_requirement(op + v) == "="@ + t),
        op == "^"@ || op == "~"@ ==> pep440_requirement(op + v) == op + v,
        op == "!="@ ==> pep440_requirement(op + v).len() == 0,
{
    lemma_operator(op);
    lemma_signed(op, v);
    lemma_plain_char(v[0]);
    lemma_one_clause(op + v);
    lemma_signed_clause(op, v);
    lemma_exact(v);
}

/// An operator is not empty, and holds no white space and no separator.
proof fn lemma_operator(op: Seq<char>)
    requires
        op == "==="@ || op == "=="@ || op == "="@ || op == "!="@ || op == "^"@ || op == "~"@,
    ensures
        op.len() > 0,
        forall|i: int|
            0 <= i < op.len() ==> !is_space(#[trigger] op[i]) && op[i] != ',' && op[i] != ';',
{
    lemma_signs();
}

/// A plain text is no wildcard.
proof fn lemma_exact(v: Seq<char>)
    requires
        is_plain(v),
    ensures
        pep440_exact(v) == with_op("="@, pep440_version(v)),
{
    lemma_signs();
    if before_suffix(v, ".*"@) is Some {
        assert(v.skip(v.len() - 2)[1] == v.last());
        assert(is_plain_char(v[v.len() - 1]));
        lemma_plain_char(v.last());
    }
}

proof fn lemma_each_signed(v: Seq<char>)
    requires
        is_plain(v),
    ensures
        is_clause("=="@ + v),
        is_clause("==="@ + v),
        is_clause("="@ + v),
        is_clause("^"@ + v),
        is_clause("~"@ + v),
        is_clause("!="@ + v),
        is_clause("~="@ + v),
        trimmed(v) == v,
{
    lemma_signs();
    lemma_signed("=="@, v);
    lemma_signed("==="@, v);
    lemma_signed("="@, v);
    lemma_signed("^"@, v);
    lemma_signed("~"@, v);
    lemma_signed("!="@, v);
    lemma_signed("~="@, v);
}

/// A bare version is handed on in its semver spelling, and `*` admits any version.
pub proof fn law_pep440_bare(v: Seq<char>)
    requires
        is_plain(v),
    ensures
        pep440_version(v) matches Some(t) ==> pep440_requirement(v) == t,
        pep440_requirement("*"@) == "*"@,
{
    lemma_plain(v);
    assert(is_plain_char(v[0]) && is_plain_char(v.last()));
    lemma_plain_char(v[0]);
    lemma_plain_char(v.last());
    lemma_one_clause(v);
    lemma_unsigned(v);
    reveal_strlit("*");
    lemma_one_clause("*"@);
}

/// A text that begins with no sign is a version or nothing.
#[verifier::rlimit(60)]
proof fn lemma_unsigned(v: Seq<char>)
    requires
        v.len() > 0,
        is_plain_char(v[0]),
    ensures
        pep440_clause(v) == pep440_version(v),
{
    lemma_signs();
    lemma_plain_char(v[0]);
    lemma_not_begins(v, "==="@, 0);
    lemma_not_begins(v, "=="@, 0);
    lemma_not_begins(v, "~="@, 0);
    lemma_not_begins(v, "!="@, 0);
    lemma_not_begins(v, ">="@, 0);
    lemma_not_begins(v, "<="@, 0);
    lemma_not_begins(v, "^"@, 0);
    lemma_not_begins(v, "~"@, 0);
    lemma_not_begins(v, ">"@, 0);
    lemma_not_begins(v, "<"@, 0);
    lemma_not_begins(v, "="@, 0);
    if v == "*"@ {
        assert(v[0] == '*');
    }
}

/// `==a.*` admits every release of a: up to the next a. `==a.b.*` and `==a.b.c.*` go by
/// their last number in the same way.
#[verifier::rlimit(60)]
pub proof fn law_pep440_wildcard(a: u64, b: u64, c: u64)
    ensures
        a < u64::MAX ==> pep440_requirement("=="@ + dotted(seq![a]) + ".*"@) == ">="@ + triple(
            a,
            0,
            0,
        ) + ", <"@ + triple((a + 1) as u64, 0, 0),
        b < u64::MAX ==> pep440_requirement("=="@ + dotted(seq![a, b]) + ".*"@) == ">="@ + triple(
            a,
            b,
            0,
        ) + ", <"@ + triple(a, (b + 1) as u64, 0),
        c < u64::MAX ==> pep440_requirement("=="@ + dotted(seq![a, b, c]) + ".*"@) == ">="@
            + triple(a, b, c) + ", <"@ + triple(a, b, (c + 1) as u64),
{
    lemma_wildcard(seq![a]);
    lemma_wildcard(seq![a, b]);
    lemma_wildcard(seq![a, b, c]);
    lemma_dotted_few(a, b, c);
    if a < u64::MAX {
        lemma_dotted_few((a + 1) as u64, b, c);
        assert(seq![a].drop_last().push((a + 1) as u64) =~= seq![(a + 1) as u64]);
    }
    if b < u64::MAX {
        lemma_dotted_few(a, (b + 1) as u64, c);
        assert(seq![a, b].drop_last().push((b + 1) as u64) =~= seq![a, (b + 1) as u64]);
    }
    if c < u64::MAX {
        lemma_dotted_few(a, b, (c + 1) as u64);
        assert(seq![a, b, c].drop_last().push((c + 1) as u64) =~= seq![a, b, (c + 1) as u64]);
    }
}

#[verifier::rlimit(60)]
proof fn lemma_wildcard(nums: Seq<u64>)
    requires
        nums.len() > 0,
    ensures
        nums.last() < u64::MAX ==> pep440_requirement("=="@ + dotted(nums) + ".*"@) == ">="@
            + padded_numbers(nums) + ", <"@ + padded_numbers(
            nums.drop_last().push((nums.last() + 1) as u64),
        ),
{
    lemma_signs();
    let d = dotted(nums);
    lemma_dotted(nums);
    let rest = d + ".*"@;
    let c = "=="@ + d + ".*"@;
    assert(c =~= "=="@ + rest);
    assert(rest[0] == d[0] && rest.last() == '*');
    assert(c[0] == '=' && c.last() == '*');
    assert forall|i: int| 0 <= i < c.len() implies #[trigger] c[i] != ',' && c[i] != ';' by {
        if 2 <= i && i < 2 + d.len() {
            assert(c[i] == d[i - 2]);
        } else if i >= 2 + d.len() {
            assert(c[i] == ".*"@[i - 2 - d.len()]);
        }
    }
    lemma_one_clause(c);
    lemma_signed_clause("=="@, rest);
    lemma_trimmed_same(rest);
    lemma_ahead(d, ".*"@);
    lemma_nonempty(decimals(nums), nums);
}

/// Decimal numbers are not empty.
proof fn lemma_nonempty(parts: Seq<Seq<char>>, nums: Seq<u64>)
    requires
        parts == decimals(nums),
    ensures
        nonempty(parts) == parts,
    decreases nums.len(),
{
    if nums.len() > 0 {
        law_decimal_reads_back(nums.last() as nat);
        assert(parts.drop_last() =~= decimals(nums.drop_last()));
        lemma_nonempty(parts.drop_last(), nums.drop_last());
        assert(parts.drop_last().push(parts.last()) =~= parts);
    } else {
        assert(nonempty(parts) =~= parts);
    }
}

/// `~=a.b` admits `a.b` and later releases of a; `~=a.b.c` admits `a.b.c` and later
/// releases of `a.b`.
#[verifier::rlimit(60)]
pub proof fn law_pep440_compatible(a: u64, b: u64, c: u64)
    ensures
        a < u64::MAX ==> pep440_requirement("~="@ + dotted(seq![a, b])) == ">="@ + triple(a, b, 0)
            + ", <"@ + triple((a + 1) as u64, 0, 0),
        b < u64::MAX ==> pep440_requirement("~="@ + dotted(seq![a, b, c])) == ">="@ + triple(a, b, c)
            + ", <"@ + triple(a, (b + 1) as u64, 0),
        pep440_requirement("~="@ + dotted(seq![a])).len() == 0,
{
    lemma_compatible(seq![a]);
    lemma_compatible(seq![a, b]);
    lemma_compatible(seq![a, b, c]);
    lemma_dotted_few(a, b, c);
    assert(seq![a, b].drop_last() =~= seq![a]);
    assert(seq![a, b, c].drop_last() =~= seq![a, b]);
    if a < u64::MAX {
        lemma_dotted_few((a + 1) as u64, b, c);
        assert(seq![a].drop_last().push((a + 1) as u64) =~= seq![(a + 1) as u64]);
    }
    if b < u64::MAX {
        lemma_dotted_few(a, (b + 1) as u64, c);
        assert(seq![a, b].drop_last().push((b + 1) as u64) =~= seq![a, (b + 1) as u64]);
    }
}

proof fn lemma_compatible(nums: Seq<u64>)
    requires
        nums.len() > 0,
    ensures
        nums.len() < 2 ==> pep440_requirement("~="@ + dotted(nums)).len() == 0,
        nums.len() >= 2 && nums.drop_last().last() < u64::MAX ==> pep440_requirement(
            "~="@ + dotted(nums),
        ) == ">="@ + padded_numbers(nums) + ", <"@ + padded_numbers(
            nums.drop_last().drop_last().push((nums.drop_last().last() + 1) as u64),
        ),
{
    lemma_signs();
    let d = dotted(nums);
    lemma_dotted(nums);
    lemma_each_signed(d);
    lemma_one_clause("~="@ + d);
    lemma_signed_clause("~="@, d);
    lemma_all_digits(decimals(nums), nums);
}

/// Decimal numbers are runs of digits, and have no white space around them.
#[verifier::rlimit(60)]
proof fn lemma_all_digits(parts: Seq<Seq<char>>, nums: Seq<u64>)
    requires
        parts == decimals(nums),
    ensures
        leading_digits(all_trimmed(parts)) == parts,
    decreases nums.len(),
{
    let t = all_trimmed(parts);
    assert forall|i: int| 0 <= i < parts.len() implies #[trigger] t[i] == parts[i] && is_digits(
        parts[i],
    ) by {
        let d = decimal(nums[i] as nat);
        law_decimal_reads_back(nums[i] as nat);
        assert(Class::Digit.has(d[0]) && Class::Digit.has(d[d.len() - 1]));
        lemma_trimmed_same(d);
    }
    assert(t =~= parts);
    if nums.len() > 0 {
        let rest = nums.drop_first();
        assert(parts.drop_first() =~= decimals(rest));
        lemma_all_digits(parts.drop_first(), rest);
        assert(all_trimmed(parts.drop_first()) =~= t.drop_first());
        assert(is_digits(t[0]));
        assert(seq![parts[0]] + parts.drop_first() =~= parts);
    } else {
        assert(leading_digits(t) =~= parts);
    }
}

/// A constraint of two parts admits what both admit: the translations of both, in order.
/// A part that translates to nothing is left out.
#[verifier::rlimit(60)]
pub proof fn law_pep440_conjunction(a: Seq<char>, b: Seq<char>)
    requires
        is_clause(a),
        !has_any(b, Class::Is(',')),
    ensures
        ({
            let (x, y) = (pep440_requirement(a), pep440_requirement(b));
            let both = pep440_requirement(a + ","@ + b);
            &&& x.len() > 0 && y.len() > 0 ==> both == x + ", "@ + y
            &&& pep440_clause(a) is None ==> both == y
        }),
{
    reveal_with_fuel(pep440_clauses, 3);
    lemma_signs();
    let k = Class::Is(',');
    lemma_one_clause(a);
    lemma_one_piece(a, k);
    lemma_one_piece(b, k);
    lemma_next_piece(a, ',', b, k);
    lemma_first_none(a, Class::Is(';'));
    lemma_trimmed_same(a);
    let none = Seq::<Seq<char>>::empty();
    assert(pieces(a + ","@ + b, k) =~= seq![a, b]);
    assert(seq![a, b].drop_last() =~= seq![a]);
    assert(seq![a].drop_last() =~= none);
    assert(seq![b].drop_last() =~= none);
    let u = unmarked(b);
    lemma_joined(a, b, ", "@);
    if let Some(t) = pep440_clause(a) {
        assert(none.push(t) =~= seq![t]);
        if let Some(w) = pep440_clause(u) {
            assert(none.push(w) =~= seq![w]);
            assert(seq![t].push(w) =~= seq![t, w]);
            lemma_joined(t, w, ", "@);
        }
        lemma_joined(t, t, ", "@);
    }
    if let Some(w) = pep440_clause(u) {
        assert(none.push(w) =~= seq![w]);
        lemma_joined(w, w, ", "@);
    }
}

/// An environment marker does not change what a clause comes to.
#[verifier::rlimit(60)]
pub proof fn law_pep440_marker(a: Seq<char>, marker: Seq<char>)
    requires
        is_clause(a),
        !has_any(marker, Class::Is(',')),
    ensures
        pep440_requirement(a + ";"@ + marker) == pep440_requirement(a),
{
    reveal_with_fuel(pep440_clauses, 2);
    lemma_signs();
    let c = a + ";"@ + marker;
    assert forall|i: int| 0 <= i < c.len() implies #[trigger] c[i] != ',' by {
        if i < a.len() {
            assert(c[i] == a[i]);
        } else if i > a.len() {
            assert(c[i] == marker[i - a.len() - 1]);
        }
    }
    lemma_one_clause(a);
    lemma_one_piece(c, Class::Is(','));
    lemma_first_at(a, ';', marker, Class::Is(';'));
    lemma_trimmed_same(a);
    assert(seq![c].drop_last() =~= Seq::<Seq<char>>::empty());
    if let Some(t) = pep440_clause(a) {
        assert(Seq::<Seq<char>>::empty().push(t) =~= seq![t]);
        lemma_joined(t, t, ", "@);
    } else {
        lemma_joined(a, a, ", "@);
    }
}

/// A release of one, two or three numbers is that release in semver, the missing numbers
/// zero.
#[verifier::rlimit(60)]
pub proof fn law_pep440_release(a: u64, b: u64, c: u64)
    ensures
        pep440_version(dotted(seq![a])) == Some(triple(a, 0, 0)),
        pep440_version(dotted(seq![a, b])) == Some(triple(a, b, 0)),
        pep440_version(dotted(seq![a, b, c])) == Some(triple(a, b, c)),
{
    let none = Seq::<char>::empty();
    lemma_release(seq![a], none);
    lemma_release(seq![a, b], none);
    lemma_release(seq![a, b, c], none);
    lemma_dotted_few(a, b, c);
    assert(dotted(seq![a]) + none =~= dotted(seq![a]));
    assert(dotted(seq![a, b]) + none =~= dotted(seq![a, b]));
    assert(dotted(seq![a, b, c]) + none =~= dotted(seq![a, b, c]));
    reveal_with_fuel(tokens_of, 1);
    assert(tokens_of(none) =~= Seq::<Seq<char>>::empty());
    assert(Seq::<Seq<char>>::empty().map_values(|w: Seq<char>| suffix_word(w)) =~= Seq::<
        Seq<char>,
    >::empty());
    lemma_joined(none, none, "."@);
}

proof fn lemma_digit_or_point(c: char)
    ensures
        Class::In("0123456789.").has(c) <==> is_digit(c) || c == '.',
{
    reveal_strlit("0123456789.");
    let s = "0123456789."@;
    assert(s[0] == '0' && s[1] == '1' && s[2] == '2' && s[3] == '3' && s[4] == '4' && s[5] == '5'
        && s[6] == '6' && s[7] == '7' && s[8] == '8' && s[9] == '9' && s[10] == '.');
}

/// The version of a release and a suffix that goes on with a letter.
#[verifier::rlimit(60)]
proof fn lemma_release(nums: Seq<u64>, suffix: Seq<char>)
    requires
        nums.len() > 0,
        suffix.len() > 0 ==> is_plain(suffix) && is_alpha(suffix[0]) && !has_any(
            suffix,
            Class::Is('+'),
        ),
    ensures
        pep440_version(dotted(nums) + suffix) == Some(
            if suffix_of(suffix).len() == 0 {
                padded_numbers(nums)
            } else {
                padded_numbers(nums) + "-"@ + suffix_of(suffix)
            },
        ),
{
    lemma_signs();
    let d = dotted(nums);
    let v = d + suffix;
    lemma_dotted(nums);
    assert forall|i: int| 0 <= i < v.len() implies is_plain_char(#[trigger] v[i]) && v[i]
        != '+' by {
        if i < d.len() {
            assert(v[i] == d[i]);
            assert(is_digit(d[i]) || d[i] == '.');
        } else {
            assert(v[i] == suffix[i - d.len()]);
        }
    }
    lemma_plain(v);
    lemma_first_none(v, Class::Is('!'));
    lemma_first_none(v, Class::Is('+'));
    assert(public_part(v) == v);
    let k = Class::In("0123456789.");
    assert forall|i: int| 0 <= i < d.len() implies k.has(#[trigger] d[i]) by {
        lemma_digit_or_point(d[i]);
        assert(is_digit(d[i]) || d[i] == '.');
    }
    if suffix.len() > 0 {
        lemma_digit_or_point(suffix[0]);
    }
    lemma_leading_at(d, suffix, k);
    lemma_nonempty(decimals(nums), nums);
    let core = segment(decimals(nums), 0) + "."@ + segment(decimals(nums), 1) + "."@ + segment(
        decimals(nums),
        2,
    );
    reveal_strlit("0");
    assert(decimal(0) =~= "0"@);
    assert(core == padded_numbers(nums));
}

/// The semver spelling of a pre-release, post-release or development suffix of a word and
/// a number: the word's own name, a point and the number. The release before it stays.
#[verifier::rlimit(60)]
pub proof fn law_pep440_suffix(nums: Seq<u64>, word: Seq<char>, n: u64)
    requires
        nums.len() > 0,
        word.len() > 0,
        forall|i: int| 0 <= i < word.len() ==> 'a' <= #[trigger] word[i] <= 'z',
    ensures
        pep440_version(dotted(nums) + word + decimal(n as nat)) == Some(
            padded_numbers(nums) + "-"@ + (if word == "a"@ || word == "alpha"@ {
                "alpha"@
            } else if word == "b"@ || word == "beta"@ {
                "beta"@
            } else if word == "c"@ || word == "rc"@ || word == "pre"@ || word == "preview"@ {
                "rc"@
            } else if word == "post"@ || word == "rev"@ || word == "r"@ {
                "post"@
            } else {
                word
            }) + "."@ + decimal(n as nat),
        ),
{
    lemma_signs();
    let d = decimal(n as nat);
    let suffix = word + d;
    law_decimal_reads_back(n as nat);
    assert forall|i: int| 0 <= i < suffix.len() implies is_plain_char(#[trigger] suffix[i])
        && suffix[i] != '+' by {
        if i < word.len() {
            assert(suffix[i] == word[i]);
        } else {
            assert(suffix[i] == d[i - word.len()]);
            assert(Class::Digit.has(d[i - word.len()]));
        }
    }
    assert(suffix[0] == word[0]);
    lemma_release(nums, suffix);
    assert(dotted(nums) + word + d =~= dotted(nums) + suffix);
    lemma_word_and_number(word, n);
    let words = tokens_of(suffix).map_values(|w: Seq<char>| suffix_word(w));
    assert(suffix_word(d) == d) by {
        assert(Class::Digit.has(d[0]));
        reveal_strlit("a");
        reveal_strlit("alpha");
        reveal_strlit("b");
        reveal_strlit("beta");
        reveal_strlit("c");
        reveal_strlit("rc");
        reveal_strlit("pre");
        reveal_strlit("preview");
        reveal_strlit("post");
        reveal_strlit("rev");
        reveal_strlit("r");
    }
    assert(words =~= seq![suffix_word(word), d]);
    lemma_joined(suffix_word(word), d, "."@);
    let s = suffix_word(word) + "."@ + d;
    assert(padded_numbers(nums) + "-"@ + s =~= padded_numbers(nums) + "-"@ + suffix_word(word)
        + "."@ + d);
}

/// A word and a number after it are two tokens.
#[verifier::rlimit(60)]
pub proof fn lemma_word_and_number(word: Seq<char>, n: u64)
    requires
        word.len() > 0,
        forall|i: int| 0 <= i < word.len() ==> 'a' <= #[trigger] word[i] <= 'z',
    ensures
        tokens_of(word + decimal(n as nat)) == seq![word, decimal(n as nat)],
{
    reveal_with_fuel(tokens_of, 3);
    let d = decimal(n as nat);
    let s = word + d;
    law_decimal_reads_back(n as nat);
    assert(Class::Digit.has(d[0]));
    assert(s[0] == word[0]);
    assert forall|i: int| 0 <= i < word.len() implies Class::Alpha.has(#[trigger] word[i]) by {
        assert('a' <= word[i] <= 'z');
    }
    lemma_leading_at(word, d, Class::Alpha);
    lemma_lowered_same(word);
    assert(tokens_of(s) == seq![word] + tokens_of(d));
    let none = Seq::<char>::empty();
    lemma_leading_at(d, none, Class::Digit);
    assert(d + none =~= d);
    assert forall|i: int| 0 <= i < d.len() implies !('A' <= #[trigger] d[i] && d[i] <= 'Z') by {
        assert(Class::Digit.has(d[i]));
    }
    lemma_lowered_same(d);
    assert(tokens_of(none) =~= Seq::<Seq<char>>::empty());
    assert(tokens_of(d) =~= seq![d]);
}

/// An epoch and a local segment are dropped.
#[verifier::rlimit(60)]
pub proof fn law_pep440_epoch_and_local(epoch: Seq<char>, v: Seq<char>, local: Seq<char>)
    requires
        is_plain(epoch),
        is_plain(v),
        is_plain(local),
        !has_any(v, Class::Is('+')),
    ensures
        pep440_version(epoch + "!"@ + v) == pep440_version(v),
        pep440_version(v + "+"@ + local) == pep440_version(v),
{
    lemma_signs();
    lemma_plain(epoch);
    lemma_plain(v);
    assert(is_plain_char(epoch[0]) && is_plain_char(v[0]) && is_plain_char(v.last())
        && is_plain_char(local.last()));
    lemma_plain_char(epoch[0]);
    lemma_plain_char(v[0]);
    lemma_plain_char(v.last());
    lemma_plain_char(local.last());
    let e = epoch + "!"@ + v;
    assert(e[0] == epoch[0] && e.last() == v.last());
    lemma_trimmed_same(e);
    lemma_first_at(epoch, '!', v, Class::Is('!'));
    lemma_first_none(v, Class::Is('!'));
    lemma_first_none(v, Class::Is('+'));
    let l = v + "+"@ + local;
    assert(l[0] == v[0] && l.last() == local.last());
    lemma_trimmed_same(l);
    assert forall|i: int| 0 <= i < l.len() implies #[trigger] l[i] != '!' by {
        if i < v.len() {
            assert(l[i] == v[i]);
            lemma_plain_char(v[i]);
        } else if i > v.len() {
            assert(l[i] == local[i - v.len() - 1]);
            lemma_plain_char(local[i - v.len() - 1]);
        }
    }
    lemma_first_none(l, Class::Is('!'));
    lemma_first_at(v, '+', local, Class::Is('+'));
}

} // verus!
