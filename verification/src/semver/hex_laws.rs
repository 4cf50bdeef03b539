//! What Hex requirements come to.
use super::dotted::{decimals, dotted, lemma_dotted, lemma_dotted_few};
use super::elixir::{
    best_branch, hex_branch, hex_clause, hex_clauses, hex_requirement, hex_tilde, hex_version,
    largest_bound, lower_bound_of, next, with_op,
};
use super::parts::{all_trimmed, is_digits, padded, padded_numbers, segment};
use super::version::{semver_before, semver_version, triple};
use crate::number::{decimal, law_decimal_reads_back};
use crate::split::pieces_by;
use crate::text::{begins, first, has_any, is_digit, is_space, trimmed, Class};
use crate::writing::{
    is_plain, is_plain_char, lemma_after, lemma_find_absent, lemma_find_after, lemma_find_none,
    lemma_first_at, lemma_first_none, lemma_joined, lemma_not_begins, lemma_plain, lemma_plain_char,
    lemma_signs, lemma_trimmed_same,
};
use vstd::prelude::*;

verus! {

/// Whether a text is one clause as it is written: not empty, and without a space.
pub open spec fn is_clause(c: Seq<char>) -> bool {
    c.len() > 0 && forall|i: int| 0 <= i < c.len() ==> !is_space(#[trigger] c[i])
}

#[verifier::rlimit(60)]
proof fn lemma_clause(c: Seq<char>)
    requires
        is_clause(c),
    ensures
        trimmed(c) == c,
        pieces_by(c, " or "@) == seq![c],
        pieces_by(c, " and "@) == seq![c],
{
    reveal_strlit(" or ");
    reveal_strlit(" and ");
    assert(!is_space(c[0]) && !is_space(c.last()));
    lemma_trimmed_same(c);
    assert forall|i: int| 0 <= i < c.len() implies #[trigger] c[i] != ' ' by {
        assert(!is_space(c[i]));
    }
    lemma_find_absent(c, " or "@);
    lemma_find_absent(c, " and "@);
}

/// A requirement of one clause comes to what the clause does.
#[verifier::rlimit(60)]
proof fn lemma_one_clause(c: Seq<char>)
    requires
        is_clause(c),
    ensures
        hex_branch(c) == hex_clause(c),
        hex_requirement(c) == match hex_clause(c) {
            Some(t) => t,
            None => seq![],
        },
{
    reveal_with_fuel(hex_clauses, 2);
    reveal_with_fuel(best_branch, 2);
    lemma_clause(c);
    let none = Seq::<Seq<char>>::empty();
    assert(seq![c].drop_last() =~= none);
    if let Some(t) = hex_clause(c) {
        assert(none.push(t) =~= seq![t]);
        lemma_joined(t, t, ", "@);
    }
}

#[verifier::rlimit(60)]
proof fn lemma_signed(op: Seq<char>, v: Seq<char>)
    requires
        is_plain(v),
        op == ">="@ || op == "<="@ || op == ">"@ || op == "<"@ || op == "=="@ || op == "~>"@
            || op.len() == 0,
    ensures
        is_clause(op + v),
        trimmed(v) == v,
        is_clause(v),
        op == "~>"@ ==> hex_clause(op + v) == hex_tilde(v),
        op == "=="@ || op.len() == 0 ==> hex_clause(op + v) == with_op("="@, hex_version(v)),
        op == ">="@ || op == "<="@ || op == ">"@ || op == "<"@ ==> hex_clause(op + v) == with_op(
            op,
            hex_version(v),
        ),
{
    lemma_signs();
    lemma_plain(v);
    let c = op + v;
    let n = op.len() as int;
    assert(is_plain_char(v[0]));
    lemma_plain_char(v[0]);
    assert forall|i: int| 0 <= i < v.len() implies !is_space(#[trigger] v[i]) by {
        lemma_plain_char(v[i]);
    }
    assert forall|i: int| 0 <= i < c.len() implies !is_space(#[trigger] c[i]) by {
        if i < n {
            assert(c[i] == op[i]);
        } else {
            assert(c[i] == v[i - n]);
        }
    }
    assert(!is_space(c[0]) && !is_space(c.last()));
    lemma_trimmed_same(c);
    assert(c[n] == v[0]);
    lemma_after(op, v);
    if n == 0 {
        assert(c =~= v);
        lemma_not_begins(c, "~>"@, 0);
        lemma_not_begins(c, ">="@, 0);
        lemma_not_begins(c, "<="@, 0);
        lemma_not_begins(c, "=="@, 0);
        lemma_not_begins(c, ">"@, 0);
        lemma_not_begins(c, "<"@, 0);
    } else {
        assert(c[0] == op[0]);
        if op != "~>"@ {
            lemma_not_begins(c, "~>"@, 0);
        }
        if op == "<="@ || op == "=="@ || op == "<"@ {
            lemma_not_begins(c, ">="@, 0);
            lemma_not_begins(c, ">"@, 0);
        }
        if op == "=="@ {
            lemma_not_begins(c, "<="@, 0);
        }
        if op == ">"@ {
            lemma_not_begins(c, ">="@, 1);
            lemma_not_begins(c, "<="@, 0);
            lemma_not_begins(c, "=="@, 0);
        }
        if op == "<"@ {
            lemma_not_begins(c, "<="@, 1);
            lemma_not_begins(c, "=="@, 0);
        }
    }
}

/// A comparison with a version translates to the same comparison with the padded version;
/// `==` and a bare version admit that version alone.
pub proof fn law_hex_comparison(op: Seq<char>, v: Seq<char>, t: Seq<char>)
    requires
        op == ">="@ || op == "<="@ || op == ">"@ || op == "<"@,
        is_plain(v),
        hex_version(v) == Some(t),
    ensures
        hex_requirement(op + v) == op + t,
        hex_requirement("=="@ + v) == "="@ + t,
        hex_requirement(v) == "="@ + t,
{
    let none = Seq::<char>::empty();
    lemma_signed(op, v);
    lemma_signed("=="@, v);
    lemma_signed(none, v);
    assert(none + v =~= v);
    lemma_one_clause(op + v);
    lemma_one_clause("=="@ + v);
    lemma_one_clause(v);
}

/// `~> a.b` admits `a.b` and later releases of a, and `~> a.b.c` admits `a.b.c` and later
/// releases of `a.b`.
pub proof fn law_hex_tilde(a: u64, b: u64, c: u64)
    ensures
        a < u64::MAX ==> hex_requirement("~>"@ + dotted(seq![a, b])) == ">="@ + triple(a, b, 0)
            + ", <"@ + triple((a + 1) as u64, 0, 0),
        b < u64::MAX ==> hex_requirement("~>"@ + dotted(seq![a, b, c])) == ">="@ + triple(a, b, c)
            + ", <"@ + triple(a, (b + 1) as u64, 0),
{
    lemma_tilde(seq![a, b]);
    lemma_tilde(seq![a, b, c]);
    lemma_dotted_few(a, b, c);
}

#[verifier::rlimit(60)]
proof fn lemma_tilde(nums: Seq<u64>)
    requires
        nums.len() >= 2,
    ensures
        hex_requirement("~>"@ + dotted(nums)) == ">="@ + padded_numbers(nums) + ", <"@
            + if nums.len() >= 3 {
            triple(nums[0], next(nums[1]), 0)
        } else {
            triple(next(nums[0]), 0, 0)
        },
{
    let d = dotted(nums);
    lemma_dotted(nums);
    lemma_signed("~>"@, d);
    lemma_one_clause("~>"@ + d);
    law_hex_version(nums, d);
    lemma_no_tag(d);
    let parts = decimals(nums);
    assert forall|i: int| 0 <= i < parts.len() implies trimmed(#[trigger] parts[i]) == parts[i] by {
        let e = decimal(nums[i] as nat);
        law_decimal_reads_back(nums[i] as nat);
        assert(Class::Digit.has(e[0]) && Class::Digit.has(e[e.len() - 1]));
        lemma_trimmed_same(e);
    }
    assert(all_trimmed(parts) =~= parts);
}

proof fn lemma_tag(c: char)
    ensures
        Class::In("-+").has(c) <==> c == '-' || c == '+',
{
    reveal_strlit("-+");
    let s = "-+"@;
    assert(s.len() == 2 && s[0] == '-' && s[1] == '+');
}

proof fn lemma_no_tag(d: Seq<char>)
    requires
        super::dotted::is_dotted(d),
    ensures
        first(d, Class::In("-+")) == d.len(),
        d.take(first(d, Class::In("-+"))) == d,
        !has_any(d, Class::In("-+")),
{
    assert forall|i: int| 0 <= i < d.len() implies !Class::In("-+").has(#[trigger] d[i]) by {
        lemma_tag(d[i]);
        assert(is_digit(d[i]) || d[i] == '.');
    }
    lemma_first_none(d, Class::In("-+"));
}

/// A release is that release with the missing numbers zero, and a pre-release stays as it
/// is.
#[verifier::rlimit(60)]
pub proof fn law_hex_version(nums: Seq<u64>, pre: Seq<char>)
    requires
        nums.len() > 0,
        is_plain(pre),
    ensures
        hex_version(dotted(nums)) == Some(padded_numbers(nums)),
        hex_version(dotted(nums) + "-"@ + pre) == Some(padded_numbers(nums) + "-"@ + pre),
{
    lemma_signs();
    let d = dotted(nums);
    lemma_dotted(nums);
    lemma_plain(d);
    lemma_no_tag(d);
    reveal_strlit("0");
    assert(decimal(0) =~= "0"@);
    let p = decimals(nums);
    assert forall|i: int| 0 <= i < 3 implies is_digits(#[trigger] segment(p, i)) by {
        if i < nums.len() {
            law_decimal_reads_back(nums[i] as nat);
        } else {
            law_decimal_reads_back(0);
        }
    }
    assert(is_digits(segment(p, 0)) && is_digits(segment(p, 1)) && is_digits(segment(p, 2)));
    assert(padded(p) == Some(padded_numbers(nums)));
    assert(d.skip(d.len() as int) =~= seq![]);
    assert(padded_numbers(nums) + d.skip(d.len() as int) =~= padded_numbers(nums));
    let v = d + "-"@ + pre;
    assert(is_plain_char(pre[pre.len() - 1]));
    lemma_plain_char(pre.last());
    assert(v[0] == d[0] && v.last() == pre.last());
    lemma_trimmed_same(v);
    lemma_tag('-');
    lemma_first_at(d, '-', pre, Class::In("-+"));
    assert(v.skip(d.len() as int) =~= "-"@ + pre);
    assert(padded_numbers(nums) + ("-"@ + pre) =~= padded_numbers(nums) + "-"@ + pre);
}

/// Two clauses are both kept, in order, and where one cannot be translated nothing is.
#[verifier::rlimit(60)]
pub proof fn law_hex_conjunction(a: Seq<char>, b: Seq<char>)
    requires
        is_clause(a),
        is_clause(b),
    ensures
        match (hex_clause(a), hex_clause(b)) {
            (Some(s), Some(t)) => hex_requirement(a + " and "@ + b) == s + ", "@ + t,
            _ => hex_requirement(a + " and "@ + b).len() == 0,
        },
{
    reveal_with_fuel(hex_clauses, 3);
    reveal_with_fuel(best_branch, 2);
    reveal_strlit(" and ");
    reveal_strlit(" or ");
    let c = a + " and "@ + b;
    lemma_clause(a);
    lemma_clause(b);
    assert forall|i: int| 0 <= i < a.len() implies #[trigger] a[i] != " and "@[0] by {
        assert(!is_space(a[i]));
    }
    lemma_find_after(a, " and "@, b);
    assert(pieces_by(c, " and "@) =~= seq![a, b]);
    assert(!is_space(a[0]) && !is_space(b.last()));
    assert(c[0] == a[0] && c.last() == b.last());
    lemma_trimmed_same(c);
    lemma_no_or(a, b);
    let none = Seq::<Seq<char>>::empty();
    assert(seq![c].drop_last() =~= none);
    assert(seq![a, b].drop_last() =~= seq![a]);
    assert(seq![a].drop_last() =~= none);
    if let (Some(s), Some(t)) = (hex_clause(a), hex_clause(b)) {
        assert(none.push(s) =~= seq![s]);
        assert(seq![s].push(t) =~= seq![s, t]);
        lemma_joined(s, t, ", "@);
    }
}

#[verifier::rlimit(60)]
proof fn lemma_no_or(a: Seq<char>, b: Seq<char>)
    requires
        is_clause(a),
        is_clause(b),
    ensures
        pieces_by(a + " and "@ + b, " or "@) == seq![a + " and "@ + b],
{
    reveal_strlit(" and ");
    reveal_strlit(" or ");
    let c = a + " and "@ + b;
    let p = " or "@;
    let n = a.len() as int;
    assert forall|i: int| 0 <= i <= c.len() implies !begins(#[trigger] c.skip(i), p) by {
        let t = c.skip(i);
        if begins(t, p) {
            assert(t.take(4)[0] == t[0] && t.take(4)[1] == t[1]);
            assert(t[0] == c[i] && t[1] == c[i + 1]);
            if i < n {
                assert(c[i] == a[i]);
                assert(!is_space(a[i]));
            } else if i >= n + 5 {
                assert(c[i] == b[i - n - 5]);
                assert(!is_space(b[i - n - 5]));
            } else if i == n {
                assert(c[n + 1] == 'a');
            } else if i == n + 4 {
                // The space before the second clause, which has none for the other.
                assert(t.take(4)[3] == t[3]);
                assert(t[3] == c[i + 3]);
                assert(c[i + 3] == b[i + 3 - n - 5]);
                assert(!is_space(b[i + 3 - n - 5]));
            } else {
                assert(c[i] == " and "@[i - n]);
            }
        }
    }
    lemma_find_none(c, p);
}

/// Of two branches the one whose lower bound is later is chosen, the first where neither
/// is; one that cannot be translated is passed over.
#[verifier::rlimit(60)]
pub proof fn law_hex_union(a: Seq<char>, b: Seq<char>)
    requires
        is_clause(a),
        is_clause(b),
    ensures
        match (hex_clause(a), hex_clause(b)) {
            (Some(s), Some(t)) => hex_requirement(a + " or "@ + b) == if semver_before(
                lower_bound_of(s),
                lower_bound_of(t),
            ) {
                t
            } else {
                s
            },
            (Some(s), None) => hex_requirement(a + " or "@ + b) == s,
            (None, Some(t)) => hex_requirement(a + " or "@ + b) == t,
            (None, None) => hex_requirement(a + " or "@ + b).len() == 0,
        },
{
    reveal_with_fuel(best_branch, 3);
    reveal_strlit(" or ");
    let c = a + " or "@ + b;
    lemma_clause(a);
    lemma_clause(b);
    lemma_one_clause(a);
    lemma_one_clause(b);
    assert forall|i: int| 0 <= i < a.len() implies #[trigger] a[i] != " or "@[0] by {
        assert(!is_space(a[i]));
    }
    lemma_find_after(a, " or "@, b);
    assert(pieces_by(c, " or "@) =~= seq![a, b]);
    assert(seq![a, b].drop_last() =~= seq![a]);
    assert(seq![a].drop_last() =~= Seq::<Seq<char>>::empty());
}

/// The lower bound of a translated clause is the version after `>=`, `=` or `>`; an upper
/// bound has none.
pub proof fn law_hex_lower_bound(v: Seq<char>)
    requires
        is_plain(v),
    ensures
        semver_version(v) is Some ==> lower_bound_of(">="@ + v) == v && lower_bound_of("="@ + v)
            == v && lower_bound_of(">"@ + v) == v,
        lower_bound_of("<"@ + v) == "0.0.0"@,
        lower_bound_of("<="@ + v) == "0.0.0"@,
{
    lemma_bound(">="@, v);
    lemma_bound("="@, v);
    lemma_bound(">"@, v);
    lemma_bound("<"@, v);
    lemma_bound("<="@, v);
}

#[verifier::rlimit(60)]
proof fn lemma_bound(op: Seq<char>, v: Seq<char>)
    requires
        is_plain(v),
        op == ">="@ || op == "="@ || op == ">"@ || op == "<"@ || op == "<="@,
    ensures
        (op == ">="@ || op == "="@ || op == ">"@) && semver_version(v) is Some ==> lower_bound_of(
            op + v,
        ) == v,
        op == "<"@ || op == "<="@ ==> lower_bound_of(op + v) == "0.0.0"@,
{
    reveal_with_fuel(largest_bound, 2);
    lemma_signs();
    lemma_plain(v);
    let c = op + v;
    assert(is_plain_char(v[0]) && is_plain_char(v[v.len() - 1]));
    lemma_plain_char(v[0]);
    lemma_plain_char(v.last());
    assert(c[0] == op[0] && c.last() == v.last());
    lemma_trimmed_same(c);
    assert forall|i: int| 0 <= i < c.len() implies #[trigger] c[i] != ',' by {
        if i < op.len() {
            assert(c[i] == op[i]);
        } else {
            assert(c[i] == v[i - op.len()]);
        }
    }
    crate::writing::lemma_one_piece(c, Class::Is(','));
    assert(seq![c].drop_last() =~= Seq::<Seq<char>>::empty());
    lemma_after(op, v);
    assert(c[op.len() as int] == v[0]);
    if op == "="@ || op == "<"@ || op == "<="@ {
        lemma_not_begins(c, ">="@, 0);
        lemma_not_begins(c, ">"@, 0);
    }
    if op == ">"@ {
        lemma_not_begins(c, ">="@, 1);
    }
    if op != "="@ {
        lemma_not_begins(c, "="@, 0);
    }
}

} // verus!
