//! What ranges in the npm, Composer, Dart and Cargo dialects come to.
use super::normalize::{
    implicit_at, is_implicit, best_of, bounded, conjunction, conjuncts, is_unstable, lowest,
    normal_constraint, normal_version, range_requirement, requirement_of, stable_only, translation,
    union_of, UnstableFilter,
};
use super::dotted::{dotted, lemma_dotted, lemma_dotted_few};
use super::parts::numbers;
use super::python::nonempty;
use super::version::{
    semver_requirement, semver_version, triple, ComparatorView, Operator, VersionView,
};
use crate::ecosystem::Ecosystem;
use crate::split::{pieces, pieces_by};
use crate::text::{
    all_in, begins, leading, find, has_any, is_digit, is_space, lowered, trim_start_of, trimmed,
    Class,
};
use crate::number::decimal;
use crate::writing::{
    is_plain, is_plain_char, is_solid, lemma_find_absent, lemma_find_after, lemma_find_first,
    lemma_find_none, lemma_first_at, lemma_first_none, lemma_joined, lemma_last_at,
    lemma_last_none, lemma_next_piece, lemma_one_piece, lemma_plain, lemma_plain_char, lemma_signs,
    lemma_trimmed_same, lemma_trimmed_spaces,
};
use vstd::prelude::*;

verus! {

/// The numbers that a comparator states, 0 for those it leaves out.
pub open spec fn stated(c: ComparatorView) -> (int, int, int) {
    (
        c.major as int,
        match c.minor {
            Some(n) => n as int,
            None => 0,
        },
        match c.patch {
            Some(n) => n as int,
            None => 0,
        },
    )
}

/// Whether some numbers are less than others, the first that differ deciding.
pub open spec fn less(a: (int, int, int), b: (int, int, int)) -> bool {
    ||| a.0 < b.0
    ||| a.0 == b.0 && a.1 < b.1
    ||| a.0 == b.0 && a.1 == b.1 && a.2 < b.2
}

/// The numbers of a triple.
pub open spec fn wide(t: (u64, u64, u64)) -> (int, int, int) {
    (t.0 as int, t.1 as int, t.2 as int)
}

/// The rank of a requirement is the greatest version that one of its `>`, `>=`, `=`, `^`
/// and `~` comparators states: none of these states a greater one, and it is one of them
/// that states it, or else the rank is zero. The others (`<`, `<=`, `*`) do not count.
#[verifier::rlimit(60)]
pub proof fn law_rank_is_the_greatest_lower_bound(comparators: Seq<ComparatorView>)
    ensures
        forall|i: int|
            #![trigger comparators[i]]
            0 <= i < comparators.len() && match comparators[i].op {
                Operator::Greater
                | Operator::GreaterEq
                | Operator::Exact
                | Operator::Caret
                | Operator::Tilde => true,
                _ => false,
            } ==> !less(wide(lowest(comparators)), stated(comparators[i])),
        wide(lowest(comparators)) == (0int, 0int, 0int) || exists|i: int|
            #![trigger comparators[i]]
            0 <= i < comparators.len() && wide(lowest(comparators)) == stated(comparators[i])
                && match comparators[i].op {
                Operator::Less | Operator::LessEq | Operator::Wildcard => false,
                _ => true,
            },
    decreases comparators.len(),
{
    if comparators.len() > 0 {
        let front = comparators.drop_last();
        let n = front.len() as int;
        law_rank_is_the_greatest_lower_bound(front);
        assert(comparators[n] == comparators.last());
        assert forall|i: int| 0 <= i < n implies #[trigger] comparators[i] == front[i] by {}
        if wide(lowest(front)) != (0int, 0int, 0int) {
            let i = choose|i: int|
                #![trigger front[i]]
                0 <= i < n && wide(lowest(front)) == stated(front[i]) && match front[i].op {
                    Operator::Less | Operator::LessEq | Operator::Wildcard => false,
                    _ => true,
                };
            assert(comparators[i] == front[i]);
        }
    }
}

/// Whether a text is one comparator as it is written: no white space, and none of the
/// signs that separate comparators, branches or flags; an operator and more, and no `v`
/// before a digit.
pub open spec fn is_comparator(t: Seq<char>) -> bool {
    &&& t.len() > 0
    &&& t[0] != 'v' && t[0] != 'V'
    &&& forall|i: int|
        0 <= i < t.len() ==> !is_space(#[trigger] t[i]) && t[i] != ',' && t[i] != '|' && t[i] != '@'
    &&& !all_in(t, Class::In("><=^~!"))
}

proof fn lemma_separators(c: char)
    ensures
        Class::In(", \t").has(c) <==> c == ',' || c == ' ' || c == '\t',
{
    reveal_strlit(", \t");
    let set = ", \t"@;
    assert(set[0] == ',' && set[1] == ' ' && set[2] == '\t');
}

proof fn lemma_comparator(t: Seq<char>)
    requires
        is_comparator(t),
    ensures
        !has_any(t, Class::In(", \t")),
        !has_any(t, Class::Is('@')),
        normal_constraint(t) == t,
        is_solid(t),
{
    assert forall|i: int| 0 <= i < t.len() implies !Class::In(", \t").has(#[trigger] t[i]) by {
        lemma_separators(t[i]);
        assert(!is_space(t[i]));
    }
    assert(!is_space(t[0]) && !is_space(t.last()));
    lemma_trimmed_same(t);
}

/// A text of two tokens with one space between them does not hold a hyphen between
/// spaces.
#[verifier::rlimit(60)]
proof fn lemma_no_hyphen(a: Seq<char>, sep: Seq<char>, b: Seq<char>)
    requires
        forall|i: int| 0 <= i < a.len() ==> #[trigger] a[i] != ' ',
        forall|i: int| 0 <= i < b.len() ==> #[trigger] b[i] != ' ',
        sep == " "@ || sep == ", "@ || sep == ","@ || sep.len() == 0,
    ensures
        find(a + sep + b, " - "@) == -1,
{
    reveal_strlit(" - ");
    reveal_strlit(" ");
    reveal_strlit(", ");
    reveal_strlit(",");
    let s = a + sep + b;
    let p = " - "@;
    assert forall|i: int| 0 <= i <= s.len() implies !begins(#[trigger] s.skip(i), p) by {
        let t = s.skip(i);
        if begins(t, p) {
            assert(t.take(3)[0] == t[0] && t.take(3)[2] == t[2]);
            assert(t[0] == s[i] && t[2] == s[i + 2]);
            assert(s[i] == ' ' && s[i + 2] == ' ');
            if i < a.len() {
                assert(s[i] == a[i]);
            } else if i + 2 >= a.len() + sep.len() {
                assert(s[i + 2] == b[i + 2 - a.len() - sep.len()]);
            }
        }
    }
    lemma_find_none(s, p);
}

#[verifier::rlimit(60)]
proof fn lemma_two_tokens(a: Seq<char>, b: Seq<char>)
    ensures
        nonempty(Seq::<Seq<char>>::empty()) == Seq::<Seq<char>>::empty(),
        a.len() > 0 ==> nonempty(seq![a]) == seq![a],
        a.len() > 0 && b.len() > 0 ==> nonempty(seq![a, b]) == seq![a, b],
        a.len() > 0 && b.len() > 0 ==> nonempty(seq![a, seq![], b]) == seq![a, b],
{
    reveal_with_fuel(nonempty, 4);
    let none = Seq::<Seq<char>>::empty();
    let e = Seq::<char>::empty();
    assert(seq![a].drop_last() =~= none);
    assert(seq![a, b].drop_last() =~= seq![a]);
    assert(seq![a, e].drop_last() =~= seq![a]);
    assert(seq![a, e, b].drop_last() =~= seq![a, e]);
    assert(none.push(a) =~= seq![a]);
    assert(seq![a].push(b) =~= seq![a, b]);
}

/// A branch of one comparator is that comparator.
#[verifier::rlimit(60)]
pub proof fn law_one_comparator(t: Seq<char>)
    requires
        is_comparator(t),
    ensures
        conjunction(t) == Some(t),
{
    reveal_with_fuel(conjuncts, 2);
    lemma_comparator(t);
    assert forall|i: int| 0 <= i < t.len() implies #[trigger] t[i] != ' ' by {
        assert(!is_space(t[i]));
    }
    let none = Seq::<char>::empty();
    lemma_no_hyphen(t, none, none);
    assert(t + none + none =~= t);
    lemma_one_piece(t, Class::In(", \t"));
    lemma_two_tokens(t, t);
    assert(seq![t].drop_last() =~= Seq::<Seq<char>>::empty());
    assert(Seq::<Seq<char>>::empty().push(t) =~= seq![t]);
    lemma_joined(t, t, ", "@);
}

/// Two comparators are both kept, in order, whether a space, a comma or both stand
/// between them.
#[verifier::rlimit(60)]
pub proof fn law_two_comparators(a: Seq<char>, b: Seq<char>)
    requires
        is_comparator(a),
        is_comparator(b),
    ensures
        conjunction(a + " "@ + b) == Some(a + ", "@ + b),
        conjunction(a + ","@ + b) == Some(a + ", "@ + b),
        conjunction(a + ", "@ + b) == Some(a + ", "@ + b),
{
    reveal_with_fuel(conjuncts, 3);
    let k = Class::In(", \t");
    lemma_comparator(a);
    lemma_comparator(b);
    assert forall|i: int| 0 <= i < a.len() implies #[trigger] a[i] != ' ' by {
        assert(!is_space(a[i]));
    }
    assert forall|i: int| 0 <= i < b.len() implies #[trigger] b[i] != ' ' by {
        assert(!is_space(b[i]));
    }
    lemma_no_hyphen(a, " "@, b);
    lemma_no_hyphen(a, ","@, b);
    lemma_no_hyphen(a, ", "@, b);
    reveal_strlit(" ");
    reveal_strlit(",");
    reveal_strlit(", ");
    lemma_separators(' ');
    lemma_separators(',');
    assert(" "@ =~= seq![' ']);
    assert(","@ =~= seq![',']);
    assert(", "@ =~= seq![',', ' ']);
    let e = Seq::<char>::empty();
    lemma_one_piece(b, k);
    lemma_next_piece(a, ' ', b, k);
    lemma_next_piece(a, ',', b, k);
    lemma_next_piece(e, ' ', b, k);
    lemma_next_piece(a, ',', " "@ + b, k);
    assert(e + seq![' '] + b =~= " "@ + b);
    assert(a + seq![','] + (" "@ + b) =~= a + ", "@ + b);
    assert(pieces(a + " "@ + b, k) =~= seq![a, b]);
    assert(pieces(a + ","@ + b, k) =~= seq![a, b]);
    assert(pieces(a + ", "@ + b, k) =~= seq![a, e, b]);
    lemma_two_tokens(a, b);
    let none = Seq::<Seq<char>>::empty();
    assert(seq![a, b].drop_last() =~= seq![a]);
    assert(seq![a].drop_last() =~= none);
    assert(none.push(a) =~= seq![a]);
    assert(seq![a].push(b) =~= seq![a, b]);
    lemma_joined(a, b, ", "@);
}

/// An operator that stands apart from its version is put before it.
#[verifier::rlimit(60)]
pub proof fn law_operator_apart(op: Seq<char>, v: Seq<char>)
    requires
        op.len() > 0,
        all_in(op, Class::In("><=^~!")),
        is_comparator(v),
    ensures
        conjunction(op + " "@ + v) == Some(op + v),
{
    reveal_with_fuel(conjuncts, 3);
    let k = Class::In(", \t");
    reveal_strlit("><=^~!");
    let ops = "><=^~!"@;
    assert(ops.len() == 6 && ops[0] == '>' && ops[1] == '<' && ops[2] == '=' && ops[3] == '^'
        && ops[4] == '~' && ops[5] == '!');
    assert forall|i: int| 0 <= i < op.len() implies #[trigger] op[i] != ' ' && op[i] != ',' && op[i]
        != '\t' by {
        assert(Class::In("><=^~!").has(op[i]));
    }
    assert forall|i: int| 0 <= i < op.len() implies !k.has(#[trigger] op[i]) by {
        lemma_separators(op[i]);
    }
    lemma_comparator(v);
    assert forall|i: int| 0 <= i < v.len() implies #[trigger] v[i] != ' ' by {
        assert(!is_space(v[i]));
    }
    lemma_no_hyphen(op, " "@, v);
    reveal_strlit(" ");
    lemma_separators(' ');
    assert(" "@ =~= seq![' ']);
    lemma_one_piece(v, k);
    lemma_next_piece(op, ' ', v, k);
    assert(pieces(op + " "@ + v, k) =~= seq![op, v]);
    lemma_two_tokens(op, v);
    let none = Seq::<Seq<char>>::empty();
    assert(seq![op, v].drop_last() =~= seq![op]);
    assert(seq![op].drop_last() =~= none);
    assert(none.push(op + v) =~= seq![op + v]);
    lemma_joined(op + v, v, ", "@);
}

/// Whether a text is a branch of a union as it is written.
pub open spec fn is_branch(b: Seq<char>) -> bool {
    &&& is_solid(b)
    &&& forall|i: int| 0 <= i < b.len() ==> #[trigger] b[i] != '|' && b[i] != '@'
}

/// Whether a branch comes to a requirement.
pub open spec fn is_readable(b: Seq<char>) -> bool {
    conjunction(b) matches Some(t) && semver_requirement(t) is Ok && trimmed(t).len() > 0
}

/// Of a union of two branches that are requirements, the second is chosen exactly if its
/// rank is higher; one that is none is passed over; and where neither is one, the union
/// is left as it is.
#[verifier::rlimit(60)]
pub proof fn law_union_of_two(a: Seq<char>, b: Seq<char>)
    requires
        is_branch(a),
        is_branch(b),
        conjunction(a) matches Some(t) ==> trimmed(t).len() > 0,
        conjunction(b) matches Some(t) ==> trimmed(t).len() > 0,
    ensures
        ({
            let r = range_requirement(a + " || "@ + b);
            let s = conjunction(a)->0;
            let t = conjunction(b)->0;
            &&& is_readable(a) && is_readable(b) ==> r == if less(
                wide(lowest(semver_requirement(s)->Ok_0)),
                wide(lowest(semver_requirement(t)->Ok_0)),
            ) {
                t
            } else {
                s
            }
            &&& is_readable(a) && !is_readable(b) ==> r == s
            &&& !is_readable(a) && is_readable(b) ==> r == t
            &&& !is_readable(a) && !is_readable(b) && a[0] != 'v' && a[0] != 'V' ==> r == a
                + " || "@ + b
        }),
{
    reveal_with_fuel(best_of, 3);
    let w = a + " || "@ + b;
    reveal_strlit(" || ");
    reveal_strlit("||");
    reveal_strlit(" ");
    let bar = "||"@;
    let x = a + " "@;
    let y = " "@ + b;
    assert(w =~= x + bar + y);
    assert forall|i: int| 0 <= i < x.len() implies #[trigger] x[i] != bar[0] by {
        if i < a.len() {
            assert(x[i] == a[i]);
        }
    }
    assert forall|i: int| 0 <= i < y.len() implies #[trigger] y[i] != bar[0] by {
        if i > 0 {
            assert(y[i] == b[i - 1]);
        }
    }
    lemma_find_after(x, bar, y);
    lemma_find_absent(y, bar);
    assert(pieces_by(w, bar) =~= seq![x, y]);
    lemma_trimmed_spaces(a);
    lemma_trimmed_spaces(b);
    assert(w[0] == a[0] && w.last() == b.last());
    lemma_trimmed_same(w);
    assert forall|i: int| 0 <= i < w.len() implies #[trigger] w[i] != '@' by {
        if i < a.len() {
            assert(w[i] == a[i]);
        } else if i >= a.len() + 4 {
            assert(w[i] == b[i - a.len() - 4]);
        }
    }
    lemma_last_none(w, Class::Is('@'));
    reveal_strlit("latest");
    reveal_strlit("any");
    reveal_strlit("x");
    reveal_strlit("X");
    assert(w[a.len() as int + 1] == '|');
    if w == "latest"@ {
        assert("latest"@[a.len() as int + 1] == '|');
    }
    assert(w.len() >= 6);
    assert(lowered(w).len() == w.len());
    let two = seq![x, y];
    assert(two.drop_last() =~= seq![x]);
    assert(seq![x].drop_last() =~= Seq::<Seq<char>>::empty());
}

/// Of two half-open ranges the one that begins at the higher version is translated,
/// whichever is written first.
pub proof fn law_higher_range_wins(
    a: Seq<char>,
    b: Seq<char>,
    c: Seq<char>,
    d: Seq<char>,
    low: Seq<ComparatorView>,
    high: Seq<ComparatorView>,
)
    requires
        is_comparator(">="@ + a),
        is_comparator("<"@ + b),
        is_comparator(">="@ + c),
        is_comparator("<"@ + d),
        semver_requirement(">="@ + a + ", "@ + ("<"@ + b)) == Ok::<Seq<ComparatorView>, Seq<char>>(
            low,
        ),
        semver_requirement(">="@ + c + ", "@ + ("<"@ + d)) == Ok::<Seq<ComparatorView>, Seq<char>>(
            high,
        ),
        low.len() == 2 && low[0].op == Operator::GreaterEq && low[1].op == Operator::Less,
        high.len() == 2 && high[0].op == Operator::GreaterEq && high[1].op == Operator::Less,
        less(stated(low[0]), stated(high[0])),
    ensures
        range_requirement(">="@ + a + " "@ + ("<"@ + b) + " || "@ + (">="@ + c + " "@ + ("<"@ + d)))
            == ">="@ + c + ", "@ + ("<"@ + d),
        range_requirement(">="@ + c + " "@ + ("<"@ + d) + " || "@ + (">="@ + a + " "@ + ("<"@ + b)))
            == ">="@ + c + ", "@ + ("<"@ + d),
{
    lemma_range_pair(">="@ + a, "<"@ + b, ">="@ + c, "<"@ + d, low, high);
}

#[verifier::rlimit(60)]
proof fn lemma_range_pair(
    x: Seq<char>,
    y: Seq<char>,
    z: Seq<char>,
    w: Seq<char>,
    low: Seq<ComparatorView>,
    high: Seq<ComparatorView>,
)
    requires
        is_comparator(x),
        is_comparator(y),
        is_comparator(z),
        is_comparator(w),
        semver_requirement(x + ", "@ + y) == Ok::<Seq<ComparatorView>, Seq<char>>(low),
        semver_requirement(z + ", "@ + w) == Ok::<Seq<ComparatorView>, Seq<char>>(high),
        low.len() == 2 && low[0].op == Operator::GreaterEq && low[1].op == Operator::Less,
        high.len() == 2 && high[0].op == Operator::GreaterEq && high[1].op == Operator::Less,
        less(stated(low[0]), stated(high[0])),
    ensures
        range_requirement(x + " "@ + y + " || "@ + (z + " "@ + w)) == z + ", "@ + w,
        range_requirement(z + " "@ + w + " || "@ + (x + " "@ + y)) == z + ", "@ + w,
{
    law_two_comparators(x, y);
    law_two_comparators(z, w);
    lemma_branch(x, y);
    lemma_branch(z, w);
    lemma_solid_pair(x, y);
    lemma_solid_pair(z, w);
    lemma_rank_of_range(low);
    lemma_rank_of_range(high);
    law_union_of_two(x + " "@ + y, z + " "@ + w);
    law_union_of_two(z + " "@ + w, x + " "@ + y);
}

proof fn lemma_solid_pair(x: Seq<char>, y: Seq<char>)
    requires
        is_comparator(x),
        is_comparator(y),
    ensures
        trimmed(x + ", "@ + y) == x + ", "@ + y,
        (x + ", "@ + y).len() > 0,
{
    lemma_comparator(x);
    lemma_comparator(y);
    let s = x + ", "@ + y;
    assert(s[0] == x[0] && s.last() == y.last());
    lemma_trimmed_same(s);
}

#[verifier::rlimit(60)]
proof fn lemma_branch(x: Seq<char>, y: Seq<char>)
    requires
        is_comparator(x),
        is_comparator(y),
    ensures
        is_branch(x + " "@ + y),
{
    reveal_strlit(" ");
    let b = x + " "@ + y;
    lemma_comparator(x);
    lemma_comparator(y);
    assert(b[0] == x[0] && b.last() == y.last());
    assert forall|i: int| 0 <= i < b.len() implies #[trigger] b[i] != '|' && b[i] != '@' by {
        if i < x.len() {
            assert(b[i] == x[i]);
        } else if i > x.len() {
            assert(b[i] == y[i - x.len() - 1]);
        }
    }
}

proof fn lemma_rank_of_range(c: Seq<ComparatorView>)
    requires
        c.len() == 2,
        c[0].op == Operator::GreaterEq,
        c[1].op == Operator::Less,
    ensures
        wide(lowest(c)) == stated(c[0]),
{
    law_rank_is_the_greatest_lower_bound(c);
    assert(!less(wide(lowest(c)), stated(c[0])));
    if wide(lowest(c)) == (0int, 0int, 0int) {
        assert(stated(c[0]) == (0int, 0int, 0int));
    }
}

/// npm's hyphen range includes both ends; an end of one or two numbers includes every
/// release of it. The lower end is padded.
pub proof fn law_hyphen_range(low: Seq<char>, a: u64, b: u64, c: u64)
    requires
        is_plain(low),
        semver_version(normal_version(low)) is Some,
    ensures
        conjunction(low + " - "@ + dotted(seq![a, b, c])) == Some(
            ">="@ + normal_version(low) + ", <="@ + triple(a, b, c),
        ),
        b < u64::MAX ==> conjunction(low + " - "@ + dotted(seq![a, b])) == Some(
            ">="@ + normal_version(low) + ", <"@ + triple(a, (b + 1) as u64, 0),
        ),
        a < u64::MAX ==> conjunction(low + " - "@ + dotted(seq![a])) == Some(
            ">="@ + normal_version(low) + ", <"@ + triple((a + 1) as u64, 0, 0),
        ),
{
    lemma_hyphen(low, seq![a, b, c]);
    lemma_hyphen(low, seq![a, b]);
    lemma_hyphen(low, seq![a]);
}

#[verifier::rlimit(60)]
proof fn lemma_hyphen(low: Seq<char>, nums: Seq<u64>)
    requires
        is_plain(low),
        nums.len() > 0,
        semver_version(normal_version(low)) is Some,
    ensures
        conjunction(low + " - "@ + dotted(nums)) == bounded(normal_version(low), dotted(nums)),
        numbers(pieces(crate::semver::normalize::without_v(dotted(nums)), Class::Is('.'))) == Some(
            nums,
        ),
        !has_any(dotted(nums), Class::Space),
{
    reveal_strlit(" - ");
    let d = dotted(nums);
    lemma_dotted(nums);
    lemma_plain(low);
    lemma_plain(d);
    assert forall|i: int| 0 <= i < low.len() implies #[trigger] low[i] != " - "@[0] by {
        lemma_plain_char(low[i]);
    }
    lemma_find_after(low, " - "@, d);
}

/// A Composer stability flag says nothing of versions: a range is the same with one.
#[verifier::rlimit(60)]
pub proof fn law_stability_flag(c: Seq<char>, flag: Seq<char>)
    requires
        is_branch(c),
        !(lowered(c) == "any"@ || c == "x"@ || c == "X"@ || c == "latest"@),
        flag == "dev"@ || flag == "alpha"@ || flag == "beta"@ || flag == "RC"@ || flag == "rc"@
            || flag == "stable"@,
        union_of(c) matches Some(u) && trimmed(u).len() > 0,
    ensures
        range_requirement(c + "@"@ + flag) == range_requirement(c),
        range_requirement("@"@ + flag) == "*"@,
{
    lemma_signs();
    lemma_flag(flag);
    let s = c + "@"@ + flag;
    assert(s[0] == c[0] && s.last() == flag.last());
    lemma_trimmed_same(s);
    lemma_trimmed_same(c);
    lemma_last_at(c, '@', flag, Class::Is('@'));
    assert(s[c.len() as int] == '@');
    reveal_strlit("latest");
    if s == "latest"@ {
        assert("latest"@[c.len() as int] == '@');
    }
    lemma_last_none(c, Class::Is('@'));
    let none = Seq::<char>::empty();
    let bare = "@"@ + flag;
    assert(bare =~= none + seq!['@'] + flag);
    assert(bare[0] == '@' && bare.last() == flag.last());
    lemma_trimmed_same(bare);
    lemma_last_at(none, '@', flag, Class::Is('@'));
    if bare == "latest"@ {
        assert("latest"@[0] == '@');
    }
    lemma_trimmed_same(none);
}

#[verifier::rlimit(60)]
proof fn lemma_flag(flag: Seq<char>)
    requires
        flag == "dev"@ || flag == "alpha"@ || flag == "beta"@ || flag == "RC"@ || flag == "rc"@
            || flag == "stable"@,
    ensures
        flag.len() > 0,
        !is_space(flag.last()),
        !has_any(flag, Class::Is('@')),
        lowered(flag) == "dev"@ || lowered(flag) == "alpha"@ || lowered(flag) == "beta"@ || lowered(
            flag,
        ) == "rc"@ || lowered(flag) == "stable"@,
{
    reveal_strlit("dev");
    reveal_strlit("alpha");
    reveal_strlit("beta");
    reveal_strlit("RC");
    reveal_strlit("rc");
    reveal_strlit("stable");
    if flag == "RC"@ {
        assert(lowered(flag) =~= "rc"@);
    } else {
        assert(lowered(flag) =~= flag);
    }
}

/// Dart's `any`, an `x` in place of a version and a blank constraint with a flag admit any
/// version; the `latest` tag is left as it is; and a blank constraint is nothing.
#[verifier::rlimit(60)]
pub proof fn law_any_version()
    ensures
        range_requirement("any"@) == "*"@,
        range_requirement("x"@) == "*"@,
        range_requirement("X"@) == "*"@,
        range_requirement("latest"@) == "latest"@,
        range_requirement(seq![]).len() == 0,
{
    reveal_strlit("any");
    reveal_strlit("x");
    reveal_strlit("X");
    reveal_strlit("latest");
    let none = Seq::<char>::empty();
    lemma_trimmed_same("any"@);
    lemma_trimmed_same("x"@);
    lemma_trimmed_same("X"@);
    lemma_trimmed_same("latest"@);
    lemma_trimmed_same(none);
    lemma_last_none("any"@, Class::Is('@'));
    lemma_last_none("x"@, Class::Is('@'));
    lemma_last_none("X"@, Class::Is('@'));
    assert(lowered("any"@) =~= "any"@);
    assert("any"@.len() == 3 && "latest"@.len() == 6);
}

/// A range of one or of two comparators that is a requirement is written with commas.
#[verifier::rlimit(60)]
pub proof fn law_range_of_comparators(a: Seq<char>, b: Seq<char>)
    requires
        is_comparator(a),
        is_comparator(b),
        a.len() > 3,
        a != "latest"@,
    ensures
        semver_requirement(a) is Ok ==> range_requirement(a) == a,
        semver_requirement(a + ", "@ + b) is Ok ==> range_requirement(a + " "@ + b) == a + ", "@ + b,
{
    reveal_with_fuel(best_of, 2);
    reveal_strlit("||");
    reveal_strlit("any");
    reveal_strlit("x");
    reveal_strlit("X");
    reveal_strlit("latest");
    reveal_strlit(" ");
    law_one_comparator(a);
    law_two_comparators(a, b);
    lemma_comparator(a);
    lemma_branch(a, b);
    lemma_solid_pair(a, b);
    let c = a + " "@ + b;
    assert forall|i: int| 0 <= i < a.len() implies #[trigger] a[i] != "||"@[0] by {}
    lemma_find_absent(a, "||"@);
    lemma_find_absent(c, "||"@);
    lemma_trimmed_same(a);
    lemma_trimmed_same(c);
    lemma_last_none(a, Class::Is('@'));
    lemma_last_none(c, Class::Is('@'));
    assert(lowered(a).len() == a.len() && lowered(c).len() == c.len());
    assert("any"@.len() == 3 && "latest"@.len() == 6);
    if c == "latest"@ {
        assert(c[a.len() as int] == ' ');
        assert("latest"@[a.len() as int] == ' ');
    }
    let none = Seq::<Seq<char>>::empty();
    assert(seq![a].drop_last() =~= none);
    assert(seq![c].drop_last() =~= none);
}

/// A `v` before a version is dropped from a constraint, and kept before anything else.
#[verifier::rlimit(60)]
pub proof fn law_v_before_a_version(nums: Seq<u64>, rest: Seq<char>)
    requires
        nums.len() > 0,
        rest.len() > 0 ==> is_plain(rest),
    ensures
        normal_constraint("v"@ + (dotted(nums) + rest)) == dotted(nums) + rest,
        normal_constraint("V"@ + (dotted(nums) + rest)) == dotted(nums) + rest,
        normal_constraint(dotted(nums) + rest) == dotted(nums) + rest,
        normal_constraint("^"@ + (dotted(nums) + rest)) == "^"@ + (dotted(nums) + rest),
{
    reveal_strlit("v");
    reveal_strlit("V");
    lemma_signs();
    lemma_dotted(nums);
    let d = dotted(nums);
    let t = d + rest;
    if rest.len() > 0 {
        lemma_plain(rest);
        assert(is_plain_char(rest[rest.len() - 1]));
        lemma_plain_char(rest.last());
    }
    assert(t[0] == d[0]);
    assert(t.last() == if rest.len() > 0 { rest.last() } else { d.last() });
    lemma_trimmed_same(t);
    let (a, b, c) = ("v"@ + t, "V"@ + t, "^"@ + t);
    assert(a[0] == 'v' && b[0] == 'V' && c[0] == '^');
    assert(a.last() == t.last() && b.last() == t.last() && c.last() == t.last());
    lemma_trimmed_same(a);
    lemma_trimmed_same(b);
    lemma_trimmed_same(c);
    assert(a.drop_first() =~= t);
    assert(b.drop_first() =~= t);
}

/// A version of one or two numbers is padded to three, before its pre-release; a leading
/// `v` is dropped; and a version of three numbers is left as it is.
#[verifier::rlimit(60)]
pub proof fn law_padded_version(a: u64, b: u64, c: u64, pre: Seq<char>)
    requires
        pre.len() == 0 || (is_plain(pre) && pre[0] == '-'),
    ensures
        normal_version(dotted(seq![a]) + pre) == triple(a, 0, 0) + pre,
        normal_version(dotted(seq![a, b]) + pre) == triple(a, b, 0) + pre,
        normal_version(dotted(seq![a, b, c]) + pre) == triple(a, b, c) + pre,
        normal_version("v"@ + (dotted(seq![a, b, c]) + pre)) == triple(a, b, c) + pre,
{
    lemma_padded_version(seq![a], pre);
    lemma_padded_version(seq![a, b], pre);
    lemma_padded_version(seq![a, b, c], pre);
    lemma_dotted_few(a, b, c);
    reveal_strlit(".0.0");
    reveal_strlit(".0");
    reveal_strlit(".");
    assert(decimal(0) =~= seq!['0']);
    assert(dotted(seq![a]) + ".0.0"@ =~= triple(a, 0, 0));
    assert(dotted(seq![a, b]) + ".0"@ =~= triple(a, b, 0));
}

#[verifier::rlimit(60)]
proof fn lemma_padded_version(nums: Seq<u64>, pre: Seq<char>)
    requires
        nums.len() > 0,
        pre.len() == 0 || (is_plain(pre) && pre[0] == '-'),
    ensures
        ({
            let full = if nums.len() == 1 {
                dotted(nums) + ".0.0"@ + pre
            } else if nums.len() == 2 {
                dotted(nums) + ".0"@ + pre
            } else {
                dotted(nums) + pre
            };
            &&& normal_version(dotted(nums) + pre) == full
            &&& normal_version("v"@ + (dotted(nums) + pre)) == full
        }),
{
    reveal_strlit("v");
    reveal_strlit("-+");
    let set = "-+"@;
    assert(set.len() == 2 && set[0] == '-' && set[1] == '+');
    let d = dotted(nums);
    let t = d + pre;
    lemma_dotted(nums);
    if pre.len() > 0 {
        lemma_plain(pre);
        assert(is_plain_char(pre[pre.len() - 1]));
        lemma_plain_char(pre.last());
    }
    assert(t[0] == d[0]);
    assert(t.last() == if pre.len() > 0 { pre.last() } else { d.last() });
    lemma_trimmed_same(t);
    let v = "v"@ + t;
    assert(v[0] == 'v' && v.last() == t.last());
    lemma_trimmed_same(v);
    assert(v.drop_first() =~= t);
    let k = Class::In("-+");
    assert forall|i: int| 0 <= i < d.len() implies !k.has(#[trigger] d[i]) by {
        assert(is_digit(d[i]) || d[i] == '.');
        if set.contains(d[i]) {
            let j = choose|j: int| 0 <= j < set.len() && set[j] == d[i];
        }
    }
    if pre.len() > 0 {
        assert(k.has('-'));
        assert(t =~= d + seq!['-'] + pre.drop_first());
        lemma_first_at(d, '-', pre.drop_first(), k);
        assert(t.skip(d.len() as int) =~= pre);
    } else {
        assert(t =~= d);
        assert(!has_any(d, k));
        lemma_first_none(d, k);
        assert(t.skip(d.len() as int) =~= pre);
    }
    assert(t.take(d.len() as int) =~= d);
}

/// A version that is semver is a pre-release exactly if it has a tag, except on the JVM.
pub proof fn law_semver_answers_for_itself(version: Seq<char>, ecosystem: Ecosystem, v: VersionView)
    requires
        ecosystem != Ecosystem::Jvm,
        version.len() > 0 ==> version[0] != 'v',
        semver_version(version) == Some(v),
    ensures
        is_unstable(version, ecosystem) <==> v.pre.len() > 0,
{
    assert(leading(version, Class::Is('v')) == 0);
    assert(trim_start_of(version, Class::Is('v')) =~= version);
}

/// A version that is not semver is a pre-release wherever it holds one of the markers, in
/// any ecosystem and in any case of letters.
pub proof fn law_markers(a: Seq<char>, marker: Seq<char>, b: Seq<char>, ecosystem: Ecosystem)
    requires
        marker == "-alpha"@ || marker == "-beta"@ || marker == "-rc"@ || marker == "-snapshot"@ || marker == "-dev"@ || marker == "-preview"@ || marker == "-experimental"@ || marker == "-canary"@ || marker == "-pre"@ || marker == "-next"@ || marker == "-nightly"@ || marker == "-nullsafety"@ || marker == "-nnbd"@,
        semver_version(trim_start_of(a + marker + b, Class::Is('v'))) is None || ecosystem
            == Ecosystem::Jvm,
        lowered(a + marker + b) == a + marker + b,
    ensures
        is_unstable(a + marker + b, ecosystem),
{
    lemma_marker_found(a, marker, b);
}

/// A Python version that is not semver is a pre-release wherever it holds one of the
/// dotted markers, or a letter or `rc` next to a number as PEP 440 writes them.
#[verifier::rlimit(60)]
pub proof fn law_python_markers(a: Seq<char>, marker: Seq<char>, b: Seq<char>, d: char)
    requires
        is_digit(d),
    ensures
        (marker == ".alpha"@ || marker == ".beta"@ || marker == ".rc"@ || marker == ".dev"@ || marker == ".snapshot"@ || marker == ".preview"@ || marker == ".experimental"@ || marker == ".canary"@ || marker == ".pre"@) && semver_version(trim_start_of(a + marker + b, Class::Is('v'))) is None && lowered(
            a + marker + b,
        ) == a + marker + b ==> is_unstable(a + marker + b, Ecosystem::Python),
        (marker == "a"@ || marker == "b"@ || marker == "rc"@) && semver_version(
            trim_start_of(a + marker + (seq![d] + b), Class::Is('v')),
        ) is None && lowered(a + marker + (seq![d] + b)) == a + marker + (seq![d] + b)
            ==> is_unstable(a + marker + (seq![d] + b), Ecosystem::Python),
{
    lemma_marker_found(a, marker, b);
    if marker == "a"@ || marker == "b"@ || marker == "rc"@ {
        reveal_strlit("a");
        reveal_strlit("b");
        reveal_strlit("rc");
        let s = a + marker + (seq![d] + b);
        let n = a.len() as int;
        assert(s[n] == marker[0]);
        assert(s[n + marker.len()] == d);
        if marker == "rc"@ {
            assert(s[n + 1] == 'c');
        }
        assert(implicit_at(s, n));
        assert(is_implicit(s));
    }
}

proof fn lemma_marker_found(a: Seq<char>, marker: Seq<char>, b: Seq<char>)
    ensures
        find(a + marker + b, marker) >= 0,
{
    let s = a + marker + b;
    lemma_find_first(s, marker);
    let t = s.skip(a.len() as int);
    assert(t.take(marker.len() as int) =~= marker);
    if find(s, marker) < 0 {
        assert(!begins(s.skip(a.len() as int), marker));
    }
}

/// Always to consider pre-releases keeps every version; to consider them if the current
/// version is one is to do so always if it is and never if it is not, or is not known.
pub proof fn law_filter_modes(
    versions: Seq<Seq<char>>,
    current: Seq<char>,
    other: Option<Seq<char>>,
    ecosystem: Ecosystem,
)
    ensures
        UnstableFilter::IncludeAlways.kept(versions, other, ecosystem) == versions,
        is_unstable(current, ecosystem) ==> UnstableFilter::IncludeIfCurrent.kept(
            versions,
            Some(current),
            ecosystem,
        ) == versions,
        !is_unstable(current, ecosystem) ==> UnstableFilter::IncludeIfCurrent.kept(
            versions,
            Some(current),
            ecosystem,
        ) == UnstableFilter::Exclude.kept(versions, other, ecosystem),
        UnstableFilter::IncludeIfCurrent.kept(versions, None, ecosystem)
            == UnstableFilter::Exclude.kept(versions, other, ecosystem),
{
}

/// One more release is kept at the end, and one more pre-release beside a release is not.
pub proof fn law_filter_one_more(
    versions: Seq<Seq<char>>,
    v: Seq<char>,
    current: Option<Seq<char>>,
    ecosystem: Ecosystem,
)
    ensures
        !is_unstable(v, ecosystem) ==> UnstableFilter::Exclude.kept(
            versions.push(v),
            current,
            ecosystem,
        ) == stable_only(versions, ecosystem).push(v),
        is_unstable(v, ecosystem) && stable_only(versions, ecosystem).len() > 0
            ==> UnstableFilter::Exclude.kept(versions.push(v), current, ecosystem)
            == UnstableFilter::Exclude.kept(versions, current, ecosystem),
{
    assert(versions.push(v).drop_last() =~= versions);
}

/// Every ecosystem but Python, .NET, Elixir and the JVM writes the one range dialect, and
/// these four each write their own.
pub proof fn law_dialects(c: Seq<char>)
    ensures
        requirement_of(c, Ecosystem::Python) == crate::semver::python::pep440_requirement(c),
        requirement_of(c, Ecosystem::CSharp) == crate::semver::nuget::nuget_requirement(c),
        requirement_of(c, Ecosystem::Elixir) == crate::semver::elixir::hex_requirement(c),
        requirement_of(c, Ecosystem::Jvm) == crate::semver::maven::maven_requirement(c),
        forall|e: Ecosystem|
            e != Ecosystem::Python && e != Ecosystem::CSharp && e != Ecosystem::Elixir && e
                != Ecosystem::Jvm ==> #[trigger] requirement_of(c, e) == range_requirement(c),
{
}

/// A translation fails exactly where nothing comes of a constraint that says something.
pub proof fn law_failed_translation(c: Seq<char>, ecosystem: Ecosystem)
    ensures
        translation(c, ecosystem) is None <==> trimmed(c).len() > 0 && trimmed(
            requirement_of(c, ecosystem),
        ).len() == 0,
        translation(c, ecosystem) matches Some(t) ==> t == requirement_of(c, ecosystem),
{
}

/// A branch of one version is that version, without the `v` before it.
pub proof fn law_version_branch(nums: Seq<u64>)
    requires
        nums.len() > 0,
    ensures
        conjunction("v"@ + dotted(nums)) == Some(dotted(nums)),
        conjunction(dotted(nums)) == Some(dotted(nums)),
{
    reveal_strlit("v");
    let none = Seq::<char>::empty();
    let d = dotted(nums);
    let v = "v"@ + d;
    lemma_dotted(nums);
    law_v_before_a_version(nums, none);
    assert(d + none =~= d);
    assert(v[0] == 'v');
    assert forall|i: int| 0 <= i < d.len() implies is_plain_char(#[trigger] d[i]) by {}
    assert forall|i: int| 0 <= i < v.len() implies is_plain_char(#[trigger] v[i]) by {
        if i > 0 {
            assert(v[i] == d[i - 1]);
        }
    }
    lemma_plain_token(v, d);
    lemma_plain_token(d, d);
}

/// A branch that is one plain token is the token without the `v` before it.
proof fn lemma_plain_token(t: Seq<char>, d: Seq<char>)
    requires
        is_plain(t),
        normal_constraint(t) == d,
    ensures
        conjunction(t) == Some(d),
{
    assert forall|i: int| 0 <= i < t.len() implies #[trigger] t[i] != ' ' && t[i] != ',' && t[i]
        != '\t' by {
        lemma_plain_char(t[i]);
    }
    lemma_token(t);
    lemma_no_operator(t);
    let empty = Seq::<Seq<char>>::empty();
    reveal_with_fuel(conjuncts, 2);
    assert(seq![t].drop_last() =~= empty);
    assert(empty.push(d) =~= seq![d]);
    lemma_joined(d, d, ", "@);
}

/// A plain text is no operator.
proof fn lemma_no_operator(t: Seq<char>)
    requires
        is_plain(t),
    ensures
        !all_in(t, Class::In("><=^~!")),
{
    reveal_strlit("><=^~!");
    let ops = "><=^~!"@;
    assert(ops.len() == 6 && ops[0] == '>' && ops[1] == '<' && ops[2] == '=' && ops[3] == '^'
        && ops[4] == '~' && ops[5] == '!');
    assert(is_plain_char(t[0]));
    lemma_plain_char(t[0]);
    if all_in(t, Class::In("><=^~!")) {
        assert(Class::In("><=^~!").has(t[0]));
    }
}

/// A text without separators is one token, and no hyphen range.
#[verifier::rlimit(60)]
proof fn lemma_token(t: Seq<char>)
    requires
        t.len() > 0,
        forall|i: int| 0 <= i < t.len() ==> #[trigger] t[i] != ' ' && t[i] != ',' && t[i] != '\t',
    ensures
        find(t, " - "@) == -1,
        nonempty(pieces(t, Class::In(", \t"))) == seq![t],
{
    let none = Seq::<char>::empty();
    lemma_no_hyphen(t, none, none);
    assert(t + none + none =~= t);
    assert forall|i: int| 0 <= i < t.len() implies !Class::In(", \t").has(#[trigger] t[i]) by {
        lemma_separators(t[i]);
    }
    assert(!has_any(t, Class::In(", \t")));
    lemma_one_piece(t, Class::In(", \t"));
    lemma_two_tokens(t, t);
}

} // verus!
