//! Facts on texts that are put together from parts.
use crate::split::{joined, pieces, pieces_by};
use crate::text::{
    after_prefix, all_in, before_suffix, begins, cut, cut_last, ends, find, find_back, first,
    has_any, is_alnum, is_space, last, leading, lemma_find, lemma_first,
    lemma_last, lemma_leading, lowered, trailing, trim_end_of,
    trim_start_of, trimmed, Class,
};
use vstd::prelude::*;

verus! {

/// Whether a text is what versions are written with: letters, digits, points, hyphens,
/// underscores and plus signs, at least one of them.
pub open spec fn is_plain(s: Seq<char>) -> bool {
    s.len() > 0 && forall|i: int| 0 <= i < s.len() ==> is_plain_char(#[trigger] s[i])
}

/// Whether a character is a letter, a digit, a point, a hyphen, an underscore or a plus
/// sign.
pub open spec fn is_plain_char(c: char) -> bool {
    is_alnum(c) || c == '.' || c == '-' || c == '_' || c == '+'
}

/// What follows a prefix is the rest of the text.
pub proof fn lemma_after(p: Seq<char>, rest: Seq<char>)
    ensures
        begins(p + rest, p),
        after_prefix(p + rest, p) == Some(rest),
{
    assert((p + rest).take(p.len() as int) =~= p);
    assert((p + rest).skip(p.len() as int) =~= rest);
}

/// What precedes a suffix is the rest of the text.
pub proof fn lemma_ahead(rest: Seq<char>, p: Seq<char>)
    ensures
        ends(rest + p, p),
        before_suffix(rest + p, p) == Some(rest),
{
    assert((rest + p).skip((rest + p).len() - p.len()) =~= p);
    assert((rest + p).take((rest + p).len() - p.len()) =~= rest);
}

/// A text that differs from a prefix somewhere does not begin with it.
pub proof fn lemma_not_begins(s: Seq<char>, p: Seq<char>, i: int)
    requires
        0 <= i < p.len(),
        i < s.len() ==> s[i] != p[i],
    ensures
        !begins(s, p),
        after_prefix(s, p) is None,
{
    if begins(s, p) {
        assert(s.take(p.len() as int)[i] == s[i]);
    }
}

/// A text with no white space at either end is not changed by trimming it.
pub proof fn lemma_trimmed_same(s: Seq<char>)
    requires
        s.len() > 0 ==> !is_space(s[0]) && !is_space(s.last()),
    ensures
        trimmed(s) == s,
{
    assert(leading(s, Class::Space) == 0);
    assert(trim_start_of(s, Class::Space) =~= s);
    assert(trailing(s, Class::Space) == 0);
    assert(trim_end_of(s, Class::Space) =~= s);
}

/// One space before a text is trimmed.
#[verifier::rlimit(60)]
pub proof fn lemma_trimmed_space(s: Seq<char>)
    requires
        s.len() > 0 ==> !is_space(s[0]) && !is_space(s.last()),
    ensures
        trimmed(" "@ + s) == s,
{
    reveal_strlit(" ");
    let t = " "@ + s;
    assert(t[0] == ' ');
    assert(t.drop_first() =~= s);
    assert(leading(s, Class::Space) == 0);
    assert(leading(t, Class::Space) == 1);
    assert(t.skip(1) =~= s);
    lemma_trimmed_same(s);
    assert(trim_start_of(s, Class::Space) =~= s);
}

/// Whether a text neither begins nor ends with white space, and is not empty.
pub open spec fn is_solid(s: Seq<char>) -> bool {
    s.len() > 0 && !is_space(s[0]) && !is_space(s.last())
}

/// A character count at the end, where the character before is of no such class.
#[verifier::rlimit(60)]
pub proof fn lemma_trailing_at(a: Seq<char>, b: Seq<char>, k: Class)
    requires
        all_in(b, k),
        a.len() > 0 ==> !k.has(a.last()),
    ensures
        trailing(a + b, k) == b.len(),
        trim_end_of(a + b, k) == a,
    decreases b.len(),
{
    let s = a + b;
    if b.len() == 0 {
        assert(s =~= a);
        assert(s.take(s.len() as int) =~= a);
    } else {
        assert(s.last() == b.last());
        assert(k.has(b[b.len() - 1]));
        assert(s.drop_last() =~= a + b.drop_last());
        lemma_trailing_at(a, b.drop_last(), k);
        assert(s.take(a.len() as int) =~= a);
    }
}

/// White space around a text is trimmed.
pub proof fn lemma_trimmed_around(a: Seq<char>, s: Seq<char>, b: Seq<char>)
    requires
        is_solid(s),
        all_in(a, Class::Space),
        all_in(b, Class::Space),
    ensures
        trimmed(a + s + b) == s,
{
    let t = a + s + b;
    assert(t =~= a + (s + b));
    assert((s + b)[0] == s[0]);
    lemma_leading_at(a, s + b, Class::Space);
    lemma_trailing_at(s, b, Class::Space);
}

/// One space on either side of a text is trimmed.
#[verifier::rlimit(60)]
pub proof fn lemma_trimmed_spaces(s: Seq<char>)
    requires
        is_solid(s),
    ensures
        trimmed(s) == s,
        trimmed(" "@ + s) == s,
        trimmed(s + " "@) == s,
        trimmed(" "@ + s + " "@) == s,
{
    reveal_strlit(" ");
    let none = Seq::<char>::empty();
    lemma_trimmed_around(none, s, none);
    lemma_trimmed_around(" "@, s, none);
    lemma_trimmed_around(none, s, " "@);
    lemma_trimmed_around(" "@, s, " "@);
    assert(none + s + none =~= s);
    assert(" "@ + s + none =~= " "@ + s);
    assert(none + s + " "@ =~= s + " "@);
}

/// Plain characters are no white space and none of the signs that separate or compare.
pub proof fn lemma_plain_char(c: char)
    requires
        is_plain_char(c),
    ensures
        !is_space(c),
        c != ',' && c != ';' && c != '|' && c != ' ' && c != '\t' && c != '@' && c != '*' && c
            != '!' && c != ':' && c != '/' && c != '"' && c != '\'' && c != '=' && c != '<' && c
            != '>' && c != '~' && c != '^' && c != '[' && c != ']' && c != '(' && c != ')' && c
            != '\n' && c != '#',
{
}

/// A plain text is not changed by trimming it.
#[verifier::rlimit(60)]
pub proof fn lemma_plain(s: Seq<char>)
    requires
        is_plain(s),
    ensures
        trimmed(s) == s,
        trimmed(" "@ + s) == s,
        !has_any(s, Class::Is(',')),
        !has_any(s, Class::Is(';')),
        !has_any(s, Class::Is('!')),
        !has_any(s, Class::Is('@')),
        !has_any(s, Class::Is('*')),
        !has_any(s, Class::Is(' ')),
        !has_any(s, Class::Is(':')),
        !has_any(s, Class::Space),
{
    assert forall|i: int| 0 <= i < s.len() implies is_plain_char(#[trigger] s[i]) && !is_space(
        s[i],
    ) by {
        lemma_plain_char(s[i]);
    }
    assert(is_plain_char(s[0]) && is_plain_char(s.last()));
    lemma_plain_char(s[0]);
    lemma_plain_char(s.last());
    lemma_trimmed_same(s);
    lemma_trimmed_space(s);
}

/// A text without a character of a class has its first one at the end.
pub proof fn lemma_first_none(s: Seq<char>, k: Class)
    requires
        !has_any(s, k),
    ensures
        first(s, k) == s.len(),
        cut(s, k) is None,
        s.take(first(s, k)) == s,
{
    lemma_first(s, k);
    assert(s.take(s.len() as int) =~= s);
}

/// The first character of a class, where what precedes it has none.
#[verifier::rlimit(60)]
pub proof fn lemma_first_at(a: Seq<char>, c: char, b: Seq<char>, k: Class)
    requires
        !has_any(a, k),
        k.has(c),
    ensures
        first(a + seq![c] + b, k) == a.len(),
        cut(a + seq![c] + b, k) == Some((a, b)),
        (a + seq![c] + b).take(a.len() as int) == a,
{
    let s = a + seq![c] + b;
    lemma_first(s, k);
    assert(s[a.len() as int] == c);
    assert(has_any(s, k));
    let n = first(s, k);
    if n < a.len() {
        assert(s[n] == a[n]);
    }
    assert(s.take(a.len() as int) =~= a);
    assert(s.skip(a.len() as int + 1) =~= b);
}

/// The last character of a class, where what follows it has none.
#[verifier::rlimit(60)]
pub proof fn lemma_last_at(a: Seq<char>, c: char, b: Seq<char>, k: Class)
    requires
        !has_any(b, k),
        k.has(c),
    ensures
        last(a + seq![c] + b, k) == a.len(),
        cut_last(a + seq![c] + b, k) == Some((a, b)),
{
    let s = a + seq![c] + b;
    lemma_last(s, k);
    assert(s[a.len() as int] == c);
    let n = last(s, k);
    if n > a.len() {
        assert(s[n] == b[n - a.len() - 1]);
    }
    assert(s.take(a.len() as int) =~= a);
    assert(s.skip(a.len() as int + 1) =~= b);
}

/// A text without a character of a class has no last one.
pub proof fn lemma_last_none(s: Seq<char>, k: Class)
    requires
        !has_any(s, k),
    ensures
        last(s, k) == -1,
        cut_last(s, k) is None,
{
    lemma_last(s, k);
}

/// A text without a separator is one piece.
pub proof fn lemma_one_piece(s: Seq<char>, k: Class)
    requires
        !has_any(s, k),
    ensures
        pieces(s, k) == seq![s],
{
    lemma_first_none(s, k);
}

/// What precedes the first separator is the first piece.
pub proof fn lemma_next_piece(a: Seq<char>, c: char, b: Seq<char>, k: Class)
    requires
        !has_any(a, k),
        k.has(c),
    ensures
        pieces(a + seq![c] + b, k) == seq![a] + pieces(b, k),
{
    let s = a + seq![c] + b;
    lemma_first_at(a, c, b, k);
    assert(s.skip(a.len() as int + 1) =~= b);
}

/// A character count at the start, where the next character is of no such class.
#[verifier::rlimit(60)]
pub proof fn lemma_leading_at(a: Seq<char>, b: Seq<char>, k: Class)
    requires
        all_in(a, k),
        b.len() > 0 ==> !k.has(b[0]),
    ensures
        leading(a + b, k) == a.len(),
        (a + b).take(a.len() as int) == a,
        (a + b).skip(a.len() as int) == b,
{
    let s = a + b;
    lemma_leading(s, k);
    let n = leading(s, k);
    if n < a.len() {
        assert(s[n] == a[n]);
    }
    if n > a.len() {
        assert(s.take(n)[a.len() as int] == b[0]);
    }
    assert(s.take(a.len() as int) =~= a);
    assert(s.skip(a.len() as int) =~= b);
}

/// A pattern is found where it stands, if it stands nowhere before.
#[verifier::rlimit(60)]
pub proof fn lemma_find_at(s: Seq<char>, p: Seq<char>, n: int)
    requires
        0 <= n <= s.len(),
        begins(s.skip(n), p),
        forall|i: int| 0 <= i < n ==> !begins(#[trigger] s.skip(i), p),
    ensures
        find(s, p) == n,
    decreases n,
{
    assert(s.skip(0) =~= s);
    if n > 0 {
        let t = s.drop_first();
        assert(t.skip(n - 1) =~= s.skip(n));
        assert forall|i: int| 0 <= i < n - 1 implies !begins(#[trigger] t.skip(i), p) by {
            assert(t.skip(i) =~= s.skip(i + 1));
        }
        assert(!begins(s.skip(0), p));
        lemma_find_at(t, p, n - 1);
    }
}

/// A pattern that stands nowhere is not found.
pub proof fn lemma_find_none(s: Seq<char>, p: Seq<char>)
    requires
        forall|i: int| 0 <= i <= s.len() ==> !begins(#[trigger] s.skip(i), p),
    ensures
        find(s, p) == -1,
{
    lemma_find(s, p);
    if find(s, p) >= 0 {
        assert(begins(s.skip(find(s, p)), p));
    }
}

/// A pattern that is found stands nowhere before, and one that is not found nowhere.
#[verifier::rlimit(60)]
pub proof fn lemma_find_first(s: Seq<char>, p: Seq<char>)
    ensures
        forall|i: int|
            0 <= i <= s.len() && (find(s, p) < 0 || i < find(s, p)) ==> !begins(
                #[trigger] s.skip(i),
                p,
            ),
    decreases s.len(),
{
    assert(s.skip(0) =~= s);
    if s.len() > 0 && !begins(s, p) {
        let t = s.drop_first();
        lemma_find(t, p);
        lemma_find_first(t, p);
        assert forall|i: int|
            0 <= i <= s.len() && (find(s, p) < 0 || i < find(s, p)) implies !begins(
            #[trigger] s.skip(i),
            p,
        ) by {
            if i > 0 {
                assert(t.skip(i - 1) =~= s.skip(i));
                assert(!begins(t.skip(i - 1), p));
            }
        }
    } else if s.len() == 0 {
        assert forall|i: int|
            0 <= i <= s.len() && (find(s, p) < 0 || i < find(s, p)) implies !begins(
            #[trigger] s.skip(i),
            p,
        ) by {
            assert(s.skip(i) =~= s);
        }
    }
}

/// A text whose every character differs from the first of a pattern does not hold it.
pub proof fn lemma_find_absent(s: Seq<char>, p: Seq<char>)
    requires
        p.len() > 0,
        forall|i: int| 0 <= i < s.len() ==> #[trigger] s[i] != p[0],
    ensures
        find(s, p) == -1,
        pieces_by(s, p) == seq![s],
{
    assert forall|i: int| 0 <= i <= s.len() implies !begins(#[trigger] s.skip(i), p) by {
        let t = s.skip(i);
        if begins(t, p) {
            assert(t.take(p.len() as int)[0] == t[0]);
            assert(t[0] == s[i]);
        }
    }
    lemma_find_none(s, p);
}

/// A pattern after a text that has none of its first character is found there.
#[verifier::rlimit(60)]
pub proof fn lemma_find_after(a: Seq<char>, p: Seq<char>, b: Seq<char>)
    requires
        p.len() > 0,
        forall|i: int| 0 <= i < a.len() ==> #[trigger] a[i] != p[0],
    ensures
        find(a + p + b, p) == a.len(),
        pieces_by(a + p + b, p) == seq![a] + pieces_by(b, p),
        (a + p + b).take(a.len() as int) == a,
        (a + p + b).skip((a.len() + p.len()) as int) == b,
{
    let s = a + p + b;
    let n = a.len() as int;
    assert(s.skip(n).take(p.len() as int) =~= p);
    assert forall|i: int| 0 <= i < n implies !begins(#[trigger] s.skip(i), p) by {
        let t = s.skip(i);
        if begins(t, p) {
            assert(t.take(p.len() as int)[0] == t[0]);
            assert(t[0] == s[i]);
            assert(s[i] == a[i]);
        }
    }
    lemma_find_at(s, p, n);
    assert(s.take(n) =~= a);
    assert(s.skip(n + p.len()) =~= b);
}

/// A pattern stands last where it stands, if it stands nowhere after.
#[verifier::rlimit(60)]
pub proof fn lemma_find_back_at(s: Seq<char>, p: Seq<char>, n: int)
    requires
        0 <= n <= s.len(),
        begins(s.skip(n), p),
        forall|i: int| n < i <= s.len() ==> !begins(#[trigger] s.skip(i), p),
    ensures
        find_back(s, p) == n,
    decreases s.len(),
{
    if ends(s, p) {
        let m = s.len() - p.len();
        assert(s.skip(m).take(p.len() as int) =~= s.skip(m));
        assert(begins(s.skip(m), p));
    } else {
        if n + p.len() == s.len() {
            assert(s.skip(n).take(p.len() as int) =~= s.skip(n));
        }
        let t = s.drop_last();
        assert(t.skip(n).take(p.len() as int) =~= s.skip(n).take(p.len() as int));
        assert forall|i: int| n < i <= t.len() implies !begins(#[trigger] t.skip(i), p) by {
            if begins(t.skip(i), p) {
                assert(t.skip(i).take(p.len() as int) =~= s.skip(i).take(p.len() as int));
                assert(begins(s.skip(i), p));
            }
        }
        lemma_find_back_at(t, p, n);
    }
}

/// The texts of one, two and three parts, joined.
pub proof fn lemma_joined(a: Seq<char>, b: Seq<char>, sep: Seq<char>)
    ensures
        joined(seq![], sep) == Seq::<char>::empty(),
        joined(seq![a], sep) == a,
        joined(seq![a, b], sep) == a + sep + b,
{
    let two = seq![a, b];
    assert(two.drop_last() =~= seq![a]);
    assert(seq![a].drop_last() =~= Seq::<Seq<char>>::empty());
    assert(joined(seq![a], sep) =~= a);
    assert(joined(two, sep) =~= a + sep + b);
}

/// Small letters, digits and signs are not changed by lowering them.
pub proof fn lemma_lowered_same(s: Seq<char>)
    requires
        forall|i: int| 0 <= i < s.len() ==> !('A' <= #[trigger] s[i] && s[i] <= 'Z'),
    ensures
        lowered(s) == s,
{
    assert(lowered(s) =~= s);
}

/// What the signs of constraints are made of.
#[verifier::rlimit(60)]
pub proof fn lemma_signs()
    ensures
        "==="@ == seq!['=', '=', '='],
        "=="@ == seq!['=', '='],
        "~="@ == seq!['~', '='],
        "!="@ == seq!['!', '='],
        ">="@ == seq!['>', '='],
        "<="@ == seq!['<', '='],
        "^"@ == seq!['^'],
        "~"@ == seq!['~'],
        ">"@ == seq!['>'],
        "<"@ == seq!['<'],
        "="@ == seq!['='],
        "~>"@ == seq!['~', '>'],
        "*"@ == seq!['*'],
        ","@ == seq![','],
        ";"@ == seq![';'],
        " "@ == seq![' '],
        "."@ == seq!['.'],
        "-"@ == seq!['-'],
        "+"@ == seq!['+'],
        "@"@ == seq!['@'],
        "|"@ == seq!['|'],
        "!"@ == seq!['!'],
        ", "@ == seq![',', ' '],
        ".*"@ == seq!['.', '*'],
        ".+"@ == seq!['.', '+'],
        "["@ == seq!['['],
        "]"@ == seq![']'],
        "("@ == seq!['('],
        ")"@ == seq![')'],
{
    reveal_strlit("===");
    assert("==="@ =~= seq!['=', '=', '=']);
    reveal_strlit("==");
    assert("=="@ =~= seq!['=', '=']);
    reveal_strlit("~=");
    assert("~="@ =~= seq!['~', '=']);
    reveal_strlit("!=");
    assert("!="@ =~= seq!['!', '=']);
    reveal_strlit(">=");
    assert(">="@ =~= seq!['>', '=']);
    reveal_strlit("<=");
    assert("<="@ =~= seq!['<', '=']);
    reveal_strlit("^");
    assert("^"@ =~= seq!['^']);
    reveal_strlit("~");
    assert("~"@ =~= seq!['~']);
    reveal_strlit(">");
    assert(">"@ =~= seq!['>']);
    reveal_strlit("<");
    assert("<"@ =~= seq!['<']);
    reveal_strlit("=");
    assert("="@ =~= seq!['=']);
    reveal_strlit("~>");
    assert("~>"@ =~= seq!['~', '>']);
    reveal_strlit("*");
    assert("*"@ =~= seq!['*']);
    reveal_strlit(",");
    assert(","@ =~= seq![',']);
    reveal_strlit(";");
    assert(";"@ =~= seq![';']);
    reveal_strlit(" ");
    assert(" "@ =~= seq![' ']);
    reveal_strlit(".");
    assert("."@ =~= seq!['.']);
    reveal_strlit("-");
    assert("-"@ =~= seq!['-']);
    reveal_strlit("+");
    assert("+"@ =~= seq!['+']);
    reveal_strlit("@");
    assert("@"@ =~= seq!['@']);
    reveal_strlit("|");
    assert("|"@ =~= seq!['|']);
    reveal_strlit("!");
    assert("!"@ =~= seq!['!']);
    reveal_strlit(", ");
    assert(", "@ =~= seq![',', ' ']);
    reveal_strlit(".*");
    assert(".*"@ =~= seq!['.', '*']);
    reveal_strlit(".+");
    assert(".+"@ =~= seq!['.', '+']);
    reveal_strlit("[");
    assert("["@ =~= seq!['[']);
    reveal_strlit("]");
    assert("]"@ =~= seq![']']);
    reveal_strlit("(");
    assert("("@ =~= seq!['(']);
    reveal_strlit(")");
    assert(")"@ =~= seq![')']);
}

/// A pattern that stands in neither of two texts does not stand in them with a character
/// between that it does not hold.
#[verifier::rlimit(60)]
pub proof fn lemma_absent_joined(a: Seq<char>, c: char, b: Seq<char>, p: Seq<char>)
    requires
        p.len() > 0,
        !p.contains(c),
        find(a, p) < 0,
        find(b, p) < 0,
    ensures
        find(a + seq![c] + b, p) == -1,
{
    let s = a + seq![c] + b;
    let n = a.len() as int;
    lemma_find_first(a, p);
    lemma_find_first(b, p);
    assert forall|i: int| 0 <= i <= s.len() implies !begins(#[trigger] s.skip(i), p) by {
        let t = s.skip(i);
        if begins(t, p) {
            if i + p.len() <= n {
                assert(a.skip(i).take(p.len() as int) =~= t.take(p.len() as int));
                assert(begins(a.skip(i), p));
            } else if i > n {
                assert(t =~= b.skip(i - n - 1));
            } else {
                assert(t.take(p.len() as int)[n - i] == t[n - i]);
                assert(t[n - i] == s[n]);
                assert(p[n - i] == c);
            }
        }
    }
    lemma_find_none(s, p);
}

/// A pattern is found after a text that does not hold it and ends with a character that it
/// does not hold.
#[verifier::rlimit(60)]
pub proof fn lemma_found_after(a: Seq<char>, p: Seq<char>, b: Seq<char>)
    requires
        p.len() > 0,
        find(a, p) < 0,
        a.len() > 0 ==> !p.contains(a.last()),
    ensures
        find(a + p + b, p) == a.len(),
        (a + p + b).take(a.len() as int) == a,
        (a + p + b).skip((a.len() + p.len()) as int) == b,
{
    let s = a + p + b;
    let n = a.len() as int;
    lemma_find_first(a, p);
    assert forall|i: int| 0 <= i < n implies !begins(#[trigger] s.skip(i), p) by {
        let t = s.skip(i);
        if begins(t, p) {
            if i + p.len() <= n {
                assert(a.skip(i).take(p.len() as int) =~= t.take(p.len() as int));
                assert(begins(a.skip(i), p));
            } else {
                assert(t.take(p.len() as int)[n - 1 - i] == t[n - 1 - i]);
                assert(t[n - 1 - i] == a.last());
                assert(p[n - 1 - i] == a.last());
            }
        }
    }
    assert(s.skip(n).take(p.len() as int) =~= p);
    lemma_find_at(s, p, n);
    assert(s.take(n) =~= a);
    assert(s.skip(n + p.len()) =~= b);
}

} // verus!
