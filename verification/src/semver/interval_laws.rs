//! What NuGet, Maven and Gradle constraints come to.
use super::dotted::{decimals, dotted, lemma_dotted, lemma_dotted_few};
use super::maven::{
    canonical, identifiers, is_maven_prerelease, is_preview, maven_requirement, maven_version,
    numeric_prefix, tokens_of,
};
use super::nuget::{nuget_requirement, nuget_version};
use super::parts::{all_trimmed, is_digits, padded, padded_numbers, segment};
use super::version::triple;
use crate::number::{decimal, law_decimal_reads_back, number_of};
use crate::text::{
    begins, cut, ends, has_any, is_digit, last, lemma_last, lowered, small, trailing, trim_end_of,
    trimmed, Class,
};
use crate::writing::{
    is_plain, is_plain_char, lemma_ahead, lemma_first_at, lemma_first_none, lemma_joined,
    lemma_leading_at, lemma_lowered_same, lemma_not_begins, lemma_plain, lemma_plain_char,
    lemma_signs, lemma_trimmed_same,
};
use vstd::prelude::*;

verus! {

/// Whether a text is a bound as it is written: plain, and without a plus sign; or nothing.
pub open spec fn is_bound(s: Seq<char>) -> bool {
    s.len() > 0 ==> is_plain(s) && !has_any(s, Class::Is('+'))
}

/// What is said of two bounds, either of which may be missing.
pub open spec fn bounds(
    low_op: Seq<char>,
    low: Seq<char>,
    high_op: Seq<char>,
    high: Seq<char>,
) -> Seq<char> {
    if low.len() == 0 && high.len() == 0 {
        "*"@
    } else if low.len() == 0 {
        high_op + high
    } else if high.len() == 0 {
        low_op + low
    } else {
        low_op + low + ", "@ + high_op + high
    }
}

/// An interval as it is written, and its parts.
#[verifier::rlimit(60)]
proof fn lemma_interval(open: char, a: Seq<char>, b: Seq<char>, close: char)
    requires
        open == '[' || open == '(',
        close == ']' || close == ')',
        is_bound(a),
        is_bound(b),
    ensures
        ({
            let c = seq![open] + (a + ","@ + b) + seq![close];
            &&& trimmed(c) == c
            &&& c[0] == open && c.last() == close && c.len() >= 2
            &&& !has_any(c, Class::Is('*'))
            &&& !has_any(c, Class::Is('+'))
            &&& c.subrange(1, c.len() - 1) == a + ","@ + b
            &&& cut(a + ","@ + b, Class::Is(',')) == Some((a, b))
            &&& trimmed(a) == a
            &&& trimmed(b) == b
            &&& last(c, Class::In("[(")) == 0
            &&& trim_end_of(c.skip(0), Class::Space) == c
            &&& open == '[' <==> begins(c, "["@)
            &&& open == '(' <==> begins(c, "("@)
            &&& close == ']' <==> ends(c, "]"@)
            &&& close == ')' <==> ends(c, ")"@)
        }),
{
    lemma_signs();
    let inner = a + ","@ + b;
    let c = seq![open] + inner + seq![close];
    if a.len() > 0 {
        lemma_plain(a);
    }
    if b.len() > 0 {
        lemma_plain(b);
    }
    assert(!has_any(a, Class::Is(',')));
    lemma_first_at(a, ',', b, Class::Is(','));
    if a.len() == 0 {
        lemma_trimmed_same(a);
    }
    if b.len() == 0 {
        lemma_trimmed_same(b);
    }
    assert forall|i: int| 0 < i < c.len() - 1 implies #[trigger] c[i] != '*' && c[i] != '+' && c[i]
        != '[' && c[i] != '(' by {
        assert(c[i] == inner[i - 1]);
        if i - 1 < a.len() {
            assert(inner[i - 1] == a[i - 1]);
            lemma_plain_char(a[i - 1]);
        } else if i - 1 > a.len() {
            assert(inner[i - 1] == b[i - 2 - a.len()]);
            lemma_plain_char(b[i - 2 - a.len()]);
        }
    }
    assert(c[0] == open && c.last() == close);
    lemma_trimmed_same(c);
    assert(c.subrange(1, c.len() - 1) =~= inner);
    reveal_strlit("[(");
    let set = "[("@;
    assert(set.len() == 2 && set[0] == '[' && set[1] == '(');
    let k = Class::In("[(");
    lemma_last(c, k);
    let n = last(c, k);
    assert(k.has(c[0])) by {
        assert(set[if open == '[' { 0int } else { 1int }] == open);
    }
    if n > 0 {
        assert(set.contains(c[n]));
        assert(c[n] == '[' || c[n] == '(');
    }
    assert(n >= 0);
    assert(c.skip(0) =~= c);
    assert(trailing(c, Class::Space) == 0);
    assert(c.take(c.len() as int) =~= c);
    assert(c.take(1) =~= seq![open]);
    assert(c.skip(c.len() - 1) =~= seq![close]);
    assert(seq!['['][0] != seq!['('][0] && seq![']'][0] != seq![')'][0]);
}

/// A NuGet interval: a square bracket includes its bound and a round one leaves it out, a
/// missing bound is none, and one that is no version makes the whole nothing.
pub proof fn law_nuget_interval(
    open: char,
    a: Seq<char>,
    b: Seq<char>,
    close: char,
    x: Seq<char>,
    y: Seq<char>,
)
    requires
        open == '[' || open == '(',
        close == ']' || close == ')',
        is_bound(a),
        is_bound(b),
        if a.len() > 0 {
            nuget_version(a) == Some(x)
        } else {
            x.len() == 0
        },
        if b.len() > 0 {
            nuget_version(b) == Some(y)
        } else {
            y.len() == 0
        },
        a.len() > 0 ==> x.len() > 0,
        b.len() > 0 ==> y.len() > 0,
    ensures
        nuget_requirement(seq![open] + (a + ","@ + b) + seq![close]) == bounds(
            if open == '[' {
                ">="@
            } else {
                ">"@
            },
            x,
            if close == ']' {
                "<="@
            } else {
                "<"@
            },
            y,
        ),
{
    lemma_interval(open, a, b, close);
}

/// A Maven interval, in the same way.
pub proof fn law_maven_interval(
    open: char,
    a: Seq<char>,
    b: Seq<char>,
    close: char,
    x: Seq<char>,
    y: Seq<char>,
)
    requires
        open == '[' || open == '(',
        close == ']' || close == ')',
        is_bound(a),
        is_bound(b),
        if a.len() > 0 {
            maven_version(a) == Some(x)
        } else {
            x.len() == 0
        },
        if b.len() > 0 {
            maven_version(b) == Some(y)
        } else {
            y.len() == 0
        },
        a.len() > 0 ==> x.len() > 0,
        b.len() > 0 ==> y.len() > 0,
    ensures
        maven_requirement(seq![open] + (a + ","@ + b) + seq![close]) == bounds(
            if open == '[' {
                ">="@
            } else {
                ">"@
            },
            x,
            if close == ']' {
                "<="@
            } else {
                "<"@
            },
            y,
        ),
{
    lemma_interval(open, a, b, close);
    let c = seq![open] + (a + ","@ + b) + seq![close];
    lemma_not_latest(c);
}

proof fn lemma_not_latest(c: Seq<char>)
    requires
        c.len() > 0,
        c[0] != 'l' && c[0] != 'L',
    ensures
        lowered(c) != "latest.release"@,
        lowered(c) != "latest.integration"@,
{
    reveal_strlit("latest.release");
    reveal_strlit("latest.integration");
    assert(lowered(c)[0] == small(c[0]));
    assert("latest.release"@[0] == 'l' && "latest.integration"@[0] == 'l');
}

/// A version in square brackets is that version alone, for NuGet and Maven.
#[verifier::rlimit(60)]
pub proof fn law_bracketed_version(a: Seq<char>)
    requires
        is_plain(a),
        !has_any(a, Class::Is('+')),
    ensures
        nuget_version(a) matches Some(x) ==> nuget_requirement("["@ + a + "]"@) == "="@ + x,
        maven_version(a) matches Some(x) ==> maven_requirement("["@ + a + "]"@) == "="@ + x,
{
    lemma_signs();
    let c = "["@ + a + "]"@;
    lemma_plain(a);
    assert(c[0] == '[' && c.last() == ']');
    lemma_trimmed_same(c);
    assert forall|i: int| 0 < i < c.len() - 1 implies #[trigger] c[i] != '*' && c[i] != '+' && c[i]
        != '[' && c[i] != '(' by {
        assert(c[i] == a[i - 1]);
        lemma_plain_char(a[i - 1]);
    }
    assert(c.subrange(1, c.len() - 1) =~= a);
    assert(c.take(1) =~= "["@);
    assert(c.skip(c.len() - 1) =~= "]"@);
    lemma_first_none(a, Class::Is(','));
    lemma_not_latest(c);
    reveal_strlit("[(");
    let set = "[("@;
    assert(set.len() == 2 && set[0] == '[' && set[1] == '(');
    let k = Class::In("[(");
    lemma_last(c, k);
    let n = last(c, k);
    assert(k.has(c[0]));
    if n > 0 {
        assert(set.contains(c[n]));
    }
    assert(n >= 0);
    assert(c.skip(0) =~= c);
    assert(trailing(c, Class::Space) == 0);
    assert(c.take(c.len() as int) =~= c);
}

/// A bare NuGet version is a minimum, and a bare Maven version is that version alone.
pub proof fn law_bare_version(a: Seq<char>)
    requires
        is_plain(a),
        !has_any(a, Class::Is('+')),
        a[0] != 'l' && a[0] != 'L',
    ensures
        nuget_version(a) matches Some(x) ==> nuget_requirement(a) == ">="@ + x,
        nuget_version(a) is None ==> nuget_requirement(a).len() == 0,
        maven_version(a) matches Some(x) ==> maven_requirement(a) == "="@ + x,
        maven_version(a) is None ==> maven_requirement(a).len() == 0,
{
    lemma_signs();
    lemma_plain(a);
    assert(is_plain_char(a[0]));
    lemma_plain_char(a[0]);
    lemma_not_begins(a, "["@, 0);
    lemma_not_begins(a, "("@, 0);
    lemma_not_latest(a);
}

/// The numbers before a NuGet wildcard bound it: `a.*` admits every release of a, `a.b.*`
/// every release of `a.b`; alone it admits any version.
pub proof fn law_nuget_wildcards(a: u64, b: u64)
    ensures
        nuget_requirement("*"@) == "*"@,
        a < u64::MAX ==> nuget_requirement(dotted(seq![a]) + ".*"@) == ">="@ + triple(a, 0, 0)
            + ", <"@ + triple((a + 1) as u64, 0, 0),
        b < u64::MAX ==> nuget_requirement(dotted(seq![a, b]) + ".*"@) == ">="@ + triple(a, b, 0)
            + ", <"@ + triple(a, (b + 1) as u64, 0),
{
    lemma_lone_wildcards();
    lemma_wildcard(seq![a]);
    lemma_wildcard(seq![a, b]);
    lemma_bumped(a, b);
}

/// Gradle's `+` in place of a number bounds a version in the same way.
pub proof fn law_gradle_wildcards(a: u64, b: u64)
    ensures
        maven_requirement("+"@) == "*"@,
        a < u64::MAX ==> maven_requirement(dotted(seq![a]) + ".+"@) == ">="@ + triple(a, 0, 0)
            + ", <"@ + triple((a + 1) as u64, 0, 0),
        b < u64::MAX ==> maven_requirement(dotted(seq![a, b]) + ".+"@) == ">="@ + triple(a, b, 0)
            + ", <"@ + triple(a, (b + 1) as u64, 0),
{
    lemma_lone_wildcards();
    lemma_wildcard(seq![a]);
    lemma_wildcard(seq![a, b]);
    lemma_bumped(a, b);
}

/// One and two numbers, and the next after them, as versions.
#[verifier::rlimit(60)]
proof fn lemma_bumped(a: u64, b: u64)
    ensures
        padded_numbers(seq![a]) == triple(a, 0, 0),
        padded_numbers(seq![a, b]) == triple(a, b, 0),
        a < u64::MAX ==> padded_numbers(seq![a].drop_last().push((a + 1) as u64)) == triple(
            (a + 1) as u64,
            0,
            0,
        ),
        b < u64::MAX ==> padded_numbers(seq![a, b].drop_last().push((b + 1) as u64)) == triple(
            a,
            (b + 1) as u64,
            0,
        ),
        seq![a].last() == a,
        seq![a, b].last() == b,
{
    lemma_dotted_few(a, b, b);
    if a < u64::MAX {
        lemma_dotted_few((a + 1) as u64, b, b);
        assert(seq![a].drop_last().push((a + 1) as u64) =~= seq![(a + 1) as u64]);
    }
    if b < u64::MAX {
        lemma_dotted_few(a, (b + 1) as u64, b);
        assert(seq![a, b].drop_last().push((b + 1) as u64) =~= seq![a, (b + 1) as u64]);
    }
}

proof fn lemma_lone_wildcards()
    ensures
        nuget_requirement("*"@) == "*"@,
        maven_requirement("+"@) == "*"@,
{
    lemma_signs();
    lemma_trimmed_same("*"@);
    lemma_trimmed_same("+"@);
    assert("*"@[0] == '*' && "+"@[0] == '+');
    assert(has_any("*"@, Class::Is('*')));
    assert(has_any("+"@, Class::Is('+')));
    lemma_not_latest("+"@);
}

#[verifier::rlimit(60)]
proof fn lemma_wildcard(nums: Seq<u64>)
    requires
        nums.len() > 0,
    ensures
        nums.last() < u64::MAX ==> {
            let high = nums.drop_last().push((nums.last() + 1) as u64);
            &&& nuget_requirement(dotted(nums) + ".*"@) == ">="@ + padded_numbers(nums) + ", <"@
                + padded_numbers(high)
            &&& maven_requirement(dotted(nums) + ".+"@) == ">="@ + padded_numbers(nums) + ", <"@
                + padded_numbers(high)
        },
{
    lemma_signs();
    let d = dotted(nums);
    lemma_dotted(nums);
    let n = d + ".*"@;
    let m = d + ".+"@;
    assert(n[0] == d[0] && n.last() == '*');
    assert(m[0] == d[0] && m.last() == '+');
    lemma_trimmed_same(n);
    lemma_trimmed_same(m);
    assert(n[n.len() - 1] == '*' && m[m.len() - 1] == '+');
    assert(has_any(n, Class::Is('*')));
    assert(has_any(m, Class::Is('+')));
    lemma_not_latest(m);
    assert(n.len() > 1 && m.len() > 1);
    lemma_ahead(d, ".*"@);
    lemma_ahead(d, ".+"@);
    lemma_trimmed_decimals(nums);
}

proof fn lemma_trimmed_decimals(nums: Seq<u64>)
    ensures
        all_trimmed(decimals(nums)) == decimals(nums),
{
    let parts = decimals(nums);
    assert forall|i: int| 0 <= i < parts.len() implies trimmed(#[trigger] parts[i]) == parts[i] by {
        let d = decimal(nums[i] as nat);
        law_decimal_reads_back(nums[i] as nat);
        assert(Class::Digit.has(d[0]) && Class::Digit.has(d[d.len() - 1]));
        lemma_trimmed_same(d);
    }
    assert(all_trimmed(parts) =~= parts);
}

/// The decimal numbers of a release are its first three segments.
#[verifier::rlimit(60)]
proof fn lemma_padded(nums: Seq<u64>)
    requires
        nums.len() > 0,
    ensures
        padded(decimals(nums)) == Some(padded_numbers(nums)),
{
    reveal_strlit("0");
    assert(decimal(0) =~= "0"@);
    let p = decimals(nums);
    assert forall|i: int| 0 <= i < 3 implies is_digits(#[trigger] segment(p, i)) by {
        if i < nums.len() {
            law_decimal_reads_back(nums[i] as nat);
        } else {
            law_decimal_reads_back(0);
        }
    }
    assert(is_digits(segment(p, 0)) && is_digits(segment(p, 1)) && is_digits(segment(p, 2)));
}

/// A NuGet release is that release in semver, to its third number; a pre-release and build
/// metadata stay as they are.
#[verifier::rlimit(60)]
pub proof fn law_nuget_version(nums: Seq<u64>, pre: Seq<char>, build: Seq<char>)
    requires
        nums.len() > 0,
        is_plain(pre),
        !has_any(pre, Class::Is('+')),
        is_plain(build),
    ensures
        nuget_version(dotted(nums)) == Some(padded_numbers(nums)),
        nuget_version(dotted(nums) + "-"@ + pre) == Some(padded_numbers(nums) + "-"@ + pre),
        nuget_version(dotted(nums) + "-"@ + pre + "+"@ + build) == Some(
            padded_numbers(nums) + "-"@ + pre + "+"@ + build,
        ),
{
    lemma_signs();
    let d = dotted(nums);
    lemma_dotted(nums);
    lemma_padded(nums);
    lemma_plain(d);
    lemma_plain(pre);
    lemma_plain(build);
    assert(is_plain_char(pre[0]) && is_plain_char(pre.last()) && is_plain_char(build.last()));
    lemma_plain_char(pre.last());
    lemma_plain_char(build.last());
    assert(!has_any(d, Class::Is('+')) && !has_any(d, Class::Is('-'))) by {
        assert forall|i: int| 0 <= i < d.len() implies #[trigger] d[i] != '+' && d[i] != '-' by {
            assert(is_digit(d[i]) || d[i] == '.');
        }
    }
    lemma_first_none(d, Class::Is('+'));
    lemma_first_none(d, Class::Is('-'));
    let none = Seq::<char>::empty();
    assert(padded_numbers(nums) + none + none =~= padded_numbers(nums));
    let p = d + "-"@ + pre;
    assert(p[0] == d[0] && p.last() == pre.last());
    lemma_trimmed_same(p);
    assert forall|i: int| 0 <= i < p.len() implies #[trigger] p[i] != '+' by {
        if i < d.len() {
            assert(p[i] == d[i]);
        } else if i > d.len() {
            assert(p[i] == pre[i - d.len() - 1]);
        }
    }
    assert(!has_any(p, Class::Is('+')));
    lemma_first_none(p, Class::Is('+'));
    lemma_first_at(d, '-', pre, Class::Is('-'));
    assert(padded_numbers(nums) + ("-"@ + pre) + none =~= padded_numbers(nums) + "-"@ + pre);
    let q = p + "+"@ + build;
    assert(q[0] == d[0] && q.last() == build.last());
    lemma_trimmed_same(q);
    lemma_first_at(p, '+', build, Class::Is('+'));
    assert(padded_numbers(nums) + ("-"@ + pre) + ("+"@ + build) =~= padded_numbers(nums) + "-"@
        + pre + "+"@ + build);
}

/// What a Maven qualifier is called, by its word in small letters: the abbreviations have
/// the full name, the words for a release say nothing, and any other word is itself.
#[verifier::rlimit(60)]
pub proof fn law_maven_qualifiers()
    ensures
        canonical("a"@) == Some("alpha"@) && canonical("alpha"@) == Some("alpha"@),
        canonical("b"@) == Some("beta"@) && canonical("beta"@) == Some("beta"@),
        canonical("m"@) == Some("milestone"@) && canonical("milestone"@) == Some("milestone"@),
        canonical("cr"@) == Some("rc"@) && canonical("rc"@) == Some("rc"@),
        canonical("ga"@) is None && canonical("final"@) is None && canonical("release"@) is None,
        canonical("snapshot"@) == Some("snapshot"@),
        canonical("jre"@) == Some("jre"@),
        canonical("sp"@) == Some("sp"@),
        is_preview("a"@) && is_preview("alpha"@) && is_preview("b"@) && is_preview("beta"@),
        is_preview("m"@) && is_preview("milestone"@) && is_preview("cr"@) && is_preview("rc"@),
        is_preview("snapshot"@),
        !is_preview("final"@) && !is_preview("ga"@) && !is_preview("release"@),
        !is_preview("jre"@) && !is_preview("sp"@) && !is_preview("android"@),
{
    reveal_strlit("a");
    reveal_strlit("alpha");
    reveal_strlit("b");
    reveal_strlit("beta");
    reveal_strlit("m");
    reveal_strlit("milestone");
    reveal_strlit("cr");
    reveal_strlit("rc");
    reveal_strlit("ga");
    reveal_strlit("final");
    reveal_strlit("release");
    reveal_strlit("snapshot");
    reveal_strlit("jre");
    reveal_strlit("sp");
    reveal_strlit("android");
    assert("a"@[0] == 'a' && "b"@[0] == 'b' && "m"@[0] == 'm');
    assert("alpha"@[0] == 'a' && "final"@[0] == 'f' && "beta"@.len() == 4 && "alpha"@.len() == 5);
    assert("cr"@[0] == 'c' && "rc"@[0] == 'r' && "ga"@[0] == 'g' && "sp"@[0] == 's');
    assert("milestone"@.len() == 9 && "snapshot"@.len() == 8 && "jre"@.len() == 3
        && "release"@.len() == 7 && "android"@.len() == 7);
    assert("release"@[0] == 'r' && "android"@[0] == 'a');
}

/// The tokens of dotted numbers are the numbers.
#[verifier::rlimit(60)]
proof fn lemma_number_tokens(nums: Seq<u64>, rest: Seq<char>)
    requires
        nums.len() > 0,
        rest.len() > 0 ==> !is_digit(rest[0]),
    ensures
        tokens_of(dotted(nums) + rest) == decimals(nums) + tokens_of(rest),
    decreases nums.len(),
{
    lemma_signs();
    let d = decimal(nums[0] as nat);
    law_decimal_reads_back(nums[0] as nat);
    let tail = if nums.len() == 1 {
        rest
    } else {
        "."@ + dotted(nums.drop_first()) + rest
    };
    let s = dotted(nums) + rest;
    assert(s =~= d + tail);
    assert(Class::Digit.has(d[0]));
    assert(s[0] == d[0]);
    lemma_leading_at(d, tail, Class::Digit);
    assert forall|i: int| 0 <= i < d.len() implies !('A' <= #[trigger] d[i] && d[i] <= 'Z') by {
        assert(Class::Digit.has(d[i]));
    }
    lemma_lowered_same(d);
    assert(tokens_of(s) == seq![d] + tokens_of(tail));
    if nums.len() == 1 {
        assert(decimals(nums) =~= seq![d]);
    } else {
        let more = dotted(nums.drop_first()) + rest;
        lemma_dotted(nums.drop_first());
        assert(tail.drop_first() =~= more);
        assert(tail[0] == '.');
        assert(tokens_of(tail) == tokens_of(more));
        lemma_number_tokens(nums.drop_first(), rest);
        assert(decimals(nums) =~= seq![d] + decimals(nums.drop_first()));
        assert(seq![d] + (decimals(nums.drop_first()) + tokens_of(rest)) =~= decimals(nums)
            + tokens_of(rest));
    }
}

#[verifier::rlimit(60)]
proof fn lemma_numeric_prefix(nums: Seq<u64>, rest: Seq<Seq<char>>)
    requires
        rest.len() > 0 ==> !is_digits(rest[0]),
    ensures
        numeric_prefix(decimals(nums) + rest) == nums.len(),
    decreases nums.len(),
{
    let t = decimals(nums) + rest;
    if nums.len() > 0 {
        law_decimal_reads_back(nums[0] as nat);
        assert(t[0] == decimal(nums[0] as nat));
        assert(t.drop_first() =~= decimals(nums.drop_first()) + rest);
        lemma_numeric_prefix(nums.drop_first(), rest);
    } else {
        assert(t =~= rest);
    }
}

/// A Maven release of up to three numbers is that release in semver.
#[verifier::rlimit(60)]
pub proof fn law_maven_release(nums: Seq<u64>)
    requires
        0 < nums.len() <= 3,
    ensures
        maven_version(dotted(nums)) == Some(padded_numbers(nums)),
{
    let none = Seq::<char>::empty();
    let d = dotted(nums);
    lemma_dotted(nums);
    lemma_plain(d);
    lemma_number_tokens(nums, none);
    assert(d + none =~= d);
    let empty = Seq::<Seq<char>>::empty();
    assert(tokens_of(none) =~= empty);
    lemma_numeric_prefix(nums, empty);
    let t = decimals(nums);
    assert(t + empty =~= t);
    assert(tokens_of(d) == t);
    assert forall|i: int| 0 <= i < nums.len() implies number_of(#[trigger] t[i]) == Some(
        nums[i],
    ) by {
        law_decimal_reads_back(nums[i] as nat);
    }
    let skip = if nums.len() < 3 {
        nums.len() as int
    } else {
        3
    };
    assert(t.skip(skip) =~= empty);
    assert(identifiers(empty) =~= empty);
}

/// A Maven release with a qualifier after a hyphen or a point: the word's canonical name
/// after the release, or nothing where the word says that it is the release.
#[verifier::rlimit(60)]
pub proof fn law_maven_qualified(nums: Seq<u64>, sep: char, word: Seq<char>)
    requires
        0 < nums.len() <= 3,
        sep == '-' || sep == '.',
        word.len() > 0,
        forall|i: int| 0 <= i < word.len() ==> 'a' <= #[trigger] word[i] <= 'z',
    ensures
        maven_version(dotted(nums) + (seq![sep] + word)) == Some(
            match canonical(word) {
                Some(name) => padded_numbers(nums) + "-"@ + name,
                None => padded_numbers(nums),
            },
        ),
        is_maven_prerelease(dotted(nums) + (seq![sep] + word)) <==> is_preview(word),
{
    lemma_signs();
    let d = dotted(nums);
    let rest = seq![sep] + word;
    let s = d + rest;
    lemma_dotted(nums);
    assert(s[0] == d[0] && s.last() == word.last());
    assert('a' <= word[word.len() - 1] <= 'z');
    lemma_trimmed_same(s);
    lemma_number_tokens(nums, rest);
    let none = Seq::<char>::empty();
    let empty = Seq::<Seq<char>>::empty();
    assert forall|i: int| 0 <= i < word.len() implies Class::Alpha.has(#[trigger] word[i]) by {
        assert('a' <= word[i] <= 'z');
    }
    lemma_leading_at(word, none, Class::Alpha);
    assert(word + none =~= word);
    lemma_lowered_same(word);
    assert(rest.drop_first() =~= word);
    assert('a' <= word[0] <= 'z');
    assert(tokens_of(none) =~= empty);
    assert(tokens_of(word) =~= seq![word]);
    assert(tokens_of(rest) == tokens_of(word));
    let t = decimals(nums) + seq![word];
    assert(tokens_of(s) == t);
    assert(!is_digits(word)) by {
        if is_digits(word) {
            assert(Class::Digit.has(word[0]));
        }
    }
    lemma_numeric_prefix(nums, seq![word]);
    assert forall|i: int| 0 <= i < nums.len() implies number_of(#[trigger] t[i]) == Some(
        nums[i],
    ) by {
        law_decimal_reads_back(nums[i] as nat);
        assert(t[i] == decimal(nums[i] as nat));
    }
    let skip = if nums.len() < 3 {
        nums.len() as int
    } else {
        3
    };
    assert(t.skip(skip) =~= seq![word]);
    assert(seq![word].drop_last() =~= empty);
    assert(identifiers(empty) =~= empty);
    if let Some(name) = canonical(word) {
        assert(empty.push(name) =~= seq![name]);
        lemma_joined(name, name, "."@);
    }
    assert forall|i: int| 0 <= i < nums.len() implies !is_preview(#[trigger] t[i]) by {
        lemma_number_is_no_preview(nums[i]);
        assert(t[i] == decimal(nums[i] as nat));
    }
    assert(t[nums.len() as int] == word);
}

/// A number after a Maven qualifier is kept after a point: `1.0-rc1` is `1.0.0-rc.1`.
#[verifier::rlimit(60)]
pub proof fn law_maven_numbered(nums: Seq<u64>, word: Seq<char>, n: u64)
    requires
        0 < nums.len() <= 3,
        word.len() > 0,
        forall|i: int| 0 <= i < word.len() ==> 'a' <= #[trigger] word[i] <= 'z',
        canonical(word) is Some,
    ensures
        maven_version(dotted(nums) + (seq!['-'] + (word + decimal(n as nat)))) == Some(
            padded_numbers(nums) + "-"@ + (canonical(word)->0 + "."@ + decimal(n as nat)),
        ),
{
    reveal_with_fuel(identifiers, 3);
    let d = dotted(nums);
    let e = decimal(n as nat);
    let tail = word + e;
    let rest = seq!['-'] + tail;
    let s = d + rest;
    law_decimal_reads_back(n as nat);
    lemma_dotted(nums);
    assert(Class::Digit.has(e[e.len() - 1]) && Class::Digit.has(e[0]));
    assert(s[0] == d[0] && s.last() == e.last());
    lemma_trimmed_same(s);
    lemma_number_tokens(nums, rest);
    super::python_laws::lemma_word_and_number(word, n);
    assert(rest.drop_first() =~= tail);
    assert(tokens_of(rest) == tokens_of(tail));
    let t = decimals(nums) + seq![word, e];
    assert(tokens_of(s) == t);
    assert(!is_digits(word)) by {
        assert('a' <= word[0] <= 'z');
        if is_digits(word) {
            assert(Class::Digit.has(word[0]));
        }
    }
    lemma_numeric_prefix(nums, seq![word, e]);
    assert forall|i: int| 0 <= i < nums.len() implies number_of(#[trigger] t[i]) == Some(
        nums[i],
    ) by {
        law_decimal_reads_back(nums[i] as nat);
        assert(t[i] == decimal(nums[i] as nat));
    }
    let skip = if nums.len() < 3 {
        nums.len() as int
    } else {
        3
    };
    let empty = Seq::<Seq<char>>::empty();
    assert(t.skip(skip) =~= seq![word, e]);
    assert(seq![word, e].drop_last() =~= seq![word]);
    assert(seq![word].drop_last() =~= empty);
    lemma_no_zeros(n);
    let name = canonical(word)->0;
    assert(empty.push(name) =~= seq![name]);
    assert(seq![name].push(e) =~= seq![name, e]);
    lemma_joined(name, e, "."@);
}

/// A decimal number has no zeros to strip.
#[verifier::rlimit(60)]
proof fn lemma_no_zeros(n: u64)
    ensures
        super::maven::without_zeros(decimal(n as nat)) == decimal(n as nat),
{
    let d = decimal(n as nat);
    let none = Seq::<char>::empty();
    law_decimal_reads_back(n as nat);
    crate::number::lemma_no_leading_zero(n as nat);
    reveal_strlit("0");
    if n == 0 {
        assert(d =~= seq!['0']);
        assert("0"@ =~= seq!['0']);
        lemma_leading_at(d, none, Class::Is('0'));
        assert(d + none =~= d);
    } else {
        lemma_leading_at(none, d, Class::Is('0'));
        assert(none + d =~= d);
    }
}

#[verifier::rlimit(60)]
proof fn lemma_number_is_no_preview(n: u64)
    ensures
        !is_preview(decimal(n as nat)),
{
    let d = decimal(n as nat);
    law_decimal_reads_back(n as nat);
    assert(Class::Digit.has(d[0]));
    reveal_strlit("a");
    reveal_strlit("alpha");
    reveal_strlit("b");
    reveal_strlit("beta");
    reveal_strlit("m");
    reveal_strlit("milestone");
    reveal_strlit("cr");
    reveal_strlit("rc");
    reveal_strlit("ga");
    reveal_strlit("final");
    reveal_strlit("release");
    reveal_strlit("snapshot");
    assert("a"@[0] == 'a' && "alpha"@[0] == 'a' && "b"@[0] == 'b' && "beta"@[0] == 'b' && "m"@[0]
        == 'm' && "milestone"@[0] == 'm' && "cr"@[0] == 'c' && "rc"@[0] == 'r' && "ga"@[0] == 'g'
        && "final"@[0] == 'f' && "release"@[0] == 'r' && "snapshot"@[0] == 's');
}

/// Gradle's names for the newest version admit any.
pub proof fn law_gradle_latest()
    ensures
        maven_requirement("latest.release"@) == "*"@,
        maven_requirement("latest.integration"@) == "*"@,
{
    reveal_strlit("latest.release");
    reveal_strlit("latest.integration");
    lemma_trimmed_same("latest.release"@);
    lemma_trimmed_same("latest.integration"@);
    lemma_lowered_same("latest.release"@);
    lemma_lowered_same("latest.integration"@);
}

} // verus!
