//! What reading texts by lines, paths and letters comes to.
use crate::manifest::{file_name, last_component};
use crate::parsers::json_scan::{block_comment_end, line_comment_end, trivia_end};
use crate::parsers::yaml_block::{uncommented, value_span, yaml_comment};
use crate::parsers::project::{first_module, first_scalar, line_scalar, module_named, quoted_after};
use crate::result::{first_page, unrated_in, Advisory, AdvisoryReference, ReferenceKind};
use crate::split::{lines_of, pieces};
use crate::text::{has_any, lowered, Class};
use crate::writing::{
    is_plain, lemma_find_after, lemma_first_at, lemma_first_none, lemma_leading_at,
    lemma_next_piece, lemma_one_piece, lemma_plain, lemma_plain_char, lemma_trimmed_spaces,
};
use vstd::prelude::*;

verus! {

/// A line ends at a line feed, and a carriage return before it is no part of the line; the
/// last line needs no end.
#[verifier::rlimit(60)]
pub proof fn law_lines(a: Seq<char>, b: Seq<char>)
    requires
        !has_any(a, Class::Is('\n')),
        a.len() > 0 ==> a.last() != '\r',
    ensures
        lines_of(a + seq!['\n'] + b) == seq![a] + lines_of(b),
        lines_of(a + seq!['\r', '\n'] + b) == seq![a] + lines_of(b),
        a.len() > 0 ==> lines_of(a) == seq![a],
        lines_of(seq![]) == Seq::<Seq<char>>::empty(),
{
    let k = Class::Is('\n');
    lemma_first_at(a, '\n', b, k);
    let s = a + seq!['\n'] + b;
    assert(s.skip(a.len() as int + 1) =~= b);
    let r = a.push('\r');
    assert forall|i: int| 0 <= i < r.len() implies #[trigger] r[i] != '\n' by {
        if i < a.len() {
            assert(r[i] == a[i]);
        }
    }
    assert(!has_any(r, k));
    lemma_first_at(r, '\n', b, k);
    let t = a + seq!['\r', '\n'] + b;
    assert(t =~= r + seq!['\n'] + b);
    assert(t.skip(r.len() as int + 1) =~= b);
    assert(r.drop_last() =~= a);
    lemma_first_none(a, k);
}

/// The name of a file is what follows the last slash of its path.
#[verifier::rlimit(60)]
pub proof fn law_file_names(dir: Seq<char>, name: Seq<char>)
    requires
        is_plain(dir),
        is_plain(name),
        name != "."@,
        name != ".."@,
    ensures
        file_name(name) == Some(name),
        file_name(dir + seq!['/'] + name) == Some(name),
        file_name(seq!['/'] + name) == Some(name),
        file_name(dir + seq!['/'] + name + seq!['/']) == Some(name),
{
    let k = Class::Is('/');
    let none = Seq::<char>::empty();
    assert forall|i: int| 0 <= i < dir.len() implies #[trigger] dir[i] != '/' by {
        lemma_plain_char(dir[i]);
    }
    assert forall|i: int| 0 <= i < name.len() implies #[trigger] name[i] != '/' by {
        lemma_plain_char(name[i]);
    }
    assert(!has_any(dir, k) && !has_any(name, k) && !has_any(none, k));
    lemma_one_piece(name, k);
    lemma_one_piece(none, k);
    lemma_next_piece(dir, '/', name, k);
    lemma_next_piece(none, '/', name, k);
    lemma_next_piece(name, '/', none, k);
    lemma_next_piece(dir, '/', name + seq!['/'] + none, k);
    assert(none + seq!['/'] + name =~= seq!['/'] + name);
    assert(dir + seq!['/'] + (name + seq!['/'] + none) =~= dir + seq!['/'] + name + seq!['/']);
    let a = pieces(dir + seq!['/'] + name + seq!['/'], k);
    assert(a =~= seq![dir, name, none]);
    assert(a.drop_last() =~= seq![dir, name]);
    reveal_with_fuel(last_component, 2);
    assert(pieces(dir + seq!['/'] + name, k) =~= seq![dir, name]);
    assert(pieces(seq!['/'] + name, k) =~= seq![none, name]);
}

/// A capital is lowered to its small letter, and any other character stays.
pub proof fn law_lowered(s: Seq<char>, i: int)
    requires
        0 <= i < s.len(),
    ensures
        lowered(s).len() == s.len(),
        'A' <= s[i] && s[i] <= 'Z' ==> lowered(s)[i] as u32 == s[i] as u32 + 32,
        !('A' <= s[i] && s[i] <= 'Z') ==> lowered(s)[i] == s[i],
        lowered(lowered(s)) == lowered(s),
{
    assert(lowered(lowered(s)) =~= lowered(s));
}

/// A line comment before a value ends with its line, and a block comment with its mark.
#[verifier::rlimit(60)]
pub proof fn law_json_comments(c: Seq<char>, v: char, rest: Seq<char>)
    requires
        !has_any(c, Class::Is('\n')),
        !has_any(c, Class::Is('*')),
        !crate::text::is_ascii_space(v),
        v != '/',
    ensures
        trivia_end(seq!['/', '/'] + c + seq!['\n', v] + rest, 0) == c.len() + 3,
        trivia_end(seq!['/', '*'] + c + seq!['*', '/', v] + rest, 0) == c.len() + 4,
        trivia_end(seq![' ', v] + rest, 0) == 1,
{
    let a = seq!['/', '/'] + c + seq!['\n', v] + rest;
    let n = c.len() as int + 2;
    assert forall|i: int| 2 <= i < n implies #[trigger] a[i] != '\n' by {
        assert(a[i] == c[i - 2]);
    }
    assert(a[n] == '\n' && a[n + 1] == v);
    lemma_line_end(a, 2, n);
    assert(trivia_end(a, n + 1) == n + 1);
    assert(trivia_end(a, n) == n + 1);
    assert(a[0] == '/' && a[1] == '/');
    let b = seq!['/', '*'] + c + seq!['*', '/', v] + rest;
    assert forall|i: int| 2 <= i < n implies #[trigger] b[i] != '*' by {
        assert(b[i] == c[i - 2]);
    }
    assert(b[n] == '*' && b[n + 1] == '/' && b[n + 2] == v);
    lemma_block_end(b, 2, n);
    assert(trivia_end(b, n + 2) == n + 2);
    assert(b[0] == '/' && b[1] == '*');
    let d = seq![' ', v] + rest;
    assert(d[0] == ' ' && d[1] == v);
    assert(trivia_end(d, 1) == 1);
}

proof fn lemma_line_end(s: Seq<char>, i: int, n: int)
    requires
        0 <= i <= n < s.len(),
        s[n] == '\n',
        forall|j: int| i <= j < n ==> #[trigger] s[j] != '\n',
    ensures
        line_comment_end(s, i) == n,
    decreases n - i,
{
    if i < n {
        lemma_line_end(s, i + 1, n);
    }
}

proof fn lemma_block_end(s: Seq<char>, i: int, n: int)
    requires
        0 <= i <= n,
        n + 1 < s.len(),
        s[n] == '*' && s[n + 1] == '/',
        forall|j: int| i <= j < n ==> #[trigger] s[j] != '*',
    ensures
        block_comment_end(s, i) == n + 2,
    decreases n - i,
{
    if i < n {
        lemma_block_end(s, i + 1, n);
    }
}

/// A YAML value in quotes is what stands between them, and a comment after a space is no
/// part of the line.
#[verifier::rlimit(60)]
pub proof fn law_yaml_values(key: Seq<char>, value: Seq<char>, note: Seq<char>, quote: char)
    requires
        is_plain(key),
        is_plain(value),
        quote == '"' || quote == '\'',
    ensures
        ({
            let line = key + seq![':', ' ', quote] + value + seq![quote];
            let from = (key.len() + 3) as int;
            &&& value_span(line) == Some((from, from + value.len()))
            &&& line.subrange(from, from + value.len()) == value
        }),
        uncommented(key + seq![':', ' '] + value + seq![' ', '#'] + note) == key + seq![':', ' ']
            + value + seq![' '],
{
    lemma_quoted_value(key, value, quote);
    let head = key + seq![':', ' '] + value + seq![' '];
    let line = key + seq![':', ' '] + value + seq![' ', '#'] + note;
    let n = head.len() as int;
    let k = key.len() as int;
    assert forall|j: int| 0 <= j < n implies (#[trigger] line[j]) != '#' && line[j] != '"'
        && line[j] != '\'' by {
        if j < k {
            assert(line[j] == key[j]);
            lemma_plain_char(key[j]);
        } else if k + 2 <= j < n - 1 {
            assert(line[j] == value[j - k - 2]);
            lemma_plain_char(value[j - k - 2]);
        }
    }
    assert(line[n] == '#' && line[n - 1] == ' ');
    lemma_comment_at(line, 0, n);
    assert(line.take(n) =~= head);
}

proof fn lemma_comment_at(line: Seq<char>, i: int, n: int)
    requires
        0 <= i <= n < line.len(),
        n > 0,
        line[n] == '#',
        crate::text::is_ascii_space(line[n - 1]),
        forall|j: int|
            i <= j < n ==> (#[trigger] line[j]) != '#' && line[j] != '"' && line[j] != '\'',
    ensures
        yaml_comment(line, i, false, false) == n,
    decreases n - i,
{
    if i < n {
        lemma_comment_at(line, i + 1, n);
    }
}

#[verifier::rlimit(60)]
proof fn lemma_quoted_value(key: Seq<char>, value: Seq<char>, quote: char)
    requires
        is_plain(key),
        is_plain(value),
        quote == '"' || quote == '\'',
    ensures
        ({
            let line = key + seq![':', ' ', quote] + value + seq![quote];
            let from = (key.len() + 3) as int;
            &&& value_span(line) == Some((from, from + value.len()))
            &&& line.subrange(from, from + value.len()) == value
        }),
{
    reveal_strlit(" ");
    let none = Seq::<char>::empty();
    let q = seq![quote] + value + seq![quote];
    let line = key + seq![':', ' ', quote] + value + seq![quote];
    let n = key.len() as int;
    lemma_plain(key);
    assert forall|i: int| 0 <= i < n implies #[trigger] key[i] != ':' by {
        lemma_plain_char(key[i]);
    }
    assert(!has_any(key, Class::Is(':')));
    assert(" "@ =~= seq![' ']);
    assert(line =~= key + seq![':'] + (" "@ + q));
    lemma_first_at(key, ':', " "@ + q, Class::Is(':'));
    assert(line.skip(n + 1) =~= " "@ + q);
    assert(q[0] == quote && q.last() == quote);
    lemma_trimmed_spaces(q);
    lemma_leading_at(" "@, q, Class::Space);
    let from = n + 3;
    assert(line.subrange(from, from + value.len()) =~= value);
}

/// The module and the scalars of a file are the first of their kind.
pub proof fn law_first_of_lines(lines: Seq<Seq<char>>, line: Seq<char>, key: Seq<char>)
    ensures
        module_named(line) is Some ==> first_module(seq![line] + lines) == module_named(line),
        module_named(line) is None ==> first_module(seq![line] + lines) == first_module(lines),
        line_scalar(line, key) is Some ==> first_scalar(seq![line] + lines, key) == line_scalar(
            line,
            key,
        ),
        line_scalar(line, key) is None ==> first_scalar(seq![line] + lines, key) == first_scalar(
            lines,
            key,
        ),
{
    assert((seq![line] + lines).drop_first() =~= lines);
}

/// What is quoted after a mark is what stands before the next quote.
pub proof fn law_quoted_after(a: Seq<char>, v: Seq<char>, rest: Seq<char>)
    requires
        is_plain(v),
        forall|i: int| 0 <= i < a.len() ==> #[trigger] a[i] != 'v',
    ensures
        quoted_after(a + "version: \""@ + (v + seq!['"'] + rest), "version: \""@) == Some(v),
{
    reveal_strlit("version: \"");
    let p = "version: \""@;
    lemma_find_after(a, p, v + seq!['"'] + rest);
    assert forall|i: int| 0 <= i < v.len() implies #[trigger] v[i] != '"' by {
        lemma_plain_char(v[i]);
    }
    assert(!has_any(v, Class::Is('"')));
    lemma_first_at(v, '"', rest, Class::Is('"'));
}

/// One more advisory without a score and a band is one more that is not rated; the page of
/// an advisory is that of its first reference of the kind.
pub proof fn law_advisories(
    advisories: Seq<Advisory>,
    a: Advisory,
    references: Seq<AdvisoryReference>,
    r: AdvisoryReference,
)
    ensures
        a.severity.score is None && a.severity.band is None ==> unrated_in(advisories.push(a))
            == unrated_in(advisories) + 1,
        a.severity.score is Some || a.severity.band is Some ==> unrated_in(advisories.push(a))
            == unrated_in(advisories),
        unrated_in(seq![]) == 0,
        r.kind == ReferenceKind::Advisory ==> first_page(seq![r] + references) == Some(r.url@),
        r.kind != ReferenceKind::Advisory ==> first_page(seq![r] + references) == first_page(
            references,
        ),
{
    assert(advisories.push(a).drop_last() =~= advisories);
    assert((seq![r] + references).drop_first() =~= references);
}

} // verus!
