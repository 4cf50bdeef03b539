//! What manifests that are read line by line declare.
use super::go_mod::{directive, go_items, in_block, opens_block, required, word_end, word_start};
use super::requirements_txt::{
    after_extras, comment_start, is_elsewhere, line_requirement, line_requirements, parts508,
};
use crate::item::{DependencyKind, ItemView, PackageSource};
use crate::semver::normalize::normal_version;
use crate::text::{
    all_in, begins, find, first, has_any, is_ascii_space, is_space, leading, trim_end_of, Class,
};
use crate::writing::{
    is_plain, is_plain_char, lemma_absent_joined, lemma_after, lemma_find_absent, lemma_first_at,
    lemma_first_none, lemma_found_after, lemma_leading_at, lemma_not_begins, lemma_plain_char,
    lemma_signs, lemma_trailing_at,
};
use vstd::prelude::*;

verus! {

/// Whether a text is one word of a line: not empty, without white space, and without the
/// beginning of a comment.
pub open spec fn is_word(w: Seq<char>) -> bool {
    &&& w.len() > 0
    &&& forall|i: int| 0 <= i < w.len() ==> !is_space(#[trigger] w[i])
    &&& find(w, "//"@) < 0
    &&& w[0] != ')'
}

proof fn lemma_word(w: Seq<char>)
    requires
        is_word(w),
    ensures
        all_in(w, Class::NotAsciiSpace),
        forall|i: int| 0 <= i < w.len() ==> !is_ascii_space(#[trigger] w[i]),
{
    assert forall|i: int| 0 <= i < w.len() implies !is_ascii_space(#[trigger] w[i]) by {
        assert(!is_space(w[i]));
    }
}

/// Whether an item is what a line of a `go.mod` requires.
pub open spec fn is_required(
    item: ItemView,
    name: Seq<char>,
    version: Seq<char>,
    kind: DependencyKind,
    number: int,
) -> bool {
    &&& item.name == name
    &&& item.version_constraint == version
    &&& item.kind == kind
    &&& item.source == PackageSource::Registry
    &&& item.version_line == number as usize
    &&& item.locked_version == Some(normal_version(version))
}

/// The words of a line of code: what stands before the first, the two, and what follows.
#[verifier::rlimit(60)]
proof fn lemma_two_words(pre: Seq<char>, name: Seq<char>, version: Seq<char>, post: Seq<char>)
    requires
        is_word(name),
        is_word(version),
        post.len() > 0 ==> post[0] == ' ',
    ensures
        ({
            let code = pre + (name + " "@ + version) + post;
            let n = pre.len() as int;
            &&& word_start(code, n) == n
            &&& word_end(code, n) == n + name.len()
            &&& word_start(code, n + name.len()) == n + name.len() + 1
            &&& word_end(code, n + name.len() + 1) == n + name.len() + 1 + version.len()
            &&& code.subrange(n, n + name.len()) == name
            &&& code.subrange(n + name.len() + 1, n + name.len() + 1 + version.len()) == version
        }),
{
    lemma_signs();
    lemma_word(name);
    lemma_word(version);
    let none = Seq::<char>::empty();
    let code = pre + (name + " "@ + version) + post;
    let n = pre.len() as int;
    let m = n + name.len();
    assert(code.skip(n) =~= name + (" "@ + version + post));
    assert((" "@ + version + post)[0] == ' ');
    lemma_leading_at(name, " "@ + version + post, Class::NotAsciiSpace);
    lemma_leading_at(none, code.skip(n), Class::AsciiSpace);
    assert(none + code.skip(n) =~= code.skip(n));
    assert(code.skip(n)[0] == name[0]);
    assert(code.skip(m) =~= " "@ + (version + post));
    assert((version + post)[0] == version[0]);
    lemma_leading_at(" "@, version + post, Class::AsciiSpace);
    assert(code.skip(m + 1) =~= version + post);
    lemma_leading_at(version, post, Class::NotAsciiSpace);
    assert(code.subrange(n, m) =~= name);
    assert(code.subrange(m + 1, m + 1 + version.len()) =~= version);
}

/// A `require` line of its own requires the module it names at the version it names, and
/// directly, unless a comment says that it is indirect.
pub proof fn law_go_require_line(lines: Seq<Seq<char>>, name: Seq<char>, version: Seq<char>)
    requires
        !in_block(lines),
        is_word(name),
        is_word(version),
        name[0] != '(',
    ensures
        required(lines.push("require "@ + (name + " "@ + version))) matches Some(i) && is_required(
            i,
            name,
            version,
            DependencyKind::Normal,
            lines.len() as int,
        ),
        required(lines.push("require "@ + (name + " "@ + version) + " // indirect"@)) matches Some(
            i,
        ) && is_required(i, name, version, DependencyKind::Indirect, lines.len() as int),
        !in_block(lines.push("require "@ + (name + " "@ + version))),
{
    lemma_require_line(lines, name, version);
    lemma_noted_line(lines, name, version);
}

#[verifier::rlimit(60)]
proof fn lemma_require_line(lines: Seq<Seq<char>>, name: Seq<char>, version: Seq<char>)
    requires
        !in_block(lines),
        is_word(name),
        is_word(version),
        name[0] != '(',
    ensures
        required(lines.push("require "@ + (name + " "@ + version))) matches Some(i) && is_required(
            i,
            name,
            version,
            DependencyKind::Normal,
            lines.len() as int,
        ),
        !in_block(lines.push("require "@ + (name + " "@ + version))),
{
    reveal_strlit(" ");
    assert(" "@ =~= seq![' ']);
    reveal_strlit("require ");
    reveal_strlit("require");
    reveal_strlit("//");
    reveal_strlit("(");
    let none = Seq::<char>::empty();
    let pair = name + " "@ + version;
    let line = "require "@ + pair;
    lemma_find_absent("require"@, "//"@);
    lemma_absent_joined(name, ' ', version, "//"@);
    lemma_absent_joined("require"@, ' ', pair, "//"@);
    assert(line =~= "require"@ + seq![' '] + pair);
    lemma_two_words("require "@, name, version, none);
    assert(line + none =~= line);
    lemma_directive(line, pair);
    assert(pair[0] == name[0]);
    assert(lines.push(line).drop_last() =~= lines);
    assert(line.skip(7) =~= " "@ + pair);
    lemma_leading_at(" "@, pair, Class::AsciiSpace);
    assert(word_start(line, 7) == 8);
    let from = 8 + name.len() as int + 1;
    assert(line.subrange(from, from + version.len()) =~= version);
}

/// A line that begins with `require` and goes on with a word is a directive of its own.
#[verifier::rlimit(60)]
proof fn lemma_directive(line: Seq<char>, rest: Seq<char>)
    requires
        line == "require "@ + rest,
        rest.len() > 0,
        !is_space(rest[0]),
        rest[0] != '(',
    ensures
        directive(line) is Some,
        !opens_block(line),
        leading(line, Class::Space) == 0,
{
    reveal_strlit(" ");
    reveal_strlit("(");
    reveal_strlit("require ");
    reveal_strlit("require");
    let none = Seq::<char>::empty();
    lemma_leading_at(none, line, Class::Space);
    assert(none + line =~= line);
    assert(line =~= "require"@ + (" "@ + rest));
    lemma_after("require"@, " "@ + rest);
    assert((" "@ + rest)[0] == ' ');
    lemma_leading_at(" "@, rest, Class::Space);
    lemma_not_begins(rest, "("@, 0);
}

#[verifier::rlimit(60)]
proof fn lemma_noted_line(lines: Seq<Seq<char>>, name: Seq<char>, version: Seq<char>)
    requires
        !in_block(lines),
        is_word(name),
        is_word(version),
        name[0] != '(',
    ensures
        required(lines.push("require "@ + (name + " "@ + version) + " // indirect"@)) matches Some(
            i,
        ) && is_required(i, name, version, DependencyKind::Indirect, lines.len() as int),
{
    reveal_strlit(" ");
    assert(" "@ =~= seq![' ']);
    reveal_strlit("require ");
    reveal_strlit("require");
    reveal_strlit("//");
    reveal_strlit(" // indirect");
    reveal_strlit(" indirect");
    reveal_strlit("indirect");
    let none = Seq::<char>::empty();
    let pair = name + " "@ + version;
    let line = "require "@ + pair;
    let noted = line + " // indirect"@;
    let code = line + " "@;
    lemma_find_absent("require"@, "//"@);
    lemma_absent_joined(name, ' ', version, "//"@);
    lemma_absent_joined("require"@, ' ', pair, "//"@);
    assert(line =~= "require"@ + seq![' '] + pair);
    assert(noted =~= code + "//"@ + " indirect"@);
    assert(line + seq![' '] + none =~= code);
    assert(find(none, "//"@) < 0);
    lemma_absent_joined(line, ' ', none, "//"@);
    lemma_found_after(code, "//"@, " indirect"@);
    assert(" indirect"@ =~= " "@ + "indirect"@);
    lemma_leading_at(" "@, "indirect"@, Class::Space);
    lemma_after("indirect"@, none);
    assert("indirect"@ + none =~= "indirect"@);
    lemma_two_words("require "@, name, version, " "@);
    assert("require "@ + pair + " "@ =~= code);
    assert(noted =~= "require "@ + (pair + " // indirect"@));
    assert((pair + " // indirect"@)[0] == name[0]);
    lemma_directive(noted, pair + " // indirect"@);
    assert(lines.push(noted).drop_last() =~= lines);
    assert(code.skip(7) =~= " "@ + (pair + " "@));
    assert((pair + " "@)[0] == name[0]);
    lemma_leading_at(" "@, pair + " "@, Class::AsciiSpace);
    assert(word_start(code, 7) == 8);
    let from = 8 + name.len() as int + 1;
    assert(noted.subrange(from, from + version.len()) =~= version);
}

/// Within a `require` block a line requires what it names, whatever it is indented by, and
/// a closing bracket ends the block.
#[verifier::rlimit(60)]
pub proof fn law_go_block(
    lines: Seq<Seq<char>>,
    pre: Seq<char>,
    name: Seq<char>,
    version: Seq<char>,
)
    requires
        in_block(lines),
        all_in(pre, Class::AsciiSpace),
        is_word(name),
        is_word(version),
    ensures
        required(lines.push(pre + (name + " "@ + version))) matches Some(i) && is_required(
            i,
            name,
            version,
            DependencyKind::Normal,
            lines.len() as int,
        ),
        in_block(lines.push(pre + (name + " "@ + version))),
        required(lines.push(pre + ")"@)) is None,
        !in_block(lines.push(pre + ")"@)),
{
    lemma_signs();
    reveal_strlit("//");
    let none = Seq::<char>::empty();
    let pair = name + " "@ + version;
    let line = pre + pair;
    assert forall|i: int| 0 <= i < pre.len() implies Class::Space.has(#[trigger] pre[i]) by {
        assert(Class::AsciiSpace.has(pre[i]));
    }
    lemma_absent_joined(name, ' ', version, "//"@);
    assert forall|i: int| 0 <= i < pre.len() implies #[trigger] pre[i] != "//"@[0] by {
        assert(Class::AsciiSpace.has(pre[i]));
    }
    lemma_find_absent(pre, "//"@);
    assert(find(line, "//"@) == -1) by {
        if pre.len() > 0 {
            let front = pre.drop_last();
            assert forall|i: int| 0 <= i < front.len() implies #[trigger] front[i] != "//"@[0] by {
                assert(front[i] == pre[i]);
                assert(Class::AsciiSpace.has(pre[i]));
            }
            lemma_find_absent(front, "//"@);
            assert(Class::AsciiSpace.has(pre[pre.len() - 1]));
            assert(!"//"@.contains(pre.last()));
            lemma_absent_joined(front, pre.last(), pair, "//"@);
            assert(front + seq![pre.last()] + pair =~= line);
        } else {
            assert(line =~= pair);
        }
    }
    lemma_two_words(pre, name, version, none);
    assert(line + none =~= line);
    assert(pair[0] == name[0]);
    lemma_word(name);
    assert(!is_space(name[0]));
    lemma_leading_at(pre, pair, Class::AsciiSpace);
    lemma_leading_at(pre, pair, Class::Space);
    assert(line.skip(0) =~= line);
    lemma_not_begins(pair, ")"@, 0);
    assert(lines.push(line).drop_last() =~= lines);
    let close = pre + ")"@;
    lemma_leading_at(pre, ")"@, Class::Space);
    lemma_after(")"@, none);
    assert(")"@ + none =~= ")"@);
    assert(lines.push(close).drop_last() =~= lines);
}

/// A bracket after `require` opens a block and requires nothing itself; a line of another
/// directive does neither.
#[verifier::rlimit(60)]
pub proof fn law_go_directives(lines: Seq<Seq<char>>, rest: Seq<char>)
    requires
        !in_block(lines),
    ensures
        in_block(lines.push("require ("@)),
        required(lines.push("require ("@)) is None,
        required(lines.push("module "@ + rest)) is None && !in_block(lines.push("module "@ + rest)),
        required(lines.push("go "@ + rest)) is None && !in_block(lines.push("go "@ + rest)),
        required(lines.push("replace "@ + rest)) is None && !in_block(
            lines.push("replace "@ + rest),
        ),
        required(lines.push("exclude "@ + rest)) is None && !in_block(
            lines.push("exclude "@ + rest),
        ),
{
    lemma_signs();
    reveal_strlit("require (");
    reveal_strlit("require");
    let none = Seq::<char>::empty();
    let open = "require ("@;
    assert(open =~= "require"@ + " ("@) by {
        reveal_strlit(" (");
    }
    reveal_strlit(" (");
    lemma_after("require"@, " ("@);
    lemma_leading_at(none, open, Class::Space);
    assert(none + open =~= open);
    assert(" ("@ =~= " "@ + "("@);
    lemma_leading_at(" "@, "("@, Class::Space);
    lemma_after("("@, none);
    assert("("@ + none =~= "("@);
    assert(lines.push(open).drop_last() =~= lines);
    reveal_strlit("module ");
    reveal_strlit("go ");
    reveal_strlit("replace ");
    reveal_strlit("exclude ");
    lemma_other_directive(lines, "module "@ + rest, 0);
    lemma_other_directive(lines, "go "@ + rest, 0);
    lemma_other_directive(lines, "replace "@ + rest, 2);
    lemma_other_directive(lines, "exclude "@ + rest, 0);
}

proof fn lemma_other_directive(lines: Seq<Seq<char>>, line: Seq<char>, i: int)
    requires
        !in_block(lines),
        0 <= i < 7,
        i < line.len(),
        line[i] != "require"@[i],
        line.len() > 0,
        !is_space(line[0]),
    ensures
        required(lines.push(line)) is None,
        !in_block(lines.push(line)),
{
    reveal_strlit("require");
    let none = Seq::<char>::empty();
    lemma_leading_at(none, line, Class::Space);
    assert(none + line =~= line);
    lemma_not_begins(line, "require"@, i);
    assert(lines.push(line).drop_last() =~= lines);
}

/// One more line adds what it requires after the others.
pub proof fn law_go_one_more(lines: Seq<Seq<char>>, line: Seq<char>)
    ensures
        go_items(lines.push(line)) == match required(lines.push(line)) {
            Some(item) => go_items(lines).push(item),
            None => go_items(lines),
        },
{
    assert(lines.push(line).drop_last() =~= lines);
}

/// Whether a character may stand in the clauses of a Python constraint.
pub open spec fn is_clause_char(c: char) -> bool {
    is_plain_char(c) || c == '<' || c == '>' || c == '=' || c == '!' || c == '~' || c == ',' || c
        == '*' || c == ' '
}

/// Whether a text is the clauses of a Python constraint: it begins with a comparison, and
/// does not end with white space.
pub open spec fn is_clauses(c: Seq<char>) -> bool {
    &&& c.len() > 0
    &&& c[0] == '<' || c[0] == '>' || c[0] == '=' || c[0] == '!' || c[0] == '~'
    &&& !is_space(c.last())
    &&& forall|i: int| 0 <= i < c.len() ==> is_clause_char(#[trigger] c[i])
}

proof fn lemma_name_ends(c: char)
    ensures
        Class::In("<>=!~;[ \t@(").has(c) <==> c == '<' || c == '>' || c == '=' || c == '!' || c
            == '~' || c == ';' || c == '[' || c == ' ' || c == '\t' || c == '@' || c == '(',
{
    reveal_strlit("<>=!~;[ \t@(");
    let s = "<>=!~;[ \t@("@;
    assert(s.len() == 11 && s[0] == '<' && s[1] == '>' && s[2] == '=' && s[3] == '!' && s[4] == '~'
        && s[5] == ';' && s[6] == '[' && s[7] == ' ' && s[8] == '\t' && s[9] == '@' && s[10]
        == '(');
}

proof fn lemma_plain_name(name: Seq<char>)
    requires
        is_plain(name),
    ensures
        !has_any(name, Class::In("<>=!~;[ \t@(")),
{
    assert forall|i: int| 0 <= i < name.len() implies !Class::In("<>=!~;[ \t@(").has(
        #[trigger] name[i],
    ) by {
        lemma_plain_char(name[i]);
        lemma_name_ends(name[i]);
    }
}

/// The parts of a name, what may stand between, and a constraint before a marker.
#[verifier::rlimit(60)]
proof fn lemma_parts(name: Seq<char>, gap: Seq<char>, c: Seq<char>, post: Seq<char>)
    requires
        is_plain(name),
        gap.len() == 0 || gap == " "@,
        is_clauses(c),
        post.len() > 0 ==> post[0] == ';',
    ensures
        parts508(name + (gap + c) + post) == Some(
            (
                name.len() as int,
                (name.len() + gap.len()) as int,
                (name.len() + gap.len() + c.len()) as int,
            ),
        ),
{
    lemma_signs();
    let k = Class::In("<>=!~;[ \t@(");
    let spec = name + (gap + c) + post;
    let n = name.len() as int;
    let none = Seq::<char>::empty();
    lemma_plain_name(name);
    let sign = (gap + c)[0];
    assert(sign == if gap.len() > 0 { ' ' } else { c[0] });
    lemma_name_ends(sign);
    let tail = (gap + c + post).drop_first();
    assert(spec =~= name + seq![sign] + tail);
    lemma_first_at(name, sign, tail, k);
    assert(spec.skip(n) =~= gap + (c + post));
    assert((c + post)[0] == c[0]);
    assert(all_in(gap, Class::AsciiSpace));
    lemma_leading_at(gap, c + post, Class::AsciiSpace);
    let p = n + gap.len();
    assert(spec[p] == c[0]);
    assert(after_extras(spec, n) == p);
    assert(spec.skip(p) =~= c + post);
    assert forall|i: int| 0 <= i < c.len() implies #[trigger] c[i] != ';' by {
        assert(is_clause_char(c[i]));
    }
    if post.len() > 0 {
        assert(c + post =~= c + seq![';'] + post.drop_first());
        lemma_first_at(c, ';', post.drop_first(), Class::Is(';'));
    } else {
        assert(c + post =~= c);
        assert(!has_any(c, Class::Is(';')));
        lemma_first_none(c, Class::Is(';'));
    }
    assert((c + post).take(c.len() as int) =~= c);
    lemma_trailing_at(c, none, Class::Space);
    assert(c + none =~= c);
}

/// A Python requirement is a name and a constraint after it, with or without a space; a
/// marker after a semicolon is no part of it; a name alone has no constraint; and what is
/// to be had from a URL is no requirement.
#[verifier::rlimit(60)]
pub proof fn law_pep508(name: Seq<char>, c: Seq<char>, marker: Seq<char>, url: Seq<char>)
    requires
        is_plain(name),
        is_clauses(c),
    ensures
        ({
            let n = name.len() as int;
            let m = n + c.len();
            &&& parts508(name + c) == Some((n, n, m))
            &&& parts508(name + " "@ + c) == Some((n, n + 1, m + 1))
            &&& parts508(name + c + ";"@ + marker) == Some((n, n, m))
            &&& parts508(name) == Some((n, n, n))
            &&& parts508(name + " @ "@ + url) is None
        }),
{
    lemma_signs();
    reveal_strlit(" @ ");
    let none = Seq::<char>::empty();
    let n = name.len() as int;
    lemma_parts(name, none, c, none);
    assert(name + (none + c) + none =~= name + c);
    lemma_parts(name, " "@, c, none);
    assert(name + (" "@ + c) + none =~= name + " "@ + c);
    lemma_parts(name, none, c, ";"@ + marker);
    assert(name + (none + c) + (";"@ + marker) =~= name + c + ";"@ + marker);
    lemma_plain_name(name);
    lemma_first_none(name, Class::In("<>=!~;[ \t@("));
    assert(name.skip(n) =~= none);
    assert(leading(none, Class::AsciiSpace) == 0);
    assert(after_extras(name, n) == n);
    assert(none.take(first(none, Class::Is(';'))) =~= none);
    assert(trim_end_of(none, Class::Space) =~= none);
    let u = name + " @ "@ + url;
    lemma_name_ends(' ');
    lemma_first_at(name, ' ', "@ "@ + url, Class::In("<>=!~;[ \t@("));
    reveal_strlit("@ ");
    assert(u =~= name + seq![' '] + ("@ "@ + url));
    assert(u.skip(n) =~= " "@ + ("@ "@ + url));
    assert(("@ "@ + url)[0] == '@');
    lemma_leading_at(" "@, "@ "@ + url, Class::AsciiSpace);
    assert(u[n + 1] == '@');
}

/// Extras in brackets after a name are no part of the name or the constraint.
#[verifier::rlimit(60)]
pub proof fn law_pep508_extras(name: Seq<char>, extras: Seq<char>, c: Seq<char>)
    requires
        is_plain(name),
        !has_any(extras, Class::Is(']')),
        is_clauses(c),
    ensures
        parts508(name + "["@ + extras + "]"@ + c) == Some(
            (
                name.len() as int,
                (name.len() + extras.len() + 2) as int,
                (name.len() + extras.len() + 2 + c.len()) as int,
            ),
        ),
{
    reveal_strlit("[");
    reveal_strlit("]");
    assert("["@ =~= seq!['[']);
    assert("]"@ =~= seq![']']);
    let spec = name + (seq!['['] + extras + seq![']'] + c);
    assert(name + "["@ + extras + "]"@ + c =~= spec);
    lemma_extras(name, extras, c);
    lemma_name_before_extras(name, extras + seq![']'] + c);
    assert(spec =~= name + seq!['['] + (extras + seq![']'] + c));
    assert(spec.skip((name.len() + extras.len() + 2) as int) =~= c);
    lemma_clauses_at(spec, name.len() as int, (name.len() + extras.len() + 2) as int, c);
}

/// A name ends where its extras begin.
proof fn lemma_name_before_extras(name: Seq<char>, rest: Seq<char>)
    requires
        is_plain(name),
    ensures
        first(name + seq!['['] + rest, Class::In("<>=!~;[ \t@(")) == name.len(),
{
    lemma_plain_name(name);
    lemma_name_ends('[');
    lemma_first_at(name, '[', rest, Class::In("<>=!~;[ \t@("));
}

/// The parts of a requirement whose constraint is all that is left of it.
proof fn lemma_clauses_at(spec: Seq<char>, n: int, p: int, c: Seq<char>)
    requires
        0 < n <= p <= spec.len(),
        first(spec, Class::In("<>=!~;[ \t@(")) == n,
        after_extras(spec, n) == p,
        spec.skip(p) == c,
        is_clauses(c),
    ensures
        parts508(spec) == Some((n, p, p + c.len())),
{
    lemma_clauses_end(c);
    assert(spec.skip(p)[0] == spec[p]);
}

/// Clauses hold no semicolon, and end where they end.
proof fn lemma_clauses_end(c: Seq<char>)
    requires
        is_clauses(c),
    ensures
        c.take(first(c, Class::Is(';'))) == c,
        trim_end_of(c, Class::Space) == c,
{
    let none = Seq::<char>::empty();
    assert forall|i: int| 0 <= i < c.len() implies #[trigger] c[i] != ';' by {
        assert(is_clause_char(c[i]));
    }
    assert(!has_any(c, Class::Is(';')));
    lemma_first_none(c, Class::Is(';'));
    lemma_trailing_at(c, none, Class::Space);
    assert(c + none =~= c);
}

/// Where the extras after a name end.
#[verifier::rlimit(60)]
proof fn lemma_extras(name: Seq<char>, extras: Seq<char>, c: Seq<char>)
    requires
        !has_any(extras, Class::Is(']')),
        is_clauses(c),
    ensures
        after_extras(name + (seq!['['] + extras + seq![']'] + c), name.len() as int) == name.len()
            + extras.len() + 2,
{
    let none = Seq::<char>::empty();
    let open = seq!['['] + extras;
    let rest = open + seq![']'] + c;
    let spec = name + rest;
    let n = name.len() as int;
    assert(spec.skip(n) =~= rest);
    assert(rest[0] == '[');
    lemma_leading_at(none, rest, Class::AsciiSpace);
    assert(none + rest =~= rest);
    assert(spec[n] == '[');
    assert forall|i: int| 0 <= i < open.len() implies #[trigger] open[i] != ']' by {
        if i > 0 {
            assert(open[i] == extras[i - 1]);
        }
    }
    assert(!has_any(open, Class::Is(']')));
    lemma_first_at(open, ']', c, Class::Is(']'));
    let b = n + open.len() + 1;
    assert(spec.skip(b) =~= c);
    lemma_leading_at(none, c, Class::AsciiSpace);
    assert(none + c =~= c);
}

proof fn lemma_comment(line: Seq<char>, i: int, n: int)
    requires
        0 <= i <= n <= line.len(),
        forall|j: int|
            i <= j < n ==> !((#[trigger] line[j]) == '#' && (j == 0 || is_ascii_space(
                line[j - 1],
            ))),
        n < line.len() ==> line[n] == '#' && n > 0 && is_ascii_space(line[n - 1]),
    ensures
        comment_start(line, i) == n,
    decreases n - i,
{
    if i < n {
        lemma_comment(line, i + 1, n);
    }
}

/// A line of a requirements file is a dependency on the package it names, with the
/// constraint it states, before a comment; unless the comment says not to check it.
pub proof fn law_requirements_line(name: Seq<char>, c: Seq<char>, note: Seq<char>, number: usize)
    requires
        is_plain(name),
        name[0] != '-' && name[0] != '.' && !begins(name, "git+"@),
        is_clauses(c),
    ensures
        line_requirement(name + c, number) matches Some(i) && i.name == name
            && i.version_constraint == c && i.version_line == number && i.kind
            == DependencyKind::Normal && i.source == PackageSource::Registry,
        find("# "@ + note, "dependable: disable-check"@) < 0 ==> (line_requirement(
            name + c + " # "@ + note,
            number,
        ) matches Some(i) && i.name == name && i.version_constraint == c),
        find("# "@ + note, "dependable: disable-check"@) >= 0 ==> line_requirement(
            name + c + " # "@ + note,
            number,
        ) is None,
{
    lemma_plain_line(name, c, number);
    lemma_commented_line(name, c, note, number);
}

/// A name and clauses as a line: nothing before, after or within them is a comment.
#[verifier::rlimit(60)]
proof fn lemma_line_body(name: Seq<char>, c: Seq<char>)
    requires
        is_plain(name),
        name[0] != '-' && name[0] != '.' && !begins(name, "git+"@),
        is_clauses(c),
    ensures
        ({
            let body = name + c;
            &&& forall|i: int| 0 <= i < body.len() ==> #[trigger] body[i] != '#'
            &&& body.len() > 0
            &&& !is_space(body[0])
            &&& !is_space(body.last())
            &&& !is_elsewhere(body)
            &&& parts508(body) == Some(
                (name.len() as int, name.len() as int, body.len() as int),
            )
            &&& body.take(name.len() as int) == name
            &&& body.subrange(name.len() as int, body.len() as int) == c
        }),
{
    reveal_strlit("://");
    let none = Seq::<char>::empty();
    let body = name + c;
    assert forall|i: int| 0 <= i < body.len() implies #[trigger] body[i] != '#' && body[i]
        != ':' by {
        if i < name.len() {
            assert(body[i] == name[i]);
            lemma_plain_char(name[i]);
        } else {
            assert(body[i] == c[i - name.len()]);
            assert(is_clause_char(c[i - name.len()]));
        }
    }
    assert(body[0] == name[0] && body.last() == c.last());
    assert(is_plain_char(name[0]));
    lemma_plain_char(name[0]);
    lemma_find_absent(body, "://"@);
    lemma_not_git(name, c);
    law_pep508(name, c, none, none);
    assert(body.take(name.len() as int) =~= name);
    assert(body.subrange(name.len() as int, body.len() as int) =~= c);
}

#[verifier::rlimit(60)]
proof fn lemma_plain_line(name: Seq<char>, c: Seq<char>, number: usize)
    requires
        is_plain(name),
        name[0] != '-' && name[0] != '.' && !begins(name, "git+"@),
        is_clauses(c),
    ensures
        line_requirement(name + c, number) matches Some(i) && i.name == name
            && i.version_constraint == c && i.version_line == number && i.kind
            == DependencyKind::Normal && i.source == PackageSource::Registry,
{
    reveal_strlit("dependable: disable-check");
    let none = Seq::<char>::empty();
    let body = name + c;
    let n = body.len() as int;
    lemma_line_body(name, c);
    lemma_leading_at(none, body, Class::Space);
    assert(none + body =~= body);
    lemma_trailing_at(body, none, Class::Space);
    assert(body + none =~= body);
    lemma_comment(body, 0, n);
    assert(body.take(n) =~= body);
    assert(body.skip(n) =~= none);
    assert(body.skip(0) =~= body);
    assert(find(none, "dependable: disable-check"@) < 0);
}

#[verifier::rlimit(60)]
proof fn lemma_commented_line(name: Seq<char>, c: Seq<char>, note: Seq<char>, number: usize)
    requires
        is_plain(name),
        name[0] != '-' && name[0] != '.' && !begins(name, "git+"@),
        is_clauses(c),
    ensures
        find("# "@ + note, "dependable: disable-check"@) < 0 ==> (line_requirement(
            name + c + " # "@ + note,
            number,
        ) matches Some(i) && i.name == name && i.version_constraint == c),
        find("# "@ + note, "dependable: disable-check"@) >= 0 ==> line_requirement(
            name + c + " # "@ + note,
            number,
        ) is None,
{
    reveal_strlit(" # ");
    reveal_strlit("# ");
    reveal_strlit(" ");
    let none = Seq::<char>::empty();
    let body = name + c;
    let n = body.len() as int;
    lemma_line_body(name, c);
    let noted = name + c + " # "@ + note;
    let m = n + 1;
    assert forall|j: int| 0 <= j < m implies (#[trigger] noted[j]) != '#' by {
        if j < n {
            assert(noted[j] == body[j]);
        }
    }
    lemma_comment(noted, 0, m);
    assert(noted.take(m) =~= body + " "@);
    assert(noted.skip(m) =~= "# "@ + note);
    lemma_trailing_at(body, " "@, Class::Space);
    assert((body + " "@)[0] == body[0]);
    lemma_leading_at(none, body + " "@, Class::Space);
    assert(none + (body + " "@) =~= body + " "@);
    assert(body.skip(0) =~= body);
    assert(noted.subrange(name.len() as int, n) =~= c);
}

#[verifier::rlimit(60)]
proof fn lemma_not_git(name: Seq<char>, c: Seq<char>)
    requires
        is_plain(name),
        is_clauses(c),
    ensures
        begins(name + c, "git+"@) ==> begins(name, "git+"@),
{
    reveal_strlit("git+");
    let body = name + c;
    if begins(body, "git+"@) {
        if name.len() >= 4 {
            assert(name.take(4) =~= body.take(4));
        } else {
            let k = name.len() as int;
            assert(body.take(4)[k] == body[k]);
            assert(body[k] == c[0]);
        }
    }
}

/// An option, a path, a git source or a URL in a requirements file is no requirement.
#[verifier::rlimit(60)]
pub proof fn law_requirements_elsewhere(rest: Seq<char>, number: usize)
    requires
        forall|i: int| 0 <= i < rest.len() ==> #[trigger] rest[i] != '#' && !is_space(rest[i]),
    ensures
        line_requirement("-"@ + rest, number) is None,
        line_requirement("."@ + rest, number) is None,
        line_requirement("git+"@ + rest, number) is None,
        line_requirement("https://"@ + rest, number) is None,
{
    lemma_signs();
    reveal_strlit("git+");
    reveal_strlit("https://");
    reveal_strlit("://");
    lemma_after("git+"@, rest);
    let u = "https://"@ + rest;
    crate::writing::lemma_find_first(u, "://"@);
    assert(u.skip(5).take(3) =~= "://"@);
    assert(begins(u.skip(5), "://"@));
    assert(find(u, "://"@) >= 0) by {
        if find(u, "://"@) < 0 {
            assert(!begins(u.skip(5), "://"@));
        }
    }
    lemma_elsewhere("-"@ + rest, number);
    lemma_elsewhere("."@ + rest, number);
    lemma_elsewhere("git+"@ + rest, number);
    lemma_elsewhere(u, number);
}

#[verifier::rlimit(60)]
proof fn lemma_elsewhere(line: Seq<char>, number: usize)
    requires
        line.len() > 0,
        forall|i: int| 0 <= i < line.len() ==> #[trigger] line[i] != '#' && !is_space(line[i]),
        is_elsewhere(line),
    ensures
        line_requirement(line, number) is None,
{
    let none = Seq::<char>::empty();
    let n = line.len() as int;
    lemma_comment(line, 0, n);
    assert(line.take(n) =~= line);
    assert(!is_space(line[0]) && !is_space(line[n - 1]));
    lemma_leading_at(none, line, Class::Space);
    assert(none + line =~= line);
    lemma_trailing_at(line, none, Class::Space);
    assert(line + none =~= line);
    assert(line.skip(0) =~= line);
}

/// One more line of a requirements file adds what it requires after the others.
pub proof fn law_requirements_one_more(lines: Seq<Seq<char>>, line: Seq<char>)
    ensures
        line_requirements(lines.push(line)) == match line_requirement(line, lines.len() as usize) {
            Some(item) => line_requirements(lines).push(item),
            None => line_requirements(lines),
        },
{
    assert(lines.push(line).drop_last() =~= lines);
}

/// A number sign within a word begins no comment, in a requirements file or in YAML.
pub proof fn law_sign_within_a_word(a: Seq<char>, b: Seq<char>)
    requires
        is_plain(a),
        is_plain(b),
    ensures
        comment_start(a + seq!['#'] + b, 0) == a.len() + 1 + b.len(),
        super::yaml_block::uncommented(a + seq!['#'] + b) == a + seq!['#'] + b,
{
    let s = a + seq!['#'] + b;
    let n = a.len() as int;
    assert forall|j: int| 0 <= j < s.len() implies (#[trigger] s[j]) != '"' && s[j] != '\'' && !(s[j]
        == '#' && (j == 0 || is_ascii_space(s[j - 1]))) by {
        if j < n {
            assert(s[j] == a[j]);
            lemma_plain_char(a[j]);
        } else if j > n {
            assert(s[j] == b[j - n - 1]);
            lemma_plain_char(b[j - n - 1]);
        } else {
            assert(s[n - 1] == a[n - 1]);
            assert(is_plain_char(a[n - 1]));
        }
    }
    lemma_comment(s, 0, s.len() as int);
    lemma_no_yaml_comment(s, 0);
    assert(s.take(s.len() as int) =~= s);
}

proof fn lemma_no_yaml_comment(line: Seq<char>, i: int)
    requires
        0 <= i <= line.len(),
        forall|j: int|
            0 <= j < line.len() ==> (#[trigger] line[j]) != '"' && line[j] != '\'' && !(line[j]
                == '#' && (j == 0 || is_ascii_space(line[j - 1]))),
    ensures
        super::yaml_block::yaml_comment(line, i, false, false) == line.len(),
    decreases line.len() - i,
{
    if i < line.len() {
        lemma_no_yaml_comment(line, i + 1);
    }
}

} // verus!
