//! What is found in JSON documents of a given shape.
use super::json_scan::{
    document_scan, elements_scan, members_scan, string_end, trivia_end, unescaped, value_scan, Scan,
    StringView,
};
use crate::number::decimal;
use crate::text::is_ascii_space;
use crate::width::byte_len;
use vstd::prelude::*;

verus! {

/// Whether a text is the content of a string without quotes and backslashes.
pub open spec fn is_content(s: Seq<char>) -> bool {
    forall|i: int| 0 <= i < s.len() ==> #[trigger] s[i] != '"' && s[i] != '\\'
}

/// A string's content stands for itself, but for a backslash and what follows it: `\n`,
/// `\t` and `\r` are a line feed, a tab and a carriage return, and any other character is
/// itself.
pub proof fn law_escapes(rest: Seq<char>, c: char)
    ensures
        unescaped(seq!['\\', 'n'] + rest) == seq!['\n'] + unescaped(rest),
        unescaped(seq!['\\', 't'] + rest) == seq!['\t'] + unescaped(rest),
        unescaped(seq!['\\', 'r'] + rest) == seq!['\r'] + unescaped(rest),
        unescaped(seq!['\\', '"'] + rest) == seq!['"'] + unescaped(rest),
        unescaped(seq!['\\', '\\'] + rest) == seq!['\\'] + unescaped(rest),
        unescaped(seq!['\\', '/'] + rest) == seq!['/'] + unescaped(rest),
        c != '\\' ==> unescaped(seq![c] + rest) == seq![c] + unescaped(rest),
{
    assert((seq!['\\', 'n'] + rest).skip(2) =~= rest);
    assert((seq!['\\', 't'] + rest).skip(2) =~= rest);
    assert((seq!['\\', 'r'] + rest).skip(2) =~= rest);
    assert((seq!['\\', '"'] + rest).skip(2) =~= rest);
    assert((seq!['\\', '\\'] + rest).skip(2) =~= rest);
    assert((seq!['\\', '/'] + rest).skip(2) =~= rest);
    assert((seq![c] + rest).drop_first() =~= rest);
}

/// The content of a string ends at the next quote.
proof fn lemma_content_end(s: Seq<char>, i: int, n: int)
    requires
        0 <= i <= n < s.len(),
        s[n] == '"',
        forall|j: int| i <= j < n ==> #[trigger] s[j] != '"' && s[j] != '\\',
    ensures
        string_end(s, i) == n,
    decreases n - i,
{
    if i < n {
        lemma_content_end(s, i + 1, n);
    }
}

/// A string in a document: where it begins and ends, and what it is.
proof fn lemma_string(s: Seq<char>, i: int, v: Seq<char>, path: Seq<Seq<char>>)
    requires
        is_content(v),
        0 <= i,
        i + v.len() + 2 <= s.len(),
        s[i] == '"',
        s.subrange(i + 1, i + 1 + v.len()) == v,
        s[i + 1 + v.len()] == '"',
    ensures
        string_end(s, i + 1) == i + 1 + v.len(),
        value_scan(s, i, path).next == i + v.len() + 2,
        value_scan(s, i, path).sound,
        value_scan(s, i, path).found.len() == 1,
        ({
            let f = value_scan(s, i, path).found[0];
            &&& f.path == path
            &&& f.value == v
            &&& !f.escaped
            &&& f.content_start == byte_len(s.take(i + 1)) as usize
            &&& f.content_end == byte_len(s.take(i + 1 + v.len())) as usize
        }),
{
    let n = i + 1 + v.len();
    assert forall|j: int| i + 1 <= j < n implies #[trigger] s[j] != '"' && s[j] != '\\' by {
        assert(s.subrange(i + 1, n)[j - i - 1] == s[j]);
        assert(v[j - i - 1] == s[j]);
    }
    lemma_content_end(s, i + 1, n);
    lemma_content(v);
}

proof fn lemma_content(v: Seq<char>)
    requires
        is_content(v),
    ensures
        !v.contains('\\'),
        unescaped(v) == v,
{
    if v.contains('\\') {
        let j = choose|j: int| 0 <= j < v.len() && v[j] == '\\';
        assert(v[j] != '\\');
    }
    super::json_scan::law_unescaped_plain(v);
}

proof fn lemma_no_trivia(s: Seq<char>, i: int)
    requires
        0 <= i < s.len(),
        !is_ascii_space(s[i]),
        s[i] != '/',
    ensures
        trivia_end(s, i) == i,
{
}

/// A document that is one string holds that string, under no path.
pub proof fn law_document_of_a_string(v: Seq<char>)
    requires
        is_content(v),
    ensures
        ({
            let d = document_scan(seq!['"'] + v + seq!['"']);
            d.sound && d.found.len() == 1 && d.found[0].path.len() == 0 && d.found[0].value == v
        }),
{
    let s = seq!['"'] + v + seq!['"'];
    lemma_no_trivia(s, 0);
    assert(s.subrange(1, 1 + v.len() as int) =~= v);
    lemma_string(s, 0, v, seq![]);
}

/// An object of one member holds its value under its key.
#[verifier::rlimit(60)]
pub proof fn law_object_of_a_member(k: Seq<char>, v: Seq<char>)
    requires
        is_content(k),
        is_content(v),
    ensures
        ({
            let d = document_scan(
                seq!['{', '"'] + k + seq!['"', ':', '"'] + v + seq!['"', '}'],
            );
            d.sound && d.found.len() == 1 && d.found[0].path == seq![k] && d.found[0].value == v
        }),
{
    let s = seq!['{', '"'] + k + seq!['"', ':', '"'] + v + seq!['"', '}'];
    let none = Seq::<Seq<char>>::empty();
    let n = k.len() as int;
    lemma_no_trivia(s, 0);
    lemma_no_trivia(s, 1);
    assert(s.subrange(2, 2 + n) =~= k);
    lemma_string(s, 1, k, none);
    assert(s[n + 3] == ':');
    lemma_no_trivia(s, n + 3);
    assert(s[n + 4] == '"');
    lemma_no_trivia(s, n + 4);
    let m = n + 4;
    assert(s.subrange(m + 1, m + 1 + v.len()) =~= v);
    assert(s[m + 1 + v.len()] == '"');
    lemma_content(k);
    lemma_string(s, m, v, none.push(k));
    let e = m + v.len() + 2;
    assert(s[e] == '}');
    lemma_no_trivia(s, e);
    assert(members_scan(s, e, none) == Scan::bare(e + 1, true));
    let value = value_scan(s, m, none.push(k));
    assert(value.found + Seq::<StringView>::empty() =~= value.found);
    assert(none.push(k) =~= seq![k]);
    assert(s.len() == e + 1);
    assert(trivia_end(s, e + 1) == e + 1);
}

/// An array of two strings holds both, under their positions.
#[verifier::rlimit(60)]
pub proof fn law_array_of_two(v: Seq<char>, w: Seq<char>)
    requires
        is_content(v),
        is_content(w),
    ensures
        ({
            let d = document_scan(
                seq!['[', '"'] + v + seq!['"', ',', '"'] + w + seq!['"', ']'],
            );
            d.sound && d.found.len() == 2 && d.found[0].path == seq![decimal(0)] && d.found[0].value
                == v && d.found[1].path == seq![decimal(1)] && d.found[1].value == w
        }),
{
    let s = seq!['[', '"'] + v + seq!['"', ',', '"'] + w + seq!['"', ']'];
    let none = Seq::<Seq<char>>::empty();
    let n = v.len() as int;
    lemma_no_trivia(s, 0);
    lemma_no_trivia(s, 1);
    assert(s.subrange(2, 2 + n) =~= v);
    lemma_string(s, 1, v, none.push(decimal(0)));
    let c = n + 3;
    assert(s[c] == ',');
    lemma_no_trivia(s, c);
    let m = n + 4;
    assert(s[m] == '"');
    lemma_no_trivia(s, m);
    assert(s.subrange(m + 1, m + 1 + w.len()) =~= w);
    assert(s[m + 1 + w.len()] == '"');
    lemma_string(s, m, w, none.push(decimal(1)));
    let e = m + w.len() + 2;
    assert(s[e] == ']');
    lemma_no_trivia(s, e);
    assert(elements_scan(s, e, none, 2) == Scan::bare(e + 1, true));
    let last = elements_scan(s, m, none, 1);
    assert(last.found =~= value_scan(s, m, none.push(decimal(1))).found);
    assert(last.next == e + 1 && last.sound);
    assert(elements_scan(s, c, none, 1) == last);
    let all = elements_scan(s, 1, none, 0);
    assert(all.found =~= value_scan(s, 1, none.push(decimal(0))).found + last.found);
    assert(none.push(decimal(0)) =~= seq![decimal(0)]);
    assert(none.push(decimal(1)) =~= seq![decimal(1)]);
    assert(s.len() == e + 1);
    assert(trivia_end(s, e + 1) == e + 1);
}

/// An object within an object holds its value under both keys.
#[verifier::rlimit(60)]
pub proof fn law_object_in_an_object(j: Seq<char>, k: Seq<char>, v: Seq<char>)
    requires
        is_content(j),
        is_content(k),
        is_content(v),
    ensures
        ({
            let d = document_scan(
                seq!['{', '"'] + j + seq!['"', ':', '{', '"'] + k + seq!['"', ':', '"'] + v
                    + seq!['"', '}', '}'],
            );
            d.sound && d.found.len() == 1 && d.found[0].path == seq![j, k] && d.found[0].value == v
        }),
{
    let s = seq!['{', '"'] + j + seq!['"', ':', '{', '"'] + k + seq!['"', ':', '"'] + v + seq![
        '"',
        '}',
        '}',
    ];
    let none = Seq::<Seq<char>>::empty();
    let outer = none.push(j);
    let inner = outer.push(k);
    let a = j.len() as int;
    lemma_no_trivia(s, 0);
    lemma_no_trivia(s, 1);
    assert(s.subrange(2, 2 + a) =~= j);
    lemma_string(s, 1, j, none);
    assert(s[a + 3] == ':' && s[a + 4] == '{' && s[a + 5] == '"');
    lemma_no_trivia(s, a + 3);
    lemma_no_trivia(s, a + 4);
    lemma_no_trivia(s, a + 5);
    lemma_content(j);
    let b = a + 5;
    let n = k.len() as int;
    assert(s.subrange(b + 1, b + 1 + n) =~= k);
    assert(s[b + 1 + n] == '"' && s[b + 2 + n] == ':' && s[b + 3 + n] == '"');
    lemma_string(s, b, k, outer);
    lemma_no_trivia(s, b + 2 + n);
    lemma_no_trivia(s, b + 3 + n);
    lemma_content(k);
    let m = b + 3 + n;
    assert(s.subrange(m + 1, m + 1 + v.len()) =~= v);
    assert(s[m + 1 + v.len()] == '"');
    lemma_string(s, m, v, inner);
    let e = m + v.len() + 2;
    assert(s[e] == '}' && s[e + 1] == '}');
    lemma_no_trivia(s, e);
    lemma_no_trivia(s, e + 1);
    assert(members_scan(s, e, outer) == Scan::bare(e + 1, true));
    assert(members_scan(s, e + 1, none) == Scan::bare(e + 2, true));
    let value = value_scan(s, m, inner);
    let mid = members_scan(s, b, outer);
    assert(mid.found =~= value.found);
    assert(mid.next == e + 1 && mid.sound);
    let all = members_scan(s, 1, none);
    assert(value_scan(s, a + 4, outer) == mid);
    assert(string_end(s, 2) == a + 2);
    assert(all == mid.then_scan(members_scan(s, e + 1, none)));
    assert(all.found =~= value.found);
    assert(inner =~= seq![j, k]);
    assert(s.len() == e + 2);
    assert(trivia_end(s, e + 2) == e + 2);
}

/// A document that is cut off, or that goes on after its value, is not sound.
#[verifier::rlimit(60)]
pub proof fn law_unsound_documents(v: Seq<char>)
    requires
        is_content(v),
        v.len() > 0,
    ensures
        !document_scan(seq!['"'] + v).sound,
        !document_scan(seq!['"'] + v + seq!['"', 'x']).sound,
        !document_scan(seq!['{', '"'] + v).sound,
        !document_scan(seq![]).sound,
{
    let none = Seq::<Seq<char>>::empty();
    let a = seq!['"'] + v;
    lemma_no_trivia(a, 0);
    assert forall|j: int| 1 <= j < a.len() implies #[trigger] a[j] != '"' && a[j] != '\\' by {
        assert(a[j] == v[j - 1]);
    }
    lemma_unclosed(a, 1);
    let b = seq!['"'] + v + seq!['"', 'x'];
    lemma_no_trivia(b, 0);
    assert(b.subrange(1, 1 + v.len() as int) =~= v);
    lemma_string(b, 0, v, none);
    let n = v.len() as int + 2;
    assert(b[n] == 'x');
    lemma_no_trivia(b, n);
    let c = seq!['{', '"'] + v;
    lemma_no_trivia(c, 0);
    lemma_no_trivia(c, 1);
    assert forall|j: int| 2 <= j < c.len() implies #[trigger] c[j] != '"' && c[j] != '\\' by {
        assert(c[j] == v[j - 2]);
    }
    lemma_unclosed(c, 2);
}

proof fn lemma_unclosed(s: Seq<char>, i: int)
    requires
        0 <= i <= s.len(),
        forall|j: int| i <= j < s.len() ==> #[trigger] s[j] != '"' && s[j] != '\\',
    ensures
        string_end(s, i) == s.len(),
    decreases s.len() - i,
{
    if i < s.len() {
        lemma_unclosed(s, i + 1);
    }
}

} // verus!
