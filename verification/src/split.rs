//! Splitting text into pieces and joining pieces into text.
use crate::text::{
    chars_of, find, find_str, first, lemma_find, lemma_first, position, skip, take, Class,
};
use vstd::prelude::*;

verus! {

/// The texts a sequence of slices holds.
pub open spec fn texts(v: Seq<&[char]>) -> Seq<Seq<char>> {
    v.map_values(|p: &[char]| p@)
}

/// The texts a sequence of strings holds.
pub open spec fn strings(v: Seq<String>) -> Seq<Seq<char>> {
    v.map_values(|p: String| p@)
}

/// The pieces of `s` between the characters in `k`: one more than there are of them.
pub open spec fn pieces(s: Seq<char>, k: Class) -> Seq<Seq<char>>
    decreases s.len(),
    via pieces_decreases
{
    let n = first(s, k);
    if n < s.len() {
        seq![s.take(n)] + pieces(s.skip(n + 1), k)
    } else {
        seq![s]
    }
}

#[via_fn]
proof fn pieces_decreases(s: Seq<char>, k: Class) {
    lemma_first(s, k);
}

/// Split `s` at every character in `k`.
pub fn split<'a>(s: &'a [char], k: Class) -> (r: Vec<&'a [char]>)
    ensures
        texts(r@) == pieces(s@, k),
        r@.len() >= 1,
{
    let mut out: Vec<&[char]> = Vec::new();
    let mut rest: &[char] = s;
    let mut n: usize = position(rest, k);
    proof {
        assert(texts(out@) + pieces(rest@, k) =~= pieces(s@, k));
    }
    while n < rest.len()
        invariant
            n == first(rest@, k),
            texts(out@) + pieces(rest@, k) == pieces(s@, k),
        decreases rest.len(),
    {
        let ghost before = texts(out@);
        let ghost old_rest = rest@;
        out.push(take(rest, n));
        rest = skip(rest, n + 1);
        n = position(rest, k);
        proof {
            assert(texts(out@) =~= before.push(old_rest.take(first(old_rest, k))));
            assert(texts(out@) + pieces(rest@, k) =~= before + pieces(old_rest, k));
        }
    }
    proof {
        lemma_first(rest@, k);
    }
    let ghost before = texts(out@);
    out.push(rest);
    assert(texts(out@) =~= before + pieces(rest@, k));
    out
}

/// The pieces of `s` between the occurrences of `p`, found from the left.
pub open spec fn pieces_by(s: Seq<char>, p: Seq<char>) -> Seq<Seq<char>>
    decreases s.len(),
    via pieces_by_decreases
{
    let n = find(s, p);
    if p.len() > 0 && n >= 0 {
        seq![s.take(n)] + pieces_by(s.skip(n + p.len()), p)
    } else {
        seq![s]
    }
}

#[via_fn]
proof fn pieces_by_decreases(s: Seq<char>, p: Seq<char>) {
    lemma_find(s, p);
}

/// Split `s` at every occurrence of the string `p`.
pub fn split_str<'a>(s: &'a [char], p: &str) -> (r: Vec<&'a [char]>)
    ensures
        texts(r@) == pieces_by(s@, p@),
        r@.len() >= 1,
{
    let mut out: Vec<&[char]> = Vec::new();
    let pat = chars_of(p);
    let mut rest: &[char] = s;
    proof {
        assert(texts(out@) + pieces_by(rest@, p@) =~= pieces_by(s@, p@));
    }
    if pat.len() > 0 {
        loop
            invariant_except_break
                texts(out@) + pieces_by(rest@, p@) == pieces_by(s@, p@),
            invariant
                pat@ == p@,
                p@.len() > 0,
            ensures
                find(rest@, p@) == -1,
                texts(out@) + pieces_by(rest@, p@) == pieces_by(s@, p@),
            decreases rest.len(),
        {
            match find_str(rest, p) {
                Some(n) => {
                    let ghost before = texts(out@);
                    let ghost old_rest = rest@;
                    let len: usize = rest.len();
                    out.push(take(rest, n));
                    rest = skip(rest, n + pat.len());
                    proof {
                        assert(texts(out@) =~= before.push(old_rest.take(n as int)));
                        assert(texts(out@) + pieces_by(rest@, p@) =~= before + pieces_by(
                            old_rest,
                            p@,
                        ));
                    }
                },
                None => {
                    break;
                },
            }
        }
    }
    let ghost before = texts(out@);
    out.push(rest);
    assert(texts(out@) =~= before + pieces_by(rest@, p@));
    out
}

/// A line without the carriage return that ends it.
pub open spec fn without_return(s: Seq<char>) -> Seq<char> {
    if s.len() > 0 && s.last() == '\r' {
        s.drop_last()
    } else {
        s
    }
}

/// The lines of `s`: ended by a line feed, or by a carriage return and a line feed.
/// A final line needs no ending, and an empty one after the last ending is no line.
pub open spec fn lines_of(s: Seq<char>) -> Seq<Seq<char>>
    decreases s.len(),
    via lines_decreases
{
    let n = first(s, Class::Is('\n'));
    if s.len() == 0 {
        seq![]
    } else if n < s.len() {
        seq![without_return(s.take(n))] + lines_of(s.skip(n + 1))
    } else {
        seq![s]
    }
}

#[via_fn]
proof fn lines_decreases(s: Seq<char>) {
    lemma_first(s, Class::Is('\n'));
}

/// The lines of `s`.
pub fn lines<'a>(s: &'a [char]) -> (r: Vec<&'a [char]>)
    ensures
        texts(r@) == lines_of(s@),
{
    let mut out: Vec<&[char]> = Vec::new();
    let mut rest: &[char] = s;
    proof {
        assert(texts(out@) + lines_of(rest@) =~= lines_of(s@));
    }
    while rest.len() > 0
        invariant
            texts(out@) + lines_of(rest@) == lines_of(s@),
        decreases rest.len(),
    {
        let ghost before = texts(out@);
        let ghost old_rest = rest@;
        let n: usize = position(rest, Class::Is('\n'));
        if n < rest.len() {
            let line = take(rest, n);
            if line.len() > 0 && line[line.len() - 1] == '\r' {
                let shorter = take(line, line.len() - 1);
                assert(shorter@ =~= line@.drop_last());
                out.push(shorter);
            } else {
                out.push(line);
            }
            rest = skip(rest, n + 1);
            proof {
                assert(texts(out@) =~= before.push(without_return(old_rest.take(n as int))));
                assert(texts(out@) + lines_of(rest@) =~= before + lines_of(old_rest));
            }
        } else {
            out.push(rest);
            rest = skip(rest, rest.len());
            proof {
                assert(texts(out@) =~= before.push(old_rest));
                assert(texts(out@) + lines_of(rest@) =~= before + lines_of(old_rest));
            }
        }
    }
    assert(texts(out@) + lines_of(rest@) =~= texts(out@));
    out
}

/// The texts one after another, with `sep` between them.
pub open spec fn joined(parts: Seq<Seq<char>>, sep: Seq<char>) -> Seq<char>
    decreases parts.len(),
{
    if parts.len() == 0 {
        seq![]
    } else if parts.len() == 1 {
        parts[0]
    } else {
        joined(parts.drop_last(), sep) + sep + parts.last()
    }
}

/// Append a text to a growing one.
pub fn push_all(out: &mut Vec<char>, s: &[char])
    ensures
        final(out)@ == old(out)@ + s@,
{
    let ghost start = out@;
    let mut i: usize = 0;
    assert(out@ =~= start + s@.take(0));
    while i < s.len()
        invariant
            i <= s.len(),
            out@ == start + s@.take(i as int),
        decreases s.len() - i,
    {
        out.push(s[i]);
        i = i + 1;
        assert(s@.take(i as int) =~= s@.take(i - 1).push(s@[i - 1]));
        assert(out@ =~= start + s@.take(i as int));
    }
    assert(s@.take(i as int) =~= s@);
}

/// Append a string to a growing text.
pub fn push_str(out: &mut Vec<char>, s: &str)
    ensures
        final(out)@ == old(out)@ + s@,
{
    let s = chars_of(s);
    push_all(out, s.as_slice());
}

/// The texts one after another, with `sep` between them.
pub fn join(parts: &Vec<Vec<char>>, sep: &str) -> (r: Vec<char>)
    ensures
        r@ == joined(parts@.map_values(|p: Vec<char>| p@), sep@),
{
    let mut out: Vec<char> = Vec::new();
    let ghost all = parts@.map_values(|p: Vec<char>| p@);
    let mut i: usize = 0;
    assert(out@ =~= joined(all.take(0), sep@));
    while i < parts.len()
        invariant
            i <= parts.len(),
            all == parts@.map_values(|p: Vec<char>| p@),
            out@ == joined(all.take(i as int), sep@),
        decreases parts.len() - i,
    {
        if i > 0 {
            push_str(&mut out, sep);
        }
        push_all(&mut out, parts[i].as_slice());
        i = i + 1;
        proof {
            let now = all.take(i as int);
            assert(now.drop_last() =~= all.take(i - 1));
            assert(now.last() == parts@[i - 1]@);
            assert(out@ =~= joined(now, sep@));
        }
    }
    assert(all.take(i as int) =~= all);
    out
}

/// Two texts one after the other.
pub fn concat(a: &[char], b: &[char]) -> (r: Vec<char>)
    ensures
        r@ == a@ + b@,
{
    let mut out: Vec<char> = Vec::new();
    push_all(&mut out, a);
    push_all(&mut out, b);
    assert(out@ =~= a@ + b@);
    out
}

/// A text of its own.
pub fn copy(a: &[char]) -> (r: Vec<char>)
    ensures
        r@ == a@,
{
    let mut out: Vec<char> = Vec::new();
    push_all(&mut out, a);
    assert(out@ =~= a@);
    out
}

/// Append a string to a growing one.
pub fn append(out: &mut String, s: &str)
    ensures
        final(out)@ == old(out)@ + s@,
{
    let chars = chars_of(s);
    let ghost start = out@;
    let mut i: usize = 0;
    assert(out@ =~= start + s@.take(0));
    while i < chars.len()
        invariant
            i <= chars.len(),
            chars@ == s@,
            out@ == start + s@.take(i as int),
        decreases chars.len() - i,
    {
        out.push(chars[i]);
        i = i + 1;
        assert(s@.take(i as int) =~= s@.take(i - 1).push(s@[i - 1]));
        assert(out@ =~= start + s@.take(i as int));
    }
    assert(s@.take(i as int) =~= s@);
}

/// Two strings one after the other.
pub fn text2(a: &str, b: &str) -> (r: String)
    ensures
        r@ == a@ + b@,
{
    let mut out = String::new();
    append(&mut out, a);
    append(&mut out, b);
    assert(out@ =~= a@ + b@);
    out
}

/// Three strings one after the other.
pub fn text3(a: &str, b: &str, c: &str) -> (r: String)
    ensures
        r@ == a@ + b@ + c@,
{
    let mut out = text2(a, b);
    append(&mut out, c);
    out
}

/// Five strings one after the other.
pub fn text5(a: &str, b: &str, c: &str, d: &str, e: &str) -> (r: String)
    ensures
        r@ == a@ + b@ + c@ + d@ + e@,
{
    let mut out = text3(a, b, c);
    append(&mut out, d);
    append(&mut out, e);
    out
}

/// Copies of the given strings.
pub fn copy_strings(v: &Vec<String>) -> (r: Vec<String>)
    ensures
        strings(r@) == strings(v@),
{
    let mut out: Vec<String> = Vec::new();
    let mut i: usize = 0;
    while i < v.len()
        invariant
            i <= v.len(),
            out@.len() == i,
            forall|j: int| 0 <= j < i ==> (#[trigger] out@[j])@ == v@[j]@,
        decreases v.len() - i,
    {
        out.push(v[i].clone());
        i = i + 1;
    }
    assert(strings(out@) =~= strings(v@));
    out
}

} // verus!
