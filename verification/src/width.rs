//! How many bytes text takes in UTF-8.
//!
//! Positions in a manifest are byte offsets, while the readers walk characters;
//! these functions relate the two.
use crate::text::{string_of, take};
use vstd::prelude::*;
use vstd::string::*;
use vstd::utf8::{char_is_scalar, encode_scalar, encode_utf8};

verus! {

/// The number of bytes one character takes.
pub open spec fn width_of(c: char) -> int {
    let n = c as u32;
    if n < 0x80 {
        1
    } else if n < 0x800 {
        2
    } else if n < 0x10000 {
        3
    } else {
        4
    }
}

/// The number of bytes a text takes.
pub open spec fn byte_len(s: Seq<char>) -> int
    decreases s.len(),
{
    if s.len() == 0 {
        0
    } else {
        byte_len(s.drop_last()) + width_of(s.last())
    }
}

/// Lengths add up over concatenation.
pub proof fn lemma_byte_len_add(a: Seq<char>, b: Seq<char>)
    ensures
        byte_len(a + b) == byte_len(a) + byte_len(b),
    decreases b.len(),
{
    if b.len() == 0 {
        assert(a + b =~= a);
    } else {
        lemma_byte_len_add(a, b.drop_last());
        assert((a + b).drop_last() =~= a + b.drop_last());
        assert((a + b).last() == b.last());
    }
}

/// A text takes at least one byte per character, and at most four.
pub proof fn lemma_byte_len_bounds(s: Seq<char>)
    ensures
        s.len() <= byte_len(s) <= 4 * s.len(),
    decreases s.len(),
{
    if s.len() > 0 {
        lemma_byte_len_bounds(s.drop_last());
    }
}

/// The length of a text is that of a prefix and of what follows it.
pub proof fn lemma_byte_len_split(s: Seq<char>, n: int)
    requires
        0 <= n <= s.len(),
    ensures
        byte_len(s) == byte_len(s.take(n)) + byte_len(s.skip(n)),
        0 <= byte_len(s.take(n)) <= byte_len(s),
        0 <= byte_len(s.skip(n)) <= byte_len(s),
{
    lemma_byte_len_add(s.take(n), s.skip(n));
    assert(s.take(n) + s.skip(n) =~= s);
    lemma_byte_len_bounds(s.take(n));
    lemma_byte_len_bounds(s.skip(n));
}

/// Offsets grow with positions.
pub proof fn lemma_offset_grows(s: Seq<char>, a: int, b: int)
    requires
        0 <= a <= b <= s.len(),
    ensures
        byte_len(s.take(a)) + byte_len(s.subrange(a, b)) == byte_len(s.take(b)),
        byte_len(s.take(a)) <= byte_len(s.take(b)) <= byte_len(s),
        byte_len(s.take(a)) + (b - a) <= byte_len(s.take(b)),
{
    lemma_byte_len_split(s, b);
    lemma_byte_len_split(s.take(b), a);
    assert(s.take(b).take(a) =~= s.take(a));
    assert(s.take(b).skip(a) =~= s.subrange(a, b));
    lemma_byte_len_bounds(s.subrange(a, b));
}

/// `byte_len` is the length of the UTF-8 encoding.
pub proof fn lemma_byte_len_utf8(s: Seq<char>)
    ensures
        byte_len(s) == encode_utf8(s).len(),
    decreases s.len(),
{
    if s.len() > 0 {
        char_is_scalar(s[0]);
        lemma_byte_len_utf8(s.drop_first());
        lemma_byte_len_add(seq![s[0]], s.drop_first());
        assert(seq![s[0]] + s.drop_first() =~= s);
        let one = seq![s[0]];
        assert(one.drop_last() =~= seq![]);
        assert(byte_len(one.drop_last()) == 0);
        assert(byte_len(one) == width_of(s[0]));
        assert(encode_utf8(s) == encode_scalar(s[0] as u32) + encode_utf8(s.drop_first()));
        assert(encode_scalar(s[0] as u32).len() == width_of(s[0]));
    }
}

/// The number of bytes one character takes.
pub fn width(c: char) -> (r: usize)
    ensures
        r == width_of(c),
{
    let n: u32 = c as u32;
    if n < 0x80 {
        1
    } else if n < 0x800 {
        2
    } else if n < 0x10000 {
        3
    } else {
        4
    }
}

/// The number of bytes a string takes.
pub fn str_bytes(s: &str) -> (r: usize)
    ensures
        r == byte_len(s@),
{
    proof {
        lemma_byte_len_utf8(s@);
    }
    s.as_bytes().len()
}

/// The number of bytes a text takes.
pub fn bytes(s: &[char]) -> (r: usize)
    requires
        byte_len(s@) <= usize::MAX,
    ensures
        r == byte_len(s@),
{
    let mut out: usize = 0;
    let mut i: usize = 0;
    while i < s.len()
        invariant
            i <= s.len(),
            out == byte_len(s@.take(i as int)),
            byte_len(s@) <= usize::MAX,
        decreases s.len() - i,
    {
        proof {
            lemma_offset_grows(s@, i + 1, s@.len() as int);
            assert(s@.take(i + 1).drop_last() =~= s@.take(i as int));
        }
        out = out + width(s[i]);
        i = i + 1;
    }
    assert(s@.take(i as int) =~= s@);
    out
}

/// The byte offset of every position of `s`, its end among them.
pub fn offsets(s: &[char]) -> (r: Vec<usize>)
    requires
        byte_len(s@) <= usize::MAX,
    ensures
        r@.len() == s@.len() + 1,
        forall|i: int| 0 <= i <= s@.len() ==> #[trigger] r@[i] == byte_len(s@.take(i)),
{
    let mut out: Vec<usize> = Vec::new();
    let mut at: usize = 0;
    out.push(0);
    let mut i: usize = 0;
    while i < s.len()
        invariant
            i <= s.len(),
            at == byte_len(s@.take(i as int)),
            byte_len(s@) <= usize::MAX,
            out@.len() == i + 1,
            forall|j: int| 0 <= j <= i ==> #[trigger] out@[j] == byte_len(s@.take(j)),
        decreases s.len() - i,
    {
        proof {
            lemma_offset_grows(s@, i + 1, s@.len() as int);
            assert(s@.take(i + 1).drop_last() =~= s@.take(i as int));
        }
        at = at + width(s[i]);
        i = i + 1;
        out.push(at);
    }
    out
}

/// The number of bytes that the first characters of a text take.
pub fn column(s: &[char], n: usize) -> (r: usize)
    requires
        n <= s@.len(),
    ensures
        r == byte_len(s@.take(n as int)),
{
    let text = string_of(take(s, n));
    str_bytes(text.as_str())
}

} // verus!
