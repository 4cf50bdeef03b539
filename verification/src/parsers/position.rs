//! Byte offsets as lines and columns.
//!
//! Readers record the exact byte range of each version value so that it can be
//! rewritten in place. These functions map a byte offset into the zero-indexed
//! `(line, column)` coordinates stored on an item, where `column` is a byte offset
//! within the line.
use crate::text::chars_of;
use crate::width::{byte_len, lemma_byte_len_bounds, lemma_offset_grows, str_bytes, width};
use vstd::prelude::*;

verus! {

/// The byte offset at which each line of `s` begins.
pub open spec fn starts_of(s: Seq<char>) -> Seq<usize>
    decreases s.len(),
{
    if s.len() == 0 {
        seq![0]
    } else {
        let front = starts_of(s.drop_last());
        if s.last() == '\n' {
            front.push(byte_len(s) as usize)
        } else {
            front
        }
    }
}

/// Whether a list of offsets grows, from 0.
pub open spec fn is_starts(starts: Seq<usize>) -> bool {
    &&& starts.len() > 0
    &&& starts[0] == 0
    &&& forall|i: int, j: int| 0 <= i < j < starts.len() ==> starts[i] < starts[j]
}

/// The line an offset is on: the last that begins at it or before it.
pub open spec fn line_of(starts: Seq<usize>, offset: usize) -> usize
    decreases starts.len(),
{
    if starts.len() <= 1 {
        0
    } else if starts.last() <= offset {
        (starts.len() - 1) as usize
    } else {
        line_of(starts.drop_last(), offset)
    }
}

/// The line and the column of an offset.
pub open spec fn located(starts: Seq<usize>, offset: usize) -> (usize, usize) {
    let line = line_of(starts, offset);
    (line, (offset - starts[line as int]) as usize)
}

/// The lines of a text begin at growing offsets, none beyond its end.
pub proof fn lemma_starts(s: Seq<char>)
    requires
        byte_len(s) <= usize::MAX,
    ensures
        is_starts(starts_of(s)),
        forall|i: int| 0 <= i < starts_of(s).len() ==> (#[trigger] starts_of(s)[i]) <= byte_len(s),
        starts_of(s).len() <= s.len() + 1,
    decreases s.len(),
{
    if s.len() > 0 {
        let t = s.drop_last();
        lemma_starts(t);
        assert(byte_len(t) < byte_len(s));
        assert forall|i: int| 0 <= i < starts_of(t).len() implies (#[trigger] starts_of(t)[i])
            < byte_len(s) by {}
    }
}

/// The line of an offset begins at it or before it, and the next begins after it.
pub proof fn lemma_line_of(starts: Seq<usize>, offset: usize)
    requires
        is_starts(starts),
        starts.len() - 1 <= usize::MAX,
    ensures
        line_of(starts, offset) < starts.len(),
        starts[line_of(starts, offset) as int] <= offset,
        line_of(starts, offset) + 1 < starts.len() ==> offset < starts[line_of(starts, offset)
            + 1],
    decreases starts.len(),
{
    if starts.len() > 1 && starts.last() > offset {
        let t = starts.drop_last();
        assert(is_starts(t)) by {
            assert forall|i: int, j: int| 0 <= i < j < t.len() implies t[i] < t[j] by {
                assert(starts[i] < starts[j]);
            }
        }
        lemma_line_of(t, offset);
    }
}

/// A line and a column give the offset back.
pub proof fn law_located(s: Seq<char>, offset: usize)
    requires
        byte_len(s) <= usize::MAX,
    ensures
        ({
            let (line, col) = located(starts_of(s), offset);
            &&& line < starts_of(s).len()
            &&& starts_of(s)[line as int] + col == offset
            &&& line + 1 < starts_of(s).len() ==> offset < starts_of(s)[line + 1]
        }),
{
    lemma_starts(s);
    lemma_byte_len_bounds(s);
    lemma_line_of(starts_of(s), offset);
}

/// The number of line feeds in a text.
pub open spec fn newlines(s: Seq<char>) -> int
    decreases s.len(),
{
    if s.len() == 0 {
        0
    } else {
        newlines(s.drop_last()) + if s.last() == '\n' {
            1int
        } else {
            0
        }
    }
}

/// What follows the last line feed of a text.
pub open spec fn last_line(s: Seq<char>) -> Seq<char>
    decreases s.len(),
{
    if s.len() == 0 || s.last() == '\n' {
        seq![]
    } else {
        last_line(s.drop_last()).push(s.last())
    }
}

proof fn lemma_position(s: Seq<char>)
    requires
        byte_len(s) <= usize::MAX,
    ensures
        newlines(s) == starts_of(s).len() - 1,
        starts_of(s).last() + byte_len(last_line(s)) == byte_len(s),
    decreases s.len(),
{
    if s.len() > 0 {
        let t = s.drop_last();
        lemma_position(t);
        lemma_starts(t);
        if s.last() != '\n' {
            assert(last_line(s).drop_last() =~= last_line(t));
        }
    }
}

proof fn lemma_starts_prefix(s: Seq<char>, n: int)
    requires
        byte_len(s) <= usize::MAX,
        0 <= n <= s.len(),
    ensures
        starts_of(s.take(n)).is_prefix_of(starts_of(s)),
        forall|i: int|
            starts_of(s.take(n)).len() <= i < starts_of(s).len() ==> (#[trigger] starts_of(s)[i])
                > byte_len(s.take(n)),
    decreases s.len(),
{
    if n < s.len() {
        let t = s.drop_last();
        lemma_starts_prefix(t, n);
        assert(t.take(n) =~= s.take(n));
        lemma_offset_grows(s, n, s.len() as int);
        assert(s.take(s.len() as int) =~= s);
        assert forall|i: int|
            starts_of(s.take(n)).len() <= i < starts_of(s).len() implies (
        #[trigger] starts_of(s)[i]) > byte_len(s.take(n)) by {
            if i < starts_of(t).len() {
                assert(starts_of(s)[i] == starts_of(t)[i]);
            }
        }
    } else {
        assert(s.take(n) =~= s);
    }
}

proof fn lemma_line_of_prefix(starts: Seq<usize>, offset: usize, n: int)
    requires
        is_starts(starts),
        0 < n <= starts.len(),
        starts.len() - 1 <= usize::MAX,
        starts[n - 1] <= offset,
        forall|i: int| n <= i < starts.len() ==> (#[trigger] starts[i]) > offset,
    ensures
        line_of(starts, offset) == n - 1,
    decreases starts.len(),
{
    if n < starts.len() {
        let t = starts.drop_last();
        assert(is_starts(t)) by {
            assert forall|i: int, j: int| 0 <= i < j < t.len() implies t[i] < t[j] by {
                assert(starts[i] < starts[j]);
            }
        }
        lemma_line_of_prefix(t, offset, n);
    }
}

/// The place of a character is the number of line feeds before it, and the bytes
/// between it and the last of them.
pub proof fn law_position_of_character(s: Seq<char>, i: int)
    requires
        byte_len(s) <= usize::MAX,
        0 <= i <= s.len(),
    ensures
        located(starts_of(s), byte_len(s.take(i)) as usize) == (
            newlines(s.take(i)) as usize,
            byte_len(last_line(s.take(i))) as usize,
        ),
{
    let offset = byte_len(s.take(i));
    lemma_offset_grows(s, i, s.len() as int);
    lemma_byte_len_bounds(s);
    lemma_byte_len_bounds(s.take(i));
    lemma_starts(s);
    lemma_starts(s.take(i));
    lemma_starts_prefix(s, i);
    lemma_position(s.take(i));
    let n = starts_of(s.take(i)).len() as int;
    assert(starts_of(s)[n - 1] == starts_of(s.take(i))[n - 1]);
    lemma_line_of_prefix(starts_of(s), offset as usize, n);
}

/// The byte offset at which each line of `src` begins (line 0 starts at byte 0).
#[must_use]
pub fn line_starts(src: &str) -> (r: Vec<usize>)
    ensures
        r@ == starts_of(src@),
        is_starts(r@),
{
    let total: usize = str_bytes(src);
    let chars = chars_of(src);
    let mut starts: Vec<usize> = Vec::new();
    starts.push(0);
    let mut at: usize = 0;
    let mut i: usize = 0;
    assert(starts@ =~= starts_of(src@.take(0)));
    while i < chars.len()
        invariant
            i <= chars.len(),
            chars@ == src@,
            byte_len(src@) <= usize::MAX,
            at == byte_len(src@.take(i as int)),
            starts@ == starts_of(src@.take(i as int)),
        decreases chars.len() - i,
    {
        proof {
            lemma_offset_grows(src@, i + 1, src@.len() as int);
            assert(src@.take(i + 1).drop_last() =~= src@.take(i as int));
        }
        at = at + width(chars[i]);
        if chars[i] == '\n' {
            starts.push(at);
        }
        i = i + 1;
    }
    proof {
        assert(src@.take(i as int) =~= src@);
        lemma_starts(src@);
    }
    starts
}

/// Convert a byte `offset` into a zero-indexed `(line, column)` pair.
///
/// `starts` is the output of [`line_starts`] for the same source. `column` is the
/// byte offset of `offset` within its line.
#[must_use]
pub fn offset_to_line_col(starts: &[usize], offset: usize) -> (r: (usize, usize))
    requires
        is_starts(starts@),
    ensures
        r == located(starts@, offset),
        r.1 <= offset,
{
    let mut lo: usize = 0;
    let mut hi: usize = starts.len();
    while lo + 1 < hi
        invariant
            is_starts(starts@),
            lo < hi <= starts.len(),
            starts@[lo as int] <= offset,
            forall|i: int| hi <= i < starts@.len() ==> (#[trigger] starts@[i]) > offset,
        decreases hi - lo,
    {
        let mid: usize = lo + (hi - lo) / 2;
        if starts[mid] <= offset {
            lo = mid;
        } else {
            hi = mid;
            assert forall|i: int| hi <= i < starts@.len() implies (#[trigger] starts@[i])
                > offset by {
                if i > mid {
                    assert(starts@[mid as int] < starts@[i]);
                }
            }
        }
    }
    proof {
        lemma_line_of_prefix(starts@, offset, lo + 1);
    }
    (lo, offset - starts[lo])
}

} // verus!
