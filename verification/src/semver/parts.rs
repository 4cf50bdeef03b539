//! The building blocks of version translation.
use super::version::triple;
use crate::number::{number_of, parse_u64, to_decimal};
use crate::split::{push_all, push_str, texts};
use crate::text::{all, all_in, trim, trimmed, Class};
use vstd::prelude::*;

verus! {

/// The text an optional list of characters holds.
pub open spec fn opt_chars(o: Option<Vec<char>>) -> Option<Seq<char>> {
    match o {
        Some(v) => Some(v@),
        None => None,
    }
}

/// The numbers an optional list holds.
pub open spec fn opt_numbers(o: Option<Vec<u64>>) -> Option<Seq<u64>> {
    match o {
        Some(v) => Some(v@),
        None => None,
    }
}

/// Whether a text is a run of digits.
pub open spec fn is_digits(s: Seq<char>) -> bool {
    s.len() > 0 && all_in(s, Class::Digit)
}

/// A segment, or `0` where there is none.
pub open spec fn segment(segs: Seq<Seq<char>>, i: int) -> Seq<char> {
    if i < segs.len() {
        segs[i]
    } else {
        "0"@
    }
}

/// The first three segments as a version, the missing ones zero; none where one of them
/// is no run of digits.
pub open spec fn padded(segs: Seq<Seq<char>>) -> Option<Seq<char>> {
    if is_digits(segment(segs, 0)) && is_digits(segment(segs, 1)) && is_digits(segment(segs, 2)) {
        Some(segment(segs, 0) + "."@ + segment(segs, 1) + "."@ + segment(segs, 2))
    } else {
        None
    }
}

/// A segment, or `0` where there is none.
fn segment_at(segs: &Vec<&[char]>, i: usize) -> (r: Vec<char>)
    ensures
        r@ == segment(texts(segs@), i as int),
{
    if i < segs.len() {
        crate::split::copy(segs[i])
    } else {
        crate::text::chars_of("0")
    }
}

/// Whether a text is a run of digits.
pub fn digits(s: &[char]) -> (r: bool)
    ensures
        r == is_digits(s@),
{
    s.len() > 0 && all(s, Class::Digit)
}

/// Pad the segments of a version to three.
pub fn pad_segments(segs: &Vec<&[char]>) -> (r: Option<Vec<char>>)
    ensures
        opt_chars(r) == padded(texts(segs@)),
{
    let major = segment_at(segs, 0);
    let minor = segment_at(segs, 1);
    let patch = segment_at(segs, 2);
    if digits(major.as_slice()) && digits(minor.as_slice()) && digits(patch.as_slice()) {
        let mut out: Vec<char> = Vec::new();
        push_all(&mut out, major.as_slice());
        push_str(&mut out, ".");
        push_all(&mut out, minor.as_slice());
        push_str(&mut out, ".");
        push_all(&mut out, patch.as_slice());
        assert(out@ =~= major@ + "."@ + minor@ + "."@ + patch@);
        Some(out)
    } else {
        None
    }
}

/// The numbers that a list of texts names, where each names one.
pub open spec fn numbers(parts: Seq<Seq<char>>) -> Option<Seq<u64>>
    decreases parts.len(),
{
    if parts.len() == 0 {
        Some(seq![])
    } else {
        match (numbers(parts.drop_last()), number_of(parts.last())) {
            (Some(front), Some(n)) => Some(front.push(n)),
            _ => None,
        }
    }
}

/// Every text without white space at either end.
pub open spec fn all_trimmed(parts: Seq<Seq<char>>) -> Seq<Seq<char>> {
    parts.map_values(|p: Seq<char>| trimmed(p))
}

proof fn lemma_numbers_none(parts: Seq<Seq<char>>, n: int)
    requires
        0 <= n <= parts.len(),
        numbers(parts.take(n)) is None,
    ensures
        numbers(parts) is None,
    decreases parts.len(),
{
    if n < parts.len() {
        assert(parts.drop_last().take(n) =~= parts.take(n));
        lemma_numbers_none(parts.drop_last(), n);
    } else {
        assert(parts.take(n) =~= parts);
    }
}

/// There are as many numbers as texts.
pub proof fn lemma_numbers_len(parts: Seq<Seq<char>>)
    ensures
        numbers(parts) matches Some(n) ==> n.len() == parts.len(),
    decreases parts.len(),
{
    if parts.len() > 0 {
        lemma_numbers_len(parts.drop_last());
    }
}

/// Read the numbers that a list of texts names.
pub fn parse_numbers(parts: &Vec<&[char]>) -> (r: Option<Vec<u64>>)
    ensures
        opt_numbers(r) == numbers(texts(parts@)),
{
    let ghost whole = texts(parts@);
    let mut out: Vec<u64> = Vec::new();
    let mut i: usize = 0;
    assert(numbers(whole.take(0)) == Some(out@)) by {
        assert(out@ =~= seq![]);
    }
    while i < parts.len()
        invariant
            i <= parts.len(),
            whole == texts(parts@),
            numbers(whole.take(i as int)) == Some(out@),
        decreases parts.len() - i,
    {
        proof {
            assert(whole.take(i + 1).drop_last() =~= whole.take(i as int));
            assert(whole.take(i + 1).last() == parts@[i as int]@);
        }
        match parse_u64(parts[i]) {
            Some(n) => {
                out.push(n);
            },
            None => {
                proof {
                    lemma_numbers_none(whole, i + 1);
                }
                return None;
            },
        }
        i = i + 1;
    }
    assert(whole.take(i as int) =~= whole);
    Some(out)
}

/// Trim every text of a list.
pub fn trim_all<'a>(parts: &Vec<&'a [char]>) -> (r: Vec<&'a [char]>)
    ensures
        texts(r@) == all_trimmed(texts(parts@)),
{
    let mut out: Vec<&'a [char]> = Vec::new();
    let mut i: usize = 0;
    while i < parts.len()
        invariant
            i <= parts.len(),
            out@.len() == i,
            forall|j: int| 0 <= j < i ==> (#[trigger] out@[j])@ == trimmed(parts@[j]@),
        decreases parts.len() - i,
    {
        out.push(trim(parts[i]));
        i = i + 1;
    }
    assert(texts(out@) =~= all_trimmed(texts(parts@)));
    out
}

/// A number of a list, or 0 where there is none.
pub open spec fn number_at(nums: Seq<u64>, i: int) -> u64 {
    if i < nums.len() {
        nums[i]
    } else {
        0
    }
}

/// The first three numbers of a list as a version, the missing ones zero.
pub open spec fn padded_numbers(nums: Seq<u64>) -> Seq<char> {
    triple(number_at(nums, 0), number_at(nums, 1), number_at(nums, 2))
}

/// A list of numbers with the last one larger by one, where it can be.
pub open spec fn bumped(nums: Seq<u64>) -> Option<Seq<u64>> {
    if nums.len() > 0 && nums.last() < u64::MAX {
        Some(nums.drop_last().push((nums.last() + 1) as u64))
    } else {
        None
    }
}

/// The range from a list of numbers, inclusive, to another, exclusive.
pub open spec fn half_open(low: Seq<u64>, high: Seq<u64>) -> Seq<char> {
    ">="@ + padded_numbers(low) + ", <"@ + padded_numbers(high)
}

/// Write three numbers as a version.
pub fn write_triple(major: u64, minor: u64, patch: u64) -> (r: Vec<char>)
    ensures
        r@ == triple(major, minor, patch),
{
    let mut out = to_decimal(major);
    push_str(&mut out, ".");
    let b = to_decimal(minor);
    push_all(&mut out, b.as_slice());
    push_str(&mut out, ".");
    let c = to_decimal(patch);
    push_all(&mut out, c.as_slice());
    assert(out@ =~= triple(major, minor, patch));
    out
}

/// Write the first three numbers of a list as a version.
pub fn pad(nums: &Vec<u64>) -> (r: Vec<char>)
    ensures
        r@ == padded_numbers(nums@),
{
    let major: u64 = if nums.len() > 0 {
        nums[0]
    } else {
        0
    };
    let minor: u64 = if nums.len() > 1 {
        nums[1]
    } else {
        0
    };
    let patch: u64 = if nums.len() > 2 {
        nums[2]
    } else {
        0
    };
    write_triple(major, minor, patch)
}

/// Enlarge the last number of a list by one.
pub fn bump_last(nums: &Vec<u64>) -> (r: Option<Vec<u64>>)
    ensures
        opt_numbers(r) == bumped(nums@),
{
    if nums.len() == 0 || nums[nums.len() - 1] == u64::MAX {
        return None;
    }
    let mut out: Vec<u64> = Vec::new();
    let mut i: usize = 0;
    while i < nums.len() - 1
        invariant
            nums.len() > 0,
            i <= nums.len() - 1,
            out@ == nums@.take(i as int),
        decreases nums.len() - i,
    {
        out.push(nums[i]);
        i = i + 1;
        assert(nums@.take(i as int) =~= nums@.take(i - 1).push(nums@[i - 1]));
    }
    let last: u64 = nums[nums.len() - 1] + 1;
    out.push(last);
    assert(out@ =~= nums@.drop_last().push(last));
    Some(out)
}

/// Write the range between two lists of numbers.
pub fn write_half_open(low: &Vec<u64>, high: &Vec<u64>) -> (r: Vec<char>)
    ensures
        r@ == half_open(low@, high@),
{
    let mut out = crate::text::chars_of(">=");
    let a = pad(low);
    push_all(&mut out, a.as_slice());
    push_str(&mut out, ", <");
    let b = pad(high);
    push_all(&mut out, b.as_slice());
    assert(out@ =~= half_open(low@, high@));
    out
}

/// A text after an operator.
pub fn prefixed(op: &str, text: &[char]) -> (r: Vec<char>)
    ensures
        r@ == op@ + text@,
{
    let mut out = crate::text::chars_of(op);
    push_all(&mut out, text);
    out
}

} // verus!
