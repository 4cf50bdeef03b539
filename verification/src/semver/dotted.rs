//! Numbers with points between them, as text.
use super::parts::{numbers, padded_numbers};
use super::version::triple;
use crate::number::{decimal, law_decimal_reads_back};
use crate::split::pieces;
use crate::text::{has_any, is_digit, Class};
use crate::writing::{
    is_plain, is_plain_char, lemma_next_piece, lemma_one_piece,
};
use vstd::prelude::*;

verus! {

/// Numbers in decimal, with a point between each two.
pub open spec fn dotted(nums: Seq<u64>) -> Seq<char>
    decreases nums.len(),
{
    if nums.len() == 0 {
        seq![]
    } else if nums.len() == 1 {
        decimal(nums[0] as nat)
    } else {
        decimal(nums[0] as nat) + "."@ + dotted(nums.drop_first())
    }
}

/// The numbers in decimal, each on its own.
pub open spec fn decimals(nums: Seq<u64>) -> Seq<Seq<char>> {
    nums.map_values(|n: u64| decimal(n as nat))
}

/// Whether a text begins and ends with a digit and holds nothing but digits and points.
pub open spec fn is_dotted(s: Seq<char>) -> bool {
    &&& s.len() > 0
    &&& is_digit(s[0])
    &&& is_digit(s.last())
    &&& forall|i: int| 0 <= i < s.len() ==> is_digit(#[trigger] s[i]) || s[i] == '.'
}

/// Dotted numbers hold digits and points only, and are cut into the numbers at the points.
#[verifier::rlimit(60)]
pub proof fn lemma_dotted(nums: Seq<u64>)
    requires
        nums.len() > 0,
    ensures
        is_dotted(dotted(nums)),
        is_plain(dotted(nums)),
        pieces(dotted(nums), Class::Is('.')) == decimals(nums),
        numbers(decimals(nums)) == Some(nums),
    decreases nums.len(),
{
    reveal_strlit(".");
    assert("."@ =~= seq!['.']);
    let d = decimal(nums[0] as nat);
    law_decimal_reads_back(nums[0] as nat);
    assert forall|i: int| 0 <= i < d.len() implies is_digit(#[trigger] d[i]) by {
        assert(Class::Digit.has(d[i]));
    }
    assert(!has_any(d, Class::Is('.')));
    let s = dotted(nums);
    lemma_numbers_of(decimals(nums), nums);
    if nums.len() == 1 {
        lemma_one_piece(d, Class::Is('.'));
        assert(decimals(nums) =~= seq![d]);
    } else {
        let rest = nums.drop_first();
        lemma_dotted(rest);
        let t = dotted(rest);
        lemma_next_piece(d, '.', t, Class::Is('.'));
        assert(decimals(nums) =~= seq![d] + decimals(rest));
        assert forall|i: int| 0 <= i < s.len() implies is_digit(#[trigger] s[i]) || s[i] == '.' by {
            if i < d.len() {
                assert(s[i] == d[i]);
            } else if i > d.len() {
                assert(s[i] == t[i - d.len() - 1]);
            }
        }
        assert(s[0] == d[0]);
        assert(s.last() == t.last());
    }
    assert forall|i: int| 0 <= i < s.len() implies is_plain_char(#[trigger] s[i]) by {
        assert(is_digit(s[i]) || s[i] == '.');
    }
}

/// Texts that name numbers name them as a list.
pub proof fn lemma_numbers_of(parts: Seq<Seq<char>>, nums: Seq<u64>)
    requires
        parts.len() == nums.len(),
        parts == decimals(nums),
    ensures
        numbers(parts) == Some(nums),
    decreases nums.len(),
{
    if nums.len() > 0 {
        law_decimal_reads_back(nums.last() as nat);
        assert(parts.drop_last() =~= decimals(nums.drop_last()));
        lemma_numbers_of(parts.drop_last(), nums.drop_last());
        assert(nums.drop_last().push(nums.last()) =~= nums);
        assert(parts.last() == decimal(nums.last() as nat));
    }
}

/// One, two and three dotted numbers as they are written, and as a version.
pub proof fn lemma_dotted_few(a: u64, b: u64, c: u64)
    ensures
        dotted(seq![a]) == decimal(a as nat),
        dotted(seq![a, b]) == decimal(a as nat) + "."@ + decimal(b as nat),
        dotted(seq![a, b, c]) == triple(a, b, c),
        padded_numbers(seq![a]) == triple(a, 0, 0),
        padded_numbers(seq![a, b]) == triple(a, b, 0),
        padded_numbers(seq![a, b, c]) == triple(a, b, c),
{
    reveal_with_fuel(dotted, 3);
    assert(seq![a, b].drop_first() =~= seq![b]);
    assert(seq![a, b, c].drop_first() =~= seq![b, c]);
    assert(seq![b, c].drop_first() =~= seq![c]);
    assert(dotted(seq![a, b, c]) =~= triple(a, b, c));
}

} // verus!
