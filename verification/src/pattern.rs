//! Regular expressions.
//!
//! The `regex` crate does the matching; what the readers of this crate do with the
//! matches is stated and proved over plain values.
use crate::width::byte_len;
use vstd::prelude::*;

verus! {

/// A part of a match: its text, and the byte offset at which it begins.
pub struct Part {
    /// The text.
    pub text: String,
    /// Where it begins.
    pub start: usize,
}

/// What a [`Part`] says.
pub ghost struct PartView {
    /// The text.
    pub text: Seq<char>,
    /// Where it begins.
    pub start: usize,
}

impl View for Part {
    type V = PartView;

    open spec fn view(&self) -> PartView {
        PartView { text: self.text@, start: self.start }
    }
}

/// What the parts of a match say.
pub open spec fn part_views(m: Seq<Part>) -> Seq<PartView> {
    m.map_values(|p: Part| p@)
}

/// What a list of matches says.
pub open spec fn match_views(v: Seq<Vec<Part>>) -> Seq<Seq<PartView>> {
    v.map_values(|m: Vec<Part>| part_views(m@))
}

/// Whether a part is what stands in a text where it says it does.
pub open spec fn is_part(text: Seq<char>, p: PartView) -> bool {
    exists|a: int, b: int|
        0 <= a <= b <= text.len() && #[trigger] text.subrange(a, b) == p.text && p.start
            == byte_len(text.take(a))
}

/// What an optional part says.
pub open spec fn opt_part(o: Option<Part>) -> Option<PartView> {
    match o {
        Some(p) => Some(p@),
        None => None,
    }
}

/// What the groups of a match say.
pub open spec fn group_views(groups: Seq<Option<Part>>) -> Seq<Option<PartView>> {
    groups.map_values(|g: Option<Part>| opt_part(g))
}

/// What the groups of a list of matches say.
pub open spec fn capture_views(v: Seq<Vec<Option<Part>>>) -> Seq<Seq<Option<PartView>>> {
    v.map_values(|m: Vec<Option<Part>>| group_views(m@))
}

/// The groups of the matches of a pattern in a text, the whole match first; a group that
/// took no part is `None`.
pub uninterp spec fn regex_captures(pattern: Seq<char>, text: Seq<char>) -> Seq<
    Seq<Option<PartView>>,
>;

/// `regex::Regex::captures_iter`: the successive non-overlapping matches of `pattern` in
/// `text`, each as its groups, the whole match first. A pattern that does not compile
/// matches nothing. Claimed: the groups depend on the pattern and the text alone, and a
/// group is the part of the text at the offset it is said to begin at; what matches is
/// left to the `regex` crate's documentation.
#[verifier::external_body]
fn find_captures(pattern: &str, text: &str) -> (r: Vec<Vec<Option<Part>>>)
    ensures
        capture_views(r@) == regex_captures(pattern@, text@),
        forall|i: int, j: int|
            0 <= i < r@.len() && 0 <= j < r@[i]@.len() ==> (#[trigger] r@[i]@[j] matches Some(p)
                ==> is_part(text@, p@)),
{
    let Ok(re) = regex::Regex::new(pattern) else {
        return Vec::new();
    };
    re.captures_iter(text)
        .map(|c| {
            c.iter()
                .map(|g| g.map(|m| Part { text: m.as_str().to_owned(), start: m.start() }))
                .collect()
        })
        .collect()
}

/// The groups that took part in a match, in order.
pub open spec fn present(groups: Seq<Option<PartView>>) -> Seq<PartView>
    decreases groups.len(),
{
    if groups.len() == 0 {
        seq![]
    } else {
        match groups.last() {
            Some(p) => present(groups.drop_last()).push(p),
            None => present(groups.drop_last()),
        }
    }
}

/// The matches of a pattern in a text, each as the groups that took part in it, the whole
/// match first.
pub open spec fn regex_matches(pattern: Seq<char>, text: Seq<char>) -> Seq<Seq<PartView>> {
    regex_captures(pattern, text).map_values(|g: Seq<Option<PartView>>| present(g))
}

/// A part of its own.
fn copy_part(p: &Part) -> (r: Part)
    ensures
        r@ == p@,
{
    Part { text: p.text.clone(), start: p.start }
}

/// The groups of a match that took part in it.
pub fn keep_present(groups: &Vec<Option<Part>>) -> (r: Vec<Part>)
    ensures
        part_views(r@) == present(group_views(groups@)),
        forall|j: int|
            0 <= j < r@.len() ==> exists|k: int|
                0 <= k < groups@.len() && opt_part(groups@[k]) == Some(#[trigger] r@[j]@),
{
    let ghost all = group_views(groups@);
    let mut out: Vec<Part> = Vec::new();
    let mut i: usize = 0;
    assert(part_views(out@) =~= present(all.take(0)));
    while i < groups.len()
        invariant
            i <= groups.len(),
            all == group_views(groups@),
            part_views(out@) == present(all.take(i as int)),
            forall|j: int|
                0 <= j < out@.len() ==> exists|k: int|
                    0 <= k < groups@.len() && opt_part(groups@[k]) == Some(#[trigger] out@[j]@),
        decreases groups.len() - i,
    {
        proof {
            assert(all.take(i + 1).drop_last() =~= all.take(i as int));
            assert(all.take(i + 1).last() == opt_part(groups@[i as int]));
        }
        if let Some(p) = &groups[i] {
            let ghost before = part_views(out@);
            let part = copy_part(p);
            out.push(part);
            assert(part_views(out@) =~= before.push(p@));
            assert(opt_part(groups@[i as int]) == Some(out@[out@.len() - 1]@));
        }
        i = i + 1;
    }
    assert(all.take(i as int) =~= all);
    out
}

/// The matches of `pattern` in `text`, each as the groups that took part in it, the whole
/// match first.
pub fn find_matches(pattern: &str, text: &str) -> (r: Vec<Vec<Part>>)
    ensures
        match_views(r@) == regex_matches(pattern@, text@),
        forall|i: int, j: int|
            0 <= i < r@.len() && 0 <= j < r@[i]@.len() ==> is_part(text@, (#[trigger] r@[i]@[j])@),
{
    let captures = find_captures(pattern, text);
    let ghost want = regex_matches(pattern@, text@);
    let mut out: Vec<Vec<Part>> = Vec::new();
    let mut i: usize = 0;
    while i < captures.len()
        invariant
            i <= captures.len(),
            capture_views(captures@) == regex_captures(pattern@, text@),
            want == regex_matches(pattern@, text@),
            forall|a: int, b: int|
                0 <= a < captures@.len() && 0 <= b < captures@[a]@.len() ==> (
                #[trigger] captures@[a]@[b] matches Some(p) ==> is_part(text@, p@)),
            out@.len() == i,
            forall|a: int| 0 <= a < i ==> part_views((#[trigger] out@[a])@) == want[a],
            forall|a: int, b: int|
                0 <= a < i && 0 <= b < out@[a]@.len() ==> is_part(
                    text@,
                    (#[trigger] out@[a]@[b])@,
                ),
        decreases captures.len() - i,
    {
        let m = keep_present(&captures[i]);
        proof {
            assert(capture_views(captures@)[i as int] == group_views(captures@[i as int]@));
            assert forall|b: int| 0 <= b < m@.len() implies is_part(
                text@,
                (#[trigger] m@[b])@,
            ) by {
                let k = choose|k: int|
                    0 <= k < captures@[i as int]@.len() && opt_part(captures@[i as int]@[k])
                        == Some(m@[b]@);
                assert(captures@[i as int]@[k] is Some);
            }
        }
        out.push(m);
        i = i + 1;
    }
    assert(match_views(out@) =~= want);
    out
}

} // verus!
