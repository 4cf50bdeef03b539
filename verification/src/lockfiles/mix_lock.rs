//! Reader of Elixir `mix.lock`.
//!
//! `mix.lock` is an Elixir map literal keyed by dependency name, each value a tuple
//! whose third element (the first quoted string after `{:hex, :name,`) is the
//! resolved version. Non-Hex entries (`{:git, ...}`) have no resolved semver version
//! and are skipped.
use super::cargo_lock::{collected, LockfileData};
use crate::error::ParseError;
use crate::pattern::{find_matches, match_views, part_views, regex_matches, Part, PartView};
use vstd::prelude::*;

verus! {

/// A locked Hex package: its name, and its version.
pub const LOCK_PATTERN: &'static str = r#""(\w+)":\s*\{:hex,\s*:\w+,\s*"([^"]+)""#;

/// The names and versions of a list of matches: the first and the second group.
pub open spec fn mix_pairs(matches: Seq<Seq<PartView>>) -> Seq<(Seq<char>, Seq<char>)>
    decreases matches.len(),
{
    if matches.len() == 0 {
        seq![]
    } else {
        let front = mix_pairs(matches.drop_last());
        let m = matches.last();
        if m.len() > 2 {
            front.push((m[1].text, m[2].text))
        } else {
            front
        }
    }
}

/// The locked versions of a list of matches of [`LOCK_PATTERN`].
pub fn versions_from(matches: &Vec<Vec<Part>>) -> (r: LockfileData)
    ensures
        r@ == collected(mix_pairs(match_views(matches@))),
{
    let ghost all = match_views(matches@);
    let mut data = LockfileData::default();
    let mut i: usize = 0;
    assert(data@ == collected(mix_pairs(all.take(0))));
    while i < matches.len()
        invariant
            i <= matches.len(),
            all == match_views(matches@),
            data@ == collected(mix_pairs(all.take(i as int))),
        decreases matches.len() - i,
    {
        let m = &matches[i];
        proof {
            assert(all.take(i + 1).drop_last() =~= all.take(i as int));
            assert(all.take(i + 1).last() == part_views(m@));
        }
        if m.len() > 2 {
            data.add_version(m[1].text.clone(), m[2].text.clone());
            proof {
                let front = mix_pairs(all.take(i as int));
                assert(front.push((m@[1].text@, m@[2].text@)).drop_last() =~= front);
            }
        }
        i = i + 1;
    }
    assert(all.take(i as int) =~= all);
    data
}

/// Parse `mix.lock` into a name → resolved-version map. Never fails.
pub fn parse_mix_lock(content: &str) -> (r: Result<LockfileData, ParseError>)
    ensures
        r matches Ok(d) && d@ == collected(mix_pairs(regex_matches(LOCK_PATTERN@, content@))),
{
    let matches = find_matches(LOCK_PATTERN, content);
    Ok(versions_from(&matches))
}

} // verus!
