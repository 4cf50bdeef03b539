//! Reader of Elixir `mix.exs`.
//!
//! `mix.exs` is Elixir source, so a full parse is out of scope; instead a regular
//! expression finds the registry dependency tuples `{:name, "requirement"}` of the
//! `deps` list. A tuple whose second element is a keyword rather than a string
//! (`{:name, path: ...}` / `git:` / `github:` / `in_umbrella:`) has no version
//! string immediately after the comma and so is naturally skipped.
use super::place::{add_item, item_between, make_between, offset_plus, opt_item, plus, with_item};
use super::position::{is_starts, line_starts, starts_of};
use super::spans::{all_plain, all_written, lemma_all_told, lemma_between};
use super::{Parser, Reading};
use crate::error::ParseError;
use crate::item::{item_views, DependencyKind, Item, ItemView, PackageSource};
use crate::manifest::{items_only, ManifestKind, ParsedManifest};
use crate::pattern::{find_matches, is_part, match_views, part_views, regex_matches, Part, PartView};
use crate::width::{byte_len, lemma_byte_len_bounds, lemma_offset_grows, str_bytes};
use vstd::prelude::*;

verus! {

/// Parses `mix.exs`.
pub struct MixExsParser;

/// Matches `{:dep, "requirement"`, capturing the atom name and the (unquoted)
/// version string. Keyword-form deps (`{:dep, git: ...}`) lack the quoted string
/// after the comma and don't match.
pub const DEP_PATTERN: &'static str = r#"\{\s*:(\w+)\s*,\s*"([^"]+)""#;

/// The dependency of a match: the first group is its name, the second its version.
pub open spec fn mix_item(starts: Seq<usize>, m: Seq<PartView>) -> Option<ItemView> {
    if m.len() > 2 {
        Some(
            item_between(
                starts,
                m[1].text,
                m[2].text,
                PackageSource::Registry,
                DependencyKind::Normal,
                m[2].start,
                plus(m[2].start, byte_len(m[2].text) as usize),
            ),
        )
    } else {
        None
    }
}

/// The dependencies of some matches, in order.
pub open spec fn mix_items(starts: Seq<usize>, matches: Seq<Seq<PartView>>) -> Seq<ItemView>
    decreases matches.len(),
{
    if matches.len() == 0 {
        seq![]
    } else {
        with_item(mix_items(starts, matches.drop_last()), mix_item(starts, matches.last()))
    }
}

/// Build the item of a match.
fn build_item(m: &Vec<Part>, starts: &[usize]) -> (r: Option<Item>)
    requires
        is_starts(starts@),
    ensures
        opt_item(r) == mix_item(starts@, part_views(m@)),
{
    if m.len() <= 2 {
        return None;
    }
    let version = &m[2];
    let end: usize = offset_plus(version.start, str_bytes(version.text.as_str()));
    Some(
        make_between(
            starts,
            m[1].text.clone(),
            version.text.clone(),
            PackageSource::Registry,
            DependencyKind::Normal,
            version.start,
            end,
        ),
    )
}

/// The dependencies of the matches of [`DEP_PATTERN`], in order.
pub fn items_from(matches: &Vec<Vec<Part>>, starts: &[usize]) -> (r: Vec<Item>)
    requires
        is_starts(starts@),
    ensures
        item_views(r@) == mix_items(starts@, match_views(matches@)),
{
    let ghost all = match_views(matches@);
    let mut items: Vec<Item> = Vec::new();
    let mut i: usize = 0;
    assert(item_views(items@) =~= mix_items(starts@, all.take(0)));
    while i < matches.len()
        invariant
            i <= matches.len(),
            is_starts(starts@),
            all == match_views(matches@),
            item_views(items@) == mix_items(starts@, all.take(i as int)),
        decreases matches.len() - i,
    {
        proof {
            assert(all.take(i + 1).drop_last() =~= all.take(i as int));
            assert(all.take(i + 1).last() == part_views(matches@[i as int]@));
        }
        let item = build_item(&matches[i], starts);
        add_item(&mut items, item);
        i = i + 1;
    }
    assert(all.take(i as int) =~= all);
    items
}

proof fn lemma_mix_written(content: Seq<char>, matches: Seq<Seq<PartView>>)
    requires
        byte_len(content) <= usize::MAX,
        forall|i: int, j: int|
            0 <= i < matches.len() && 0 <= j < matches[i].len() ==> is_part(
                content,
                #[trigger] matches[i][j],
            ),
    ensures
        all_written(content, mix_items(starts_of(content), matches)),
    decreases matches.len(),
{
    if matches.len() > 0 {
        let front = matches.drop_last();
        assert forall|i: int, j: int| 0 <= i < front.len() && 0 <= j < front[i].len() implies is_part(
            content,
            #[trigger] front[i][j],
        ) by {
            assert(front[i][j] == matches[i][j]);
        }
        lemma_mix_written(content, front);
        let m = matches.last();
        assert(m == matches[matches.len() - 1]);
        if m.len() > 2 {
            let p = m[2];
            assert(is_part(content, matches[matches.len() - 1][2]));
            let (a, b) = choose|a: int, b: int|
                0 <= a <= b <= content.len() && #[trigger] content.subrange(a, b) == p.text
                    && p.start == byte_len(content.take(a));
            lemma_offset_grows(content, a, b);
            lemma_byte_len_bounds(content.take(a));
            lemma_byte_len_bounds(p.text);
            lemma_between(
                content,
                m[1].text,
                p.text,
                PackageSource::Registry,
                DependencyKind::Normal,
                a,
                b,
            );
        }
    }
}

impl Parser for MixExsParser {
    open spec fn reads(&self, content: Seq<char>) -> Reading {
        Reading::Read(
            items_only(
                ManifestKind::MixExs,
                mix_items(starts_of(content), regex_matches(DEP_PATTERN@, content)),
            ),
        )
    }

    open spec fn plain(&self, content: Seq<char>) -> Seq<bool> {
        all_plain(mix_items(starts_of(content), regex_matches(DEP_PATTERN@, content)))
    }

    fn parse(&self, content: &str) -> (r: Result<ParsedManifest, ParseError>)
        ensures
            // Every version that is read stands where its item says it does.
            r matches Ok(m) && all_written(content@, m@.items),
    {
        let starts = line_starts(content);
        let matches = find_matches(DEP_PATTERN, content);
        let total: usize = str_bytes(content);
        proof {
            let views = match_views(matches@);
            assert forall|i: int, j: int|
                0 <= i < views.len() && 0 <= j < views[i].len() implies is_part(
                content@,
                #[trigger] views[i][j],
            ) by {
                assert(views[i][j] == matches@[i]@[j]@);
            }
            lemma_mix_written(content@, views);
            lemma_all_told(content@, mix_items(starts@, views));
        }
        let items = items_from(&matches, starts.as_slice());
        Ok(ParsedManifest::of_items(ManifestKind::MixExs, items))
    }
}

} // verus!
