//! Reader of PHP `composer.lock`.
use super::cargo_lock::{collected, LockfileData};
use super::composer_lock_graph::{element_keys, entry_at, find_elements, strip_v, without_v};
use super::entries::{find_last, strs};
use crate::error::ParseError;
use crate::parsers::json_scan::{document_scan, scan_strings, values_of, StringView};
use vstd::prelude::*;

verus! {

/// The names and versions of the locked packages: of every element that states both.
pub open spec fn composer_pairs(
    found: Seq<StringView>,
    keys: Seq<(Seq<char>, Seq<char>)>,
) -> Seq<(Seq<char>, Seq<char>)>
    decreases keys.len(),
{
    if keys.len() == 0 {
        seq![]
    } else {
        let front = composer_pairs(found, keys.drop_last());
        match (entry_at(found, keys.last(), "name"@), entry_at(found, keys.last(), "version"@)) {
            (Some(name), Some(version)) => front.push((name, without_v(version))),
            _ => front,
        }
    }
}

/// Parse `composer.lock` into a name → resolved-versions map.
///
/// Reads the `packages` and `packages-dev` arrays, each element of which is an
/// object with `name` and `version` fields; the leading `v` of a version tag is
/// stripped so it parses as semver.
pub fn parse_composer_lock(content: &str) -> (r: Result<LockfileData, ParseError>)
    ensures
        r matches Ok(d) && d@ == collected(
            composer_pairs(
                document_scan(content@).found,
                element_keys(document_scan(content@).found),
            ),
        ),
{
    let values = scan_strings(content);
    let ghost found = values_of(values@);
    let keys = find_elements(&values);
    let ghost all = keys@.map_values(|k: (String, String)| (k.0@, k.1@));
    let mut data = LockfileData::default();
    let mut i: usize = 0;
    assert(data@ == collected(composer_pairs(found, all.take(0))));
    while i < keys.len()
        invariant
            i <= keys.len(),
            found == values_of(values@),
            all == keys@.map_values(|k: (String, String)| (k.0@, k.1@)),
            data@ == collected(composer_pairs(found, all.take(i as int))),
        decreases keys.len() - i,
    {
        let section = keys[i].0.as_str();
        let index = keys[i].1.as_str();
        let want_name: [&str; 3] = [section, index, "name"];
        let want_version: [&str; 3] = [section, index, "version"];
        proof {
            assert(all.take(i + 1).drop_last() =~= all.take(i as int));
            assert(all.take(i + 1).last() == (section@, index@));
            assert(strs(want_name@) =~= seq![section@, index@, "name"@]);
            assert(strs(want_version@) =~= seq![section@, index@, "version"@]);
        }
        if let Some(name) = find_last(&values, &want_name) {
            if let Some(version) = find_last(&values, &want_version) {
                let ghost pair = (name@, without_v(version@));
                data.add_version(name, strip_v(version.as_str()));
                proof {
                    let front = composer_pairs(found, all.take(i as int));
                    assert(front.push(pair).drop_last() =~= front);
                }
            }
        }
        i = i + 1;
    }
    assert(all.take(i as int) =~= all);
    Ok(data)
}

} // verus!
