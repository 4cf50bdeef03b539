//! Reader of npm `package-lock.json` (lockfile v2/v3 `packages` map).
use super::cargo_lock::{collected, LockfileData};
use crate::error::ParseError;
use crate::parsers::json_scan::{document_scan, scan_strings, values_of, StringView};
use crate::split::strings;
use crate::text::{chars_of, find_back, opt_text, rfind_str, skip, str_eq, string_of};
use vstd::prelude::*;

verus! {

/// What follows the last `node_modules/` of an install path, where there is one and
/// something follows it.
pub open spec fn installed_name(key: Seq<char>) -> Option<Seq<char>> {
    let at = find_back(key, "node_modules/"@);
    let name = key.skip(at + "node_modules/"@.len());
    if at < 0 || name.len() == 0 {
        None
    } else {
        Some(name)
    }
}

/// The package name for a `packages` key, or `None` for one that is not installed.
fn package_name<'a>(key: &'a [char]) -> (r: Option<&'a [char]>)
    ensures
        opt_text(r) == installed_name(key@),
{
    let pattern = chars_of("node_modules/");
    match rfind_str(key, "node_modules/") {
        Some(at) => {
            let len: usize = key.len();
            let name = skip(key, at + pattern.len());
            if name.len() == 0 {
                None
            } else {
                Some(name)
            }
        },
        None => None,
    }
}

/// The names and versions of the installed packages, in order.
pub open spec fn npm_pairs(found: Seq<StringView>) -> Seq<(Seq<char>, Seq<char>)>
    decreases found.len(),
{
    if found.len() == 0 {
        seq![]
    } else {
        let front = npm_pairs(found.drop_last());
        let v = found.last();
        if v.path.len() == 3 && v.path[0] == "packages"@ && v.path[2] == "version"@ {
            match installed_name(v.path[1]) {
                Some(name) => front.push((name, v.value)),
                None => front,
            }
        } else {
            front
        }
    }
}

/// Parse `package-lock.json` into a name → resolved-versions map.
///
/// Reads the v2/v3 `packages` object, whose keys are install paths
/// (`node_modules/react`, `node_modules/a/node_modules/b`); the package name is
/// the segment after the last `node_modules/`.
pub fn parse_package_lock(content: &str) -> (r: Result<LockfileData, ParseError>)
    ensures
        r matches Ok(d) && d@ == collected(npm_pairs(document_scan(content@).found)),
{
    let values = scan_strings(content);
    let ghost all = values_of(values@);
    let mut data = LockfileData::default();
    let mut i: usize = 0;
    assert(data@ == collected(npm_pairs(all.take(0))));
    while i < values.len()
        invariant
            i <= values.len(),
            all == values_of(values@),
            data@ == collected(npm_pairs(all.take(i as int))),
        decreases values.len() - i,
    {
        let v = &values[i];
        proof {
            assert(all.take(i + 1).drop_last() =~= all.take(i as int));
            assert(all.take(i + 1).last() == v@);
            assert(v@.path == strings(v.path@));
        }
        if v.path.len() == 3 && str_eq(v.path[0].as_str(), "packages") && str_eq(
            v.path[2].as_str(),
            "version",
        ) {
            let key = chars_of(v.path[1].as_str());
            if let Some(name) = package_name(key.as_slice()) {
                data.add_version(string_of(name), v.value.clone());
                proof {
                    let front = npm_pairs(all.take(i as int));
                    assert(front.push((name@, v.value@)).drop_last() =~= front);
                }
            }
        }
        i = i + 1;
    }
    assert(all.take(i as int) =~= all);
    Ok(data)
}

} // verus!
