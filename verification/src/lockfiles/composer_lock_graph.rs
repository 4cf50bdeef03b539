//! Reader of PHP `composer.lock` that preserves the resolved dependency graph.
//!
//! Composer resolves one version per package, so a bare name is an unambiguous
//! edge reference. Platform requirements (`php`, `ext-*`, …) are constraints on the
//! runtime rather than packages, and are not part of the graph.
use super::cargo_lock_graph::{LockedPackage, PackageView, ResolvedLockfile};
use super::entries::{find_last, last_at, strs};
use crate::error::ParseError;
use crate::parsers::json_scan::{document_scan, scan_strings, values_of, JsonStringValue, StringView};
use crate::split::strings;
use crate::text::{
    begins, chars_of, is_str, lower, lowered, skip, starts_with, str_eq, string_of,
};
use vstd::prelude::*;

verus! {

/// The registry source recorded for resolved packages.
pub const COMPOSER_SOURCE: &'static str = "registry+https://repo.packagist.org";

/// Whether a name is that of an array holding resolved packages.
pub open spec fn is_section(name: Seq<char>) -> bool {
    name == "packages"@ || name == "packages-dev"@
}

/// The array and the index of every element that holds a string, each once, in order
/// of first mention.
pub open spec fn element_keys(found: Seq<StringView>) -> Seq<(Seq<char>, Seq<char>)>
    decreases found.len(),
{
    if found.len() == 0 {
        seq![]
    } else {
        let front = element_keys(found.drop_last());
        let path = found.last().path;
        if path.len() >= 3 && is_section(path[0]) && !front.contains((path[0], path[1])) {
            front.push((path[0], path[1]))
        } else {
            front
        }
    }
}

/// The value of a field of an element.
pub open spec fn entry_at(found: Seq<StringView>, key: (Seq<char>, Seq<char>), field: Seq<char>) -> Option<
    Seq<char>,
> {
    last_at(found, seq![key.0, key.1, field])
}

/// Whether a `require` key names the runtime rather than a package: `php`, `hhvm`,
/// `composer*`, and the `ext-`/`lib-` families are satisfied by the environment and
/// never appear as resolved packages.
pub open spec fn is_platform(name: Seq<char>) -> bool {
    let l = lowered(name);
    l == "php"@ || l == "hhvm"@ || begins(l, "php-"@) || begins(l, "ext-"@) || begins(l, "lib-"@)
        || begins(l, "composer"@)
}

/// The packages that an element requires, in order.
pub open spec fn required_by(found: Seq<StringView>, key: (Seq<char>, Seq<char>)) -> Seq<Seq<char>>
    decreases found.len(),
{
    if found.len() == 0 {
        seq![]
    } else {
        let front = required_by(found.drop_last(), key);
        let path = found.last().path;
        if path.len() == 4 && path[0] == key.0 && path[1] == key.1 && path[2] == "require"@
            && !is_platform(path[3]) {
            front.push(path[3])
        } else {
            front
        }
    }
}

/// A version tag without its leading `v` (`v2.1.0` is `2.1.0`).
pub open spec fn without_v(version: Seq<char>) -> Seq<char> {
    if begins(version, "v"@) {
        version.skip("v"@.len() as int)
    } else {
        version
    }
}

/// The packages of a list of elements: of every one that states a name.
pub open spec fn element_packages(found: Seq<StringView>, keys: Seq<(Seq<char>, Seq<char>)>) -> Seq<
    PackageView,
>
    decreases keys.len(),
{
    if keys.len() == 0 {
        seq![]
    } else {
        let front = element_packages(found, keys.drop_last());
        let key = keys.last();
        match entry_at(found, key, "name"@) {
            Some(name) => front.push(
                PackageView {
                    name,
                    version: match entry_at(found, key, "version"@) {
                        Some(v) => without_v(v),
                        None => seq![],
                    },
                    source: Some(COMPOSER_SOURCE@),
                    dependencies: required_by(found, key),
                },
            ),
            None => front,
        }
    }
}

/// The packages of a `composer.lock`.
pub open spec fn composer_packages(found: Seq<StringView>) -> Seq<PackageView> {
    element_packages(found, element_keys(found))
}

/// Strip a single leading `v` from a composer version tag.
pub fn strip_v(version: &str) -> (r: String)
    ensures
        r@ == without_v(version@),
{
    let chars = chars_of(version);
    let v = chars_of("v");
    if starts_with(chars.as_slice(), "v") {
        string_of(skip(chars.as_slice(), v.len()))
    } else {
        string_of(chars.as_slice())
    }
}

/// Whether a `require` key names the runtime rather than a package.
pub fn is_platform_requirement(name: &str) -> (r: bool)
    ensures
        r == is_platform(name@),
{
    let chars = chars_of(name);
    let low = lower(chars.as_slice());
    let l = low.as_slice();
    is_str(l, "php") || is_str(l, "hhvm") || starts_with(l, "php-") || starts_with(l, "ext-")
        || starts_with(l, "lib-") || starts_with(l, "composer")
}

/// Whether a list of elements holds the given one.
fn has_element(keys: &Vec<(String, String)>, section: &str, index: &str) -> (r: bool)
    ensures
        r == keys@.map_values(|k: (String, String)| (k.0@, k.1@)).contains((section@, index@)),
{
    let ghost all = keys@.map_values(|k: (String, String)| (k.0@, k.1@));
    let mut i: usize = keys.len();
    while i > 0
        invariant
            i <= keys.len(),
            all == keys@.map_values(|k: (String, String)| (k.0@, k.1@)),
            forall|j: int| i <= j < keys@.len() ==> (#[trigger] all[j]) != (section@, index@),
        decreases i,
    {
        i = i - 1;
        if str_eq(keys[i].1.as_str(), index) && str_eq(keys[i].0.as_str(), section) {
            assert(all[i as int] == (section@, index@));
            return true;
        }
    }
    false
}

/// The array and the index of every element.
pub fn find_elements(values: &Vec<JsonStringValue>) -> (r: Vec<(String, String)>)
    ensures
        r@.map_values(|k: (String, String)| (k.0@, k.1@)) == element_keys(values_of(values@)),
{
    let ghost all = values_of(values@);
    let mut out: Vec<(String, String)> = Vec::new();
    let mut i: usize = 0;
    assert(out@.map_values(|k: (String, String)| (k.0@, k.1@)) =~= element_keys(all.take(0)));
    while i < values.len()
        invariant
            i <= values.len(),
            all == values_of(values@),
            out@.map_values(|k: (String, String)| (k.0@, k.1@)) == element_keys(
                all.take(i as int),
            ),
        decreases values.len() - i,
    {
        let path = &values[i].path;
        proof {
            assert(all.take(i + 1).drop_last() =~= all.take(i as int));
            assert(all.take(i + 1).last() == values@[i as int]@);
            assert(all.take(i + 1).last().path == strings(path@));
        }
        if path.len() >= 3 && (str_eq(path[0].as_str(), "packages") || str_eq(
            path[0].as_str(),
            "packages-dev",
        )) && !has_element(&out, path[0].as_str(), path[1].as_str()) {
            let ghost before = out@.map_values(|k: (String, String)| (k.0@, k.1@));
            let key = (path[0].clone(), path[1].clone());
            out.push(key);
            assert(out@.map_values(|k: (String, String)| (k.0@, k.1@)) =~= before.push(
                (path@[0]@, path@[1]@),
            ));
        }
        i = i + 1;
    }
    assert(all.take(i as int) =~= all);
    out
}

/// The packages that an element requires.
fn find_required(values: &Vec<JsonStringValue>, section: &str, index: &str) -> (r: Vec<String>)
    ensures
        strings(r@) == required_by(values_of(values@), (section@, index@)),
{
    let ghost all = values_of(values@);
    let mut out: Vec<String> = Vec::new();
    let mut i: usize = 0;
    assert(strings(out@) =~= required_by(all.take(0), (section@, index@)));
    while i < values.len()
        invariant
            i <= values.len(),
            all == values_of(values@),
            strings(out@) == required_by(all.take(i as int), (section@, index@)),
        decreases values.len() - i,
    {
        let path = &values[i].path;
        proof {
            assert(all.take(i + 1).drop_last() =~= all.take(i as int));
            assert(all.take(i + 1).last() == values@[i as int]@);
            assert(all.take(i + 1).last().path == strings(path@));
        }
        if path.len() == 4 && str_eq(path[1].as_str(), index) && str_eq(path[0].as_str(), section)
            && str_eq(path[2].as_str(), "require") && !is_platform_requirement(path[3].as_str()) {
            let ghost before = strings(out@);
            let name = path[3].clone();
            out.push(name);
            assert(strings(out@) =~= before.push(path@[3]@));
        }
        i = i + 1;
    }
    assert(all.take(i as int) =~= all);
    out
}

/// The packages of the string values of a `composer.lock`.
pub fn packages_from(values: &Vec<JsonStringValue>) -> (r: ResolvedLockfile)
    ensures
        r@ == composer_packages(values_of(values@)),
{
    let ghost found = values_of(values@);
    let keys = find_elements(values);
    let ghost all = keys@.map_values(|k: (String, String)| (k.0@, k.1@));
    let mut packages: Vec<LockedPackage> = Vec::new();
    let mut i: usize = 0;
    assert(packages@.map_values(|p: LockedPackage| p@) =~= element_packages(found, all.take(0)));
    while i < keys.len()
        invariant
            i <= keys.len(),
            found == values_of(values@),
            all == keys@.map_values(|k: (String, String)| (k.0@, k.1@)),
            packages@.map_values(|p: LockedPackage| p@) == element_packages(
                found,
                all.take(i as int),
            ),
        decreases keys.len() - i,
    {
        let section = keys[i].0.as_str();
        let index = keys[i].1.as_str();
        let want_name: [&str; 3] = [section, index, "name"];
        let want_version: [&str; 3] = [section, index, "version"];
        proof {
            assert(all.take(i + 1).drop_last() =~= all.take(i as int));
            assert(all.take(i + 1).last() == (section@, index@));
            assert(strs(want_name@) =~= seq![section@, index@, "name"@]);
            assert(strs(want_version@) =~= seq![section@, index@, "version"@]);
        }
        if let Some(name) = find_last(values, &want_name) {
            let version = match find_last(values, &want_version) {
                Some(v) => strip_v(v.as_str()),
                None => {
                    let none = String::new();
                    assert(none@ =~= seq![]);
                    none
                },
            };
            let requires_list = find_required(values, section, index);
            let p = LockedPackage::new(
                name,
                version,
                Some(COMPOSER_SOURCE.to_owned()),
                requires_list,
            );
            let ghost before = packages@.map_values(|p: LockedPackage| p@);
            packages.push(p);
            assert(packages@.map_values(|p: LockedPackage| p@) =~= before.push(p@));
        }
        i = i + 1;
    }
    assert(all.take(i as int) =~= all);
    ResolvedLockfile::from_packages(packages)
}

/// Parse `composer.lock` into a [`ResolvedLockfile`], preserving edges.
///
/// Reads the `packages` and `packages-dev` arrays. The leading `v` of a version tag
/// is stripped so it parses as semver.
///
/// Never fails: a lockfile that does not parse yields no packages.
pub fn parse_composer_lock_graph(content: &str) -> (r: Result<ResolvedLockfile, ParseError>)
    ensures
        r matches Ok(lock) && lock@ == composer_packages(document_scan(content@).found),
{
    let values = scan_strings(content);
    Ok(packages_from(&values))
}

} // verus!
