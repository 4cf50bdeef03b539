//! Reader of npm `package-lock.json` that preserves the resolved dependency graph.
//!
//! npm's `packages` map is keyed by **install path**, not by package name, because
//! the same package may be installed at several versions under different
//! `node_modules` directories. Edges are therefore resolved the way Node resolves
//! them: look for the dependency in the dependent's own `node_modules`, then in each
//! enclosing one, ending at the top level.
use super::bun_lock_graph::{reference_to, NPM_SOURCE};
use super::cargo_lock_graph::{LockedPackage, PackageView, ResolvedLockfile};
use super::entries::{
    deps_under, find_deps, find_index, find_keys, find_last, index_in, keys_of, last_at,
    lemma_index_in, strs,
};
use crate::error::ParseError;
use crate::parsers::json_scan::{document_scan, scan_strings, values_of, JsonStringValue, StringView};
use crate::split::{strings, text2, text3};
use crate::text::{
    begins, chars_of, find, find_back, find_str, last, last_position, lemma_find_back,
    lemma_trailing, opt_string, rfind_str, skip, starts_with, string_of, take, trim_end,
    trim_end_of, Class,
};
use vstd::prelude::*;

verus! {

/// The package name implied by a `packages` key, for entries that declare none: what
/// follows the last `node_modules/`, or else the last segment.
pub open spec fn implied_name(key: Seq<char>) -> Seq<char> {
    let at = find_back(key, "node_modules/"@);
    if at >= 0 {
        key.skip(at + "node_modules/"@.len())
    } else {
        key.skip(last(key, Class::Is('/')) + 1)
    }
}

/// What an install path installs: its declared or implied name, and its version.
pub open spec fn installed(found: Seq<StringView>, key: Seq<char>) -> (Seq<char>, Seq<char>) {
    (
        match last_at(found, seq!["packages"@, key, "name"@]) {
            Some(name) => name,
            None => implied_name(key),
        },
        match last_at(found, seq!["packages"@, key, "version"@]) {
            Some(version) => version,
            None => seq![],
        },
    )
}

/// The install path around the innermost `node_modules` of a path. A path without one
/// falls straight back to the root.
pub open spec fn enclosing(scope: Seq<char>) -> Seq<char> {
    let at = find_back(scope, "node_modules/"@);
    if at < 0 {
        seq![]
    } else {
        trim_end_of(scope.take(at), Class::Is('/'))
    }
}

/// The install path that a dependency of `scope` resolves to.
pub open spec fn install_target(scope: Seq<char>, dep: Seq<char>, keys: Seq<Seq<char>>) -> Option<
    int,
>
    decreases scope.len(),
    via install_target_decreases
{
    let candidate = if scope.len() == 0 {
        "node_modules/"@ + dep
    } else {
        scope + "/node_modules/"@ + dep
    };
    match index_in(keys, candidate) {
        Some(i) => Some(i),
        None => if scope.len() == 0 {
            None
        } else {
            install_target(enclosing(scope), dep, keys)
        },
    }
}

#[via_fn]
proof fn install_target_decreases(scope: Seq<char>, dep: Seq<char>, keys: Seq<Seq<char>>) {
    lemma_enclosing(scope);
}

pub proof fn lemma_enclosing(scope: Seq<char>)
    ensures
        scope.len() > 0 ==> enclosing(scope).len() < scope.len(),
{
    lemma_find_back(scope, "node_modules/"@);
    let at = find_back(scope, "node_modules/"@);
    if at >= 0 {
        lemma_trailing(scope.take(at), Class::Is('/'));
        reveal_strlit("node_modules/");
    }
}

/// The references of a list of dependencies of `from`; one that was never installed is
/// dropped.
pub open spec fn install_edges(
    found: Seq<StringView>,
    keys: Seq<Seq<char>>,
    from: Seq<char>,
    deps: Seq<Seq<char>>,
) -> Seq<Seq<char>>
    decreases deps.len(),
{
    if deps.len() == 0 {
        seq![]
    } else {
        let front = install_edges(found, keys, from, deps.drop_last());
        match install_target(from, deps.last(), keys) {
            Some(i) => front.push(reference_to(installed(found, keys[i]))),
            None => front,
        }
    }
}

/// The source of an install path: the git URL it was resolved to, the registry for an
/// installed package, none for the root and for workspace packages.
pub open spec fn source_at(found: Seq<StringView>, key: Seq<char>) -> Option<Seq<char>> {
    let from_git = match last_at(found, seq!["packages"@, key, "resolved"@]) {
        Some(url) => if begins(url, "git+"@) || begins(url, "git:"@) {
            Some(url)
        } else {
            None
        },
        None => None,
    };
    if from_git is Some {
        from_git
    } else if find(key, "node_modules/"@) >= 0 {
        Some(NPM_SOURCE@)
    } else {
        None
    }
}

/// The package of an install path.
pub open spec fn install_package(
    found: Seq<StringView>,
    keys: Seq<Seq<char>>,
    key: Seq<char>,
) -> PackageView {
    let (name, version) = installed(found, key);
    PackageView {
        name,
        version,
        source: source_at(found, key),
        dependencies: install_edges(found, keys, key, deps_under(found, seq!["packages"@, key])),
    }
}

/// The packages of a `package-lock.json`, in order.
pub open spec fn npm_packages(found: Seq<StringView>) -> Seq<PackageView> {
    let keys = keys_of(found, "packages"@, 3);
    keys.map_values(|key: Seq<char>| install_package(found, keys, key))
}

/// The package name implied by a `packages` key.
fn package_name(key: &str) -> (r: String)
    ensures
        r@ == implied_name(key@),
{
    let chars = chars_of(key);
    let s = chars.as_slice();
    let len: usize = s.len();
    let pattern = chars_of("node_modules/");
    match rfind_str(s, "node_modules/") {
        Some(at) => string_of(skip(s, at + pattern.len())),
        None => match last_position(s, Class::Is('/')) {
            Some(slash) => string_of(skip(s, slash + 1)),
            None => string_of(skip(s, 0)),
        },
    }
}

/// What an install path installs.
fn identity(values: &Vec<JsonStringValue>, key: &str) -> (r: (String, String))
    ensures
        (r.0@, r.1@) == installed(values_of(values@), key@),
{
    let want_name: [&str; 3] = ["packages", key, "name"];
    let want_version: [&str; 3] = ["packages", key, "version"];
    proof {
        assert(strs(want_name@) =~= seq!["packages"@, key@, "name"@]);
        assert(strs(want_version@) =~= seq!["packages"@, key@, "version"@]);
    }
    let name = match find_last(values, &want_name) {
        Some(n) => n,
        None => package_name(key),
    };
    let version = match find_last(values, &want_version) {
        Some(v) => v,
        None => {
            let none = String::new();
            assert(none@ =~= seq![]);
            none
        },
    };
    (name, version)
}

/// Resolve `dep`, required by the package installed at `from`, to an install path.
///
/// Node looks in the dependent's own `node_modules` first, then in each enclosing
/// one, ending at the top level, so a nested copy shadows the hoisted one.
fn resolve_install_path(from: &str, dep: &str, keys: &Vec<String>) -> (r: Option<usize>)
    ensures
        match r {
            Some(i) => i < keys@.len() && install_target(from@, dep@, strings(keys@)) == Some(
                i as int,
            ),
            None => install_target(from@, dep@, strings(keys@)) is None,
        },
{
    let chars = chars_of(from);
    let mut scope: &[char] = chars.as_slice();
    let ghost all = strings(keys@);
    loop
        invariant
            all == strings(keys@),
            install_target(from@, dep@, all) == install_target(scope@, dep@, all),
        decreases scope.len(),
    {
        proof {
            lemma_enclosing(scope@);
        }
        if scope.len() == 0 {
            let candidate = text2("node_modules/", dep);
            return find_index(keys, candidate.as_str());
        }
        let candidate = text3(string_of(scope).as_str(), "/node_modules/", dep);
        if let Some(i) = find_index(keys, candidate.as_str()) {
            return Some(i);
        }
        match rfind_str(scope, "node_modules/") {
            Some(at) => {
                scope = trim_end(take(scope, at), Class::Is('/'));
            },
            None => {
                scope = take(scope, 0);
                assert(scope@ =~= seq![]);
            },
        }
    }
}

/// The references of a list of dependencies.
fn edges(values: &Vec<JsonStringValue>, keys: &Vec<String>, from: &str, deps: &Vec<String>) -> (r:
    Vec<String>)
    ensures
        strings(r@) == install_edges(values_of(values@), strings(keys@), from@, strings(deps@)),
{
    let ghost found = values_of(values@);
    let ghost all = strings(deps@);
    let mut out: Vec<String> = Vec::new();
    let mut i: usize = 0;
    assert(strings(out@) =~= install_edges(found, strings(keys@), from@, all.take(0)));
    while i < deps.len()
        invariant
            i <= deps.len(),
            found == values_of(values@),
            all == strings(deps@),
            strings(out@) == install_edges(found, strings(keys@), from@, all.take(i as int)),
        decreases deps.len() - i,
    {
        proof {
            assert(all.take(i + 1).drop_last() =~= all.take(i as int));
            assert(all.take(i + 1).last() == deps@[i as int]@);
        }
        if let Some(target) = resolve_install_path(from, deps[i].as_str(), keys) {
            let (name, version) = identity(values, keys[target].as_str());
            let edge = if version.as_str().is_empty() {
                name
            } else {
                text3(name.as_str(), " ", version.as_str())
            };
            let ghost before = strings(out@);
            let ghost text = edge@;
            out.push(edge);
            assert(strings(out@) =~= before.push(text));
        }
        i = i + 1;
    }
    assert(all.take(i as int) =~= all);
    out
}

/// The package source for an install path, mirroring how npm records it.
fn source_of(values: &Vec<JsonStringValue>, key: &str) -> (r: Option<String>)
    ensures
        opt_string(r) == source_at(values_of(values@), key@),
{
    let want: [&str; 3] = ["packages", key, "resolved"];
    let resolved = find_last(values, &want);
    assert(strs(want@) =~= seq!["packages"@, key@, "resolved"@]);
    if let Some(url) = resolved {
        let chars = chars_of(url.as_str());
        if starts_with(chars.as_slice(), "git+") || starts_with(chars.as_slice(), "git:") {
            return Some(url);
        }
    }
    let chars = chars_of(key);
    if find_str(chars.as_slice(), "node_modules/").is_some() {
        Some(NPM_SOURCE.to_owned())
    } else {
        None
    }
}

/// The packages of the string values of a `package-lock.json`.
pub fn packages_from(values: &Vec<JsonStringValue>) -> (r: ResolvedLockfile)
    ensures
        r@ == npm_packages(values_of(values@)),
{
    let ghost found = values_of(values@);
    let keys = find_keys(values, "packages", 3);
    let ghost all = strings(keys@);
    let mut packages: Vec<LockedPackage> = Vec::new();
    let mut i: usize = 0;
    while i < keys.len()
        invariant
            i <= keys.len(),
            found == values_of(values@),
            all == strings(keys@),
            packages@.len() == i,
            forall|j: int|
                0 <= j < i ==> (#[trigger] packages@[j])@ == install_package(found, all, all[j]),
        decreases keys.len() - i,
    {
        let key = keys[i].as_str();
        let (name, version) = identity(values, key);
        let want: [&str; 2] = ["packages", key];
        let deps = find_deps(values, &want);
        assert(strs(want@) =~= seq!["packages"@, key@]);
        let dependencies = edges(values, &keys, key, &deps);
        packages.push(LockedPackage::new(name, version, source_of(values, key), dependencies));
        i = i + 1;
    }
    let r = ResolvedLockfile::from_packages(packages);
    assert(r@ =~= npm_packages(found));
    r
}

/// Parse `package-lock.json` into a [`ResolvedLockfile`], preserving edges.
///
/// Reads the lockfile v2/v3 `packages` object. The root project is the `""` entry;
/// entries whose key contains `node_modules/` are installed packages, and any other
/// key is a local workspace package.
///
/// Never fails: a lockfile that does not parse yields no packages.
pub fn parse_package_lock_graph(content: &str) -> (r: Result<ResolvedLockfile, ParseError>)
    ensures
        r matches Ok(lock) && lock@ == npm_packages(document_scan(content@).found),
{
    let values = scan_strings(content);
    Ok(packages_from(&values))
}

/// A copy nested under the dependent shadows every copy further out.
pub proof fn law_nested_copy_shadows(from: Seq<char>, dep: Seq<char>, keys: Seq<Seq<char>>)
    requires
        from.len() > 0,
        keys.contains(from + "/node_modules/"@ + dep),
    ensures
        install_target(from, dep, keys) matches Some(i) && 0 <= i < keys.len() && keys[i] == from
            + "/node_modules/"@ + dep,
{
    let key = from + "/node_modules/"@ + dep;
    lemma_index_in(keys, key);
    super::entries::lemma_index_found(keys, key);
}

} // verus!
