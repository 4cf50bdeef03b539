//! Reader of `bun.lock` that preserves the resolved dependency graph.
//!
//! Bun keys its `packages` map the way npm keys install paths, but without the
//! `node_modules/` segments: a package installed at the top level is keyed by its bare
//! name, and one installed under another to satisfy a conflicting version is keyed
//! `parent/name`. Edges resolve the way Node resolves them: under the dependent first,
//! then under each enclosing scope, ending at the top level.
//!
//! The root project and any workspace members live in a separate `workspaces` object
//! rather than in `packages`.
use super::bun_lock::{descriptor_of, split_descriptor};
use super::cargo_lock_graph::{
    is_meant, lemma_resolved, resolved, LockedPackage, PackageView, ResolvedLockfile,
};
use super::entries::{
    deps_under, find_deps, find_index, find_keys, find_last, index_in, keys_of, last_at,
    lemma_index_in, strs,
};
use crate::error::ParseError;
use crate::parsers::json_scan::{document_scan, scan_strings, values_of, JsonStringValue, StringView};
use crate::split::{strings, text3};
use crate::text::{
    chars_of, first, has_any, last, lemma_first, lemma_last, opt_string, skip, str_eq, string_of,
    Class,
};
use vstd::prelude::*;

verus! {

/// The registry source recorded for installed packages.
pub const NPM_SOURCE: &'static str = "registry+https://registry.npmjs.org/";

/// The last segment of an install key: the last two where the one before it is a scope.
pub open spec fn leaf_of(key: Seq<char>) -> Seq<char> {
    let slash = last(key, Class::Is('/'));
    if slash < 0 {
        key
    } else {
        let head = key.take(slash);
        let inner = last(head, Class::Is('/'));
        // The segment before the last begins after `inner`, which is -1 at the start.
        if head.len() > inner + 1 && head[inner + 1] == '@' {
            key.skip(inner + 1)
        } else {
            key.skip(slash + 1)
        }
    }
}

/// What an install key installs: the name and version of its descriptor, or the name
/// that the key implies and no version.
pub open spec fn identity_of(found: Seq<StringView>, key: Seq<char>) -> (Seq<char>, Seq<char>) {
    let descriptor = match last_at(found, seq!["packages"@, key, "0"@]) {
        Some(d) => d,
        None => seq![],
    };
    match descriptor_of(descriptor) {
        Some(pair) => pair,
        None => (leaf_of(key), seq![]),
    }
}

/// The scope around a scope.
pub open spec fn outer_scope(scope: Seq<char>) -> Seq<char> {
    let slash = last(scope, Class::Is('/'));
    if slash < 0 {
        seq![]
    } else {
        scope.take(slash)
    }
}

/// The install key that a dependency of `scope` resolves to: one under the scope, or
/// else under the scopes around it, ending at the top level.
pub open spec fn key_target(scope: Seq<char>, dep: Seq<char>, keys: Seq<Seq<char>>) -> Option<int>
    decreases scope.len(),
    via key_target_decreases
{
    let candidate = if scope.len() == 0 {
        dep
    } else {
        scope + "/"@ + dep
    };
    match index_in(keys, candidate) {
        Some(i) => Some(i),
        None => if scope.len() == 0 {
            None
        } else {
            key_target(outer_scope(scope), dep, keys)
        },
    }
}

#[via_fn]
proof fn key_target_decreases(scope: Seq<char>, dep: Seq<char>, keys: Seq<Seq<char>>) {
    lemma_last(scope, Class::Is('/'));
}

/// A reference to a package: its name, and its version where it has one.
pub open spec fn reference_to(identity: (Seq<char>, Seq<char>)) -> Seq<char> {
    if identity.1.len() == 0 {
        identity.0
    } else {
        identity.0 + " "@ + identity.1
    }
}

/// The references of a list of dependencies of `from`; one with no entry is dropped.
pub open spec fn edges_of(
    found: Seq<StringView>,
    keys: Seq<Seq<char>>,
    from: Seq<char>,
    deps: Seq<Seq<char>>,
) -> Seq<Seq<char>>
    decreases deps.len(),
{
    if deps.len() == 0 {
        seq![]
    } else {
        let front = edges_of(found, keys, from, deps.drop_last());
        match key_target(from, deps.last(), keys) {
            Some(i) => front.push(reference_to(identity_of(found, keys[i]))),
            None => front,
        }
    }
}

/// The name of a workspace entry.
pub open spec fn workspace_name(found: Seq<StringView>, key: Seq<char>) -> Seq<char> {
    match last_at(found, seq!["workspaces"@, key, "name"@]) {
        Some(name) => name,
        None => leaf_of(key),
    }
}

/// The package of a workspace entry: local, never fetched from a registry.
pub open spec fn workspace_package(
    found: Seq<StringView>,
    keys: Seq<Seq<char>>,
    key: Seq<char>,
) -> PackageView {
    PackageView {
        name: workspace_name(found, key),
        version: match last_at(found, seq!["workspaces"@, key, "version"@]) {
            Some(v) => v,
            None => seq![],
        },
        source: None,
        dependencies: edges_of(
            found,
            keys,
            seq![],
            deps_under(found, seq!["workspaces"@, key]),
        ),
    }
}

/// Whether a workspace entry states the name.
pub open spec fn is_workspace_name(
    found: Seq<StringView>,
    workspaces: Seq<Seq<char>>,
    name: Seq<char>,
) -> bool {
    exists|i: int|
        0 <= i < workspaces.len() && last_at(
            found,
            seq!["workspaces"@, #[trigger] workspaces[i], "name"@],
        ) == Some(name)
}

/// The packages of the first `n` install keys. A workspace member appears in both
/// objects; the `workspaces` entry carries the real dependency list, so the other is
/// left out.
pub open spec fn installed_packages(
    found: Seq<StringView>,
    workspaces: Seq<Seq<char>>,
    keys: Seq<Seq<char>>,
    n: int,
) -> Seq<PackageView>
    decreases n,
{
    if n <= 0 {
        seq![]
    } else {
        let front = installed_packages(found, workspaces, keys, n - 1);
        let key = keys[n - 1];
        let (name, version) = identity_of(found, key);
        if version.len() == 0 && is_workspace_name(found, workspaces, name) {
            front
        } else {
            front.push(
                PackageView {
                    name,
                    version,
                    source: if version.len() == 0 {
                        None
                    } else {
                        Some(NPM_SOURCE@)
                    },
                    dependencies: edges_of(
                        found,
                        keys,
                        key,
                        deps_under(found, seq!["packages"@, key, "2"@]),
                    ),
                },
            )
        }
    }
}

/// The packages of a `bun.lock`: the workspace entries first, so that a graph has
/// something to render from, then the installed packages.
pub open spec fn bun_packages(found: Seq<StringView>) -> Seq<PackageView> {
    let keys = keys_of(found, "packages"@, 2);
    let workspaces = keys_of(found, "workspaces"@, 2);
    workspaces.map_values(|key: Seq<char>| workspace_package(found, keys, key))
        + installed_packages(found, workspaces, keys, keys.len() as int)
}

/// The last segment of an install key.
fn leaf(key: &str) -> (r: String)
    ensures
        r@ == leaf_of(key@),
{
    let chars = chars_of(key);
    let s = chars.as_slice();
    match crate::text::last_position(s, Class::Is('/')) {
        None => string_of(s),
        Some(slash) => {
            let head = crate::text::take(s, slash);
            proof {
                lemma_last(head@, Class::Is('/'));
            }
            assert(s@.len() == s.len());
            let start: usize = match crate::text::last_position(head, Class::Is('/')) {
                Some(inner) => inner + 1,
                None => 0,
            };
            if head.len() > start && head[start] == '@' {
                string_of(skip(s, start))
            } else {
                string_of(skip(s, slash + 1))
            }
        },
    }
}

/// What an install key installs.
fn identity(values: &Vec<JsonStringValue>, key: &str) -> (r: (String, String))
    ensures
        (r.0@, r.1@) == identity_of(values_of(values@), key@),
{
    let want: [&str; 3] = ["packages", key, "0"];
    let found = find_last(values, &want);
    assert(strs(want@) =~= seq!["packages"@, key@, "0"@]);
    let descriptor = match found {
        Some(d) => d,
        None => String::new(),
    };
    let chars = chars_of(descriptor.as_str());
    match split_descriptor(chars.as_slice()) {
        Some((name, version)) => (string_of(name), string_of(version)),
        None => {
            let none = String::new();
            assert(none@ =~= seq![]);
            (leaf(key), none)
        },
    }
}

/// Find the `packages` key a dependency resolves to, the way Node resolves it.
///
/// Innermost first: a package installed under the dependent shadows one of the
/// same name higher up, which is the whole reason Bun nests keys at all.
fn resolve_key(from: &str, dep: &str, keys: &Vec<String>) -> (r: Option<usize>)
    ensures
        match r {
            Some(i) => i < keys@.len() && key_target(from@, dep@, strings(keys@)) == Some(
                i as int,
            ),
            None => key_target(from@, dep@, strings(keys@)) is None,
        },
{
    let chars = chars_of(from);
    let mut scope: &[char] = chars.as_slice();
    let ghost all = strings(keys@);
    loop
        invariant
            all == strings(keys@),
            key_target(from@, dep@, all) == key_target(scope@, dep@, all),
        decreases scope.len(),
    {
        proof {
            lemma_last(scope@, Class::Is('/'));
        }
        if scope.len() == 0 {
            return find_index(keys, dep);
        }
        let candidate = text3(string_of(scope).as_str(), "/", dep);
        if let Some(i) = find_index(keys, candidate.as_str()) {
            return Some(i);
        }
        match crate::text::last_position(scope, Class::Is('/')) {
            Some(slash) => {
                scope = crate::text::take(scope, slash);
            },
            None => {
                scope = crate::text::take(scope, 0);
                assert(scope@ =~= seq![]);
            },
        }
    }
}

/// The references of a list of dependencies.
fn edges(values: &Vec<JsonStringValue>, keys: &Vec<String>, from: &str, deps: &Vec<String>) -> (r:
    Vec<String>)
    ensures
        strings(r@) == edges_of(values_of(values@), strings(keys@), from@, strings(deps@)),
{
    let ghost found = values_of(values@);
    let ghost all = strings(deps@);
    let mut out: Vec<String> = Vec::new();
    let mut i: usize = 0;
    assert(strings(out@) =~= edges_of(found, strings(keys@), from@, all.take(0)));
    while i < deps.len()
        invariant
            i <= deps.len(),
            found == values_of(values@),
            all == strings(deps@),
            strings(out@) == edges_of(found, strings(keys@), from@, all.take(i as int)),
        decreases deps.len() - i,
    {
        proof {
            assert(all.take(i + 1).drop_last() =~= all.take(i as int));
            assert(all.take(i + 1).last() == deps@[i as int]@);
        }
        if let Some(target) = resolve_key(from, deps[i].as_str(), keys) {
            let (name, version) = identity(values, keys[target].as_str());
            let edge = if version.as_str().is_empty() {
                name
            } else {
                text3(name.as_str(), " ", version.as_str())
            };
            let ghost before = strings(out@);
            let ghost text = edge@;
            out.push(edge);
            assert(strings(out@) =~= before.push(text));
        }
        i = i + 1;
    }
    assert(all.take(i as int) =~= all);
    out
}

/// Whether a workspace entry states the name.
fn has_workspace(values: &Vec<JsonStringValue>, workspaces: &Vec<String>, name: &str) -> (r: bool)
    ensures
        r == is_workspace_name(values_of(values@), strings(workspaces@), name@),
{
    let ghost found = values_of(values@);
    let ghost all = strings(workspaces@);
    let mut i: usize = 0;
    while i < workspaces.len()
        invariant
            i <= workspaces.len(),
            found == values_of(values@),
            all == strings(workspaces@),
            forall|j: int|
                0 <= j < i ==> last_at(found, seq!["workspaces"@, #[trigger] all[j], "name"@])
                    != Some(name@),
        decreases workspaces.len() - i,
    {
        let want: [&str; 3] = ["workspaces", workspaces[i].as_str(), "name"];
        let stated = find_last(values, &want);
        assert(strs(want@) =~= seq!["workspaces"@, all[i as int], "name"@]);
        if let Some(s) = stated {
            if str_eq(s.as_str(), name) {
                return true;
            }
        }
        i = i + 1;
    }
    false
}

/// The text of a string, or none.
fn or_empty(o: Option<String>) -> (r: String)
    ensures
        r@ == match opt_string(o) {
            Some(s) => s,
            None => seq![],
        },
{
    match o {
        Some(s) => s,
        None => {
            let none = String::new();
            assert(none@ =~= seq![]);
            none
        },
    }
}

/// The packages of the string values of a `bun.lock`.
pub fn packages_from(values: &Vec<JsonStringValue>) -> (r: ResolvedLockfile)
    ensures
        r@ == bun_packages(values_of(values@)),
{
    let ghost found = values_of(values@);
    let keys = find_keys(values, "packages", 2);
    let workspaces = find_keys(values, "workspaces", 2);
    let ghost all_keys = strings(keys@);
    let ghost all_spaces = strings(workspaces@);
    let mut packages: Vec<LockedPackage> = Vec::new();
    let mut i: usize = 0;
    while i < workspaces.len()
        invariant
            i <= workspaces.len(),
            found == values_of(values@),
            all_keys == strings(keys@),
            all_spaces == strings(workspaces@),
            packages@.len() == i,
            forall|j: int|
                0 <= j < i ==> (#[trigger] packages@[j])@ == workspace_package(
                    found,
                    all_keys,
                    all_spaces[j],
                ),
        decreases workspaces.len() - i,
    {
        let key = workspaces[i].as_str();
        let want_name: [&str; 3] = ["workspaces", key, "name"];
        let want_version: [&str; 3] = ["workspaces", key, "version"];
        let want_deps: [&str; 2] = ["workspaces", key];
        let name = match find_last(values, &want_name) {
            Some(n) => n,
            None => leaf(key),
        };
        let version = or_empty(find_last(values, &want_version));
        let deps = find_deps(values, &want_deps);
        let dependencies = edges(values, &keys, "", &deps);
        proof {
            reveal_strlit("");
            assert(""@ =~= seq![]);
            assert(strs(want_name@) =~= seq!["workspaces"@, key@, "name"@]);
            assert(strs(want_version@) =~= seq!["workspaces"@, key@, "version"@]);
            assert(strs(want_deps@) =~= seq!["workspaces"@, key@]);
        }
        packages.push(LockedPackage::new(name, version, None, dependencies));
        i = i + 1;
    }
    let ghost front = packages@.map_values(|p: LockedPackage| p@);
    assert(front =~= all_spaces.map_values(
        |key: Seq<char>| workspace_package(found, all_keys, key),
    ));
    let mut k: usize = 0;
    assert(packages@.map_values(|p: LockedPackage| p@) =~= front + installed_packages(
        found,
        all_spaces,
        all_keys,
        0,
    ));
    while k < keys.len()
        invariant
            k <= keys.len(),
            found == values_of(values@),
            all_keys == strings(keys@),
            all_spaces == strings(workspaces@),
            packages@.map_values(|p: LockedPackage| p@) == front + installed_packages(
                found,
                all_spaces,
                all_keys,
                k as int,
            ),
        decreases keys.len() - k,
    {
        let key = keys[k].as_str();
        assert(all_keys[k as int] == key@);
        let (name, version) = identity(values, key);
        let ghost before = packages@.map_values(|p: LockedPackage| p@);
        let bare = version.as_str().is_empty();
        let mut member = false;
        if bare {
            member = has_workspace(values, &workspaces, name.as_str());
        }
        if !member {
            let want_deps: [&str; 3] = ["packages", key, "2"];
            let deps = find_deps(values, &want_deps);
            let dependencies = edges(values, &keys, key, &deps);
            let source = if bare {
                None
            } else {
                Some(NPM_SOURCE.to_owned())
            };
            let p = LockedPackage::new(name, version, source, dependencies);
            packages.push(p);
            proof {
                assert(strs(want_deps@) =~= seq!["packages"@, key@, "2"@]);
                assert(packages@.map_values(|p: LockedPackage| p@) =~= before.push(p@));
            }
        }
        k = k + 1;
        proof {
            assert(packages@.map_values(|p: LockedPackage| p@) =~= front + installed_packages(
                found,
                all_spaces,
                all_keys,
                k as int,
            ));
        }
    }
    ResolvedLockfile::from_packages(packages)
}

/// Parse `bun.lock` into a [`ResolvedLockfile`], preserving edges.
///
/// Never fails: a lockfile that does not parse yields no packages.
pub fn parse_bun_lock_graph(content: &str) -> (r: Result<ResolvedLockfile, ParseError>)
    ensures
        r matches Ok(lock) && lock@ == bun_packages(document_scan(content@).found),
{
    let values = scan_strings(content);
    Ok(packages_from(&values))
}

/// Whether a text refers to a package: by name and version where it has one, or by name
/// alone.
pub open spec fn refers_to(p: PackageView, dep: Seq<char>) -> bool {
    dep == reference_to((p.name, p.version)) || dep == p.name
}

/// Whether a text refers to a package of a list.
pub open spec fn is_referred(packages: Seq<PackageView>, dep: Seq<char>) -> bool {
    exists|j: int| 0 <= j < packages.len() && refers_to(#[trigger] packages[j], dep)
}

/// Whether a package has no space in its name and version.
pub open spec fn is_spaceless(p: PackageView) -> bool {
    !has_any(p.name, Class::Is(' ')) && !has_any(p.version, Class::Is(' '))
}

/// A key that a dependency resolves to is one of the keys.
proof fn lemma_key_target(scope: Seq<char>, dep: Seq<char>, keys: Seq<Seq<char>>)
    ensures
        key_target(scope, dep, keys) matches Some(i) ==> 0 <= i < keys.len(),
    decreases scope.len(),
{
    lemma_last(scope, Class::Is('/'));
    if scope.len() == 0 {
        lemma_index_in(keys, dep);
    } else {
        lemma_index_in(keys, scope + "/"@ + dep);
        lemma_key_target(outer_scope(scope), dep, keys);
    }
}

/// Every install key is that of an installed package, or a link to a workspace entry.
proof fn lemma_installed(
    found: Seq<StringView>,
    workspaces: Seq<Seq<char>>,
    keys: Seq<Seq<char>>,
    n: int,
    k: int,
)
    requires
        0 <= k < n <= keys.len(),
    ensures
        ({
            let (name, version) = identity_of(found, keys[k]);
            ||| version.len() == 0 && is_workspace_name(found, workspaces, name)
            ||| exists|j: int|
                0 <= j < installed_packages(found, workspaces, keys, n).len() && (
                #[trigger] installed_packages(found, workspaces, keys, n)[j]).name == name
                    && installed_packages(found, workspaces, keys, n)[j].version == version
        }),
    decreases n,
{
    let (name, version) = identity_of(found, keys[k]);
    let all = installed_packages(found, workspaces, keys, n);
    let front = installed_packages(found, workspaces, keys, n - 1);
    if !(version.len() == 0 && is_workspace_name(found, workspaces, name)) {
        if k == n - 1 {
            assert(all[front.len() as int].name == name);
        } else {
            lemma_installed(found, workspaces, keys, n - 1, k);
            let j = choose|j: int|
                0 <= j < front.len() && (#[trigger] front[j]).name == name && front[j].version
                    == version;
            assert(all[j] == front[j]);
        }
    }
}

/// What an install key installs is referred to.
proof fn lemma_key_referred(found: Seq<StringView>, k: int)
    requires
        0 <= k < keys_of(found, "packages"@, 2).len(),
    ensures
        is_referred(
            bun_packages(found),
            reference_to(identity_of(found, keys_of(found, "packages"@, 2)[k])),
        ),
{
    let keys = keys_of(found, "packages"@, 2);
    let workspaces = keys_of(found, "workspaces"@, 2);
    let n = keys.len() as int;
    let (name, version) = identity_of(found, keys[k]);
    let dep = reference_to((name, version));
    let all = bun_packages(found);
    lemma_installed(found, workspaces, keys, n, k);
    if version.len() == 0 && is_workspace_name(found, workspaces, name) {
        let i = choose|i: int|
            0 <= i < workspaces.len() && last_at(
                found,
                seq!["workspaces"@, #[trigger] workspaces[i], "name"@],
            ) == Some(name);
        assert(all[i] == workspace_package(found, keys, workspaces[i]));
        assert(refers_to(all[i], dep));
    } else {
        let installed = installed_packages(found, workspaces, keys, n);
        let j = choose|j: int|
            0 <= j < installed.len() && (#[trigger] installed[j]).name == name
                && installed[j].version == version;
        assert(all[workspaces.len() + j] == installed[j]);
        assert(refers_to(all[workspaces.len() + j], dep));
    }
}

proof fn lemma_edges_referred(
    found: Seq<StringView>,
    from: Seq<char>,
    deps: Seq<Seq<char>>,
    d: int,
)
    requires
        0 <= d < edges_of(found, keys_of(found, "packages"@, 2), from, deps).len(),
    ensures
        is_referred(
            bun_packages(found),
            edges_of(found, keys_of(found, "packages"@, 2), from, deps)[d],
        ),
    decreases deps.len(),
{
    let keys = keys_of(found, "packages"@, 2);
    if deps.len() > 0 {
        let front = edges_of(found, keys, from, deps.drop_last());
        lemma_key_target(from, deps.last(), keys);
        if d < front.len() {
            lemma_edges_referred(found, from, deps.drop_last(), d);
        } else {
            lemma_key_referred(found, key_target(from, deps.last(), keys)->0);
        }
    }
}

/// The dependencies of an installed package are the references of some list.
proof fn lemma_installed_edges(
    found: Seq<StringView>,
    workspaces: Seq<Seq<char>>,
    keys: Seq<Seq<char>>,
    n: int,
    j: int,
)
    requires
        0 <= j < installed_packages(found, workspaces, keys, n).len(),
    ensures
        exists|from: Seq<char>, deps: Seq<Seq<char>>|
            installed_packages(found, workspaces, keys, n)[j].dependencies == #[trigger] edges_of(
                found,
                keys,
                from,
                deps,
            ),
    decreases n,
{
    if n > 0 {
        let front = installed_packages(found, workspaces, keys, n - 1);
        if j < front.len() {
            lemma_installed_edges(found, workspaces, keys, n - 1, j);
        } else {
            let deps = deps_under(found, seq!["packages"@, keys[n - 1], "2"@]);
            assert(installed_packages(found, workspaces, keys, n)[j].dependencies == edges_of(
                found,
                keys,
                keys[n - 1],
                deps,
            ));
        }
    }
}

/// A package without spaces is meant by what refers to it.
proof fn lemma_meant(p: PackageView, dep: Seq<char>)
    requires
        is_spaceless(p),
        refers_to(p, dep),
    ensures
        is_meant(p, dep),
{
    let k = Class::Is(' ');
    lemma_first(dep, k);
    if dep != p.name {
        let n = p.name.len() as int;
        assert(dep == p.name + " "@ + p.version);
        reveal_strlit(" ");
        assert(dep[n] == ' ');
        assert(has_any(dep, k));
        let at = first(dep, k);
        if at < n {
            assert(k.has(p.name[at]));
        }
        assert(at == n);
        assert(dep.take(n) =~= p.name);
        assert(dep.skip(n + 1) =~= p.version);
        lemma_first(p.version, k);
        assert(p.version.take(first(p.version, k)) =~= p.version);
    }
}

/// Every dependency that is kept refers to a package of the lockfile, and where no name or
/// version has a space in it, it resolves.
pub proof fn law_every_edge_resolves(found: Seq<StringView>, i: int, d: int)
    requires
        bun_packages(found).len() <= usize::MAX,
        0 <= i < bun_packages(found).len(),
        0 <= d < bun_packages(found)[i].dependencies.len(),
    ensures
        is_referred(bun_packages(found), bun_packages(found)[i].dependencies[d]),
        (forall|j: int|
            0 <= j < bun_packages(found).len() ==> is_spaceless(#[trigger] bun_packages(found)[j]))
            ==> resolved(bun_packages(found), bun_packages(found)[i].dependencies[d]) is Some,
{
    let keys = keys_of(found, "packages"@, 2);
    let workspaces = keys_of(found, "workspaces"@, 2);
    let n = keys.len() as int;
    let all = bun_packages(found);
    let dep = all[i].dependencies[d];
    if i < workspaces.len() {
        let deps = deps_under(found, seq!["workspaces"@, workspaces[i]]);
        assert(all[i] == workspace_package(found, keys, workspaces[i]));
        lemma_edges_referred(found, seq![], deps, d);
    } else {
        let j = i - workspaces.len();
        assert(all[i] == installed_packages(found, workspaces, keys, n)[j]);
        lemma_installed_edges(found, workspaces, keys, n, j);
        let (from, deps) = choose|from: Seq<char>, deps: Seq<Seq<char>>|
            all[i].dependencies == #[trigger] edges_of(found, keys, from, deps);
        lemma_edges_referred(found, from, deps, d);
    }
    lemma_resolved(all, dep);
    let j = choose|j: int| 0 <= j < all.len() && refers_to(#[trigger] all[j], dep);
    if is_spaceless(all[j]) {
        lemma_meant(all[j], dep);
    }
}

} // verus!
