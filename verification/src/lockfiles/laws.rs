//! What lockfiles say of the packages they lock.
use super::bun_lock::{bun_pairs, descriptor_of};
use super::bun_lock_graph::{
    bun_packages, edges_of, identity_of, installed_packages, is_workspace_name, key_target, leaf_of,
    outer_scope,
};
use super::cargo_lock::{cargo_pairs, greatest, locked_choice, locked_item};
use super::cargo_lock_graph::{
    cargo_package, cargo_packages, is_meant, lemma_resolved, resolved, PackageView,
};
use super::composer_lock::composer_pairs;
use super::composer_lock_graph::{
    element_keys, element_packages, is_platform, required_by, without_v,
};
use super::entries::{deps_under, index_in, keys_of, last_at, lemma_index_found, lemma_index_in};
use super::mix_lock::mix_pairs;
use super::mix_lock_graph::{
    closing, elements_of, enclosed, first_groups, hex_package, DEP_PATTERN,
};
use super::package_lock_graph::{
    enclosing, install_edges, install_target, installed, lemma_enclosing, npm_packages, source_at,
};
use super::package_lock_json::{installed_name, npm_pairs};
use crate::item::ItemView;
use crate::parsers::json_scan::StringView;
use crate::semver::checker::{has_version, law_newest_is_listed, newest, newest_admitted};
use crate::semver::version::{semver_admits, semver_requirement};
use crate::text::{
    before, begins, find, find_back, has_any, lemma_before_irreflexive, lemma_before_transitive,
    lemma_find, lemma_last, lowered, small, trailing, trim_end_of,
    trimmed, Class,
};
use crate::pattern::regex_matches;
use crate::toml::{text_in, TomlTree};
use crate::writing::{
    lemma_after, lemma_ahead, lemma_find_back_at, lemma_find_first, lemma_first_at,
    lemma_first_none, lemma_last_at, lemma_last_none, lemma_signs,
};
use vstd::prelude::*;

verus! {

/// Whether a text is the name of a package as a directory: not empty, and without a
/// `node_modules/` in it.
pub open spec fn is_package_dir(name: Seq<char>) -> bool {
    name.len() > 0 && find(name, "node_modules/"@) < 0
}

/// The last `node_modules/` before a package's directory is the one right before it.
#[verifier::rlimit(60)]
proof fn lemma_last_modules(outer: Seq<char>, x: Seq<char>)
    requires
        find(x, "node_modules/"@) < 0,
    ensures
        find_back(outer + "node_modules/"@ + x, "node_modules/"@) == outer.len(),
        (outer + "node_modules/"@ + x).take(outer.len() as int) == outer,
        (outer + "node_modules/"@ + x).skip((outer.len() + "node_modules/"@.len()) as int) == x,
        find(outer + "node_modules/"@ + x, "node_modules/"@) >= 0,
{
    reveal_strlit("node_modules/");
    let p = "node_modules/"@;
    let s = outer + p + x;
    let n = outer.len() as int;
    assert(s.skip(n).take(p.len() as int) =~= p);
    lemma_find_first(x, p);
    assert forall|i: int| n < i <= s.len() implies !begins(#[trigger] s.skip(i), p) by {
        let t = s.skip(i);
        if begins(t, p) {
            if i < n + 13 {
                // The slash of the one before it stands where it has a letter.
                let k = n + 12 - i;
                assert(t.take(13)[k] == t[k]);
                assert(t[k] == s[n + 12]);
                assert(s[n + 12] == p[12]);
            } else {
                assert(t =~= x.skip(i - n - 13));
            }
        }
    }
    lemma_find_back_at(s, p, n);
    assert(s.take(n) =~= outer);
    assert(s.skip(n + p.len()) =~= x);
    lemma_find(s, p);
    lemma_find_first(s, p);
    if find(s, p) < 0 {
        assert(!begins(s.skip(n), p));
    }
}

/// A dependency that is installed in the dependent's own `node_modules` resolves to that
/// copy.
pub proof fn law_npm_own_copy_first(from: Seq<char>, dep: Seq<char>, keys: Seq<Seq<char>>)
    requires
        from.len() > 0,
        keys.contains(from + "/node_modules/"@ + dep),
    ensures
        install_target(from, dep, keys) matches Some(i) && 0 <= i < keys.len() && keys[i] == from
            + "/node_modules/"@ + dep,
{
    lemma_index_found(keys, from + "/node_modules/"@ + dep);
    lemma_index_in(keys, from + "/node_modules/"@ + dep);
}

/// A dependency that is not installed in the dependent itself is looked for in the
/// `node_modules` right around the dependent, before any further out.
#[verifier::rlimit(60)]
pub proof fn law_npm_enclosing_copy_next(
    outer: Seq<char>,
    x: Seq<char>,
    dep: Seq<char>,
    keys: Seq<Seq<char>>,
)
    requires
        is_package_dir(x),
        outer.len() > 0 ==> outer.last() != '/',
    ensures
        ({
            let around = if outer.len() == 0 {
                "node_modules/"@
            } else {
                outer + "/node_modules/"@
            };
            let from = around + x;
            !keys.contains(from + "/node_modules/"@ + dep) ==> {
                &&& install_target(from, dep, keys) == install_target(outer, dep, keys)
                &&& keys.contains(around + dep) ==> (install_target(from, dep, keys) matches Some(i)
                    && 0 <= i < keys.len() && keys[i] == around + dep)
            }
        }),
{
    reveal_strlit("node_modules/");
    reveal_strlit("/node_modules/");
    let around = if outer.len() == 0 {
        "node_modules/"@
    } else {
        outer + "/node_modules/"@
    };
    let from = around + x;
    let before = if outer.len() == 0 {
        outer
    } else {
        outer.push('/')
    };
    assert(from =~= before + "node_modules/"@ + x);
    lemma_last_modules(before, x);
    lemma_enclosing(from);
    assert(enclosing(from) == outer) by {
        if outer.len() == 0 {
            assert(trim_end_of(before, Class::Is('/')) =~= outer);
        } else {
            assert(before.last() == '/');
            assert(before.drop_last() =~= outer);
            assert(trailing(outer, Class::Is('/')) == 0);
            assert(trailing(before, Class::Is('/')) == 1);
            assert(before.take(before.len() - 1) =~= outer);
        }
    }
    let own = from + "/node_modules/"@ + dep;
    lemma_index_in(keys, own);
    if !keys.contains(own) {
        assert(index_in(keys, own) is None);
        if keys.contains(around + dep) {
            lemma_index_found(keys, around + dep);
            lemma_index_in(keys, around + dep);
        }
    }
}

/// A dependency of the root is the copy at the top level, and there is none further out.
pub proof fn law_npm_top_level_last(dep: Seq<char>, keys: Seq<Seq<char>>)
    ensures
        match install_target(seq![], dep, keys) {
            Some(i) => 0 <= i < keys.len() && keys[i] == "node_modules/"@ + dep,
            None => !keys.contains("node_modules/"@ + dep),
        },
{
    lemma_index_in(keys, "node_modules/"@ + dep);
    if keys.contains("node_modules/"@ + dep) {
        lemma_index_found(keys, "node_modules/"@ + dep);
    }
}

/// An install path under `node_modules` is that of the package its last directory names,
/// unless a name is stated; and its version is the one stated.
pub proof fn law_npm_identity(found: Seq<StringView>, outer: Seq<char>, x: Seq<char>)
    requires
        is_package_dir(x),
    ensures
        ({
            let key = outer + "node_modules/"@ + x;
            &&& installed_name(key) == Some(x)
            &&& last_at(found, seq!["packages"@, key, "name"@]) is None ==> installed(found, key).0
                == x
            &&& last_at(found, seq!["packages"@, key, "name"@]) matches Some(n) ==> installed(
                found,
                key,
            ).0 == n
            &&& last_at(found, seq!["packages"@, key, "version"@]) matches Some(v) ==> installed(
                found,
                key,
            ).1 == v
        }),
{
    lemma_last_modules(outer, x);
}

/// An installed package comes from the registry, unless it was resolved to a git URL; the
/// root and the packages of the workspace, which are not installed, from none.
pub proof fn law_npm_source(found: Seq<StringView>, key: Seq<char>, url: Seq<char>)
    ensures
        last_at(found, seq!["packages"@, key, "resolved"@]) == Some(url) && (begins(url, "git+"@)
            || begins(url, "git:"@)) ==> source_at(found, key) == Some(url),
        last_at(found, seq!["packages"@, key, "resolved"@]) == Some(url) && !begins(url, "git+"@)
            && !begins(url, "git:"@) && find(key, "node_modules/"@) >= 0 ==> source_at(found, key)
            == Some("registry+https://registry.npmjs.org/"@),
        last_at(found, seq!["packages"@, key, "resolved"@]) is None && find(key, "node_modules/"@)
            < 0 ==> source_at(found, key) is None,
        last_at(found, seq!["packages"@, key, "resolved"@]) is None && find(key, "node_modules/"@)
            >= 0 ==> source_at(found, key) == Some("registry+https://registry.npmjs.org/"@),
{
}

/// The dependency tables that count are the plain, the development and the optional one,
/// and peers do not: one more value adds its name exactly if it stands in one of the three
/// right under the prefix.
#[verifier::rlimit(60)]
pub proof fn law_dependency_tables(
    found: Seq<StringView>,
    prefix: Seq<Seq<char>>,
    v: StringView,
    table: Seq<char>,
    name: Seq<char>,
)
    requires
        v.path == prefix.push(table).push(name),
    ensures
        table == "dependencies"@ || table == "devDependencies"@ || table == "optionalDependencies"@
            ==> deps_under(found.push(v), prefix) == deps_under(found, prefix).push(name),
        table == "peerDependencies"@ || table == "bundleDependencies"@ || table == "engines"@
            ==> deps_under(found.push(v), prefix) == deps_under(found, prefix),
{
    assert(found.push(v).drop_last() =~= found);
    assert(v.path.take(prefix.len() as int) =~= prefix);
    assert(v.path[prefix.len() as int] == table);
    reveal_strlit("dependencies");
    reveal_strlit("devDependencies");
    reveal_strlit("optionalDependencies");
    reveal_strlit("peerDependencies");
    reveal_strlit("bundleDependencies");
    reveal_strlit("engines");
    assert("peerDependencies"@[0] == 'p' && "bundleDependencies"@[0] == 'b' && "engines"@[0] == 'e'
        && "dependencies"@[0] == 'd' && "devDependencies"@[0] == 'd' && "optionalDependencies"@[0]
        == 'o');
}

/// A locked version of an installed npm package is listed under the package's name, and
/// what is not an installed package's version is not listed.
pub proof fn law_npm_versions(found: Seq<StringView>, v: StringView, outer: Seq<char>, x: Seq<char>)
    requires
        is_package_dir(x),
    ensures
        v.path == seq!["packages"@, outer + "node_modules/"@ + x, "version"@] ==> npm_pairs(
            found.push(v),
        ) == npm_pairs(found).push((x, v.value)),
        v.path.len() != 3 ==> npm_pairs(found.push(v)) == npm_pairs(found),
        v.path.len() == 3 && find_back(v.path[1], "node_modules/"@) < 0 ==> npm_pairs(found.push(v))
            == npm_pairs(found),
        v.path.len() == 3 && v.path[2] == "resolved"@ ==> npm_pairs(found.push(v)) == npm_pairs(
            found,
        ),
        v.path.len() == 3 && v.path[0] == "dependencies"@ ==> npm_pairs(found.push(v)) == npm_pairs(
            found,
        ),
{
    assert(found.push(v).drop_last() =~= found);
    lemma_last_modules(outer, x);
    reveal_strlit("version");
    reveal_strlit("resolved");
    reveal_strlit("packages");
    reveal_strlit("dependencies");
    assert("version"@[0] == 'v' && "resolved"@[0] == 'r' && "packages"@[0] == 'p'
        && "dependencies"@[0] == 'd');
}

/// A descriptor is a name and a version around the last `@`: the scope of a name stays
/// with it, a location is no version, and an alias is installed under its own name.
#[verifier::rlimit(60)]
pub proof fn law_bun_descriptor(name: Seq<char>, other: Seq<char>, version: Seq<char>)
    requires
        name.len() > 0,
        !has_any(name, Class::Is(':')),
        !has_any(name.skip(1), Class::Is('@')),
        version.len() > 0,
        !has_any(version, Class::Is('@')),
    ensures
        !has_any(version, Class::Is(':')) ==> descriptor_of(name + "@"@ + version) == Some(
            (name, version),
        ),
        has_any(version, Class::Is(':')) ==> descriptor_of(name + "@"@ + version) is None,
        !has_any(version, Class::Is(':')) ==> descriptor_of(
            name + "@"@ + ("npm:"@ + other) + "@"@ + version,
        ) == Some((name, version)),
{
    lemma_signs();
    reveal_strlit("npm:");
    let k = Class::Is('@');
    lemma_last_at(name, '@', version, k);
    assert((name + "@"@ + version).take(name.len() as int) =~= name);
    assert((name + "@"@ + version).skip(name.len() as int + 1) =~= version);
    let alias = name + "@"@ + ("npm:"@ + other);
    lemma_last_at(alias, '@', version, k);
    let d = alias + "@"@ + version;
    assert(d.take(alias.len() as int) =~= alias);
    assert(d.skip(alias.len() as int + 1) =~= version);
    assert(alias[name.len() as int + 4] == ':');
    assert(has_any(alias, Class::Is(':')));
    let rest = alias.skip(1);
    lemma_first_at(name.skip(1), '@', "npm:"@ + other, k);
    assert(rest =~= name.skip(1) + seq!['@'] + ("npm:"@ + other));
    assert(alias.take(name.len() as int) =~= name);
}

/// A bun descriptor lists its version under its name; the other elements of an entry list
/// nothing.
pub proof fn law_bun_versions(found: Seq<StringView>, v: StringView, key: Seq<char>)
    ensures
        v.path == seq!["packages"@, key, "0"@] ==> bun_pairs(found.push(v)) == match descriptor_of(
            v.value,
        ) {
            Some(pair) => bun_pairs(found).push(pair),
            None => bun_pairs(found),
        },
        v.path.len() != 3 ==> bun_pairs(found.push(v)) == bun_pairs(found),
        v.path == seq!["packages"@, key, "1"@] ==> bun_pairs(found.push(v)) == bun_pairs(found),
        v.path == seq!["workspaces"@, key, "0"@] ==> bun_pairs(found.push(v)) == bun_pairs(found),
{
    assert(found.push(v).drop_last() =~= found);
    reveal_strlit("0");
    reveal_strlit("1");
    reveal_strlit("packages");
    reveal_strlit("workspaces");
    assert("packages"@[0] == 'p' && "workspaces"@[0] == 'w');
    assert("0"@[0] == '0' && "1"@[0] == '1');
}

/// A bun dependency that is installed under the dependent resolves to that copy; else it
/// is looked for under the scope right around the dependent, before any further out; a
/// copy at the top level is the last.
#[verifier::rlimit(60)]
pub proof fn law_bun_nearest_copy(
    outer: Seq<char>,
    x: Seq<char>,
    dep: Seq<char>,
    keys: Seq<Seq<char>>,
)
    requires
        x.len() > 0,
        !has_any(x, Class::Is('/')),
    ensures
        ({
            let from = if outer.len() == 0 {
                x
            } else {
                outer + "/"@ + x
            };
            let around = if outer.len() == 0 {
                dep
            } else {
                outer + "/"@ + dep
            };
            &&& keys.contains(from + "/"@ + dep) ==> (key_target(from, dep, keys) matches Some(i)
                && 0 <= i < keys.len() && keys[i] == from + "/"@ + dep)
            &&& !keys.contains(from + "/"@ + dep) ==> key_target(from, dep, keys) == key_target(
                outer,
                dep,
                keys,
            )
            &&& !keys.contains(from + "/"@ + dep) && keys.contains(around) ==> (key_target(
                from,
                dep,
                keys,
            ) matches Some(i) && 0 <= i < keys.len() && keys[i] == around)
            &&& outer.len() == 0 && !keys.contains(from + "/"@ + dep) && !keys.contains(dep)
                ==> key_target(from, dep, keys) is None
        }),
{
    reveal_strlit("/");
    assert("/"@ =~= seq!['/']);
    let from = if outer.len() == 0 {
        x
    } else {
        outer + "/"@ + x
    };
    let around = if outer.len() == 0 {
        dep
    } else {
        outer + "/"@ + dep
    };
    lemma_last(from, Class::Is('/'));
    if outer.len() == 0 {
        lemma_last_none(x, Class::Is('/'));
    } else {
        lemma_last_at(outer, '/', x, Class::Is('/'));
        assert(from.take(outer.len() as int) =~= outer);
    }
    assert(outer_scope(from) =~= outer);
    let own = from + "/"@ + dep;
    lemma_index_in(keys, own);
    lemma_index_in(keys, around);
    if keys.contains(own) {
        lemma_index_found(keys, own);
    }
    if keys.contains(around) {
        lemma_index_found(keys, around);
    }
}

/// What a bun key installs is what its descriptor says, or else a link of the name that
/// the key ends with, which for a scoped name is its last two segments.
#[verifier::rlimit(60)]
pub proof fn law_bun_identity(outer: Seq<char>, x: Seq<char>, y: Seq<char>)
    requires
        x.len() > 0,
        x[0] != '@',
        !has_any(x, Class::Is('/')),
        !has_any(y, Class::Is('/')),
    ensures
        leaf_of(y) == y,
        leaf_of(x + "/"@ + y) == y,
        leaf_of(outer + "/"@ + x + "/"@ + y) == y,
        leaf_of("@"@ + x + "/"@ + y) == "@"@ + x + "/"@ + y,
        leaf_of(outer + "/"@ + ("@"@ + x) + "/"@ + y) == "@"@ + x + "/"@ + y,
{
    reveal_strlit("@");
    lemma_last_none(y, Class::Is('/'));
    lemma_leaf(x, y);
    lemma_inner_leaf(outer, x, y);
    let s = "@"@ + x;
    assert(s[0] == '@');
    assert forall|i: int| 0 <= i < s.len() implies #[trigger] s[i] != '/' by {
        if i > 0 {
            assert(s[i] == x[i - 1]);
        }
    }
    assert(!has_any(s, Class::Is('/')));
    lemma_leaf(s, y);
    lemma_inner_leaf(outer, s, y);
}

/// The leaf of a key of two segments.
proof fn lemma_leaf(x: Seq<char>, y: Seq<char>)
    requires
        x.len() > 0,
        !has_any(x, Class::Is('/')),
        !has_any(y, Class::Is('/')),
    ensures
        leaf_of(x + "/"@ + y) == if x[0] == '@' {
            x + "/"@ + y
        } else {
            y
        },
{
    reveal_strlit("/");
    assert("/"@ =~= seq!['/']);
    let key = x + "/"@ + y;
    lemma_last_at(x, '/', y, Class::Is('/'));
    lemma_last_none(x, Class::Is('/'));
    assert(key.take(x.len() as int) =~= x);
    assert(key.skip(x.len() as int + 1) =~= y);
    assert(key.skip(0) =~= key);
}

/// The leaf of a key of more segments.
#[verifier::rlimit(60)]
proof fn lemma_inner_leaf(outer: Seq<char>, x: Seq<char>, y: Seq<char>)
    requires
        x.len() > 0,
        !has_any(x, Class::Is('/')),
        !has_any(y, Class::Is('/')),
    ensures
        leaf_of(outer + "/"@ + x + "/"@ + y) == if x[0] == '@' {
            x + "/"@ + y
        } else {
            y
        },
{
    reveal_strlit("/");
    assert("/"@ =~= seq!['/']);
    let head = outer + "/"@ + x;
    let key = head + "/"@ + y;
    lemma_last_at(head, '/', y, Class::Is('/'));
    lemma_last_at(outer, '/', x, Class::Is('/'));
    assert(key.take(head.len() as int) =~= head);
    assert(key.skip(head.len() as int + 1) =~= y);
    assert(head[outer.len() as int + 1] == x[0]);
    assert(key.skip(outer.len() as int + 1) =~= x + "/"@ + y);
}

/// One more dependency adds a reference to what it resolves to: the name, a space and the
/// version; or the name alone, where there is no version. One that resolves to nothing
/// adds nothing.
pub proof fn law_npm_edge(
    found: Seq<StringView>,
    keys: Seq<Seq<char>>,
    from: Seq<char>,
    deps: Seq<Seq<char>>,
    dep: Seq<char>,
)
    ensures
        match install_target(from, dep, keys) {
            Some(i) => install_edges(found, keys, from, deps.push(dep)) == install_edges(
                found,
                keys,
                from,
                deps,
            ).push(
                if installed(found, keys[i]).1.len() == 0 {
                    installed(found, keys[i]).0
                } else {
                    installed(found, keys[i]).0 + " "@ + installed(found, keys[i]).1
                },
            ),
            None => install_edges(found, keys, from, deps.push(dep)) == install_edges(
                found,
                keys,
                from,
                deps,
            ),
        },
{
    assert(deps.push(dep).drop_last() =~= deps);
}

/// Every install path of an npm lockfile is a package, in the order of the file, with the
/// edges of its own dependency tables.
pub proof fn law_npm_packages(found: Seq<StringView>, i: int)
    requires
        0 <= i < keys_of(found, "packages"@, 3).len(),
    ensures
        ({
            let keys = keys_of(found, "packages"@, 3);
            let p = npm_packages(found)[i];
            &&& npm_packages(found).len() == keys.len()
            &&& (p.name, p.version) == installed(found, keys[i])
            &&& p.source == source_at(found, keys[i])
            &&& p.dependencies == install_edges(
                found,
                keys,
                keys[i],
                deps_under(found, seq!["packages"@, keys[i]]),
            )
        }),
{
}

/// A key is listed once, when a value that is deep enough under the section first names
/// it.
pub proof fn law_keys(found: Seq<StringView>, v: StringView, section: Seq<char>, n: int)
    requires
        n >= 2,
    ensures
        v.path.len() >= n && v.path[0] == section && !keys_of(found, section, n).contains(v.path[1])
            ==> keys_of(found.push(v), section, n) == keys_of(found, section, n).push(v.path[1]),
        v.path.len() < n || v.path[0] != section || keys_of(found, section, n).contains(v.path[1])
            ==> keys_of(found.push(v), section, n) == keys_of(found, section, n),
        keys_of(found, section, n).no_duplicates(),
    decreases found.len(),
{
    assert(found.push(v).drop_last() =~= found);
    if found.len() > 0 {
        law_keys(found.drop_last(), found.last(), section, n);
        assert(found.drop_last().push(found.last()) =~= found);
    }
}

/// The value at a path is the last one there.
pub proof fn law_last_value(found: Seq<StringView>, v: StringView, path: Seq<Seq<char>>)
    ensures
        v.path == path ==> last_at(found.push(v), path) == Some(v.value),
        v.path != path ==> last_at(found.push(v), path) == last_at(found, path),
{
    assert(found.push(v).drop_last() =~= found);
}

/// A bun workspace entry is a package without a source, named as it states or after its
/// key, with edges from the top level; it comes before what is installed.
pub proof fn law_bun_workspace(found: Seq<StringView>, i: int)
    requires
        0 <= i < keys_of(found, "workspaces"@, 2).len(),
    ensures
        ({
            let key = keys_of(found, "workspaces"@, 2)[i];
            let p = bun_packages(found)[i];
            &&& p.source is None
            &&& p.name == match last_at(found, seq!["workspaces"@, key, "name"@]) {
                Some(name) => name,
                None => leaf_of(key),
            }
            &&& p.version == match last_at(found, seq!["workspaces"@, key, "version"@]) {
                Some(version) => version,
                None => Seq::<char>::empty(),
            }
        }),
{
}

/// An installed bun package with a version comes from the registry; an entry without one
/// is local, and is left out where a workspace entry has its name.
pub proof fn law_bun_installed(
    found: Seq<StringView>,
    workspaces: Seq<Seq<char>>,
    keys: Seq<Seq<char>>,
    n: int,
)
    requires
        0 <= n < keys.len(),
    ensures
        ({
            let before = installed_packages(found, workspaces, keys, n);
            let after = installed_packages(found, workspaces, keys, n + 1);
            let (name, version) = identity_of(found, keys[n]);
            &&& version.len() > 0 ==> after.len() == before.len() + 1 && after.last().name == name
                && after.last().version == version && after.last().source == Some(
                "registry+https://registry.npmjs.org/"@,
            )
            &&& version.len() == 0 && !is_workspace_name(found, workspaces, name) ==> after.len()
                == before.len() + 1 && after.last().name == name && after.last().source is None
            &&& version.len() == 0 && is_workspace_name(found, workspaces, name) ==> after == before
            &&& after.len() > before.len() ==> after.drop_last() == before
        }),
{
    let before = installed_packages(found, workspaces, keys, n);
    let after = installed_packages(found, workspaces, keys, n + 1);
    if after.len() > before.len() {
        assert(after.drop_last() =~= before);
    }
}

/// A composer package is listed with its version, without the `v` of a tag; one without a
/// name or version is not.
pub proof fn law_composer_versions(
    found: Seq<StringView>,
    keys: Seq<(Seq<char>, Seq<char>)>,
    key: (Seq<char>, Seq<char>),
    name: Seq<char>,
    version: Seq<char>,
)
    ensures
        last_at(found, seq![key.0, key.1, "name"@]) == Some(name) && last_at(
            found,
            seq![key.0, key.1, "version"@],
        ) == Some("v"@ + version) ==> composer_pairs(found, keys.push(key)) == composer_pairs(
            found,
            keys,
        ).push((name, version)),
        last_at(found, seq![key.0, key.1, "name"@]) == Some(name) && last_at(
            found,
            seq![key.0, key.1, "version"@],
        ) == Some(version) && (version.len() == 0 || version[0] != 'v') ==> composer_pairs(
            found,
            keys.push(key),
        ) == composer_pairs(found, keys).push((name, version)),
        last_at(found, seq![key.0, key.1, "name"@]) is None || last_at(
            found,
            seq![key.0, key.1, "version"@],
        ) is None ==> composer_pairs(found, keys.push(key)) == composer_pairs(found, keys),
{
    assert(keys.push(key).drop_last() =~= keys);
    lemma_without_v(version);
}

proof fn lemma_without_v(version: Seq<char>)
    ensures
        without_v("v"@ + version) == version,
        version.len() == 0 || version[0] != 'v' ==> without_v(version) == version,
{
    reveal_strlit("v");
    lemma_after("v"@, version);
    if begins(version, "v"@) {
        assert(version.take(1)[0] == version[0]);
    }
}

/// The elements of a composer lockfile are those of `packages` and of `packages-dev`, each
/// once.
pub proof fn law_composer_elements(
    found: Seq<StringView>,
    v: StringView,
    section: Seq<char>,
    index: Seq<char>,
    field: Seq<char>,
)
    requires
        v.path == seq![section, index, field],
        !element_keys(found).contains((section, index)),
    ensures
        section == "packages"@ || section == "packages-dev"@ ==> element_keys(found.push(v))
            == element_keys(found).push((section, index)),
        section == "aliases"@ || section == "platform"@ ==> element_keys(found.push(v))
            == element_keys(found),
{
    assert(found.push(v).drop_last() =~= found);
    reveal_strlit("packages");
    reveal_strlit("packages-dev");
    reveal_strlit("aliases");
    reveal_strlit("platform");
    assert("packages"@[1] == 'a' && "packages-dev"@[1] == 'a' && "aliases"@[1] == 'l'
        && "platform"@[1] == 'l');
}

/// A composer package requires what its `require` table names, but not the platform.
pub proof fn law_composer_requires(
    found: Seq<StringView>,
    v: StringView,
    key: (Seq<char>, Seq<char>),
    table: Seq<char>,
    name: Seq<char>,
)
    requires
        v.path == seq![key.0, key.1, table, name],
    ensures
        table == "require"@ && !is_platform(name) ==> required_by(found.push(v), key)
            == required_by(found, key).push(name),
        table == "require"@ && is_platform(name) ==> required_by(found.push(v), key) == required_by(
            found,
            key,
        ),
        table == "require-dev"@ ==> required_by(found.push(v), key) == required_by(found, key),
{
    assert(found.push(v).drop_last() =~= found);
    reveal_strlit("require");
    reveal_strlit("require-dev");
    assert("require"@.len() == 7 && "require-dev"@.len() == 11);
}

/// PHP itself, its extensions and libraries, HHVM and Composer are the platform, and a
/// name with a vendor is not, unless the vendor's name begins so.
#[verifier::rlimit(60)]
pub proof fn law_composer_platform(rest: Seq<char>, vendor: Seq<char>, name: Seq<char>)
    requires
        vendor.len() > 0,
        vendor[0] != 'p' && vendor[0] != 'P' && vendor[0] != 'e' && vendor[0] != 'E' && vendor[0]
            != 'l' && vendor[0] != 'L' && vendor[0] != 'h' && vendor[0] != 'H' && vendor[0] != 'c'
            && vendor[0] != 'C',
    ensures
        is_platform("php"@),
        is_platform("hhvm"@),
        is_platform("php-"@ + rest),
        is_platform("ext-"@ + rest),
        is_platform("lib-"@ + rest),
        is_platform("composer"@ + rest),
        !is_platform(vendor + "/"@ + name),
        !is_platform("php"@ + ("/"@ + name)),
{
    reveal_strlit("php");
    reveal_strlit("hhvm");
    reveal_strlit("php-");
    reveal_strlit("ext-");
    reveal_strlit("lib-");
    reveal_strlit("composer");
    reveal_strlit("/");
    assert(lowered("php"@) =~= "php"@);
    assert(lowered("hhvm"@) =~= "hhvm"@);
    lemma_platform_prefix("php-"@, rest);
    lemma_platform_prefix("ext-"@, rest);
    lemma_platform_prefix("lib-"@, rest);
    lemma_platform_prefix("composer"@, rest);
    let s = vendor + "/"@ + name;
    let l = lowered(s);
    assert(s[0] == vendor[0]);
    assert(l[0] == small(vendor[0]));
    assert(l[0] != 'p' && l[0] != 'e' && l[0] != 'l' && l[0] != 'h' && l[0] != 'c');
    lemma_not_platform(l, 0);
    let t = "php"@ + ("/"@ + name);
    let m = lowered(t);
    assert(m[0] == 'p' && m[3] == '/' && m.len() > 3);
    lemma_not_platform(m, 3);
}

proof fn lemma_platform_prefix(p: Seq<char>, rest: Seq<char>)
    requires
        forall|i: int| 0 <= i < p.len() ==> small(#[trigger] p[i]) == p[i],
    ensures
        begins(lowered(p + rest), p),
{
    let l = lowered(p + rest);
    assert(l.take(p.len() as int) =~= p);
}

#[verifier::rlimit(60)]
proof fn lemma_not_platform(l: Seq<char>, i: int)
    requires
        i == 0 || i == 3,
        i < l.len(),
        i == 0 ==> l[0] != 'p' && l[0] != 'e' && l[0] != 'l' && l[0] != 'h' && l[0] != 'c',
        i == 3 ==> l[0] == 'p' && l[3] == '/',
    ensures
        l != "php"@,
        l != "hhvm"@,
        !begins(l, "php-"@),
        !begins(l, "ext-"@),
        !begins(l, "lib-"@),
        !begins(l, "composer"@),
{
    reveal_strlit("php");
    reveal_strlit("hhvm");
    reveal_strlit("php-");
    reveal_strlit("ext-");
    reveal_strlit("lib-");
    reveal_strlit("composer");
    if begins(l, "php-"@) {
        assert(l.take(4)[i] == l[i]);
    }
    if begins(l, "ext-"@) {
        assert(l.take(4)[0] == l[0]);
    }
    if begins(l, "lib-"@) {
        assert(l.take(4)[0] == l[0]);
    }
    if begins(l, "composer"@) {
        assert(l.take(8)[0] == l[0]);
    }
}

/// A composer package is there if it is named, from Packagist, with the version without a
/// `v` and with what it requires.
pub proof fn law_composer_package(
    found: Seq<StringView>,
    keys: Seq<(Seq<char>, Seq<char>)>,
    key: (Seq<char>, Seq<char>),
    version: Seq<char>,
)
    ensures
        match last_at(found, seq![key.0, key.1, "name"@]) {
            Some(name) => {
                let p = element_packages(found, keys.push(key)).last();
                &&& element_packages(found, keys.push(key)).drop_last() == element_packages(
                    found,
                    keys,
                )
                &&& p.name == name
                &&& p.source == Some("registry+https://repo.packagist.org"@)
                &&& p.dependencies == required_by(found, key)
                &&& last_at(found, seq![key.0, key.1, "version"@]) == Some("v"@ + version)
                    ==> p.version == version
            },
            None => element_packages(found, keys.push(key)) == element_packages(found, keys),
        },
{
    assert(keys.push(key).drop_last() =~= keys);
    lemma_without_v(version);
    if last_at(found, seq![key.0, key.1, "name"@]) is Some {
        assert(element_packages(found, keys.push(key)).drop_last() =~= element_packages(found, keys));
    }
}

/// A `[[package]]` table with a name and a version is locked at that version, and is a
/// package with its source; one without either is neither.
pub proof fn law_cargo_lock(tables: Seq<TomlTree>, t: TomlTree)
    ensures
        match (text_in(t.get("name"@)), text_in(t.get("version"@))) {
            (Some(name), Some(version)) => {
                let p = cargo_packages(tables.push(t)).last();
                &&& cargo_pairs(tables.push(t)) == cargo_pairs(tables).push((name, version))
                &&& cargo_packages(tables.push(t)).drop_last() == cargo_packages(tables)
                &&& p.name == name && p.version == version
                &&& p.source == text_in(t.get("source"@))
            },
            _ => cargo_pairs(tables.push(t)) == cargo_pairs(tables) && cargo_packages(
                tables.push(t),
            ) == cargo_packages(tables),
        },
{
    assert(tables.push(t).drop_last() =~= tables);
    if cargo_package(t) is Some {
        assert(cargo_packages(tables.push(t)).drop_last() =~= cargo_packages(tables));
    }
}

/// A reference by name alone means the first package of the name; one by name and version
/// means the first that has both, whatever follows the version.
#[verifier::rlimit(60)]
pub proof fn law_references(
    packages: Seq<PackageView>,
    name: Seq<char>,
    version: Seq<char>,
    rest: Seq<char>,
)
    requires
        packages.len() <= usize::MAX,
        !has_any(name, Class::Is(' ')),
        !has_any(version, Class::Is(' ')),
    ensures
        match resolved(packages, name) {
            Some(i) => i < packages.len() && packages[i as int].name == name && forall|j: int|
                0 <= j < i ==> (#[trigger] packages[j]).name != name,
            None => forall|j: int| 0 <= j < packages.len() ==> (#[trigger] packages[j]).name != name,
        },
        match resolved(packages, name + " "@ + version) {
            Some(i) => i < packages.len() && packages[i as int].name == name
                && packages[i as int].version == version && forall|j: int|
                0 <= j < i ==> !((#[trigger] packages[j]).name == name && packages[j].version
                    == version),
            None => forall|j: int|
                0 <= j < packages.len() ==> !((#[trigger] packages[j]).name == name
                    && packages[j].version == version),
        },
        resolved(packages, name + " "@ + version + (" "@ + rest)) == resolved(
            packages,
            name + " "@ + version,
        ),
{
    lemma_signs();
    let k = Class::Is(' ');
    let full = name + " "@ + version;
    let more = full + (" "@ + rest);
    lemma_first_none(name, k);
    lemma_first_at(name, ' ', version, k);
    lemma_first_none(version, k);
    assert(more =~= name + seq![' '] + (version + seq![' '] + rest));
    lemma_first_at(name, ' ', version + seq![' '] + rest, k);
    lemma_first_at(version, ' ', rest, k);
    assert((version + seq![' '] + rest).take(version.len() as int) =~= version);
    lemma_resolved(packages, name);
    lemma_resolved(packages, full);
    assert forall|p: PackageView| #[trigger] is_meant(p, name) <==> p.name == name by {}
    assert forall|p: PackageView| #[trigger]
        is_meant(p, full) <==> p.name == name && p.version == version by {}
    assert forall|p: PackageView| #[trigger] is_meant(p, more) <==> is_meant(p, full) by {}
    lemma_resolved_alike(packages, more, full);
    if let Some(i) = resolved(packages, name) {
        assert forall|j: int| 0 <= j < i implies (#[trigger] packages[j]).name != name by {
            assert(!is_meant(packages[j], name));
        }
    } else {
        assert forall|j: int| 0 <= j < packages.len() implies (#[trigger] packages[j]).name
            != name by {
            assert(!is_meant(packages[j], name));
        }
    }
    if let Some(i) = resolved(packages, full) {
        assert forall|j: int| 0 <= j < i implies !((#[trigger] packages[j]).name == name
            && packages[j].version == version) by {
            assert(!is_meant(packages[j], full));
        }
    } else {
        assert forall|j: int| 0 <= j < packages.len() implies !((#[trigger] packages[j]).name
            == name && packages[j].version == version) by {
            assert(!is_meant(packages[j], full));
        }
    }
}

proof fn lemma_resolved_alike(packages: Seq<PackageView>, a: Seq<char>, b: Seq<char>)
    requires
        forall|p: PackageView| #[trigger] is_meant(p, a) <==> is_meant(p, b),
    ensures
        resolved(packages, a) == resolved(packages, b),
    decreases packages.len(),
{
    if packages.len() > 0 {
        lemma_resolved_alike(packages.drop_last(), a, b);
        assert(is_meant(packages.last(), a) <==> is_meant(packages.last(), b));
    }
}

/// Of several locked versions a dependency is at the newest that its constraint admits,
/// and where the constraint is no requirement, at the newest; one version alone is taken
/// whatever the constraint says; where none is a version it is the last in the order of
/// text; and there is always one where any is locked.
pub proof fn law_locked_choice(versions: Seq<Seq<char>>, constraint: Seq<char>)
    requires
        trimmed(constraint) == constraint,
        constraint.len() > 0 ==> constraint[0] != 'v' && constraint[0] != 'V',
    ensures
        versions.len() == 0 ==> locked_choice(versions, constraint) is None,
        versions.len() == 1 ==> locked_choice(versions, constraint) == Some(versions[0]),
        versions.len() > 1 ==> {
            let chosen = locked_choice(versions, constraint);
            &&& chosen matches Some(c) && versions.contains(c)
            &&& semver_requirement(constraint) is Ok && (exists|i: int|
                0 <= i < versions.len() && semver_admits(constraint, #[trigger] versions[i]))
                ==> chosen == newest_admitted(versions, constraint) && semver_admits(
                constraint,
                chosen->0,
            )
            &&& semver_requirement(constraint) is Err && has_version(versions) ==> chosen == newest(
                versions,
            )
            &&& !has_version(versions) && (forall|i: int|
                0 <= i < versions.len() ==> !semver_admits(constraint, #[trigger] versions[i]))
                ==> forall|i: int| 0 <= i < versions.len() ==> !before(
                chosen->0,
                #[trigger] versions[i],
            )
        },
{
    law_newest_is_listed(versions, constraint);
    lemma_greatest(versions);
    if exists|i: int| 0 <= i < versions.len() && semver_admits(constraint, #[trigger] versions[i]) {
        let i = choose|i: int|
            0 <= i < versions.len() && semver_admits(constraint, #[trigger] versions[i]);
        assert(crate::semver::checker::has_admitted(versions, constraint));
    }
}

#[verifier::rlimit(60)]
proof fn lemma_greatest(versions: Seq<Seq<char>>)
    ensures
        greatest(versions) is Some <==> versions.len() > 0,
        greatest(versions) matches Some(v) ==> versions.contains(v) && forall|i: int|
            0 <= i < versions.len() ==> !before(v, #[trigger] versions[i]),
    decreases versions.len(),
{
    if versions.len() > 0 {
        let front = versions.drop_last();
        lemma_greatest(front);
        lemma_before_irreflexive(versions.last());
        if let Some(v) = greatest(front) {
            assert forall|i: int| 0 <= i < versions.len() implies !before(
                greatest(versions)->0,
                #[trigger] versions[i],
            ) by {
                if i < front.len() {
                    assert(versions[i] == front[i]);
                    if before(v, versions.last()) && before(versions.last(), versions[i]) {
                        lemma_before_transitive(v, versions.last(), versions[i]);
                    }
                }
            }
        }
        assert(versions[versions.len() - 1] == versions.last());
        if let Some(v) = greatest(front) {
            let i = choose|i: int| 0 <= i < front.len() && front[i] == v;
            assert(versions[i] == v);
        }
    }
}

/// Applying a lockfile changes the locked version and nothing else, and only of an item
/// that the lockfile names.
pub proof fn law_locking_changes_the_locked_version(
    item: ItemView,
    lock: Map<Seq<char>, Seq<Seq<char>>>,
)
    ensures
        ({
            let r = locked_item(item, lock);
            &&& !lock.contains_key(item.name) ==> r == item
            &&& r.name == item.name
            &&& r.version_constraint == item.version_constraint
            &&& r.source == item.source
            &&& r.kind == item.kind
            &&& r.registry == item.registry
            &&& r.version_line == item.version_line
            &&& r.version_col_start == item.version_col_start
            &&& r.version_col_end == item.version_col_end
            &&& lock.contains_key(item.name) && lock[item.name].len() > 0 ==> (
            r.locked_version matches Some(v) && lock[item.name].contains(v))
            &&& lock.contains_key(item.name) && lock[item.name].len() == 1 ==> r.locked_version
                == Some(lock[item.name][0])
        }),
{
    if lock.contains_key(item.name) {
        let versions = lock[item.name];
        lemma_greatest(versions);
        law_newest_is_listed(
            versions,
            crate::semver::normalize::normal_constraint(item.version_constraint),
        );
    }
}

/// A match of a `mix.lock` entry locks its first group at its second.
pub proof fn law_mix_versions(
    matches: Seq<Seq<crate::pattern::PartView>>,
    m: Seq<crate::pattern::PartView>,
)
    ensures
        m.len() >= 3 ==> mix_pairs(matches.push(m)) == mix_pairs(matches).push(
            (m[1].text, m[2].text),
        ),
        m.len() < 3 ==> mix_pairs(matches.push(m)) == mix_pairs(matches),
{
    assert(matches.push(m).drop_last() =~= matches);
}

/// A `mix.lock` entry is a package from Hex, at the version of its third element, if its
/// first element says so; any other entry is none.
pub proof fn law_mix_package(name: Seq<char>, body: Seq<char>, version: Seq<char>)
    ensures
        ({
            let e = elements_of(body);
            &&& e.len() >= 3 && trimmed(e[0]) == ":hex"@ && trimmed(e[2]) == "\""@ + version + "\""@
                ==> (hex_package(name, body) matches Some(p) && p.name == name && p.version
                == version && p.source == Some("registry+https://hex.pm"@))
            &&& e.len() < 3 ==> hex_package(name, body) is None
            &&& e.len() >= 3 && trimmed(e[0]) == ":git"@ ==> hex_package(name, body) is None
            &&& hex_package(name, body) matches Some(p) ==> (e.len() < 6 ==> p.dependencies.len()
                == 0) && (e.len() >= 6 ==> p.dependencies == first_groups(
                regex_matches(DEP_PATTERN@, e[5]),
            ))
        }),
{
    reveal_strlit("\"");
    reveal_strlit(":hex");
    reveal_strlit(":git");
    assert(":hex"@[1] == 'h' && ":git"@[1] == 'g');
    let q = "\""@;
    lemma_after(q, version + q);
    lemma_ahead(version, q);
    assert(q + version + q =~= q + (version + q));
}

/// A bun workspace entry depends on what its own tables name, seen from the top level, and
/// an installed package on what the tables of its third element name, seen from its key.
pub proof fn law_bun_dependencies(
    found: Seq<StringView>,
    workspaces: Seq<Seq<char>>,
    keys: Seq<Seq<char>>,
    i: int,
    n: int,
)
    requires
        keys == keys_of(found, "packages"@, 2),
        workspaces == keys_of(found, "workspaces"@, 2),
    ensures
        0 <= i < workspaces.len() ==> bun_packages(found)[i].dependencies == edges_of(
            found,
            keys,
            seq![],
            deps_under(found, seq!["workspaces"@, workspaces[i]]),
        ),
        0 <= n < keys.len() && identity_of(found, keys[n]).1.len() > 0 ==> installed_packages(
            found,
            workspaces,
            keys,
            n + 1,
        ).last().dependencies == edges_of(
            found,
            keys,
            keys[n],
            deps_under(found, seq!["packages"@, keys[n], "2"@]),
        ),
{
}

/// One more bun dependency adds a reference to what it resolves to, as for npm.
pub proof fn law_bun_edge(
    found: Seq<StringView>,
    keys: Seq<Seq<char>>,
    from: Seq<char>,
    deps: Seq<Seq<char>>,
    dep: Seq<char>,
)
    ensures
        match key_target(from, dep, keys) {
            Some(i) => edges_of(found, keys, from, deps.push(dep)) == edges_of(
                found,
                keys,
                from,
                deps,
            ).push(
                if identity_of(found, keys[i]).1.len() == 0 {
                    identity_of(found, keys[i]).0
                } else {
                    identity_of(found, keys[i]).0 + " "@ + identity_of(found, keys[i]).1
                },
            ),
            None => edges_of(found, keys, from, deps.push(dep)) == edges_of(
                found,
                keys,
                from,
                deps,
            ),
        },
{
    assert(deps.push(dep).drop_last() =~= deps);
}

/// What a key of a bun lockfile installs is what its first element says.
pub proof fn law_bun_descriptor_of_key(found: Seq<StringView>, key: Seq<char>, d: Seq<char>)
    requires
        last_at(found, seq!["packages"@, key, "0"@]) == Some(d),
    ensures
        descriptor_of(d) matches Some(pair) ==> identity_of(found, key) == pair,
        descriptor_of(d) is None ==> identity_of(found, key).0 == leaf_of(key) && identity_of(
            found,
            key,
        ).1.len() == 0,
{
}

/// The body of a `mix.lock` entry goes to the bracket that closes it, past those within it
/// and past those in strings.
pub proof fn law_mix_body(a: Seq<char>, b: Seq<char>, c: Seq<char>, rest: Seq<char>)
    requires
        forall|i: int| 0 <= i < a.len() ==> is_unbraced(#[trigger] a[i]),
        forall|i: int| 0 <= i < b.len() ==> is_unbraced(#[trigger] b[i]),
        forall|i: int| 0 <= i < c.len() ==> is_unbraced(#[trigger] c[i]),
    ensures
        enclosed(a + seq!['}'] + rest, 0) == Some(a),
        enclosed(a + seq!['{'] + b + seq!['}'] + c + seq!['}'] + rest, 0) == Some(
            a + seq!['{'] + b + seq!['}'] + c,
        ),
        enclosed(a, 0) is None,
{
    let s = a + seq!['}'] + rest;
    let n = a.len() as int;
    assert forall|i: int| 0 <= i < n implies is_unbraced(#[trigger] s[i]) by {
        assert(s[i] == a[i]);
    }
    lemma_unbraced(s, 0, n, 1);
    assert(s[n] == '}');
    assert(s.subrange(0, n) =~= a);
    lemma_unbraced(a, 0, n, 1);
    let t = a + seq!['{'] + b + seq!['}'] + c + seq!['}'] + rest;
    let m = n + 1 + b.len();
    let e = m + 1 + c.len();
    assert forall|i: int| 0 <= i < n implies is_unbraced(#[trigger] t[i]) by {
        assert(t[i] == a[i]);
    }
    assert forall|i: int| n + 1 <= i < m implies is_unbraced(#[trigger] t[i]) by {
        assert(t[i] == b[i - n - 1]);
    }
    assert forall|i: int| m + 1 <= i < e implies is_unbraced(#[trigger] t[i]) by {
        assert(t[i] == c[i - m - 1]);
    }
    assert(t[n] == '{' && t[m] == '}' && t[e] == '}');
    lemma_unbraced(t, 0, n, 1);
    lemma_unbraced(t, n + 1, m, 2);
    lemma_unbraced(t, m + 1, e, 1);
    assert(t.subrange(0, e) =~= a + seq!['{'] + b + seq!['}'] + c);
}

/// Whether a character is no quote and no brace.
pub open spec fn is_unbraced(c: char) -> bool {
    c != '"' && c != '{' && c != '}'
}

proof fn lemma_unbraced(s: Seq<char>, i: int, n: int, depth: int)
    requires
        0 <= i <= n <= s.len(),
        forall|j: int| i <= j < n ==> is_unbraced(#[trigger] s[j]),
    ensures
        closing(s, i, depth) == closing(s, n, depth),
    decreases n - i,
{
    if i < n {
        lemma_unbraced(s, i + 1, n, depth);
    }
}

} // verus!
