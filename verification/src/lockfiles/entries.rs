//! Questions about the string values of a scanned document.
use crate::parsers::json_scan::{values_of, JsonStringValue, StringView};
use crate::split::strings;
use crate::text::{opt_string, str_eq};
use vstd::prelude::*;

verus! {

/// The texts of a list of string slices.
pub open spec fn strs(v: Seq<&str>) -> Seq<Seq<char>> {
    v.map_values(|s: &str| s@)
}

/// Whether a path has at least `n` entries, the first of them `section`.
pub open spec fn is_under(path: Seq<Seq<char>>, section: Seq<char>, n: int) -> bool {
    path.len() >= n && path.len() > 0 && path[0] == section
}

/// The second entries of the paths under a section, each once, in order of first
/// mention.
pub open spec fn keys_of(found: Seq<StringView>, section: Seq<char>, n: int) -> Seq<Seq<char>>
    decreases found.len(),
{
    if found.len() == 0 {
        seq![]
    } else {
        let front = keys_of(found.drop_last(), section, n);
        let path = found.last().path;
        if is_under(path, section, n) && !front.contains(path[1]) {
            front.push(path[1])
        } else {
            front
        }
    }
}

/// The last value at a path.
pub open spec fn last_at(found: Seq<StringView>, path: Seq<Seq<char>>) -> Option<Seq<char>>
    decreases found.len(),
{
    if found.len() == 0 {
        None
    } else if found.last().path == path {
        Some(found.last().value)
    } else {
        last_at(found.drop_last(), path)
    }
}

/// Whether a name is that of a table whose entries are installed: a peer is a
/// requirement on the *consumer*, not something this package causes to be installed.
pub open spec fn is_dep_table(name: Seq<char>) -> bool {
    name == "dependencies"@ || name == "devDependencies"@ || name == "optionalDependencies"@
}

/// Whether a path is that of an entry of a dependency table right under `prefix`.
pub open spec fn is_dep_of(path: Seq<Seq<char>>, prefix: Seq<Seq<char>>) -> bool {
    &&& path.len() == prefix.len() + 2
    &&& path.take(prefix.len() as int) == prefix
    &&& is_dep_table(path[prefix.len() as int])
}

/// The names in the dependency tables right under `prefix`, in order.
pub open spec fn deps_under(found: Seq<StringView>, prefix: Seq<Seq<char>>) -> Seq<Seq<char>>
    decreases found.len(),
{
    if found.len() == 0 {
        seq![]
    } else {
        let front = deps_under(found.drop_last(), prefix);
        if is_dep_of(found.last().path, prefix) {
            front.push(found.last().path.last())
        } else {
            front
        }
    }
}

/// The position of a key in a list of keys, the first where there are several.
pub open spec fn index_in(keys: Seq<Seq<char>>, key: Seq<char>) -> Option<int>
    decreases keys.len(),
{
    if keys.len() == 0 {
        None
    } else {
        match index_in(keys.drop_last(), key) {
            Some(i) => Some(i),
            None => if keys.last() == key {
                Some(keys.len() - 1)
            } else {
                None
            },
        }
    }
}

/// A position found is one within the list, and that of the key.
pub proof fn lemma_index_in(keys: Seq<Seq<char>>, key: Seq<char>)
    ensures
        index_in(keys, key) matches Some(i) ==> 0 <= i < keys.len() && keys[i] == key,
    decreases keys.len(),
{
    if keys.len() > 0 {
        lemma_index_in(keys.drop_last(), key);
    }
}

/// A key that is there is found.
pub proof fn lemma_index_found(keys: Seq<Seq<char>>, key: Seq<char>)
    requires
        keys.contains(key),
    ensures
        index_in(keys, key) is Some,
    decreases keys.len(),
{
    if keys.last() != key {
        let i = choose|i: int| 0 <= i < keys.len() && keys[i] == key;
        assert(keys.drop_last()[i] == key);
        lemma_index_found(keys.drop_last(), key);
    }
}

proof fn lemma_index_stays(keys: Seq<Seq<char>>, key: Seq<char>, n: int)
    requires
        0 <= n <= keys.len(),
        index_in(keys.take(n), key) is Some,
    ensures
        index_in(keys, key) == index_in(keys.take(n), key),
    decreases keys.len(),
{
    if n < keys.len() {
        assert(keys.drop_last().take(n) =~= keys.take(n));
        lemma_index_stays(keys.drop_last(), key, n);
    } else {
        assert(keys.take(n) =~= keys);
    }
}

/// Whether a path is the given one.
pub fn path_is(path: &Vec<String>, want: &[&str]) -> (r: bool)
    ensures
        r == (strings(path@) == strs(want@)),
{
    if path.len() != want.len() {
        assert(strings(path@).len() != strs(want@).len());
        return false;
    }
    let mut i: usize = 0;
    while i < path.len()
        invariant
            i <= path.len(),
            path@.len() == want@.len(),
            forall|j: int| 0 <= j < i ==> (#[trigger] path@[j])@ == want@[j]@,
        decreases path.len() - i,
    {
        if !str_eq(path[i].as_str(), want[i]) {
            assert(strings(path@)[i as int] != strs(want@)[i as int]);
            return false;
        }
        i = i + 1;
    }
    assert(strings(path@) =~= strs(want@));
    true
}

/// Whether a list holds a string.
pub fn has_string(list: &Vec<String>, s: &str) -> (r: bool)
    ensures
        r == strings(list@).contains(s@),
{
    let mut i: usize = 0;
    while i < list.len()
        invariant
            i <= list.len(),
            forall|j: int| 0 <= j < i ==> (#[trigger] list@[j])@ != s@,
        decreases list.len() - i,
    {
        if str_eq(list[i].as_str(), s) {
            assert(strings(list@)[i as int] == s@);
            return true;
        }
        i = i + 1;
    }
    assert forall|j: int| 0 <= j < strings(list@).len() implies strings(list@)[j] != s@ by {
        assert(list@[j]@ != s@);
    }
    false
}

/// The second entries of the paths under a section.
pub fn find_keys(values: &Vec<JsonStringValue>, section: &str, n: usize) -> (r: Vec<String>)
    requires
        n >= 2,
    ensures
        strings(r@) == keys_of(values_of(values@), section@, n as int),
{
    let ghost all = values_of(values@);
    let mut out: Vec<String> = Vec::new();
    let mut i: usize = 0;
    assert(strings(out@) =~= keys_of(all.take(0), section@, n as int));
    while i < values.len()
        invariant
            n >= 2,
            i <= values.len(),
            all == values_of(values@),
            strings(out@) == keys_of(all.take(i as int), section@, n as int),
        decreases values.len() - i,
    {
        let path = &values[i].path;
        proof {
            assert(all.take(i + 1).drop_last() =~= all.take(i as int));
            assert(all.take(i + 1).last() == values@[i as int]@);
            assert(all.take(i + 1).last().path == strings(path@));
        }
        if path.len() >= n && str_eq(path[0].as_str(), section) {
            // Entries of one key stand together: the last key is the likely one.
            let ghost before = strings(out@);
            if out.len() == 0 || !str_eq(out[out.len() - 1].as_str(), path[1].as_str()) {
                if !has_string(&out, path[1].as_str()) {
                    let key = path[1].clone();
                    out.push(key);
                    assert(strings(out@) =~= before.push(path@[1]@));
                }
            } else {
                assert(before[out@.len() - 1] == path@[1]@);
            }
        }
        i = i + 1;
    }
    assert(all.take(i as int) =~= all);
    out
}

/// The last value at a path.
pub fn find_last(values: &Vec<JsonStringValue>, want: &[&str]) -> (r: Option<String>)
    ensures
        opt_string(r) == last_at(values_of(values@), strs(want@)),
{
    let ghost all = values_of(values@);
    let mut i: usize = values.len();
    assert(all.take(i as int) =~= all);
    while i > 0
        invariant
            i <= values.len(),
            all == values_of(values@),
            last_at(all, strs(want@)) == last_at(all.take(i as int), strs(want@)),
        decreases i,
    {
        proof {
            assert(all.take(i as int).drop_last() =~= all.take(i - 1));
            assert(all.take(i as int).last() == values@[i - 1]@);
        }
        if path_is(&values[i - 1].path, want) {
            return Some(values[i - 1].value.clone());
        }
        i = i - 1;
    }
    None
}

/// Whether a name is that of a table whose entries are installed.
pub fn dep_table(name: &str) -> (r: bool)
    ensures
        r == is_dep_table(name@),
{
    str_eq(name, "dependencies") || str_eq(name, "devDependencies") || str_eq(
        name,
        "optionalDependencies",
    )
}

/// Whether a path begins with the given entries.
fn path_begins(path: &Vec<String>, want: &[&str]) -> (r: bool)
    requires
        want@.len() <= path@.len(),
    ensures
        r == (strings(path@).take(want@.len() as int) == strs(want@)),
{
    let ghost front = strings(path@).take(want@.len() as int);
    let mut i: usize = 0;
    while i < want.len()
        invariant
            i <= want.len(),
            want@.len() <= path@.len(),
            front == strings(path@).take(want@.len() as int),
            forall|j: int| 0 <= j < i ==> (#[trigger] path@[j])@ == want@[j]@,
        decreases want.len() - i,
    {
        if !str_eq(path[i].as_str(), want[i]) {
            assert(front[i as int] != strs(want@)[i as int]);
            return false;
        }
        i = i + 1;
    }
    assert(front =~= strs(want@));
    true
}

/// The names in the dependency tables right under a path.
pub fn find_deps(values: &Vec<JsonStringValue>, want: &[&str]) -> (r: Vec<String>)
    ensures
        strings(r@) == deps_under(values_of(values@), strs(want@)),
{
    let ghost all = values_of(values@);
    let mut out: Vec<String> = Vec::new();
    let mut i: usize = 0;
    assert(strings(out@) =~= deps_under(all.take(0), strs(want@)));
    while i < values.len()
        invariant
            i <= values.len(),
            all == values_of(values@),
            strings(out@) == deps_under(all.take(i as int), strs(want@)),
        decreases values.len() - i,
    {
        let path = &values[i].path;
        proof {
            assert(all.take(i + 1).drop_last() =~= all.take(i as int));
            assert(all.take(i + 1).last() == values@[i as int]@);
            assert(all.take(i + 1).last().path == strings(path@));
        }
        if path.len() >= 2 && path.len() - 2 == want.len() && path_begins(path, want) && dep_table(
            path[want.len()].as_str(),
        ) {
            let ghost before = strings(out@);
            let name = path[path.len() - 1].clone();
            out.push(name);
            assert(strings(out@) =~= before.push(strings(path@).last()));
        }
        i = i + 1;
    }
    assert(all.take(i as int) =~= all);
    out
}

/// The position of a key in a list of keys.
pub fn find_index(keys: &Vec<String>, key: &str) -> (r: Option<usize>)
    ensures
        match r {
            Some(i) => i < keys@.len() && index_in(strings(keys@), key@) == Some(i as int),
            None => index_in(strings(keys@), key@) is None,
        },
{
    let ghost all = strings(keys@);
    let mut i: usize = 0;
    while i < keys.len()
        invariant
            i <= keys.len(),
            all == strings(keys@),
            index_in(all.take(i as int), key@) is None,
        decreases keys.len() - i,
    {
        proof {
            assert(all.take(i + 1).drop_last() =~= all.take(i as int));
            assert(all.take(i + 1).last() == keys@[i as int]@);
        }
        if str_eq(keys[i].as_str(), key) {
            proof {
                lemma_index_stays(all, key@, i + 1);
            }
            return Some(i);
        }
        i = i + 1;
    }
    assert(all.take(i as int) =~= all);
    None
}

} // verus!
