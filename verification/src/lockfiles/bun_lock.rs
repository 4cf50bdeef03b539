//! Reader of Bun's text lockfile (`bun.lock`), collapsed to `name → versions`.
//!
//! `bun.lock` is JSONC. Where `package-lock.json` gives each entry an object with a
//! `version` field, Bun gives an **array** whose first element is a `name@version`
//! descriptor:
//!
//! ```jsonc
//! "packages": {
//!   "react": ["react@19.0.0", "", { "dependencies": { … } }, "sha512-…"],
//!   "@acme/lib": ["@acme/lib@workspace:packages/lib"],
//! }
//! ```
use super::cargo_lock::{collected, LockfileData};
use crate::error::ParseError;
use crate::parsers::json_scan::{document_scan, scan_strings, values_of, StringView};
use crate::split::strings;
use crate::text::{
    any, chars_of, first, has_any, last, last_position, lemma_last, opt_pair, position, skip,
    str_eq, string_of, take, Class,
};
use vstd::prelude::*;

verus! {

/// The name and version of a `name@version` descriptor.
///
/// A scoped name begins with `@`, so the separator is the last `@`. `None` when the
/// version is a location rather than a released version (`workspace:packages/lib`,
/// `file:../x`, `github:owner/repo`). What remains of an alias (`a@npm:other@1.0.0`) is
/// `a@npm:other`, and the installed name is `a`.
pub open spec fn descriptor_of(d: Seq<char>) -> Option<(Seq<char>, Seq<char>)> {
    let at = last(d, Class::Is('@'));
    let name = d.take(at);
    let version = d.skip(at + 1);
    if at <= 0 || version.len() == 0 || has_any(version, Class::Is(':')) {
        None
    } else if has_any(name, Class::Is(':')) {
        let rest = name.skip(1);
        let end = first(rest, Class::Is('@'));
        if end < rest.len() {
            Some((name.take(end + 1), version))
        } else {
            None
        }
    } else {
        Some((name, version))
    }
}

/// Split a `name@version` descriptor.
pub fn split_descriptor<'a>(descriptor: &'a [char]) -> (r: Option<(&'a [char], &'a [char])>)
    ensures
        opt_pair(r) == descriptor_of(descriptor@),
{
    proof {
        lemma_last(descriptor@, Class::Is('@'));
    }
    match last_position(descriptor, Class::Is('@')) {
        None => None,
        Some(at) => {
            if at == 0 {
                return None;
            }
            let len: usize = descriptor.len();
            let name = take(descriptor, at);
            let version = skip(descriptor, at + 1);
            if version.len() == 0 || any(version, Class::Is(':')) {
                return None;
            }
            if any(name, Class::Is(':')) {
                let rest = skip(name, 1);
                let end: usize = position(rest, Class::Is('@'));
                if end < rest.len() {
                    return Some((take(name, end + 1), version));
                }
                return None;
            }
            Some((name, version))
        },
    }
}

/// The names and versions that the descriptors of `packages` state, in order. Only
/// element 0 of an entry is the descriptor.
pub open spec fn bun_pairs(found: Seq<StringView>) -> Seq<(Seq<char>, Seq<char>)>
    decreases found.len(),
{
    if found.len() == 0 {
        seq![]
    } else {
        let front = bun_pairs(found.drop_last());
        let v = found.last();
        if v.path.len() == 3 && v.path[0] == "packages"@ && v.path[2] == "0"@ {
            match descriptor_of(v.value) {
                Some(pair) => front.push(pair),
                None => front,
            }
        } else {
            front
        }
    }
}

/// Parse `bun.lock` into a `name → versions` map.
///
/// Never fails: a lockfile that does not parse yields no versions.
pub fn parse_bun_lock(content: &str) -> (r: Result<LockfileData, ParseError>)
    ensures
        r matches Ok(d) && d@ == collected(bun_pairs(document_scan(content@).found)),
{
    let values = scan_strings(content);
    let ghost all = values_of(values@);
    let mut data = LockfileData::default();
    let mut i: usize = 0;
    assert(data@ == collected(bun_pairs(all.take(0))));
    while i < values.len()
        invariant
            i <= values.len(),
            all == values_of(values@),
            data@ == collected(bun_pairs(all.take(i as int))),
        decreases values.len() - i,
    {
        let v = &values[i];
        proof {
            assert(all.take(i + 1).drop_last() =~= all.take(i as int));
            assert(all.take(i + 1).last() == v@);
            assert(v@.path == strings(v.path@));
        }
        if v.path.len() == 3 && str_eq(v.path[0].as_str(), "packages") && str_eq(
            v.path[2].as_str(),
            "0",
        ) {
            let text = chars_of(v.value.as_str());
            if let Some((name, version)) = split_descriptor(text.as_slice()) {
                data.add_version(string_of(name), string_of(version));
                proof {
                    let front = bun_pairs(all.take(i as int));
                    assert(front.push((name@, version@)).drop_last() =~= front);
                }
            }
        }
        i = i + 1;
    }
    assert(all.take(i as int) =~= all);
    Ok(data)
}

} // verus!
