//! Locked versions by package name.
use super::cargo_lock_graph::package_tables;
use crate::error::ParseError;
use crate::item::{item_views, Item, ItemView};
use crate::parsers::cargo_package::list_map;
use crate::semver::checker::{
    find_newest, is_newest, newest, newest_admitted, to_version_req,
};
use crate::semver::normalize::normal_constraint;
use crate::semver::version::semver_requirement;
use crate::split::{copy_strings, strings};
use crate::table::TextTable;
use crate::text::{before, chars_of, comes_before, lemma_before_transitive, opt_string};
use crate::toml::{
    parse_document, text_at, text_in, toml_document, trees_of, TomlNode, TomlTree,
};
use vstd::prelude::*;

verus! {

/// Locked versions keyed by package name. A package may appear at several
/// versions because of transitive resolution.
#[derive(Debug, Clone)]
pub struct LockfileData {
    /// The versions of each package, in the order they are locked in.
    pub versions: TextTable<Vec<String>>,
}

impl View for LockfileData {
    type V = Map<Seq<char>, Seq<Seq<char>>>;

    open spec fn view(&self) -> Map<Seq<char>, Seq<Seq<char>>> {
        list_map(self.versions)
    }
}

/// The versions of a package; none where it is not there.
pub open spec fn versions_in(m: Map<Seq<char>, Seq<Seq<char>>>, name: Seq<char>) -> Seq<Seq<char>> {
    if m.contains_key(name) {
        m[name]
    } else {
        seq![]
    }
}

/// Locked versions with one more.
pub open spec fn with_version(
    m: Map<Seq<char>, Seq<Seq<char>>>,
    name: Seq<char>,
    version: Seq<char>,
) -> Map<Seq<char>, Seq<Seq<char>>> {
    m.insert(name, versions_in(m, name).push(version))
}

/// The locked versions of a list of names and versions.
pub open spec fn collected(pairs: Seq<(Seq<char>, Seq<char>)>) -> Map<Seq<char>, Seq<Seq<char>>>
    decreases pairs.len(),
{
    if pairs.len() == 0 {
        Map::empty()
    } else {
        with_version(collected(pairs.drop_last()), pairs.last().0, pairs.last().1)
    }
}

/// The versions of a name among a list of names and versions, in order.
pub open spec fn versions_of(pairs: Seq<(Seq<char>, Seq<char>)>, name: Seq<char>) -> Seq<Seq<char>>
    decreases pairs.len(),
{
    if pairs.len() == 0 {
        seq![]
    } else if pairs.last().0 == name {
        versions_of(pairs.drop_last(), name).push(pairs.last().1)
    } else {
        versions_of(pairs.drop_last(), name)
    }
}

/// What is collected for a name is every version it is listed with, in order, and a
/// name is there exactly if it is listed.
pub proof fn law_collected(pairs: Seq<(Seq<char>, Seq<char>)>, name: Seq<char>)
    ensures
        versions_in(collected(pairs), name) == versions_of(pairs, name),
        collected(pairs).contains_key(name) <==> versions_of(pairs, name).len() > 0,
    decreases pairs.len(),
{
    if pairs.len() > 0 {
        law_collected(pairs.drop_last(), name);
        law_collected(pairs.drop_last(), pairs.last().0);
    }
}

impl Default for LockfileData {
    fn default() -> (r: Self)
        ensures
            r@ == Map::<Seq<char>, Seq<Seq<char>>>::empty(),
    {
        let r = LockfileData { versions: TextTable::new() };
        assert(r@ =~= Map::empty());
        r
    }
}

impl LockfileData {
    /// Record one more version of a package.
    pub fn add_version(&mut self, name: String, version: String)
        ensures
            final(self)@ == with_version(old(self)@, name@, version@),
    {
        let ghost before = self@;
        let mut list: Vec<String> = match self.versions.get(name.as_str()) {
            Some(v) => copy_strings(v),
            None => Vec::new(),
        };
        assert(strings(list@) =~= versions_in(before, name@));
        let ghost had = strings(list@);
        let ghost text = version@;
        list.push(version);
        assert(strings(list@) =~= had.push(text));
        let ghost key = name@;
        self.versions.insert(name, list);
        assert(self@ =~= with_version(before, key, text));
    }
}

/// The names and versions of a list of `[[package]]` tables, in order.
pub open spec fn cargo_pairs(tables: Seq<TomlTree>) -> Seq<(Seq<char>, Seq<char>)>
    decreases tables.len(),
{
    if tables.len() == 0 {
        seq![]
    } else {
        let front = cargo_pairs(tables.drop_last());
        match (text_in(tables.last().get("name"@)), text_in(tables.last().get("version"@))) {
            (Some(name), Some(version)) => front.push((name, version)),
            _ => front,
        }
    }
}

/// The locked versions of a parsed `Cargo.lock`.
pub fn versions_from(root: &TomlNode) -> (r: LockfileData)
    ensures
        r@ == collected(cargo_pairs(package_tables(root@))),
{
    let mut data = LockfileData::default();
    if let Some(node) = root.get("package") {
        if let Some(v) = node.tables() {
            let ghost all = trees_of(v@);
            let mut i: usize = 0;
            assert(data@ == collected(cargo_pairs(all.take(0))));
            while i < v.len()
                invariant
                    i <= v.len(),
                    all == trees_of(v@),
                    data@ == collected(cargo_pairs(all.take(i as int))),
                decreases v.len() - i,
            {
                proof {
                    assert(all.take(i + 1).drop_last() =~= all.take(i as int));
                    assert(all.take(i + 1).last() == v@[i as int]@);
                }
                if let Some(name) = text_at(v[i].get("name")) {
                    if let Some(version) = text_at(v[i].get("version")) {
                        let ghost pair = (name@, version@);
                        data.add_version(name, version);
                        proof {
                            let front = cargo_pairs(all.take(i as int));
                            assert(front.push(pair).drop_last() =~= front);
                        }
                    }
                }
                i = i + 1;
            }
            assert(all.take(i as int) =~= all);
        }
    }
    data
}

/// Parse `Cargo.lock` into a name → versions map.
///
/// # Errors
/// [`ParseError::Toml`] if, and only if, `content` is not valid TOML.
pub fn parse_cargo_lock(content: &str) -> (r: Result<LockfileData, ParseError>)
    ensures
        match r {
            Ok(d) => toml_document(content@) matches Some(root) && d@ == collected(
                cargo_pairs(package_tables(root)),
            ),
            Err(e) => e is Toml && toml_document(content@) is None,
        },
{
    match parse_document(content) {
        Ok(root) => Ok(versions_from(&root)),
        Err(e) => Err(ParseError::Toml(e)),
    }
}

/// The last of a list of texts in the order of text.
pub open spec fn greatest(versions: Seq<Seq<char>>) -> Option<Seq<char>>
    decreases versions.len(),
{
    if versions.len() == 0 {
        None
    } else {
        match greatest(versions.drop_last()) {
            Some(b) => if before(b, versions.last()) {
                Some(versions.last())
            } else {
                Some(b)
            },
            None => Some(versions.last()),
        }
    }
}

/// The newest of the locked versions that a constraint admits; of all of them where the
/// constraint is no requirement.
pub open spec fn best_locked(versions: Seq<Seq<char>>, constraint: Seq<char>) -> Option<Seq<char>> {
    let q = normal_constraint(constraint);
    if semver_requirement(q) is Ok {
        newest_admitted(versions, q)
    } else {
        newest(versions)
    }
}

/// The locked version that best represents a direct dependency: the only one, or the
/// newest that satisfies its constraint, or else the last in the order of text.
pub open spec fn locked_choice(versions: Seq<Seq<char>>, constraint: Seq<char>) -> Option<
    Seq<char>,
> {
    if versions.len() == 1 {
        Some(versions[0])
    } else {
        match best_locked(versions, constraint) {
            Some(v) => Some(v),
            None => greatest(versions),
        }
    }
}

/// The last of a list of texts in the order of text.
fn find_greatest(versions: &Vec<String>) -> (r: Option<String>)
    ensures
        opt_string(r) == greatest(strings(versions@)),
{
    let ghost all = strings(versions@);
    let mut best: Option<usize> = None;
    let mut i: usize = 0;
    while i < versions.len()
        invariant
            i <= versions.len(),
            all == strings(versions@),
            match best {
                Some(b) => b < i && greatest(all.take(i as int)) == Some(all[b as int]),
                None => i == 0,
            },
        decreases versions.len() - i,
    {
        proof {
            assert(all.take(i + 1).drop_last() =~= all.take(i as int));
            assert(all.take(i + 1).last() == versions@[i as int]@);
        }
        let here = chars_of(versions[i].as_str());
        match best {
            Some(b) => {
                let top = chars_of(versions[b].as_str());
                if comes_before(top.as_slice(), here.as_slice()) {
                    best = Some(i);
                }
            },
            None => {
                best = Some(i);
            },
        }
        i = i + 1;
    }
    assert(all.take(i as int) =~= all);
    match best {
        Some(b) => Some(versions[b].clone()),
        None => None,
    }
}

/// Choose the locked version that best represents a direct dependency: the
/// highest locked version satisfying its declared constraint.
pub fn pick_locked(versions: &Vec<String>, constraint: &str) -> (r: Option<String>)
    ensures
        opt_string(r) == locked_choice(strings(versions@), constraint@),
        // Where the constraint is a requirement that one of several locked versions
        // satisfies, the newest of those.
        versions@.len() != 1 && semver_requirement(normal_constraint(constraint@)) is Ok
            && newest_admitted(strings(versions@), normal_constraint(constraint@)) is Some
            ==> r is Some && is_newest(
            r->0@,
            strings(versions@),
            Some(normal_constraint(constraint@)),
        ),
{
    if versions.len() == 1 {
        return Some(versions[0].clone());
    }
    let best = match to_version_req(constraint) {
        Ok(q) => find_newest(versions.as_slice(), Some(q.text.as_str())),
        Err(_) => find_newest(versions.as_slice(), None),
    };
    match best {
        Some(v) => Some(v),
        None => find_greatest(versions),
    }
}

/// An item with the version that a lockfile locks it to, where the lockfile names it.
pub open spec fn locked_item(item: ItemView, lock: Map<Seq<char>, Seq<Seq<char>>>) -> ItemView {
    if lock.contains_key(item.name) {
        ItemView {
            locked_version: locked_choice(lock[item.name], item.version_constraint),
            ..item
        }
    } else {
        item
    }
}

/// Items with the versions that a lockfile locks them to.
pub open spec fn locked_items(
    items: Seq<ItemView>,
    lock: Map<Seq<char>, Seq<Seq<char>>>,
) -> Seq<ItemView> {
    items.map_values(|i: ItemView| locked_item(i, lock))
}

/// Populate [`Item::locked_version`] from a parsed lockfile.
pub fn apply_lockfile(items: &mut Vec<Item>, lock: &LockfileData)
    ensures
        item_views(final(items)@) == locked_items(item_views(old(items)@), lock@),
{
    let ghost all = item_views(items@);
    let ghost want = locked_items(all, lock@);
    let mut i: usize = 0;
    while i < items.len()
        invariant
            i <= items.len(),
            all.len() == items@.len(),
            want == locked_items(all, lock@),
            forall|j: int| 0 <= j < i ==> (#[trigger] items@[j])@ == want[j],
            forall|j: int| i <= j < items@.len() ==> (#[trigger] items@[j])@ == all[j],
        decreases items.len() - i,
    {
        assert(items@[i as int]@ == all[i as int]);
        if let Some(found) = lock.versions.get(items[i].name.as_str()) {
            let mut item = items[i].clone();
            item.locked_version = pick_locked(found, item.version_constraint.as_str());
            items.set(i, item);
        }
        i = i + 1;
    }
    assert(item_views(items@) =~= want);
}

/// Applying a lockfile changes nothing of an item but its locked version, and not even
/// that where the lockfile does not name it.
pub proof fn law_lock_changes_version_only(
    item: ItemView,
    lock: Map<Seq<char>, Seq<Seq<char>>>,
)
    ensures
        locked_item(item, lock) == (ItemView {
            locked_version: locked_item(item, lock).locked_version,
            ..item
        }),
        !lock.contains_key(item.name) ==> locked_item(item, lock) == item,
{
}

/// Applying a lockfile twice is applying it once.
pub proof fn law_lock_idempotent(items: Seq<ItemView>, lock: Map<Seq<char>, Seq<Seq<char>>>)
    ensures
        locked_items(locked_items(items, lock), lock) == locked_items(items, lock),
{
    assert(locked_items(locked_items(items, lock), lock) =~= locked_items(items, lock));
}

/// What is chosen is one of the locked versions, and where there is one something is
/// chosen.
pub proof fn law_locked_choice(versions: Seq<Seq<char>>, constraint: Seq<char>)
    ensures
        locked_choice(versions, constraint) matches Some(v) ==> versions.contains(v),
        versions.len() > 0 ==> locked_choice(versions, constraint) is Some,
{
    let q = normal_constraint(constraint);
    lemma_newest_among(versions, q);
    lemma_greatest(versions);
    if versions.len() == 1 {
        assert(versions[0] == locked_choice(versions, constraint)->0);
    }
}

proof fn lemma_newest_among(versions: Seq<Seq<char>>, q: Seq<char>)
    ensures
        newest(versions) matches Some(v) ==> versions.contains(v),
        newest_admitted(versions, q) matches Some(v) ==> versions.contains(v),
    decreases versions.len(),
{
    if versions.len() > 0 {
        let front = versions.drop_last();
        lemma_newest_among(front, q);
        assert(versions[versions.len() - 1] == versions.last());
        assert forall|v: Seq<char>| front.contains(v) implies versions.contains(v) by {
            let i = choose|i: int| 0 <= i < front.len() && front[i] == v;
            assert(versions[i] == v);
        }
    }
}

proof fn lemma_greatest(versions: Seq<Seq<char>>)
    ensures
        versions.len() > 0 ==> greatest(versions) is Some,
        greatest(versions) matches Some(v) ==> versions.contains(v) && forall|i: int|
            0 <= i < versions.len() ==> !before(v, #[trigger] versions[i]),
    decreases versions.len(),
{
    if versions.len() > 0 {
        let front = versions.drop_last();
        lemma_greatest(front);
        let l = versions.last();
        assert(versions[versions.len() - 1] == l);
        crate::text::lemma_before_irreflexive(l);
        if let Some(b) = greatest(front) {
            let k = choose|k: int| 0 <= k < front.len() && front[k] == b;
            assert(versions[k] == b);
            assert forall|i: int| 0 <= i < versions.len() implies !before(
                greatest(versions)->0,
                #[trigger] versions[i],
            ) by {
                if i < front.len() {
                    assert(versions[i] == front[i]);
                    if before(b, l) && before(l, versions[i]) {
                        lemma_before_transitive(b, l, versions[i]);
                    }
                }
            }
        }
    }
}

} // verus!
