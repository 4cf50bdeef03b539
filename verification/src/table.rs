//! Tables keyed by text.
use crate::text::{
    before, chars_of, comes_before, lemma_before_irreflexive, lemma_before_total,
    lemma_before_transitive, str_eq,
};
use vstd::prelude::*;

verus! {

/// A table from text to values, its keys in order and each there once.
#[derive(Debug, PartialEq, Eq)]
pub struct TextTable<V> {
    entries: Vec<(String, V)>,
}

/// Whether every text comes before those after it.
pub open spec fn is_ordered(keys: Seq<Seq<char>>) -> bool {
    forall|i: int, j: int| 0 <= i < j < keys.len() ==> before(keys[i], keys[j])
}

impl<V> TextTable<V> {
    /// The keys, in order.
    pub closed spec fn names(self) -> Seq<Seq<char>> {
        self.entries@.map_values(|e: (String, V)| e.0@)
    }

    /// The values, in the order of their keys.
    pub closed spec fn contents(self) -> Seq<V> {
        self.entries@.map_values(|e: (String, V)| e.1)
    }

    /// The keys are in order.
    #[verifier::type_invariant]
    spec fn inv(self) -> bool {
        is_ordered(self.names())
    }
}

/// The position of a key.
pub open spec fn place(keys: Seq<Seq<char>>, key: Seq<char>) -> int {
    choose|i: int| 0 <= i < keys.len() && keys[i] == key
}

impl<V> View for TextTable<V> {
    type V = Map<Seq<char>, V>;

    closed spec fn view(&self) -> Map<Seq<char>, V> {
        Map::new(
            |k: Seq<char>| self.names().contains(k),
            |k: Seq<char>| self.contents()[place(self.names(), k)],
        )
    }
}

impl<V> TextTable<V> {
    /// An empty table.
    pub fn new() -> (r: Self)
        ensures
            r@ == Map::<Seq<char>, V>::empty(),
            r.names().len() == 0,
    {
        let entries: Vec<(String, V)> = Vec::new();
        let r = TextTable { entries };
        assert(r@ =~= Map::empty());
        r
    }

    /// The position of the first key that does not come before `key`.
    fn seek(&self, key: &str) -> (r: usize)
        ensures
            r <= self.entries@.len(),
            forall|i: int| 0 <= i < r ==> before(#[trigger] self.names()[i], key@),
            r < self.entries@.len() ==> !before(self.names()[r as int], key@),
    {
        let want = chars_of(key);
        let mut i: usize = 0;
        while i < self.entries.len()
            invariant
                i <= self.entries.len(),
                want@ == key@,
                forall|j: int| 0 <= j < i ==> before(#[trigger] self.names()[j], key@),
            decreases self.entries.len() - i,
        {
            let have = chars_of(self.entries[i].0.as_str());
            assert(self.names()[i as int] == have@);
            if !comes_before(have.as_slice(), want.as_slice()) {
                return i;
            }
            i = i + 1;
        }
        i
    }

    /// The value of a key.
    pub fn get(&self, key: &str) -> (r: Option<&V>)
        ensures
            match r {
                Some(v) => self@.contains_key(key@) && *v == self@[key@],
                None => !self@.contains_key(key@),
            },
    {
        proof {
            use_type_invariant(self);
        }
        let i: usize = self.seek(key);
        let ghost names = self.names();
        if i < self.entries.len() && str_eq(self.entries[i].0.as_str(), key) {
            proof {
                assert(names[i as int] == key@);
                let p = place(names, key@);
                if p < i {
                    assert(before(names[p], key@));
                    lemma_before_irreflexive(key@);
                } else if p > i {
                    assert(before(names[i as int], names[p]));
                    lemma_before_irreflexive(key@);
                }
            }
            Some(&self.entries[i].1)
        } else {
            proof {
                if names.contains(key@) {
                    let p = choose|p: int| 0 <= p < names.len() && names[p] == key@;
                    if p < i {
                        lemma_before_irreflexive(key@);
                    } else if p > i {
                        assert(before(names[i as int], names[p]));
                    }
                }
            }
            None
        }
    }

    /// Whether a key is there.
    pub fn contains_key(&self, key: &str) -> (r: bool)
        ensures
            r == self@.contains_key(key@),
    {
        self.get(key).is_some()
    }

    /// Set the value of a key.
    pub fn insert(&mut self, key: String, value: V)
        ensures
            final(self)@ == old(self)@.insert(key@, value),
    {
        proof {
            use_type_invariant(&*self);
        }
        let i: usize = self.seek(key.as_str());
        let ghost old_names = self.names();
        let ghost old_contents = self.contents();
        let ghost k = key@;
        let there = i < self.entries.len() && str_eq(self.entries[i].0.as_str(), key.as_str());
        let mut entries: Vec<(String, V)> = Vec::new();
        std::mem::swap(&mut self.entries, &mut entries);
        if there {
            entries.set(i, (key, value));
            let ghost after = TextTable { entries };
            assert(after.names() =~= old_names);
            std::mem::swap(&mut self.entries, &mut entries);
            proof {
                assert(self.names() =~= old_names);
                assert(self.contents() =~= old_contents.update(i as int, value));
                lemma_places(old_names);
                assert(self@ =~= old(self)@.insert(k, value)) by {
                    assert forall|x: Seq<char>| old_names.contains(x) && x != k implies place(
                        old_names,
                        x,
                    ) != i by {}
                    assert(place(old_names, k) == i) by {
                        assert(old_names[i as int] == k);
                    }
                }
            }
        } else {
            entries.insert(i, (key, value));
            let ghost after = TextTable { entries };
            let ghost names = after.names();
            proof {
                assert(names =~= old_names.insert(i as int, k));
                assert(is_ordered(names)) by {
                    assert forall|a: int, b: int| 0 <= a < b < names.len() implies before(
                        names[a],
                        names[b],
                    ) by {
                        let oa = if a < i {
                            a
                        } else {
                            a - 1
                        };
                        let ob = if b < i {
                            b
                        } else {
                            b - 1
                        };
                        if a == i {
                            let n = old_names[i as int];
                            lemma_before_total(n, k);
                            assert(before(k, n));
                            if b > i + 1 {
                                assert(before(old_names[i as int], old_names[ob]));
                                lemma_before_transitive(k, n, old_names[ob]);
                            }
                        } else if b == i {
                            assert(before(old_names[oa], k));
                        } else {
                            assert(before(old_names[oa], old_names[ob]));
                        }
                    }
                }
            }
            std::mem::swap(&mut self.entries, &mut entries);
            proof {
                assert(self.names() == names);
                assert(self.contents() =~= old_contents.insert(i as int, value));
                lemma_places(names);
                lemma_places(old_names);
                assert(self@ =~= old(self)@.insert(k, value)) by {
                    assert(names[i as int] == k);
                    assert forall|x: Seq<char>| names.contains(x) implies x == k
                        || old_names.contains(x) by {
                        let p = choose|p: int| 0 <= p < names.len() && names[p] == x;
                        if p < i {
                            assert(old_names[p] == x);
                        } else if p > i {
                            assert(old_names[p - 1] == x);
                        }
                    }
                    assert forall|x: Seq<char>| old_names.contains(x) implies names.contains(x)
                        && x != k && self.contents()[place(names, x)] == old_contents[place(
                        old_names,
                        x,
                    )] by {
                        let p = place(old_names, x);
                        if p < i {
                            assert(names[p] == x);
                            lemma_before_irreflexive(k);
                        } else {
                            assert(names[p + 1] == x);
                            if x == k {
                                if p > i {
                                    assert(before(old_names[i as int], old_names[p]));
                                }
                            }
                        }
                    }
                }
            }
        }
    }

    /// How many keys there are.
    pub fn len(&self) -> (r: usize)
        ensures
            r == self.names().len(),
            is_ordered(self.names()),
            forall|k: Seq<char>| #[trigger] self@.contains_key(k) <==> self.names().contains(k),
    {
        proof {
            use_type_invariant(self);
        }
        self.entries.len()
    }

    /// Whether there is no key.
    pub fn is_empty(&self) -> (r: bool)
        ensures
            r == (self.names().len() == 0),
    {
        self.entries.len() == 0
    }

    /// The key at a position.
    pub fn key_at(&self, i: usize) -> (r: &String)
        requires
            i < self.names().len(),
        ensures
            r@ == self.names()[i as int],
    {
        &self.entries[i].0
    }

    /// The value at a position.
    pub fn value_at(&self, i: usize) -> (r: &V)
        requires
            i < self.names().len(),
        ensures
            *r == self.contents()[i as int],
            self@.contains_key(self.names()[i as int]),
            *r == self@[self.names()[i as int]],
    {
        proof {
            use_type_invariant(self);
            lemma_places(self.names());
            assert(self.names().contains(self.names()[i as int]));
        }
        &self.entries[i].1
    }
}

impl<V: Clone> Clone for TextTable<V> {
    fn clone(&self) -> (r: Self)
        ensures
            r.names() == self.names(),
            r.contents().len() == self.contents().len(),
            forall|i: int|
                0 <= i < self.contents().len() ==> cloned::<V>(
                    #[trigger] self.contents()[i],
                    r.contents()[i],
                ),
    {
        proof {
            use_type_invariant(self);
        }
        let mut entries: Vec<(String, V)> = Vec::new();
        let mut i: usize = 0;
        while i < self.entries.len()
            invariant
                i <= self.entries.len(),
                entries@.len() == i,
                forall|j: int|
                    0 <= j < i ==> cloned::<V>(self.entries@[j].1, (#[trigger] entries@[j]).1),
                forall|j: int| 0 <= j < i ==> (#[trigger] entries@[j]).0@ == self.entries@[j].0@,
            decreases self.entries.len() - i,
        {
            entries.push((self.entries[i].0.clone(), self.entries[i].1.clone()));
            i = i + 1;
        }
        let ghost copy = TextTable { entries };
        assert(copy.names() =~= self.names());
        TextTable { entries }
    }
}

/// In an ordered list every key has one position.
proof fn lemma_places(keys: Seq<Seq<char>>)
    requires
        is_ordered(keys),
    ensures
        forall|i: int| 0 <= i < keys.len() ==> place(keys, #[trigger] keys[i]) == i,
        forall|k: Seq<char>|
            keys.contains(k) ==> 0 <= #[trigger] place(keys, k) < keys.len() && keys[place(keys, k)]
                == k,
{
    assert forall|i: int| 0 <= i < keys.len() implies place(keys, #[trigger] keys[i]) == i by {
        let p = place(keys, keys[i]);
        lemma_before_irreflexive(keys[i]);
        if p < i {
            assert(before(keys[p], keys[i]));
        } else if i < p {
            assert(before(keys[i], keys[p]));
        }
    }
}

} // verus!
