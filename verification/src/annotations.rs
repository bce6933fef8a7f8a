//! Free-form annotations of an operation: a map from text to text.

use crate::assoc::{
    as_map, lemma_as_map_push, lemma_as_map_update, lemma_lookup, lemma_lookup_at,
};
use crate::text::str_eq;
use vstd::prelude::*;

verus! {

/// A map from keys to values, kept as a list of entries of which the first
/// with a given key is the one that counts.
#[derive(Debug)]
pub struct Annotations {
    pub entries: Vec<(String, String)>,
}

/// The entries of an annotation list as texts.
pub open spec fn pairs(entries: Seq<(String, String)>) -> Seq<(Seq<char>, Seq<char>)> {
    Seq::new(entries.len(), |i: int| (entries[i].0@, entries[i].1@))
}

impl View for Annotations {
    type V = Map<Seq<char>, Seq<char>>;

    open spec fn view(&self) -> Map<Seq<char>, Seq<char>> {
        as_map(pairs(self.entries@))
    }
}

impl Clone for Annotations {
    fn clone(&self) -> (r: Self)
        ensures
            r@ == self@,
            pairs(r.entries@) == pairs(self.entries@),
    {
        let mut entries: Vec<(String, String)> = Vec::new();
        let mut i: usize = 0;
        while i < self.entries.len()
            invariant
                i <= self.entries.len(),
                entries.len() == i,
                forall|j: int|
                    0 <= j < i ==> (#[trigger] entries[j]).0@ == self.entries[j].0@ && entries[j].1@
                        == self.entries[j].1@,
            decreases self.entries.len() - i,
        {
            entries.push((self.entries[i].0.clone(), self.entries[i].1.clone()));
            i += 1;
        }
        assert(pairs(entries@) =~= pairs(self.entries@));
        Annotations { entries }
    }
}

impl Annotations {
    /// No annotations.
    pub fn new() -> (r: Self)
        ensures
            r@ == Map::<Seq<char>, Seq<char>>::empty(),
    {
        let r = Annotations { entries: Vec::new() };
        assert(r@ =~= Map::<Seq<char>, Seq<char>>::empty());
        r
    }

    /// The place of the entry that counts for `key`.
    pub fn position(&self, key: &str) -> (r: Option<usize>)
        ensures
            r is Some <==> self@.contains_key(key@),
            r matches Some(i) ==> i < self.entries.len() && self.entries[i as int].0@ == key@
                && self@[key@] == self.entries[i as int].1@ && forall|j: int|
                0 <= j < i ==> (#[trigger] pairs(self.entries@)[j]).0 != key@,
    {
        let mut i: usize = 0;
        while i < self.entries.len()
            invariant
                i <= self.entries.len(),
                forall|j: int| 0 <= j < i ==> (#[trigger] pairs(self.entries@)[j]).0 != key@,
            decreases self.entries.len() - i,
        {
            if str_eq(self.entries[i].0.as_str(), key) {
                proof {
                    assert(pairs(self.entries@)[i as int].0 == key@);
                    lemma_lookup_at(pairs(self.entries@), i as int);
                }
                return Some(i);
            }
            assert(pairs(self.entries@)[i as int].0 != key@);
            i += 1;
        }
        proof {
            lemma_lookup(pairs(self.entries@), key@);
        }
        None
    }

    /// The value kept under `key`.
    pub fn get(&self, key: &str) -> (r: Option<&String>)
        ensures
            r is Some <==> self@.contains_key(key@),
            r matches Some(v) ==> v@ == self@[key@],
    {
        match self.position(key) {
            Some(i) => Some(&self.entries[i].1),
            None => None,
        }
    }

    /// Keeps `value` under `key`, in place of what was kept there.
    pub fn set(&mut self, key: String, value: String)
        ensures
            final(self)@ == old(self)@.insert(key@, value@),
    {
        let ghost before = pairs(self.entries@);
        match self.position(key.as_str()) {
            Some(i) => {
                proof {
                    lemma_as_map_update(before, i as int, value@);
                }
                self.entries.set(i, (key, value));
                assert(pairs(self.entries@) =~= before.update(i as int, (before[i as int].0, value@)));
            },
            None => {
                proof {
                    lemma_as_map_push(before, key@, value@);
                }
                self.entries.push((key, value));
                assert(pairs(self.entries@) =~= before.push((key@, value@)));
            },
        }
    }

    /// Takes over every annotation of `other`; what `other` does not speak of
    /// stays as it was.
    pub fn merge(&mut self, other: &Annotations)
        ensures
            final(self)@ == old(self)@.union_prefer_right(other@),
    {
        let ghost before = self@;
        let mut i: usize = other.entries.len();
        assert(self@ =~= before.union_prefer_right(
            as_map(pairs(other.entries@).skip(i as int)),
        )) by {
            assert(pairs(other.entries@).skip(i as int) =~= Seq::empty());
        }
        while i > 0
            invariant
                i <= other.entries.len(),
                self@ == before.union_prefer_right(as_map(pairs(other.entries@).skip(i as int))),
            decreases i,
        {
            i -= 1;
            let ghost rest = pairs(other.entries@).skip(i + 1);
            let ghost now = pairs(other.entries@).skip(i as int);
            self.set(other.entries[i].0.clone(), other.entries[i].1.clone());
            proof {
                assert(now.first() == pairs(other.entries@)[i as int]);
                assert(now.drop_first() =~= rest);
                assert(as_map(now) =~= as_map(rest).insert(now.first().0, now.first().1));
                assert(self@ =~= before.union_prefer_right(as_map(now)));
            }
        }
        assert(pairs(other.entries@).skip(0) =~= pairs(other.entries@));
    }

    /// Whether every entry of `self` has its key in `other` with the value
    /// that `self` keeps for it.
    fn within(&self, other: &Annotations) -> (r: bool)
        ensures
            r == forall|k: Seq<char>| #[trigger]
                self@.contains_key(k) ==> other@.contains_key(k) && other@[k] == self@[k],
    {
        let mut i: usize = 0;
        while i < self.entries.len()
            invariant
                i <= self.entries.len(),
                forall|j: int|
                    0 <= j < i ==> other@.contains_key((#[trigger] pairs(self.entries@)[j]).0)
                        && other@[pairs(self.entries@)[j].0] == self@[pairs(self.entries@)[j].0],
            decreases self.entries.len() - i,
        {
            let key = self.entries[i].0.as_str();
            assert(pairs(self.entries@)[i as int].0 == key@);
            proof {
                lemma_lookup(pairs(self.entries@), key@);
            }
            let mine = self.get(key);
            let theirs = other.get(key);
            match (mine, theirs) {
                (Some(a), Some(b)) => {
                    if !str_eq(a.as_str(), b.as_str()) {
                        assert(self@.contains_key(key@));
                        return false;
                    }
                },
                _ => {
                    assert(self@.contains_key(key@));
                    return false;
                },
            }
            i += 1;
        }
        proof {
            assert forall|k: Seq<char>| #[trigger] self@.contains_key(k) implies other@.contains_key(
                k,
            ) && other@[k] == self@[k] by {
                lemma_lookup(pairs(self.entries@), k);
                let j = choose|j: int|
                    0 <= j < pairs(self.entries@).len() && (#[trigger] pairs(self.entries@)[j]).0
                        == k;
                assert(other@.contains_key(pairs(self.entries@)[j].0));
            }
        }
        true
    }

    /// Whether two annotation lists stand for the same map.
    pub fn same(&self, other: &Annotations) -> (r: bool)
        ensures
            r == (self@ == other@),
    {
        let r = self.within(other) && other.within(self);
        proof {
            if r {
                assert(self@ =~= other@);
            }
        }
        r
    }
}

} // verus!
