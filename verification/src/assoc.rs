//! Association lists keyed by text: the first entry with a key is the one
//! that counts.

use vstd::prelude::*;

verus! {

/// The value of the first entry of `s` whose key is `k`.
pub open spec fn lookup<V>(s: Seq<(Seq<char>, V)>, k: Seq<char>) -> Option<V>
    decreases s.len(),
{
    if s.len() == 0 {
        None
    } else if s.first().0 == k {
        Some(s.first().1)
    } else {
        lookup(s.drop_first(), k)
    }
}

/// The map that an association list stands for.
pub open spec fn as_map<V>(s: Seq<(Seq<char>, V)>) -> Map<Seq<char>, V> {
    Map::new(|k: Seq<char>| lookup(s, k) is Some, |k: Seq<char>| lookup(s, k)->0)
}

/// A key is found exactly when some entry has it, and then the value is that
/// of the first such entry.
pub proof fn lemma_lookup<V>(s: Seq<(Seq<char>, V)>, k: Seq<char>)
    ensures
        lookup(s, k) is None <==> forall|i: int| 0 <= i < s.len() ==> (#[trigger] s[i]).0 != k,
        lookup(s, k) is Some ==> exists|i: int|
            0 <= i < s.len() && (#[trigger] s[i]).0 == k && lookup(s, k) == Some(s[i].1) && forall|
                j: int,
            | 0 <= j < i ==> (#[trigger] s[j]).0 != k,
    decreases s.len(),
{
    if s.len() > 0 {
        if s.first().0 == k {
            assert(s[0].0 == k);
        } else {
            let t = s.drop_first();
            lemma_lookup(t, k);
            assert forall|i: int| 0 <= i < t.len() implies t[i] == s[i + 1] by {}
            if lookup(t, k) is Some {
                let i = choose|i: int|
                    0 <= i < t.len() && (#[trigger] t[i]).0 == k && lookup(t, k) == Some(t[i].1)
                        && forall|j: int| 0 <= j < i ==> (#[trigger] t[j]).0 != k;
                assert(s[i + 1].0 == k);
                assert forall|j: int| 0 <= j < i + 1 implies (#[trigger] s[j]).0 != k by {
                    if j > 0 {
                        assert(t[j - 1].0 != k);
                    }
                }
            } else {
                assert forall|i: int| 0 <= i < s.len() implies (#[trigger] s[i]).0 != k by {
                    if i > 0 {
                        assert(t[i - 1].0 != k);
                    }
                }
            }
        }
    }
}

/// The entry at `i` is the one found for its key when no earlier entry has
/// that key.
pub proof fn lemma_lookup_at<V>(s: Seq<(Seq<char>, V)>, i: int)
    requires
        0 <= i < s.len(),
        forall|j: int| 0 <= j < i ==> (#[trigger] s[j]).0 != s[i].0,
    ensures
        lookup(s, s[i].0) == Some(s[i].1),
    decreases s.len(),
{
    if i > 0 {
        let t = s.drop_first();
        assert(s[0].0 != s[i].0);
        assert forall|j: int| 0 <= j < i - 1 implies (#[trigger] t[j]).0 != t[i - 1].0 by {
            assert(s[j + 1].0 != s[i].0);
        }
        lemma_lookup_at(t, i - 1);
    }
}

/// An entry added at the end counts only for a key that had none.
pub proof fn lemma_lookup_push<V>(s: Seq<(Seq<char>, V)>, k: Seq<char>, v: V, q: Seq<char>)
    ensures
        lookup(s.push((k, v)), q) == if lookup(s, q) is Some {
            lookup(s, q)
        } else if q == k {
            Some(v)
        } else {
            None
        },
    decreases s.len(),
{
    let r = s.push((k, v));
    if s.len() == 0 {
        assert(r.drop_first() =~= Seq::empty());
    } else {
        assert(r.drop_first() =~= s.drop_first().push((k, v)));
        lemma_lookup_push(s.drop_first(), k, v, q);
    }
}

/// A new value in the first entry of a key changes what is found for that
/// key, and nothing else.
pub proof fn lemma_lookup_update<V>(s: Seq<(Seq<char>, V)>, i: int, v: V, q: Seq<char>)
    requires
        0 <= i < s.len(),
        forall|j: int| 0 <= j < i ==> (#[trigger] s[j]).0 != s[i].0,
    ensures
        lookup(s.update(i, (s[i].0, v)), q) == if q == s[i].0 {
            Some(v)
        } else {
            lookup(s, q)
        },
    decreases s.len(),
{
    let r = s.update(i, (s[i].0, v));
    if i == 0 {
        assert(r.drop_first() =~= s.drop_first());
    } else {
        let t = s.drop_first();
        assert(s[0].0 != s[i].0);
        assert(r.drop_first() =~= t.update(i - 1, (t[i - 1].0, v)));
        assert forall|j: int| 0 <= j < i - 1 implies (#[trigger] t[j]).0 != t[i - 1].0 by {
            assert(s[j + 1].0 != s[i].0);
        }
        lemma_lookup_update(t, i - 1, v, q);
    }
}

/// Taking out an entry leaves what is found for every other key.
pub proof fn lemma_lookup_remove<V>(s: Seq<(Seq<char>, V)>, i: int, q: Seq<char>)
    requires
        0 <= i < s.len(),
        q != s[i].0,
    ensures
        lookup(s.remove(i), q) == lookup(s, q),
    decreases s.len(),
{
    if i == 0 {
        assert(s.remove(0) =~= s.drop_first());
    } else {
        let t = s.drop_first();
        assert(s.remove(i).first() == s.first());
        assert(s.remove(i).drop_first() =~= t.remove(i - 1));
        lemma_lookup_remove(t, i - 1, q);
    }
}

/// Adding an entry for a key that had none inserts it into the map.
pub proof fn lemma_as_map_push<V>(s: Seq<(Seq<char>, V)>, k: Seq<char>, v: V)
    requires
        lookup(s, k) is None,
    ensures
        as_map(s.push((k, v))) == as_map(s).insert(k, v),
{
    assert forall|q: Seq<char>| lookup(s.push((k, v)), q) == if q == k {
        Some(v)
    } else {
        lookup(s, q)
    } by {
        lemma_lookup_push(s, k, v, q);
    }
    assert(as_map(s.push((k, v))) =~= as_map(s).insert(k, v));
}

/// A new value in the first entry of a key inserts it into the map.
pub proof fn lemma_as_map_update<V>(s: Seq<(Seq<char>, V)>, i: int, v: V)
    requires
        0 <= i < s.len(),
        forall|j: int| 0 <= j < i ==> (#[trigger] s[j]).0 != s[i].0,
    ensures
        as_map(s.update(i, (s[i].0, v))) == as_map(s).insert(s[i].0, v),
{
    assert forall|q: Seq<char>| lookup(s.update(i, (s[i].0, v)), q) == if q == s[i].0 {
        Some(v)
    } else {
        lookup(s, q)
    } by {
        lemma_lookup_update(s, i, v, q);
    }
    assert(as_map(s.update(i, (s[i].0, v))) =~= as_map(s).insert(s[i].0, v));
}

} // verus!
