//! Lists of names held as sets: trimmed, in ascending order, nothing twice.

use crate::text::{
    lemma_precedes_asymmetric, lemma_precedes_total, lemma_precedes_transitive, lemma_trimmed,
    precedes, str_eq, str_lt, trim, trimmed,
};
use vstd::prelude::*;

verus! {

/// The texts of a list of strings.
pub open spec fn views(v: Seq<String>) -> Seq<Seq<char>> {
    Seq::new(v.len(), |i: int| v[i]@)
}

/// Each name comes strictly before every later one.
pub open spec fn strictly_sorted(s: Seq<Seq<char>>) -> bool {
    forall|i: int, j: int| 0 <= i < j < s.len() ==> precedes(#[trigger] s[i], #[trigger] s[j])
}

/// `s` with `x` put at its place in the order, unless `s` holds it already.
pub open spec fn inserted(s: Seq<Seq<char>>, x: Seq<char>) -> Seq<Seq<char>>
    decreases s.len(),
{
    if s.len() == 0 {
        seq![x]
    } else if s.last() == x {
        s
    } else if precedes(s.last(), x) {
        s.push(x)
    } else {
        inserted(s.drop_last(), x).push(s.last())
    }
}

/// The names of `v`, each trimmed, in ascending order and without repeats.
pub open spec fn normalized(v: Seq<Seq<char>>) -> Seq<Seq<char>>
    decreases v.len(),
{
    if v.len() == 0 {
        Seq::empty()
    } else {
        inserted(normalized(v.drop_last()), trimmed(v.last()))
    }
}

/// Every name of `a` is a name of `b`.
pub open spec fn subset_of(a: Seq<Seq<char>>, b: Seq<Seq<char>>) -> bool {
    forall|i: int| 0 <= i < a.len() ==> b.contains(#[trigger] a[i])
}

/// The first item of `s` of which `p` holds.
pub open spec fn first_such<A>(s: Seq<A>, p: spec_fn(A) -> bool) -> Option<A>
    decreases s.len(),
{
    if s.len() == 0 {
        None
    } else if p(s.first()) {
        Some(s.first())
    } else {
        first_such(s.drop_first(), p)
    }
}

/// `first_such` finds nothing exactly when `p` holds of no item, and what it
/// finds is the item at the first place where `p` holds.
pub proof fn lemma_first_such<A>(s: Seq<A>, p: spec_fn(A) -> bool)
    ensures
        first_such(s, p) is None <==> forall|i: int| 0 <= i < s.len() ==> !p(#[trigger] s[i]),
        first_such(s, p) matches Some(c) ==> exists|i: int|
            0 <= i < s.len() && #[trigger] s[i] == c && p(c) && forall|j: int|
                0 <= j < i ==> !p(#[trigger] s[j]),
    decreases s.len(),
{
    if s.len() > 0 {
        if p(s.first()) {
            assert(s[0] == s.first());
        } else {
            let t = s.drop_first();
            lemma_first_such(t, p);
            if first_such(t, p) is Some {
                let c = first_such(t, p)->0;
                let i = choose|i: int|
                    0 <= i < t.len() && #[trigger] t[i] == c && p(c) && forall|j: int|
                        0 <= j < i ==> !p(#[trigger] t[j]);
                assert(s[i + 1] == c);
                assert forall|j: int| 0 <= j < i + 1 implies !p(#[trigger] s[j]) by {
                    if j > 0 {
                        assert(t[j - 1] == s[j]);
                    }
                }
            } else {
                assert forall|i: int| 0 <= i < s.len() implies !p(#[trigger] s[i]) by {
                    if i > 0 {
                        assert(t[i - 1] == s[i]);
                    }
                }
            }
        }
    }
}

/// Where `p` holds at `i` and at no earlier place, `first_such` finds the
/// item at `i`.
pub proof fn lemma_first_such_at<A>(s: Seq<A>, p: spec_fn(A) -> bool, i: int)
    requires
        0 <= i < s.len(),
        p(s[i]),
        forall|j: int| 0 <= j < i ==> !p(#[trigger] s[j]),
    ensures
        first_such(s, p) == Some(s[i]),
    decreases s.len(),
{
    if i > 0 {
        let t = s.drop_first();
        assert(!p(s[0]));
        assert forall|j: int| 0 <= j < i - 1 implies !p(#[trigger] t[j]) by {
            assert(t[j] == s[j + 1]);
        }
        lemma_first_such_at(t, p, i - 1);
    }
}

/// Inserting into a sorted list keeps it sorted and adds exactly `x`.
pub proof fn lemma_inserted(s: Seq<Seq<char>>, x: Seq<char>)
    requires
        strictly_sorted(s),
    ensures
        strictly_sorted(inserted(s, x)),
        forall|y: Seq<char>| #[trigger] inserted(s, x).contains(y) <==> (s.contains(y) || y == x),
    decreases s.len(),
{
    let r = inserted(s, x);
    if s.len() == 0 {
        assert(r[0] == x);
    } else if s.last() == x {
        assert(s[s.len() - 1] == x);
    } else if precedes(s.last(), x) {
        assert forall|i: int, j: int| 0 <= i < j < r.len() implies precedes(
            #[trigger] r[i],
            #[trigger] r[j],
        ) by {
            if j == s.len() && i < s.len() - 1 {
                lemma_precedes_transitive(s[i], s.last(), x);
            }
        }
        assert(r[s.len() as int] == x);
        assert forall|y: Seq<char>| #[trigger] r.contains(y) implies (s.contains(y) || y == x) by {
            let k = choose|k: int| 0 <= k < r.len() && r[k] == y;
            if k < s.len() {
                assert(s[k] == y);
            }
        }
        assert forall|y: Seq<char>| s.contains(y) implies #[trigger] r.contains(y) by {
            let k = choose|k: int| 0 <= k < s.len() && s[k] == y;
            assert(r[k] == y);
        }
    } else {
        let p = s.drop_last();
        let q = inserted(p, x);
        lemma_inserted(p, x);
        lemma_precedes_total(s.last(), x);
        assert forall|i: int, j: int| 0 <= i < j < r.len() implies precedes(
            #[trigger] r[i],
            #[trigger] r[j],
        ) by {
            if j == q.len() {
                assert(q.contains(q[i]));
                if q[i] != x {
                    let k = choose|k: int| 0 <= k < p.len() && p[k] == q[i];
                    assert(precedes(s[k], s[s.len() - 1]));
                }
            } else {
                assert(precedes(q[i], q[j]));
            }
        }
        assert forall|y: Seq<char>| #[trigger] r.contains(y) implies (s.contains(y) || y == x) by {
            let k = choose|k: int| 0 <= k < r.len() && r[k] == y;
            if k < q.len() {
                assert(q.contains(q[k]));
                if y != x {
                    let m = choose|m: int| 0 <= m < p.len() && p[m] == y;
                    assert(s[m] == y);
                }
            } else {
                assert(s[s.len() - 1] == y);
            }
        }
        assert forall|y: Seq<char>| (s.contains(y) || y == x) implies #[trigger] r.contains(y) by {
            if y == x {
                assert(q.contains(x));
                let k = choose|k: int| 0 <= k < q.len() && q[k] == x;
                assert(r[k] == y);
            } else {
                let k = choose|k: int| 0 <= k < s.len() && s[k] == y;
                if k < p.len() {
                    assert(p[k] == y);
                    assert(p.contains(y));
                    assert(q.contains(y));
                    let m = choose|m: int| 0 <= m < q.len() && q[m] == y;
                    assert(r[m] == y);
                } else {
                    assert(r[q.len() as int] == y);
                }
            }
        }
    }
}

/// A normalized list is sorted, and holds exactly the trimmed names of the
/// list it was made from.
pub proof fn lemma_normalized(v: Seq<Seq<char>>)
    ensures
        strictly_sorted(normalized(v)),
        forall|y: Seq<char>| #[trigger]
            normalized(v).contains(y) <==> exists|i: int|
                0 <= i < v.len() && trimmed(#[trigger] v[i]) == y,
        v.len() == 0 <==> normalized(v).len() == 0,
    decreases v.len(),
{
    if v.len() > 0 {
        let p = v.drop_last();
        let t = trimmed(v.last());
        lemma_normalized(p);
        lemma_inserted(normalized(p), t);
        let r = normalized(v);
        assert forall|y: Seq<char>| #[trigger] r.contains(y) implies exists|i: int|
            0 <= i < v.len() && trimmed(#[trigger] v[i]) == y by {
            if y == t {
                assert(trimmed(v[v.len() - 1]) == y);
            } else {
                assert(normalized(p).contains(y));
                let k = choose|k: int| 0 <= k < p.len() && trimmed(#[trigger] p[k]) == y;
                assert(trimmed(v[k]) == y);
            }
        }
        assert forall|y: Seq<char>|
            (exists|i: int| 0 <= i < v.len() && trimmed(#[trigger] v[i]) == y) implies #[trigger]
            r.contains(y) by {
            let k = choose|k: int| 0 <= k < v.len() && trimmed(#[trigger] v[k]) == y;
            if k < p.len() {
                assert(trimmed(p[k]) == y);
                assert(normalized(p).contains(y));
            }
        }
        assert(r.contains(t));
    }
}

/// A sorted list of trimmed names is its own normal form.
pub proof fn lemma_normalized_fixed(s: Seq<Seq<char>>)
    requires
        strictly_sorted(s),
        forall|i: int| 0 <= i < s.len() ==> trimmed(#[trigger] s[i]) == s[i],
    ensures
        normalized(s) == s,
    decreases s.len(),
{
    if s.len() > 0 {
        let p = s.drop_last();
        let x = s.last();
        assert forall|i: int| 0 <= i < p.len() implies trimmed(#[trigger] p[i]) == p[i] by {
            assert(p[i] == s[i]);
        }
        assert(strictly_sorted(p)) by {
            assert forall|i: int, j: int| 0 <= i < j < p.len() implies precedes(
                #[trigger] p[i],
                #[trigger] p[j],
            ) by {
                assert(precedes(s[i], s[j]));
            }
        }
        lemma_normalized_fixed(p);
        assert(trimmed(s[s.len() - 1]) == x);
        if p.len() > 0 {
            assert(precedes(s[p.len() - 1], s[s.len() - 1]));
            lemma_precedes_asymmetric(p.last(), x);
        }
        assert(inserted(p, x) =~= s);
    } else {
        assert(normalized(s) =~= s);
    }
}

/// Normalizing a normalized list changes nothing.
pub proof fn lemma_normalized_idempotent(v: Seq<Seq<char>>)
    ensures
        normalized(normalized(v)) == normalized(v),
{
    let n = normalized(v);
    lemma_normalized(v);
    assert forall|i: int| 0 <= i < n.len() implies trimmed(#[trigger] n[i]) == n[i] by {
        assert(n.contains(n[i]));
        let k = choose|k: int| 0 <= k < v.len() && trimmed(#[trigger] v[k]) == n[i];
        lemma_trimmed(v[k]);
    }
    lemma_normalized_fixed(n);
}

/// Two sorted lists with the same names are the same list.
pub proof fn lemma_sorted_same(a: Seq<Seq<char>>, b: Seq<Seq<char>>)
    requires
        strictly_sorted(a),
        strictly_sorted(b),
        forall|y: Seq<char>| a.contains(y) <==> b.contains(y),
    ensures
        a == b,
    decreases a.len(),
{
    if a.len() == 0 {
        if b.len() > 0 {
            assert(b.contains(b[0]));
        }
        assert(a =~= b);
    } else if b.len() == 0 {
        assert(a.contains(a[0]));
    } else {
        let x = a.last();
        let y = b.last();
        assert(a.contains(x)) by {
            assert(a[a.len() - 1] == x);
        }
        assert(b.contains(y)) by {
            assert(b[b.len() - 1] == y);
        }
        let i = choose|i: int| 0 <= i < b.len() && b[i] == x;
        let j = choose|j: int| 0 <= j < a.len() && a[j] == y;
        if x != y {
            assert(precedes(b[i], b[b.len() - 1]));
            assert(precedes(a[j], a[a.len() - 1]));
            lemma_precedes_asymmetric(x, y);
        }
        let p = a.drop_last();
        let q = b.drop_last();
        assert forall|z: Seq<char>| p.contains(z) <==> q.contains(z) by {
            if p.contains(z) {
                let k = choose|k: int| 0 <= k < p.len() && p[k] == z;
                assert(precedes(a[k], a[a.len() - 1]));
                lemma_precedes_asymmetric(z, x);
                assert(a.contains(z)) by {
                    assert(a[k] == z);
                }
                let m = choose|m: int| 0 <= m < b.len() && b[m] == z;
                assert(q[m] == z);
            }
            if q.contains(z) {
                let k = choose|k: int| 0 <= k < q.len() && q[k] == z;
                assert(precedes(b[k], b[b.len() - 1]));
                lemma_precedes_asymmetric(z, y);
                assert(b.contains(z)) by {
                    assert(b[k] == z);
                }
                let m = choose|m: int| 0 <= m < a.len() && a[m] == z;
                assert(p[m] == z);
            }
        }
        assert(strictly_sorted(p)) by {
            assert forall|i: int, j: int| 0 <= i < j < p.len() implies precedes(
                #[trigger] p[i],
                #[trigger] p[j],
            ) by {
                assert(precedes(a[i], a[j]));
            }
        }
        assert(strictly_sorted(q)) by {
            assert forall|i: int, j: int| 0 <= i < j < q.len() implies precedes(
                #[trigger] q[i],
                #[trigger] q[j],
            ) by {
                assert(precedes(b[i], b[j]));
            }
        }
        lemma_sorted_same(p, q);
        assert(a =~= p.push(x));
        assert(b =~= q.push(y));
    }
}

/// The set of the trimmed names of a list.
pub open spec fn trimmed_names(v: Seq<Seq<char>>) -> Set<Seq<char>> {
    Set::new(|y: Seq<char>| exists|i: int| 0 <= i < v.len() && trimmed(#[trigger] v[i]) == y)
}

/// The normal form of a list depends on nothing but the set of its trimmed
/// names: neither on their order nor on how often each is written.
pub proof fn lemma_normalized_by_names(a: Seq<Seq<char>>, b: Seq<Seq<char>>)
    requires
        trimmed_names(a) == trimmed_names(b),
    ensures
        normalized(a) == normalized(b),
{
    lemma_normalized(a);
    lemma_normalized(b);
    assert forall|y: Seq<char>| normalized(a).contains(y) <==> normalized(b).contains(y) by {
        assert(normalized(a).contains(y) <==> trimmed_names(a).contains(y));
        assert(normalized(b).contains(y) <==> trimmed_names(b).contains(y));
    }
    lemma_sorted_same(normalized(a), normalized(b));
}

/// Where the place of `x` in a sorted list is known, inserting it there gives
/// the list with `x` inserted.
pub proof fn lemma_inserted_at(s: Seq<Seq<char>>, x: Seq<char>, i: int)
    requires
        strictly_sorted(s),
        0 <= i <= s.len(),
        forall|j: int| 0 <= j < i ==> precedes(#[trigger] s[j], x),
        i < s.len() ==> !precedes(s[i], x),
    ensures
        inserted(s, x) == if i < s.len() && s[i] == x {
            s
        } else {
            s.insert(i, x)
        },
    decreases s.len(),
{
    if s.len() == 0 {
        assert(seq![x] =~= s.insert(0, x));
    } else if i == s.len() {
        lemma_precedes_asymmetric(s.last(), x);
        assert(s.push(x) =~= s.insert(i, x));
    } else if i == s.len() - 1 {
        if s.last() != x {
            let p = s.drop_last();
            lemma_inserted_at(p, x, i);
            assert(p.insert(i, x).push(s.last()) =~= s.insert(i, x));
        }
    } else {
        assert(precedes(s[i], s[s.len() - 1]));
        if s.last() == x {
        } else if precedes(s.last(), x) {
            lemma_precedes_transitive(s[i], s.last(), x);
        } else {
            let p = s.drop_last();
            lemma_inserted_at(p, x, i);
            if s[i] == x {
                assert(p.push(s.last()) =~= s);
            } else {
                assert(p.insert(i, x).push(s.last()) =~= s.insert(i, x));
            }
        }
    }
}

/// Puts `name` at its place in a sorted list, unless it is there already.
pub fn insert_name(v: &mut Vec<String>, name: String)
    requires
        strictly_sorted(views(old(v)@)),
    ensures
        views(final(v)@) == inserted(views(old(v)@), name@),
        strictly_sorted(views(final(v)@)),
{
    let ghost before = views(v@);
    let mut i: usize = 0;
    while i < v.len() && str_lt(v[i].as_str(), name.as_str())
        invariant
            i <= v.len(),
            views(v@) == before,
            forall|j: int| 0 <= j < i ==> precedes(#[trigger] before[j], name@),
        decreases v.len() - i,
    {
        assert(before[i as int] == v[i as int]@);
        i += 1;
    }
    proof {
        if i < v.len() {
            assert(before[i as int] == v[i as int]@);
        }
        lemma_inserted_at(before, name@, i as int);
        lemma_inserted(before, name@);
    }
    if i < v.len() && str_eq(v[i].as_str(), name.as_str()) {
    } else {
        v.insert(i, name);
        assert(views(v@) =~= before.insert(i as int, name@));
    }
}

/// The names of `v`, each trimmed, in ascending order and without repeats.
pub fn normalize_names(v: &Vec<String>) -> (r: Vec<String>)
    ensures
        views(r@) == normalized(views(v@)),
        strictly_sorted(views(r@)),
{
    let mut r: Vec<String> = Vec::new();
    let mut i: usize = 0;
    assert(views(v@).take(0) =~= Seq::empty());
    assert(views(r@) =~= Seq::empty());
    while i < v.len()
        invariant
            i <= v.len(),
            views(r@) == normalized(views(v@).take(i as int)),
            strictly_sorted(views(r@)),
        decreases v.len() - i,
    {
        let name = trim(v[i].as_str()).to_owned();
        proof {
            let next = views(v@).take(i + 1);
            assert(next.drop_last() =~= views(v@).take(i as int));
            assert(next.last() == v[i as int]@);
        }
        insert_name(&mut r, name);
        i += 1;
    }
    assert(views(v@).take(v.len() as int) =~= views(v@));
    r
}

/// Whether `v` holds `name`.
pub fn contains_name(v: &Vec<String>, name: &str) -> (r: bool)
    ensures
        r == views(v@).contains(name@),
{
    let mut i: usize = 0;
    while i < v.len()
        invariant
            i <= v.len(),
            forall|j: int| 0 <= j < i ==> views(v@)[j] != name@,
        decreases v.len() - i,
    {
        if str_eq(v[i].as_str(), name) {
            assert(views(v@)[i as int] == name@);
            return true;
        }
        i += 1;
    }
    false
}

/// Whether every name of `a` is a name of `b`.
pub fn is_subset(a: &Vec<String>, b: &Vec<String>) -> (r: bool)
    ensures
        r == subset_of(views(a@), views(b@)),
{
    let mut i: usize = 0;
    while i < a.len()
        invariant
            i <= a.len(),
            forall|j: int| 0 <= j < i ==> views(b@).contains(#[trigger] views(a@)[j]),
        decreases a.len() - i,
    {
        if !contains_name(b, a[i].as_str()) {
            assert(views(a@)[i as int] == a[i as int]@);
            return false;
        }
        assert(views(a@)[i as int] == a[i as int]@);
        i += 1;
    }
    true
}

/// Whether two lists hold the same names in the same order.
pub fn same_names(a: &Vec<String>, b: &Vec<String>) -> (r: bool)
    ensures
        r == (views(a@) == views(b@)),
{
    if a.len() != b.len() {
        assert(views(a@).len() != views(b@).len());
        return false;
    }
    let mut i: usize = 0;
    while i < a.len()
        invariant
            i <= a.len(),
            a.len() == b.len(),
            forall|j: int| 0 <= j < i ==> views(a@)[j] == views(b@)[j],
        decreases a.len() - i,
    {
        if !str_eq(a[i].as_str(), b[i].as_str()) {
            assert(views(a@)[i as int] != views(b@)[i as int]);
            return false;
        }
        i += 1;
    }
    assert(views(a@) =~= views(b@));
    true
}

/// Whether the names of `v` are in ascending order with nothing twice.
pub fn is_strictly_sorted(v: &Vec<String>) -> (r: bool)
    ensures
        r == strictly_sorted(views(v@)),
{
    if v.len() == 0 {
        return true;
    }
    let ghost s = views(v@);
    let mut i: usize = 1;
    while i < v.len()
        invariant
            1 <= i <= v.len(),
            s == views(v@),
            strictly_sorted(s.take(i as int)),
        decreases v.len() - i,
    {
        if !str_lt(v[i - 1].as_str(), v[i].as_str()) {
            assert(!precedes(s[i - 1], s[i as int]));
            return false;
        }
        proof {
            let next = s.take(i + 1);
            assert forall|a: int, b: int| 0 <= a < b < next.len() implies precedes(
                #[trigger] next[a],
                #[trigger] next[b],
            ) by {
                if b == i && a < i - 1 {
                    assert(precedes(s.take(i as int)[a], s.take(i as int)[i - 1]));
                    lemma_precedes_transitive(s[a], s[i - 1], s[i as int]);
                } else if b < i {
                    assert(precedes(s.take(i as int)[a], s.take(i as int)[b]));
                }
            }
        }
        i += 1;
    }
    assert(s.take(v.len() as int) =~= s);
    true
}

/// Whether no name occurs twice in `v`.
pub fn no_repeats(v: &Vec<String>) -> (r: bool)
    ensures
        r == views(v@).no_duplicates(),
{
    let ghost s = views(v@);
    let mut i: usize = 0;
    while i < v.len()
        invariant
            i <= v.len(),
            s == views(v@),
            forall|a: int, b: int| 0 <= a < b < i ==> s[a] != s[b],
        decreases v.len() - i,
    {
        let mut j: usize = 0;
        while j < i
            invariant
                j <= i < v.len(),
                s == views(v@),
                forall|a: int| 0 <= a < j ==> s[a] != s[i as int],
            decreases i - j,
        {
            if str_eq(v[j].as_str(), v[i].as_str()) {
                assert(s[j as int] == s[i as int]);
                return false;
            }
            j += 1;
        }
        i += 1;
    }
    true
}

/// A copy of `v`.
pub fn clone_names(v: &Vec<String>) -> (r: Vec<String>)
    ensures
        views(r@) == views(v@),
{
    let r = v.clone();
    assert(views(r@) =~= views(v@));
    r
}

} // verus!
