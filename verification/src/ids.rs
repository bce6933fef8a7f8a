//! Lists of operation ids held as sets: in ascending order, nothing twice.

use vstd::prelude::*;

verus! {

/// Each id is smaller than every later one.
pub open spec fn ascending(s: Seq<u64>) -> bool {
    forall|i: int, j: int| 0 <= i < j < s.len() ==> s[i] < s[j]
}

/// `s` with `x` put at its place in the order, unless `s` holds it already.
pub open spec fn with_id(s: Seq<u64>, x: u64) -> Seq<u64>
    decreases s.len(),
{
    if s.len() == 0 {
        seq![x]
    } else if s.last() == x {
        s
    } else if s.last() < x {
        s.push(x)
    } else {
        with_id(s.drop_last(), x).push(s.last())
    }
}

/// The ids of `v` in ascending order and without repeats.
pub open spec fn sorted_ids(v: Seq<u64>) -> Seq<u64>
    decreases v.len(),
{
    if v.len() == 0 {
        Seq::empty()
    } else {
        with_id(sorted_ids(v.drop_last()), v.last())
    }
}

/// Inserting into an ascending list keeps it ascending and adds exactly `x`.
pub proof fn lemma_with_id(s: Seq<u64>, x: u64)
    requires
        ascending(s),
    ensures
        ascending(with_id(s, x)),
        forall|y: u64| #[trigger] with_id(s, x).contains(y) <==> (s.contains(y) || y == x),
    decreases s.len(),
{
    let r = with_id(s, x);
    if s.len() == 0 {
        assert(r[0] == x);
    } else if s.last() == x {
        assert(s[s.len() - 1] == x);
    } else if s.last() < x {
        assert(r[s.len() as int] == x);
        assert forall|y: u64| #[trigger] r.contains(y) implies (s.contains(y) || y == x) by {
            let k = choose|k: int| 0 <= k < r.len() && r[k] == y;
            if k < s.len() {
                assert(s[k] == y);
            }
        }
        assert forall|y: u64| s.contains(y) implies #[trigger] r.contains(y) by {
            let k = choose|k: int| 0 <= k < s.len() && s[k] == y;
            assert(r[k] == y);
        }
    } else {
        let p = s.drop_last();
        let q = with_id(p, x);
        lemma_with_id(p, x);
        assert forall|i: int, j: int| 0 <= i < j < r.len() implies r[i] < r[j] by {
            if j == q.len() {
                assert(q.contains(q[i]));
                if q[i] != x {
                    let k = choose|k: int| 0 <= k < p.len() && p[k] == q[i];
                    assert(s[k] < s[s.len() - 1]);
                }
            }
        }
        assert forall|y: u64| #[trigger] r.contains(y) implies (s.contains(y) || y == x) by {
            let k = choose|k: int| 0 <= k < r.len() && r[k] == y;
            if k < q.len() {
                assert(q.contains(q[k]));
                if y != x {
                    let m = choose|m: int| 0 <= m < p.len() && p[m] == y;
                    assert(s[m] == y);
                }
            } else {
                assert(s[s.len() - 1] == y);
            }
        }
        assert forall|y: u64| (s.contains(y) || y == x) implies #[trigger] r.contains(y) by {
            if y == x {
                assert(q.contains(x));
                let k = choose|k: int| 0 <= k < q.len() && q[k] == x;
                assert(r[k] == y);
            } else {
                let k = choose|k: int| 0 <= k < s.len() && s[k] == y;
                if k < p.len() {
                    assert(p[k] == y);
                    assert(p.contains(y));
                    assert(q.contains(y));
                    let m = choose|m: int| 0 <= m < q.len() && q[m] == y;
                    assert(r[m] == y);
                } else {
                    assert(r[q.len() as int] == y);
                }
            }
        }
    }
}

/// A sorted list of ids is ascending and holds exactly the ids it was made
/// from.
pub proof fn lemma_sorted_ids(v: Seq<u64>)
    ensures
        ascending(sorted_ids(v)),
        forall|y: u64| #[trigger] sorted_ids(v).contains(y) <==> v.contains(y),
    decreases v.len(),
{
    if v.len() > 0 {
        let p = v.drop_last();
        lemma_sorted_ids(p);
        lemma_with_id(sorted_ids(p), v.last());
        let r = sorted_ids(v);
        assert forall|y: u64| #[trigger] r.contains(y) implies v.contains(y) by {
            if y == v.last() {
                assert(v[v.len() - 1] == y);
            } else {
                assert(p.contains(y));
                let k = choose|k: int| 0 <= k < p.len() && p[k] == y;
                assert(v[k] == y);
            }
        }
        assert forall|y: u64| v.contains(y) implies #[trigger] r.contains(y) by {
            let k = choose|k: int| 0 <= k < v.len() && v[k] == y;
            if k < p.len() {
                assert(p[k] == y);
                assert(p.contains(y));
            }
        }
    }
}

/// An ascending list of ids is its own sorted form.
pub proof fn lemma_sorted_ids_fixed(s: Seq<u64>)
    requires
        ascending(s),
    ensures
        sorted_ids(s) == s,
    decreases s.len(),
{
    if s.len() > 0 {
        let p = s.drop_last();
        assert(ascending(p));
        lemma_sorted_ids_fixed(p);
        if p.len() > 0 {
            assert(s[p.len() - 1] < s[s.len() - 1]);
        }
        assert(with_id(p, s.last()) =~= s);
    } else {
        assert(sorted_ids(s) =~= s);
    }
}

/// Where the place of `x` in an ascending list is known, inserting it there
/// gives the list with `x` inserted.
pub proof fn lemma_with_id_at(s: Seq<u64>, x: u64, i: int)
    requires
        ascending(s),
        0 <= i <= s.len(),
        forall|j: int| 0 <= j < i ==> s[j] < x,
        i < s.len() ==> s[i] >= x,
    ensures
        with_id(s, x) == if i < s.len() && s[i] == x {
            s
        } else {
            s.insert(i, x)
        },
    decreases s.len(),
{
    if s.len() == 0 {
        assert(seq![x] =~= s.insert(0, x));
    } else if i == s.len() {
        assert(s.push(x) =~= s.insert(i, x));
    } else if i == s.len() - 1 {
        if s.last() != x {
            let p = s.drop_last();
            lemma_with_id_at(p, x, i);
            assert(p.insert(i, x).push(s.last()) =~= s.insert(i, x));
        }
    } else {
        assert(s[i] < s[s.len() - 1]);
        let p = s.drop_last();
        lemma_with_id_at(p, x, i);
        if s[i] == x {
            assert(p.push(s.last()) =~= s);
        } else {
            assert(p.insert(i, x).push(s.last()) =~= s.insert(i, x));
        }
    }
}

/// Puts `id` at its place in an ascending list, unless it is there already.
pub fn insert_id(v: &mut Vec<u64>, id: u64)
    requires
        ascending(old(v)@),
    ensures
        final(v)@ == with_id(old(v)@, id),
        ascending(final(v)@),
{
    let ghost before = v@;
    let mut i: usize = 0;
    while i < v.len() && v[i] < id
        invariant
            i <= v.len(),
            v@ == before,
            forall|j: int| 0 <= j < i ==> before[j] < id,
        decreases v.len() - i,
    {
        i += 1;
    }
    proof {
        lemma_with_id_at(before, id, i as int);
        lemma_with_id(before, id);
    }
    if i < v.len() && v[i] == id {
    } else {
        v.insert(i, id);
    }
}

/// The ids of `v` in ascending order and without repeats.
pub fn normalize_ids(v: &Vec<u64>) -> (r: Vec<u64>)
    ensures
        r@ == sorted_ids(v@),
        ascending(r@),
{
    let mut r: Vec<u64> = Vec::new();
    let mut i: usize = 0;
    assert(v@.take(0) =~= Seq::empty());
    while i < v.len()
        invariant
            i <= v.len(),
            r@ == sorted_ids(v@.take(i as int)),
            ascending(r@),
        decreases v.len() - i,
    {
        proof {
            let next = v@.take(i + 1);
            assert(next.drop_last() =~= v@.take(i as int));
        }
        insert_id(&mut r, v[i]);
        i += 1;
    }
    assert(v@.take(v.len() as int) =~= v@);
    r
}

/// Whether the ids of `v` are in ascending order with nothing twice.
pub fn is_ascending(v: &Vec<u64>) -> (r: bool)
    ensures
        r == ascending(v@),
{
    if v.len() == 0 {
        return true;
    }
    let mut i: usize = 1;
    while i < v.len()
        invariant
            1 <= i <= v.len(),
            forall|a: int, b: int| 0 <= a < b < i ==> v@[a] < v@[b],
        decreases v.len() - i,
    {
        if v[i - 1] >= v[i] {
            return false;
        }
        assert forall|a: int, b: int| 0 <= a < b < i + 1 implies v@[a] < v@[b] by {
            if b == i && a < i - 1 {
                assert(v@[a] < v@[i - 1]);
            }
        }
        i += 1;
    }
    true
}

/// Whether `v` holds `id`.
pub fn contains_id(v: &Vec<u64>, id: u64) -> (r: bool)
    ensures
        r == v@.contains(id),
{
    let mut i: usize = 0;
    while i < v.len()
        invariant
            i <= v.len(),
            forall|j: int| 0 <= j < i ==> v@[j] != id,
        decreases v.len() - i,
    {
        if v[i] == id {
            return true;
        }
        i += 1;
    }
    false
}

/// Whether two lists hold the same ids in the same order.
pub fn same_ids(a: &Vec<u64>, b: &Vec<u64>) -> (r: bool)
    ensures
        r == (a@ == b@),
{
    if a.len() != b.len() {
        return false;
    }
    let mut i: usize = 0;
    while i < a.len()
        invariant
            i <= a.len(),
            a.len() == b.len(),
            forall|j: int| 0 <= j < i ==> a@[j] == b@[j],
        decreases a.len() - i,
    {
        if a[i] != b[i] {
            return false;
        }
        i += 1;
    }
    assert(a@ =~= b@);
    true
}

} // verus!
