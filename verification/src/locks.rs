//! The lock coordinator: which component is held, shared or exclusive, and
//! which operations can be under way at the same time.

use crate::assoc::{
    as_map, lemma_as_map_push, lemma_lookup, lemma_lookup_at, lemma_lookup_remove, lookup,
};
use crate::error::{Error, ErrorView};
use crate::model::{views_of, Operation, OperationView};
use crate::names::{
    contains_name, first_such, lemma_first_such, lemma_first_such_at, strictly_sorted, subset_of,
};
use crate::text::{lemma_precedes_asymmetric, precedes, str_eq};
use vstd::prelude::*;

verus! {

/// How a component is held.
#[derive(Clone, Copy, Debug, PartialEq, Eq, Structural)]
pub enum ComponentLock {
    /// Held by operations that affect the component without locking it. Any
    /// number of operations can hold a component in this way.
    Shared,
    /// Held by the one operation that names the component among its locks.
    Exclusive,
}

/// What becomes of a lock table when a lock is asked for: a component that
/// is not held is held as asked; one that is held can only be shared again.
pub open spec fn acquired(
    table: Map<Seq<char>, ComponentLock>,
    component: Seq<char>,
    lock: ComponentLock,
) -> Option<Map<Seq<char>, ComponentLock>> {
    if !table.contains_key(component) {
        Some(table.insert(component, lock))
    } else if lock == ComponentLock::Exclusive || table[component] == ComponentLock::Exclusive {
        None
    } else {
        Some(table)
    }
}

/// The lists that decide what an operation holds are in normal form: sorted,
/// nothing twice, every lock among the components.
pub open spec fn settled(operation: OperationView) -> bool {
    &&& strictly_sorted(operation.components)
    &&& strictly_sorted(operation.locks)
    &&& subset_of(operation.locks, operation.components)
}

/// How an operation holds a component: not at all unless it is under way,
/// exclusively if it locks the component, shared if it only affects it.
pub open spec fn holding(operation: OperationView, component: Seq<char>) -> Option<ComponentLock> {
    if !operation.status.active() {
        None
    } else if operation.locks.contains(component) {
        Some(ComponentLock::Exclusive)
    } else if operation.components.contains(component) {
        Some(ComponentLock::Shared)
    } else {
        None
    }
}

/// Two operations can be under way together: no component is held by both
/// unless both share it.
pub open spec fn compatible(a: OperationView, b: OperationView) -> bool {
    forall|c: Seq<char>|
        (#[trigger] holding(a, c) is Some && holding(b, c) is Some) ==> (holding(a, c) == Some(
            ComponentLock::Shared,
        ) && holding(b, c) == Some(ComponentLock::Shared))
}

/// No two operations of the list are in each other's way.
pub open spec fn conflict_free(operations: Seq<OperationView>) -> bool {
    forall|i: int, j: int|
        0 <= i < j < operations.len() ==> compatible(
            #[trigger] operations[i],
            #[trigger] operations[j],
        )
}

/// Every operation of `operations` can be under way together with `x`.
pub open spec fn admits(operations: Seq<OperationView>, x: OperationView) -> bool {
    forall|i: int| 0 <= i < operations.len() ==> compatible(#[trigger] operations[i], x)
}

/// The lock table that a list of operations gives rise to: a component is
/// held exclusively where an operation under way locks it, shared where
/// operations under way only affect it, and not at all otherwise.
pub open spec fn held(operations: Seq<OperationView>) -> Map<Seq<char>, ComponentLock> {
    Map::new(
        |c: Seq<char>|
            exists|i: int| 0 <= i < operations.len() && holding(#[trigger] operations[i], c) is Some,
        |c: Seq<char>|
            if exists|i: int|
                0 <= i < operations.len() && holding(#[trigger] operations[i], c) == Some(
                    ComponentLock::Exclusive,
                ) {
                ComponentLock::Exclusive
            } else {
                ComponentLock::Shared
            },
    )
}

/// Of a component: whether the table holds it.
pub open spec fn taken(table: Map<Seq<char>, ComponentLock>) -> spec_fn(Seq<char>) -> bool {
    |c: Seq<char>| table.contains_key(c)
}

/// Of a component: whether it is none of `locks` and the table holds it
/// exclusively.
pub open spec fn barred(table: Map<Seq<char>, ComponentLock>, locks: Seq<Seq<char>>) -> spec_fn(
    Seq<char>,
) -> bool {
    |c: Seq<char>|
        !locks.contains(c) && table.contains_key(c) && table[c] == ComponentLock::Exclusive
}

/// The component on which an operation that wants to be under way fails to
/// get its locks: the first of its locks that is held at all, or else the
/// first of its other components that is held exclusively.
pub open spec fn conflict(
    table: Map<Seq<char>, ComponentLock>,
    operation: OperationView,
) -> Option<Seq<char>> {
    if !operation.status.active() {
        None
    } else {
        match first_such(operation.locks, taken(table)) {
            Some(c) => Some(c),
            None => first_such(operation.components, barred(table, operation.locks)),
        }
    }
}

/// The lock table after an operation under way got its locks: exclusive on
/// each of its locks, shared on each of its other components.
pub open spec fn granted(
    table: Map<Seq<char>, ComponentLock>,
    operation: OperationView,
) -> Map<Seq<char>, ComponentLock> {
    Map::new(
        |c: Seq<char>|
            table.contains_key(c) || operation.locks.contains(c) || operation.components.contains(c),
        |c: Seq<char>|
            if operation.locks.contains(c) {
                ComponentLock::Exclusive
            } else if table.contains_key(c) {
                table[c]
            } else {
                ComponentLock::Shared
            },
    )
}

/// The lock table with what `operation` holds added to it.
pub open spec fn extended(
    table: Map<Seq<char>, ComponentLock>,
    operation: OperationView,
) -> Map<Seq<char>, ComponentLock> {
    if operation.status.active() {
        granted(table, operation)
    } else {
        table
    }
}

/// Being compatible does not depend on the order of the two operations.
pub proof fn lemma_compatible_symmetric(a: OperationView, b: OperationView)
    requires
        compatible(a, b),
    ensures
        compatible(b, a),
{
    assert forall|c: Seq<char>| (#[trigger] holding(b, c) is Some && holding(a, c) is Some) implies (
    holding(b, c) == Some(ComponentLock::Shared) && holding(a, c) == Some(ComponentLock::Shared)) by {
        assert(holding(a, c) is Some);
    }
}

/// Some operation of the list holds `component` in the way `lock`.
pub open spec fn held_as(
    operations: Seq<OperationView>,
    component: Seq<char>,
    lock: ComponentLock,
) -> bool {
    exists|i: int|
        0 <= i < operations.len() && holding(#[trigger] operations[i], component) == Some(lock)
}

/// With one more operation in the list, a component is held in some way by
/// one that was there or by the new one.
proof fn lemma_held_as_insert(
    operations: Seq<OperationView>,
    k: int,
    x: OperationView,
    c: Seq<char>,
    lock: ComponentLock,
)
    requires
        0 <= k <= operations.len(),
    ensures
        held_as(operations.insert(k, x), c, lock) <==> (held_as(operations, c, lock) || holding(x, c)
            == Some(lock)),
{
    let s = operations;
    let r = s.insert(k, x);
    if held_as(r, c, lock) {
        let i = choose|i: int| 0 <= i < r.len() && holding(#[trigger] r[i], c) == Some(lock);
        if i < k {
            assert(holding(s[i], c) == Some(lock));
        } else if i > k {
            assert(holding(s[i - 1], c) == Some(lock));
        }
    }
    if held_as(s, c, lock) {
        let i = choose|i: int| 0 <= i < s.len() && holding(#[trigger] s[i], c) == Some(lock);
        if i < k {
            assert(holding(r[i], c) == Some(lock));
        } else {
            assert(holding(r[i + 1], c) == Some(lock));
        }
    }
    if holding(x, c) == Some(lock) {
        assert(holding(r[k], c) == Some(lock));
    }
}

/// A component is in the table of a list exactly when an operation of the
/// list holds it, and it is exclusive there exactly when one holds it so.
pub proof fn lemma_held(operations: Seq<OperationView>, c: Seq<char>)
    ensures
        held(operations).contains_key(c) <==> (held_as(operations, c, ComponentLock::Shared)
            || held_as(operations, c, ComponentLock::Exclusive)),
        held(operations).contains_key(c) ==> (held(operations)[c] == ComponentLock::Exclusive
            <==> held_as(operations, c, ComponentLock::Exclusive)),
{
    let s = operations;
    if held(s).contains_key(c) {
        let i = choose|i: int| 0 <= i < s.len() && holding(#[trigger] s[i], c) is Some;
        if holding(s[i], c) == Some(ComponentLock::Shared) {
            assert(held_as(s, c, ComponentLock::Shared));
        } else {
            assert(held_as(s, c, ComponentLock::Exclusive));
        }
    }
    if held_as(s, c, ComponentLock::Shared) {
        let i = choose|i: int|
            0 <= i < s.len() && holding(#[trigger] s[i], c) == Some(ComponentLock::Shared);
        assert(holding(s[i], c) is Some);
    }
    if held_as(s, c, ComponentLock::Exclusive) {
        let i = choose|i: int|
            0 <= i < s.len() && holding(#[trigger] s[i], c) == Some(ComponentLock::Exclusive);
        assert(holding(s[i], c) is Some);
    }
}

/// With one more operation in the list, the table holds what it held and
/// what the new operation holds.
pub proof fn lemma_held_insert(operations: Seq<OperationView>, k: int, x: OperationView)
    requires
        0 <= k <= operations.len(),
    ensures
        held(operations.insert(k, x)) == extended(held(operations), x),
{
    let s = operations;
    let r = s.insert(k, x);
    let e = extended(held(s), x);
    assert forall|c: Seq<char>| #[trigger] held(r).contains_key(c) <==> e.contains_key(c) by {
        lemma_held(r, c);
        lemma_held(s, c);
        lemma_held_as_insert(s, k, x, c, ComponentLock::Shared);
        lemma_held_as_insert(s, k, x, c, ComponentLock::Exclusive);
    }
    assert forall|c: Seq<char>| held(r).contains_key(c) implies #[trigger] held(r)[c] == e[c] by {
        lemma_held(r, c);
        lemma_held(s, c);
        lemma_held_as_insert(s, k, x, c, ComponentLock::Shared);
        lemma_held_as_insert(s, k, x, c, ComponentLock::Exclusive);
    }
    assert(held(r) =~= e);
}

/// An operation under way meets no conflict in the table of a list of
/// operations exactly when it is compatible with each of them.
pub proof fn lemma_conflict(operations: Seq<OperationView>, x: OperationView)
    requires
        x.status.active(),
    ensures
        conflict(held(operations), x) is None <==> admits(operations, x),
{
    let s = operations;
    let t = held(s);
    let by_lock = taken(t);
    let by_use = barred(t, x.locks);
    lemma_first_such(x.locks, by_lock);
    lemma_first_such(x.components, by_use);
    if conflict(t, x) is None {
        assert forall|i: int| 0 <= i < s.len() implies compatible(#[trigger] s[i], x) by {
            assert forall|c: Seq<char>|
                (#[trigger] holding(s[i], c) is Some && holding(x, c) is Some) implies (holding(
                s[i],
                c,
            ) == Some(ComponentLock::Shared) && holding(x, c) == Some(ComponentLock::Shared)) by {
                assert(t.contains_key(c));
                if x.locks.contains(c) {
                    let m = choose|m: int| 0 <= m < x.locks.len() && x.locks[m] == c;
                    assert(by_lock(x.locks[m]));
                } else {
                    let m = choose|m: int| 0 <= m < x.components.len() && x.components[m] == c;
                    if holding(s[i], c) == Some(ComponentLock::Exclusive) {
                        assert(by_use(x.components[m]));
                    }
                }
            }
        }
    } else {
        let c = conflict(t, x)->0;
        assert(t.contains_key(c));
        let i = choose|i: int| 0 <= i < s.len() && holding(#[trigger] s[i], c) is Some;
        if first_such(x.locks, by_lock) is Some {
            assert(x.locks.contains(c));
            assert(holding(x, c) == Some(ComponentLock::Exclusive));
            assert(!compatible(s[i], x));
        } else {
            assert(x.components.contains(c));
            assert(holding(x, c) == Some(ComponentLock::Shared));
            let j = choose|j: int|
                0 <= j < s.len() && holding(#[trigger] s[j], c) == Some(ComponentLock::Exclusive);
            assert(holding(s[j], c) is Some);
            assert(!compatible(s[j], x));
        }
    }
}

/// A list without conflicts stays so when an operation that is compatible
/// with each of its operations joins it.
pub proof fn lemma_conflict_free_insert(operations: Seq<OperationView>, k: int, x: OperationView)
    requires
        0 <= k <= operations.len(),
        conflict_free(operations),
        admits(operations, x),
    ensures
        conflict_free(operations.insert(k, x)),
{
    let s = operations;
    let r = s.insert(k, x);
    assert forall|i: int, j: int| 0 <= i < j < r.len() implies compatible(
        #[trigger] r[i],
        #[trigger] r[j],
    ) by {
        let a = if i < k {
            i
        } else {
            i - 1
        };
        let b = if j < k {
            j
        } else {
            j - 1
        };
        if i == k {
            assert(compatible(s[b], x));
            lemma_compatible_symmetric(s[b], x);
        } else if j == k {
            assert(compatible(s[a], x));
        } else {
            assert(compatible(s[a], s[b]));
        }
    }
}

/// A list without conflicts stays so when an operation leaves it, and the
/// operation that left is compatible with each that stays.
pub proof fn lemma_conflict_free_remove(operations: Seq<OperationView>, k: int)
    requires
        0 <= k < operations.len(),
        conflict_free(operations),
    ensures
        conflict_free(operations.remove(k)),
        admits(operations.remove(k), operations[k]),
{
    let s = operations;
    let r = s.remove(k);
    assert forall|i: int, j: int| 0 <= i < j < r.len() implies compatible(
        #[trigger] r[i],
        #[trigger] r[j],
    ) by {
        let a = if i < k {
            i
        } else {
            i + 1
        };
        let b = if j < k {
            j
        } else {
            j + 1
        };
        assert(compatible(s[a], s[b]));
    }
    assert forall|i: int| 0 <= i < r.len() implies compatible(#[trigger] r[i], s[k]) by {
        if i < k {
            assert(compatible(s[i], s[k]));
        } else {
            assert(compatible(s[k], s[i + 1]));
            lemma_compatible_symmetric(s[k], s[i + 1]);
        }
    }
}

/// In a list without conflicts no component is held exclusively by one
/// operation and held at all by another.
pub proof fn lemma_mutual_exclusion(
    operations: Seq<OperationView>,
    i: int,
    j: int,
    component: Seq<char>,
)
    requires
        conflict_free(operations),
        0 <= i < operations.len(),
        0 <= j < operations.len(),
        i != j,
        holding(operations[i], component) == Some(ComponentLock::Exclusive),
    ensures
        holding(operations[j], component) is None,
{
    if i < j {
        assert(compatible(operations[i], operations[j]));
    } else {
        assert(compatible(operations[j], operations[i]));
        assert(holding(operations[j], component) is Some ==> holding(operations[i], component)
            == Some(ComponentLock::Shared));
    }
}

/// The lock table: for each component that is held, how it is held.
#[derive(Debug)]
pub struct LockTable {
    entries: Vec<(String, ComponentLock)>,
}

/// The entries of a lock table with their keys as texts.
pub open spec fn keyed(entries: Seq<(String, ComponentLock)>) -> Seq<(Seq<char>, ComponentLock)> {
    Seq::new(entries.len(), |i: int| (entries[i].0@, entries[i].1))
}

impl View for LockTable {
    type V = Map<Seq<char>, ComponentLock>;

    closed spec fn view(&self) -> Map<Seq<char>, ComponentLock> {
        as_map(keyed(self.entries@))
    }
}

impl Default for LockTable {
    fn default() -> (r: Self)
        ensures
            r@ == Map::<Seq<char>, ComponentLock>::empty(),
    {
        let r = LockTable { entries: Vec::new() };
        assert(r@ =~= Map::<Seq<char>, ComponentLock>::empty());
        r
    }
}

impl LockTable {
    /// The place of the entry that counts for `component`.
    fn position(&self, component: &str) -> (r: Option<usize>)
        ensures
            r is Some <==> self@.contains_key(component@),
            r matches Some(i) ==> i < self.entries.len() && self.entries[i as int].0@ == component@
                && self@[component@] == self.entries[i as int].1,
    {
        let mut i: usize = 0;
        while i < self.entries.len()
            invariant
                i <= self.entries.len(),
                forall|j: int| 0 <= j < i ==> (#[trigger] keyed(self.entries@)[j]).0 != component@,
            decreases self.entries.len() - i,
        {
            if str_eq(self.entries[i].0.as_str(), component) {
                proof {
                    assert(keyed(self.entries@)[i as int].0 == component@);
                    lemma_lookup_at(keyed(self.entries@), i as int);
                }
                return Some(i);
            }
            assert(keyed(self.entries@)[i as int].0 != component@);
            i += 1;
        }
        proof {
            lemma_lookup(keyed(self.entries@), component@);
        }
        None
    }

    /// How `component` is held, if it is.
    pub fn get(&self, component: &str) -> (r: Option<ComponentLock>)
        ensures
            r == if self@.contains_key(component@) {
                Some(self@[component@])
            } else {
                None
            },
    {
        match self.position(component) {
            Some(i) => Some(self.entries[i].1),
            None => None,
        }
    }

    /// Whether no component is held.
    pub fn is_empty(&self) -> (r: bool)
        ensures
            r == (self@ == Map::<Seq<char>, ComponentLock>::empty()),
    {
        let r = self.entries.len() == 0;
        proof {
            if r {
                assert(self@ =~= Map::<Seq<char>, ComponentLock>::empty());
            } else {
                let k = keyed(self.entries@)[0].0;
                lemma_lookup(keyed(self.entries@), k);
                assert(self@.contains_key(k));
            }
        }
        r
    }

    /// Asks for a lock on `component`. A component that is not held becomes
    /// held as asked. One that is held can be shared again if it is shared;
    /// every other request fails and leaves the table as it was.
    pub fn lock(&mut self, component: &str, lock: ComponentLock) -> (r: Result<(), Error>)
        ensures
            match acquired(old(self)@, component@, lock) {
                Some(table) => r is Ok && final(self)@ == table,
                None => r matches Err(e) && e@ == ErrorView::LockFailed(component@) && final(self)@
                    == old(self)@,
            },
    {
        match self.position(component) {
            None => {
                proof {
                    lemma_as_map_push(keyed(self.entries@), component@, lock);
                }
                let ghost before = keyed(self.entries@);
                self.entries.push((component.to_owned(), lock));
                assert(keyed(self.entries@) =~= before.push((component@, lock)));
                Ok(())
            },
            Some(i) => {
                let current = self.entries[i].1;
                if lock == ComponentLock::Exclusive || current == ComponentLock::Exclusive {
                    Err(Error::LockFailed(component.to_owned()))
                } else {
                    Ok(())
                }
            },
        }
    }

    /// Gives up the lock on `component`, which is held.
    pub fn unlock(&mut self, component: &str)
        requires
            old(self)@.contains_key(component@),
        ensures
            final(self)@ == old(self)@.remove(component@),
    {
        let ghost before = keyed(self.entries@);
        let mut i: usize = 0;
        while i < self.entries.len()
            invariant
                i <= self.entries.len(),
                forall|j: int| 0 <= j < i ==> (#[trigger] keyed(self.entries@)[j]).0 != component@,
                forall|q: Seq<char>|
                    q != component@ ==> lookup(keyed(self.entries@), q) == lookup(before, q),
            decreases self.entries.len() - i,
        {
            if str_eq(self.entries[i].0.as_str(), component) {
                let ghost now = keyed(self.entries@);
                assert(now[i as int].0 == component@);
                self.entries.remove(i);
                proof {
                    assert(keyed(self.entries@) =~= now.remove(i as int));
                    assert forall|q: Seq<char>| q != component@ implies lookup(
                        keyed(self.entries@),
                        q,
                    ) == lookup(before, q) by {
                        lemma_lookup_remove(now, i as int, q);
                    }
                    assert forall|j: int| 0 <= j < i implies (#[trigger] keyed(
                        self.entries@,
                    )[j]).0 != component@ by {
                        assert(now[j].0 != component@);
                    }
                }
            } else {
                assert(keyed(self.entries@)[i as int].0 != component@);
                i += 1;
            }
        }
        proof {
            lemma_lookup(keyed(self.entries@), component@);
            assert(self@ =~= as_map(before).remove(component@));
        }
    }

    /// The component on which `operation` would fail to get its locks.
    pub fn conflict_with(&self, operation: &Operation) -> (r: Option<String>)
        ensures
            r is Some <==> conflict(self@, operation@) is Some,
            r matches Some(c) ==> conflict(self@, operation@) == Some(c@),
    {
        if !operation.status.is_active() {
            return None;
        }
        let ghost by_lock = taken(self@);
        let ghost by_use = barred(self@, operation@.locks);
        let mut i: usize = 0;
        while i < operation.locks.len()
            invariant
                i <= operation.locks.len(),
                by_lock == taken(self@),
                operation@.status.active(),
                forall|j: int| 0 <= j < i ==> !by_lock(#[trigger] operation@.locks[j]),
            decreases operation.locks.len() - i,
        {
            assert(operation@.locks[i as int] == operation.locks[i as int]@);
            if self.position(operation.locks[i].as_str()).is_some() {
                proof {
                    lemma_first_such_at(operation@.locks, by_lock, i as int);
                }
                return Some(operation.locks[i].clone());
            }
            i += 1;
        }
        proof {
            lemma_first_such(operation@.locks, by_lock);
        }
        let mut i: usize = 0;
        while i < operation.components.len()
            invariant
                i <= operation.components.len(),
                by_use == barred(self@, operation@.locks),
                operation@.status.active(),
                first_such(operation@.locks, taken(self@)) is None,
                forall|j: int| 0 <= j < i ==> !by_use(#[trigger] operation@.components[j]),
            decreases operation.components.len() - i,
        {
            assert(operation@.components[i as int] == operation.components[i as int]@);
            let name = operation.components[i].as_str();
            if !contains_name(&operation.locks, name) {
                match self.get(name) {
                    Some(ComponentLock::Exclusive) => {
                        proof {
                            lemma_first_such_at(operation@.components, by_use, i as int);
                        }
                        return Some(operation.components[i].clone());
                    },
                    _ => {},
                }
            }
            i += 1;
        }
        proof {
            lemma_first_such(operation@.components, by_use);
        }
        None
    }

    /// Gets for `operation` the locks it holds when under way: exclusive on
    /// each of its locks, shared on each of its other components. Where one
    /// of them cannot be had, none is taken and the error names the first
    /// component that is in the way.
    pub fn acquire_for(&mut self, operation: &Operation) -> (r: Result<(), Error>)
        requires
            settled(operation@),
        ensures
            match conflict(old(self)@, operation@) {
                Some(c) => r matches Err(e) && e@ == ErrorView::LockFailed(c) && final(self)@
                    == old(self)@,
                None => r is Ok && final(self)@ == extended(old(self)@, operation@),
            },
    {
        if let Some(component) = self.conflict_with(operation) {
            return Err(Error::LockFailed(component));
        }
        if !operation.status.is_active() {
            return Ok(());
        }
        let ghost before = self@;
        let ghost locks = operation@.locks;
        let ghost components = operation@.components;
        proof {
            lemma_first_such(locks, taken(before));
            lemma_first_such(components, barred(before, locks));
        }
        let mut i: usize = 0;
        while i < operation.locks.len()
            invariant
                i <= operation.locks.len(),
                locks == operation@.locks,
                strictly_sorted(locks),
                forall|j: int| 0 <= j < locks.len() ==> !before.contains_key(#[trigger] locks[j]),
                forall|c: Seq<char>|
                    self@.contains_key(c) <==> (before.contains_key(c) || locks.take(
                        i as int,
                    ).contains(c)),
                forall|c: Seq<char>| #[trigger]
                    self@.contains_key(c) ==> self@[c] == if locks.take(i as int).contains(c) {
                        ComponentLock::Exclusive
                    } else {
                        before[c]
                    },
            decreases operation.locks.len() - i,
        {
            let ghost now = self@;
            let ghost c = locks[i as int];
            assert(c == operation.locks[i as int]@);
            proof {
                if locks.take(i as int).contains(c) {
                    let j = choose|j: int| 0 <= j < i && locks.take(i as int)[j] == c;
                    assert(precedes(locks[j], locks[i as int]));
                    lemma_precedes_asymmetric(locks[j], locks[i as int]);
                }
                assert(!now.contains_key(c));
            }
            match self.lock(operation.locks[i].as_str(), ComponentLock::Exclusive) {
                Ok(()) => {},
                Err(e) => {
                    return Err(e);
                },
            }
            proof {
                let next = locks.take(i + 1);
                assert(next =~= locks.take(i as int).push(c));
                assert forall|q: Seq<char>| next.contains(q) <==> (locks.take(i as int).contains(q)
                    || q == c) by {
                    if next.contains(q) {
                        let m = choose|m: int| 0 <= m < next.len() && next[m] == q;
                        if m < i {
                            assert(locks.take(i as int)[m] == q);
                        }
                    }
                    if locks.take(i as int).contains(q) {
                        let m = choose|m: int| 0 <= m < i && locks.take(i as int)[m] == q;
                        assert(next[m] == q);
                    }
                    if q == c {
                        assert(next[i as int] == q);
                    }
                }
            }
            i += 1;
        }
        assert(locks.take(locks.len() as int) =~= locks);
        let ghost locked = self@;
        let mut i: usize = 0;
        while i < operation.components.len()
            invariant
                i <= operation.components.len(),
                locks == operation@.locks,
                components == operation@.components,
                forall|j: int|
                    0 <= j < components.len() ==> !(!locks.contains(#[trigger] components[j])
                        && before.contains_key(components[j]) && before[components[j]]
                        == ComponentLock::Exclusive),
                forall|c: Seq<char>|
                    locked.contains_key(c) <==> (before.contains_key(c) || locks.contains(c)),
                forall|c: Seq<char>| #[trigger]
                    locked.contains_key(c) ==> locked[c] == if locks.contains(c) {
                        ComponentLock::Exclusive
                    } else {
                        before[c]
                    },
                forall|c: Seq<char>|
                    self@.contains_key(c) <==> (locked.contains_key(c) || components.take(
                        i as int,
                    ).contains(c)),
                forall|c: Seq<char>| #[trigger]
                    self@.contains_key(c) ==> self@[c] == if locked.contains_key(c) {
                        locked[c]
                    } else {
                        ComponentLock::Shared
                    },
            decreases operation.components.len() - i,
        {
            let ghost now = self@;
            let ghost c = components[i as int];
            assert(c == operation.components[i as int]@);
            let name = operation.components[i].as_str();
            if !contains_name(&operation.locks, name) {
                proof {
                    if now.contains_key(c) {
                        assert(now[c] == ComponentLock::Shared);
                    }
                }
                match self.lock(name, ComponentLock::Shared) {
                    Ok(()) => {},
                    Err(e) => {
                        return Err(e);
                    },
                }
            }
            proof {
                let next = components.take(i + 1);
                assert(next =~= components.take(i as int).push(c));
                assert forall|q: Seq<char>| next.contains(q) <==> (components.take(
                    i as int,
                ).contains(q) || q == c) by {
                    if next.contains(q) {
                        let m = choose|m: int| 0 <= m < next.len() && next[m] == q;
                        if m < i {
                            assert(components.take(i as int)[m] == q);
                        }
                    }
                    if components.take(i as int).contains(q) {
                        let m = choose|m: int| 0 <= m < i && components.take(i as int)[m] == q;
                        assert(next[m] == q);
                    }
                    if q == c {
                        assert(next[i as int] == q);
                    }
                }
            }
            i += 1;
        }
        assert(components.take(components.len() as int) =~= components);
        assert(self@ =~= granted(before, operation@));
        Ok(())
    }

    /// The lock table that a list of operations gives rise to, taking the
    /// operations in turn; none where two of them are in each other's way.
    pub fn derive(operations: &Vec<Operation>) -> (r: Option<LockTable>)
        requires
            forall|i: int| 0 <= i < operations.len() ==> settled(#[trigger] operations[i]@),
        ensures
            r is Some <==> conflict_free(views_of(operations@)),
            r matches Some(table) ==> table@ == held(views_of(operations@)),
    {
        let ghost all = views_of(operations@);
        let mut table = LockTable::default();
        let mut i: usize = 0;
        assert(table@ =~= held(all.take(0)));
        while i < operations.len()
            invariant
                i <= operations.len(),
                all == views_of(operations@),
                forall|j: int| 0 <= j < operations.len() ==> settled(#[trigger] operations[j]@),
                conflict_free(all.take(i as int)),
                table@ == held(all.take(i as int)),
            decreases operations.len() - i,
        {
            let ghost seen = all.take(i as int);
            let ghost x = all[i as int];
            assert(x == operations[i as int]@);
            proof {
                assert(all.take(i + 1) =~= seen.insert(i as int, x));
                lemma_held_insert(seen, i as int, x);
                if x.status.active() {
                    lemma_conflict(seen, x);
                }
            }
            match table.acquire_for(&operations[i]) {
                Ok(()) => {
                    proof {
                        if x.status.active() {
                            lemma_conflict_free_insert(seen, i as int, x);
                        } else {
                            assert forall|j: int| 0 <= j < seen.len() implies compatible(
                                #[trigger] seen[j],
                                x,
                            ) by {}
                            lemma_conflict_free_insert(seen, i as int, x);
                        }
                    }
                },
                Err(_) => {
                    proof {
                        let j = choose|j: int| 0 <= j < seen.len() && !compatible(#[trigger] seen[j], x);
                        assert(seen[j] == all[j]);
                        assert(!compatible(all[j], all[i as int]));
                    }
                    return None;
                },
            }
            i += 1;
        }
        assert(all.take(operations.len() as int) =~= all);
        Some(table)
    }
}

} // verus!
