//! The entity store: users, operations, components and tags by identifier.

use crate::ids::ascending;
use crate::model::{
    views_of, Component, ComponentView, Operation, OperationView, Tag, TagView, User, UserView,
};
use crate::text::str_eq;
use vstd::prelude::*;

verus! {

/// Everything the engine keeps: the entities and the id that the next new
/// operation gets. Operations stand in ascending order of their ids.
#[derive(Debug, PartialEq)]
pub struct Database {
    pub next_id: u64,
    pub users: Vec<User>,
    pub operations: Vec<Operation>,
    pub components: Vec<Component>,
    pub tags: Vec<Tag>,
}

/// The store as plain values.
pub struct DatabaseView {
    pub next_id: u64,
    pub users: Seq<UserView>,
    pub operations: Seq<OperationView>,
    pub components: Seq<ComponentView>,
    pub tags: Seq<TagView>,
}

impl View for Database {
    type V = DatabaseView;

    open spec fn view(&self) -> DatabaseView {
        DatabaseView {
            next_id: self.next_id,
            users: views_of(self.users@),
            operations: views_of(self.operations@),
            components: views_of(self.components@),
            tags: views_of(self.tags@),
        }
    }
}

/// The names of the users, in the order of the store.
pub open spec fn user_names(db: DatabaseView) -> Seq<Seq<char>> {
    Seq::new(db.users.len(), |i: int| db.users[i].name)
}

/// The names of the components, in the order of the store.
pub open spec fn component_names(db: DatabaseView) -> Seq<Seq<char>> {
    Seq::new(db.components.len(), |i: int| db.components[i].name)
}

/// The names of the tags, in the order of the store.
pub open spec fn tag_names(db: DatabaseView) -> Seq<Seq<char>> {
    Seq::new(db.tags.len(), |i: int| db.tags[i].name)
}

/// The ids of a list of operations.
pub open spec fn ids_of(operations: Seq<OperationView>) -> Seq<u64> {
    Seq::new(operations.len(), |i: int| operations[i].id)
}

/// Whether the store has a user of this name.
pub open spec fn has_user(db: DatabaseView, name: Seq<char>) -> bool {
    user_names(db).contains(name)
}

/// Whether the store has a component of this name.
pub open spec fn has_component(db: DatabaseView, name: Seq<char>) -> bool {
    component_names(db).contains(name)
}

/// Whether the store has a tag of this name.
pub open spec fn has_tag(db: DatabaseView, name: Seq<char>) -> bool {
    tag_names(db).contains(name)
}

/// Whether `k` is the place of the id `id` in an ascending list: every
/// earlier id is smaller, and the id at `k`, if there is one, is not.
pub open spec fn is_place(ids: Seq<u64>, id: u64, k: int) -> bool {
    &&& 0 <= k <= ids.len()
    &&& forall|j: int| 0 <= j < k ==> ids[j] < id
    &&& k < ids.len() ==> ids[k] >= id
}

/// The place of the id `id` in a list of ids: where it stands, or where it
/// would have to be put.
pub open spec fn place(ids: Seq<u64>, id: u64) -> int {
    choose|k: int| is_place(ids, id, k)
}

/// The operation with the id `id`.
pub open spec fn operation_of(operations: Seq<OperationView>, id: u64) -> Option<OperationView> {
    let k = place(ids_of(operations), id);
    if k < operations.len() && operations[k].id == id {
        Some(operations[k])
    } else {
        None
    }
}

/// There is a place for an id that is not before `n`, where every id before
/// `n` is smaller.
proof fn lemma_some_place(ids: Seq<u64>, id: u64, n: int)
    requires
        0 <= n <= ids.len(),
        forall|j: int| 0 <= j < n ==> ids[j] < id,
    ensures
        exists|k: int| is_place(ids, id, k),
    decreases ids.len() - n,
{
    if n == ids.len() || ids[n] >= id {
        assert(is_place(ids, id, n));
    } else {
        lemma_some_place(ids, id, n + 1);
    }
}

/// The place of an id is a place for it.
pub proof fn lemma_place_found(ids: Seq<u64>, id: u64)
    ensures
        is_place(ids, id, place(ids, id)),
{
    lemma_some_place(ids, id, 0);
}

/// Every list of ids has exactly one place for an id.
pub proof fn lemma_place(ids: Seq<u64>, id: u64, k: int)
    requires
        is_place(ids, id, k),
    ensures
        place(ids, id) == k,
{
    let p = place(ids, id);
    assert(is_place(ids, id, p));
    if p < k {
        assert(ids[p] < id);
    } else if k < p {
        assert(ids[k] < id);
    }
}

/// In an ascending list of operations, the operation found for an id is the
/// one that has it.
pub proof fn lemma_operation_of(operations: Seq<OperationView>, k: int)
    requires
        ascending(ids_of(operations)),
        0 <= k < operations.len(),
    ensures
        operation_of(operations, operations[k].id) == Some(operations[k]),
        place(ids_of(operations), operations[k].id) == k,
{
    let ids = ids_of(operations);
    assert forall|j: int| 0 <= j < k implies ids[j] < operations[k].id by {
        assert(ids[j] < ids[k]);
    }
    assert(ids[k] == operations[k].id);
    lemma_place(ids, operations[k].id, k);
}

/// Where no operation is found for an id, no operation has it.
pub proof fn lemma_operation_of_none(operations: Seq<OperationView>, id: u64)
    requires
        ascending(ids_of(operations)),
        operation_of(operations, id) is None,
    ensures
        !ids_of(operations).contains(id),
{
    let ids = ids_of(operations);
    if ids.contains(id) {
        let k = choose|k: int| 0 <= k < ids.len() && ids[k] == id;
        lemma_operation_of(operations, k);
    }
}

impl Default for Database {
    /// The empty store, whose first operation will get the id 1234.
    fn default() -> (r: Self)
        ensures
            r@.next_id == 1234,
            r@.users.len() == 0,
            r@.operations.len() == 0,
            r@.components.len() == 0,
            r@.tags.len() == 0,
    {
        Database {
            next_id: 1234,
            users: Vec::new(),
            operations: Vec::new(),
            components: Vec::new(),
            tags: Vec::new(),
        }
    }
}

/// A copy of a list of values, each copied with its view kept.
fn clone_users(v: &Vec<User>) -> (r: Vec<User>)
    ensures
        views_of(r@) == views_of(v@),
{
    let mut r: Vec<User> = Vec::new();
    let mut i: usize = 0;
    while i < v.len()
        invariant
            i <= v.len(),
            r.len() == i,
            forall|j: int| 0 <= j < i ==> (#[trigger] r[j])@ == v[j]@,
        decreases v.len() - i,
    {
        r.push(v[i].clone());
        i += 1;
    }
    assert(views_of(r@) =~= views_of(v@));
    r
}

/// A copy of a list of operations.
pub fn clone_operations(v: &Vec<Operation>) -> (r: Vec<Operation>)
    ensures
        views_of(r@) == views_of(v@),
{
    let mut r: Vec<Operation> = Vec::new();
    let mut i: usize = 0;
    while i < v.len()
        invariant
            i <= v.len(),
            r.len() == i,
            forall|j: int| 0 <= j < i ==> (#[trigger] r[j])@ == v[j]@,
        decreases v.len() - i,
    {
        r.push(v[i].clone());
        i += 1;
    }
    assert(views_of(r@) =~= views_of(v@));
    r
}

/// A copy of a list of components.
pub fn clone_components(v: &Vec<Component>) -> (r: Vec<Component>)
    ensures
        views_of(r@) == views_of(v@),
{
    let mut r: Vec<Component> = Vec::new();
    let mut i: usize = 0;
    while i < v.len()
        invariant
            i <= v.len(),
            r.len() == i,
            forall|j: int| 0 <= j < i ==> (#[trigger] r[j])@ == v[j]@,
        decreases v.len() - i,
    {
        r.push(v[i].clone());
        i += 1;
    }
    assert(views_of(r@) =~= views_of(v@));
    r
}

/// A copy of a list of tags.
pub fn clone_tags(v: &Vec<Tag>) -> (r: Vec<Tag>)
    ensures
        views_of(r@) == views_of(v@),
{
    let mut r: Vec<Tag> = Vec::new();
    let mut i: usize = 0;
    while i < v.len()
        invariant
            i <= v.len(),
            r.len() == i,
            forall|j: int| 0 <= j < i ==> (#[trigger] r[j])@ == v[j]@,
        decreases v.len() - i,
    {
        r.push(v[i].clone());
        i += 1;
    }
    assert(views_of(r@) =~= views_of(v@));
    r
}

impl Clone for Database {
    fn clone(&self) -> (r: Self)
        ensures
            r@ == self@,
    {
        Database {
            next_id: self.next_id,
            users: clone_users(&self.users),
            operations: clone_operations(&self.operations),
            components: clone_components(&self.components),
            tags: clone_tags(&self.tags),
        }
    }
}

impl Database {
    /// Where the user named `name` stands.
    pub fn find_user(&self, name: &str) -> (r: Option<usize>)
        ensures
            r is Some <==> has_user(self@, name@),
            r matches Some(i) ==> i < self.users.len() && self@.users[i as int].name == name@
                && forall|j: int| 0 <= j < i ==> user_names(self@)[j] != name@,
    {
        let mut i: usize = 0;
        while i < self.users.len()
            invariant
                i <= self.users.len(),
                forall|j: int| 0 <= j < i ==> user_names(self@)[j] != name@,
            decreases self.users.len() - i,
        {
            if str_eq(self.users[i].name.as_str(), name) {
                assert(user_names(self@)[i as int] == name@);
                return Some(i);
            }
            i += 1;
        }
        None
    }

    /// Where the component named `name` stands.
    pub fn find_component(&self, name: &str) -> (r: Option<usize>)
        ensures
            r is Some <==> has_component(self@, name@),
            r matches Some(i) ==> i < self.components.len() && self@.components[i as int].name
                == name@ && forall|j: int| 0 <= j < i ==> component_names(self@)[j] != name@,
    {
        let mut i: usize = 0;
        while i < self.components.len()
            invariant
                i <= self.components.len(),
                forall|j: int| 0 <= j < i ==> component_names(self@)[j] != name@,
            decreases self.components.len() - i,
        {
            if str_eq(self.components[i].name.as_str(), name) {
                assert(component_names(self@)[i as int] == name@);
                return Some(i);
            }
            i += 1;
        }
        None
    }

    /// Where the tag named `name` stands.
    pub fn find_tag(&self, name: &str) -> (r: Option<usize>)
        ensures
            r is Some <==> has_tag(self@, name@),
            r matches Some(i) ==> i < self.tags.len() && self@.tags[i as int].name == name@
                && forall|j: int| 0 <= j < i ==> tag_names(self@)[j] != name@,
    {
        let mut i: usize = 0;
        while i < self.tags.len()
            invariant
                i <= self.tags.len(),
                forall|j: int| 0 <= j < i ==> tag_names(self@)[j] != name@,
            decreases self.tags.len() - i,
        {
            if str_eq(self.tags[i].name.as_str(), name) {
                assert(tag_names(self@)[i as int] == name@);
                return Some(i);
            }
            i += 1;
        }
        None
    }

    /// The place of the id `id` among the operations: where the operation
    /// with this id stands, or where it would have to be put.
    pub fn place_of(&self, id: u64) -> (r: usize)
        ensures
            r == place(ids_of(self@.operations), id),
            is_place(ids_of(self@.operations), id, r as int),
    {
        let mut i: usize = 0;
        while i < self.operations.len() && self.operations[i].id < id
            invariant
                i <= self.operations.len(),
                forall|j: int| 0 <= j < i ==> ids_of(self@.operations)[j] < id,
            decreases self.operations.len() - i,
        {
            i += 1;
        }
        proof {
            lemma_place(ids_of(self@.operations), id, i as int);
        }
        i
    }

    /// Where the operation with the id `id` stands.
    pub fn find_operation(&self, id: u64) -> (r: Option<usize>)
        ensures
            r is Some <==> operation_of(self@.operations, id) is Some,
            r matches Some(i) ==> i < self.operations.len() && operation_of(self@.operations, id)
                == Some(self@.operations[i as int]) && i == place(ids_of(self@.operations), id),
    {
        let k = self.place_of(id);
        if k < self.operations.len() && self.operations[k].id == id {
            Some(k)
        } else {
            None
        }
    }
}

} // verus!
