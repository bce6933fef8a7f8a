//! The engine: the store and the lock table behind validated writes.

use crate::api::{
    selects, CreateOperationRequest, ListOperationsQuery, ListSubscriptionResponse, QueryView,
    UpdateOperationRequest,
};
use crate::error::{Entity, Error, ErrorView, Field};
use crate::ids::{ascending, lemma_with_id};
use crate::locks::{
    conflict_free, held, lemma_conflict_free_remove, settled, ComponentLock, LockTable,
};
use crate::model::{
    views_of, Claims, Component, Operation, OperationState, OperationView, SubscriptionSet,
    SubscriptionView, Tag, User,
};
use crate::names::{clone_names, lemma_inserted, strictly_sorted, views};
use crate::rules::{
    coherent, completed, component_form, component_refusal, component_sound,
    lemma_component_form_sound, lemma_extends_grown, lemma_extends_same, lemma_sound_carried,
    lemma_sound_settled, lemma_tag_form_sound, lemma_write_keeps_well_formed,
    lemma_written_operations, new_user, observable, operation_form, operation_refusal,
    operation_sound, others, status_refusal, subscription_refusal, tag_form, tag_refusal,
    tag_sound, unmet, user_refusal, user_sound, well_formed, with_component, with_operation,
    with_subscription, with_tag, with_user, StateView,
};
use crate::store::{
    component_names, has_component, has_tag, has_user, ids_of, lemma_place_found, operation_of,
    place, tag_names, user_names, Database, DatabaseView,
};
use crate::validate::check_tag;
use crate::text::{decimal, decimal_string, lemma_trimmed, trimmed_string};
use vstd::prelude::*;

verus! {

/// What a caller presented as credentials, as far as the engine has to
/// know: nothing, something that is no valid token, or the claims of a
/// valid token.
#[derive(Debug)]
pub enum Presented {
    Nothing,
    Invalid,
    Bearer(Claims),
}

/// What a write of an operation gave: the value that the store now holds,
/// and whether it differs from what the store held before.
#[derive(Debug)]
pub struct Committed {
    pub operation: Operation,
    pub observable: bool,
}

/// The engine: the entity store and the lock table.
#[derive(Debug)]
pub struct AppState {
    database: Database,
    locks: LockTable,
}

impl View for AppState {
    type V = StateView;

    closed spec fn view(&self) -> StateView {
        StateView { database: self.database@, locks: self.locks@ }
    }
}

impl AppState {
    /// The state is one that the engine's own writes lead to.
    pub open spec fn wf(&self) -> bool {
        well_formed(self@)
    }

    /// The engine with an empty store.
    pub fn new() -> (r: Self)
        ensures
            r.wf(),
            r@.database.next_id == 1234,
            r@.database.users.len() == 0,
            r@.database.operations.len() == 0,
            r@.database.components.len() == 0,
            r@.database.tags.len() == 0,
            r@.locks == Map::<Seq<char>, ComponentLock>::empty(),
    {
        let r = AppState { database: Database::default(), locks: LockTable::default() };
        assert(r@.locks =~= held(r@.database.operations));
        r
    }

    /// The store.
    pub fn database(&self) -> (r: &Database)
        ensures
            r@ == self@.database,
    {
        &self.database
    }

    /// The lock table.
    pub fn locks(&self) -> (r: &LockTable)
        ensures
            r@ == self@.locks,
    {
        &self.locks
    }

    /// The id that the next new operation gets; the counter moves on.
    pub fn next_id(&mut self) -> (r: u64)
        requires
            old(self).wf(),
            old(self)@.database.next_id < u64::MAX,
        ensures
            final(self).wf(),
            r == old(self)@.database.next_id,
            final(self)@ == (StateView {
                database: DatabaseView { next_id: (r + 1) as u64, ..old(self)@.database },
                ..old(self)@
            }),
    {
        let ghost before = self@.database;
        let id = self.database.next_id;
        self.database.next_id = id + 1;
        proof {
            lemma_extends_same(before, self@.database);
            lemma_sound_carried(before, self@.database);
        }
        id
    }

    /// The user named `username`.
    pub fn user(&self, username: &str) -> (r: Result<&User, Error>)
        ensures
            match r {
                Ok(user) => user@.name == username@ && exists|i: int|
                    0 <= i < self@.database.users.len() && self@.database.users[i] == user@
                        && forall|j: int|
                        0 <= j < i ==> (#[trigger] self@.database.users[j]).name != username@,
                Err(e) => !has_user(self@.database, username@) && e@ == (ErrorView::NotFound {
                    entity: Entity::User,
                    id: username@,
                }),
            },
    {
        match self.database.find_user(username) {
            Some(i) => {
                assert(self@.database.users[i as int] == self.database.users[i as int]@);
                assert forall|j: int| 0 <= j < i implies (#[trigger] self@.database.users[j]).name
                    != username@ by {
                    assert(user_names(self@.database)[j] != username@);
                }
                Ok(&self.database.users[i])
            },
            None => Err(Error::NotFound { entity: Entity::User, id: username.to_owned() }),
        }
    }

    /// The component named `name`.
    pub fn component(&self, name: &str) -> (r: Result<&Component, Error>)
        ensures
            match r {
                Ok(component) => component@.name == name@ && exists|i: int|
                    0 <= i < self@.database.components.len() && self@.database.components[i]
                        == component@ && forall|j: int|
                        0 <= j < i ==> (#[trigger] self@.database.components[j]).name != name@,
                Err(e) => !has_component(self@.database, name@) && e@ == (ErrorView::NotFound {
                    entity: Entity::Component,
                    id: name@,
                }),
            },
    {
        match self.database.find_component(name) {
            Some(i) => {
                assert(self@.database.components[i as int] == self.database.components[i as int]@);
                assert forall|j: int| 0 <= j < i implies (#[trigger] self@.database.components[j]).name
                    != name@ by {
                    assert(component_names(self@.database)[j] != name@);
                }
                Ok(&self.database.components[i])
            },
            None => Err(Error::NotFound { entity: Entity::Component, id: name.to_owned() }),
        }
    }

    /// The tag named `name`.
    pub fn tag(&self, name: &str) -> (r: Result<&Tag, Error>)
        ensures
            match r {
                Ok(tag) => tag@.name == name@ && exists|i: int|
                    0 <= i < self@.database.tags.len() && self@.database.tags[i] == tag@
                        && forall|j: int|
                        0 <= j < i ==> (#[trigger] self@.database.tags[j]).name != name@,
                Err(e) => !has_tag(self@.database, name@) && e@ == (ErrorView::NotFound {
                    entity: Entity::Tag,
                    id: name@,
                }),
            },
    {
        match self.database.find_tag(name) {
            Some(i) => {
                assert(self@.database.tags[i as int] == self.database.tags[i as int]@);
                assert forall|j: int| 0 <= j < i implies (#[trigger] self@.database.tags[j]).name
                    != name@ by {
                    assert(tag_names(self@.database)[j] != name@);
                }
                Ok(&self.database.tags[i])
            },
            None => Err(Error::NotFound { entity: Entity::Tag, id: name.to_owned() }),
        }
    }

    /// The operation with the id `id`.
    pub fn operation(&self, id: u64) -> (r: Result<&Operation, Error>)
        ensures
            match r {
                Ok(operation) => operation_of(self@.database.operations, id) == Some(operation@),
                Err(e) => operation_of(self@.database.operations, id) is None && e@
                    == (ErrorView::NotFound {
                    entity: Entity::Operation,
                    id: decimal(id as nat),
                }),
            },
    {
        match self.database.find_operation(id) {
            Some(i) => {
                assert(self@.database.operations[i as int] == self.database.operations[i as int]@);
                Ok(&self.database.operations[i])
            },
            None => Err(Error::NotFound { entity: Entity::Operation, id: decimal_string(id) }),
        }
    }

    /// The users, in the order in which they were created.
    pub fn users(&self) -> (r: &Vec<User>)
        ensures
            views_of(r@) == self@.database.users,
    {
        &self.database.users
    }

    /// The operations, in ascending order of their ids.
    pub fn operations(&self) -> (r: &Vec<Operation>)
        ensures
            views_of(r@) == self@.database.operations,
    {
        &self.database.operations
    }

    /// The components, in the order in which they were created.
    pub fn components(&self) -> (r: &Vec<Component>)
        ensures
            views_of(r@) == self@.database.components,
    {
        &self.database.components
    }

    /// The tags, in the order in which they were created.
    pub fn tags(&self) -> (r: &Vec<Tag>)
        ensures
            views_of(r@) == self@.database.tags,
    {
        &self.database.tags
    }

    /// Creates the user named `username`, trimmed. A blank name is refused,
    /// and so is one that a user has already; a refusal changes nothing.
    pub fn create_user(&mut self, username: String) -> (r: Result<User, Error>)
        requires
            old(self).wf(),
        ensures
            final(self).wf(),
            match r {
                Ok(user) => user_refusal(old(self)@.database, username@) is None && user@
                    == new_user(username@) && final(self)@ == (StateView {
                    database: with_user(old(self)@.database, username@),
                    ..old(self)@
                }),
                Err(e) => user_refusal(old(self)@.database, username@) == Some(e@) && final(self)@
                    == old(self)@,
            },
    {
        let name = trimmed_string(username.as_str());
        if name.as_str().is_empty() {
            return Err(Error::BlankItem(Field::Name));
        }
        if self.database.find_user(name.as_str()).is_some() {
            return Err(Error::AlreadyExists { entity: Entity::User, id: name });
        }
        let user = User { name, subscriptions: SubscriptionSet::default() };
        let ghost before = self@.database;
        self.database.users.push(user.clone());
        proof {
            assert(user@ =~= new_user(username@)) by {
                assert(user@.subscriptions.operations =~= Seq::empty());
                assert(user@.subscriptions.components =~= Seq::empty());
                assert(user@.subscriptions.tags =~= Seq::empty());
            }
            let after = self@.database;
            assert(after.users =~= before.users.push(user@));
            assert(user_names(after) =~= user_names(before).push(user@.name));
            lemma_names_push(user_names(before), user_names(after), user@.name);
            lemma_extends_grown(before, after);
            lemma_sound_carried(before, after);
            lemma_trimmed(username@);
            assert(user_sound(after, user@));
            assert forall|i: int| 0 <= i < after.users.len() implies user_sound(
                after,
                #[trigger] after.users[i],
            ) by {
                if i < before.users.len() {
                    assert(user_sound(before, before.users[i]));
                }
            }
            assert forall|i: int| 0 <= i < after.components.len() implies component_sound(
                after,
                #[trigger] after.components[i],
            ) by {
                assert(component_sound(before, before.components[i]));
            }
            assert forall|i: int| 0 <= i < after.operations.len() implies operation_sound(
                after,
                #[trigger] after.operations[i],
            ) by {
                assert(operation_sound(before, before.operations[i]));
            }
        }
        Ok(user)
    }

    /// Creates a component. Its texts are trimmed and its owners normalized;
    /// a blank name or description, a missing or unknown owner and a name
    /// that a component has already are refused, and a refusal changes
    /// nothing.
    pub fn create_component(&mut self, component: Component) -> (r: Result<Component, Error>)
        requires
            old(self).wf(),
        ensures
            final(self).wf(),
            match r {
                Ok(created) => component_refusal(old(self)@.database, component@) is None
                    && created@ == component_form(component@) && final(self)@ == (StateView {
                    database: with_component(old(self)@.database, component@),
                    ..old(self)@
                }),
                Err(e) => component_refusal(old(self)@.database, component@) == Some(e@)
                    && final(self)@ == old(self)@,
            },
    {
        let created = match self.database.check_component(component) {
            Ok(created) => created,
            Err(e) => {
                return Err(e);
            },
        };
        if self.database.find_component(created.name.as_str()).is_some() {
            return Err(
                Error::AlreadyExists { entity: Entity::Component, id: created.name.clone() },
            );
        }
        let ghost before = self@.database;
        self.database.components.push(created.clone());
        proof {
            let after = self@.database;
            assert(after.components =~= before.components.push(created@));
            assert(component_names(after) =~= component_names(before).push(created@.name));
            lemma_names_push(component_names(before), component_names(after), created@.name);
            lemma_extends_grown(before, after);
            lemma_sound_carried(before, after);
            lemma_component_form_sound(before, component@);
            assert(component_sound(after, created@));
            assert forall|i: int| 0 <= i < after.users.len() implies user_sound(
                after,
                #[trigger] after.users[i],
            ) by {
                assert(user_sound(before, before.users[i]));
            }
            assert forall|i: int| 0 <= i < after.components.len() implies component_sound(
                after,
                #[trigger] after.components[i],
            ) by {
                if i < before.components.len() {
                    assert(component_sound(before, before.components[i]));
                }
            }
            assert forall|i: int| 0 <= i < after.operations.len() implies operation_sound(
                after,
                #[trigger] after.operations[i],
            ) by {
                assert(operation_sound(before, before.operations[i]));
            }
        }
        Ok(created)
    }

    /// Creates a tag. Its texts are trimmed; a blank name or description and
    /// a name that a tag has already are refused, and a refusal changes
    /// nothing.
    pub fn create_tag(&mut self, tag: Tag) -> (r: Result<Tag, Error>)
        requires
            old(self).wf(),
        ensures
            final(self).wf(),
            match r {
                Ok(created) => tag_refusal(old(self)@.database, tag@) is None && created@
                    == tag_form(tag@) && final(self)@ == (StateView {
                    database: with_tag(old(self)@.database, tag@),
                    ..old(self)@
                }),
                Err(e) => tag_refusal(old(self)@.database, tag@) == Some(e@) && final(self)@
                    == old(self)@,
            },
    {
        let created = match check_tag(tag) {
            Ok(created) => created,
            Err(e) => {
                return Err(e);
            },
        };
        if self.database.find_tag(created.name.as_str()).is_some() {
            return Err(Error::AlreadyExists { entity: Entity::Tag, id: created.name.clone() });
        }
        let ghost before = self@.database;
        self.database.tags.push(created.clone());
        proof {
            let after = self@.database;
            assert(after.tags =~= before.tags.push(created@));
            assert(tag_names(after) =~= tag_names(before).push(created@.name));
            lemma_names_push(tag_names(before), tag_names(after), created@.name);
            lemma_extends_grown(before, after);
            lemma_sound_carried(before, after);
            lemma_tag_form_sound(tag@);
            assert forall|i: int| 0 <= i < after.users.len() implies user_sound(
                after,
                #[trigger] after.users[i],
            ) by {
                assert(user_sound(before, before.users[i]));
            }
            assert forall|i: int| 0 <= i < after.components.len() implies component_sound(
                after,
                #[trigger] after.components[i],
            ) by {
                assert(component_sound(before, before.components[i]));
            }
            assert forall|i: int| 0 <= i < after.tags.len() implies tag_sound(
                #[trigger] after.tags[i],
            ) by {
                if i < before.tags.len() {
                    assert(tag_sound(before.tags[i]));
                }
            }
            assert forall|i: int| 0 <= i < after.operations.len() implies operation_sound(
                after,
                #[trigger] after.operations[i],
            ) by {
                assert(operation_sound(before, before.operations[i]));
            }
        }
        Ok(created)
    }

    /// Subscribes the user `username` to exactly one target: an operation,
    /// a component or a tag, which must exist. Subscribing again to the same
    /// target changes nothing, and neither does a refusal.
    pub fn subscribe(
        &mut self,
        username: &str,
        operation: Option<u64>,
        component: Option<String>,
        tag: Option<String>,
    ) -> (r: Result<(), Error>)
        requires
            old(self).wf(),
        ensures
            final(self).wf(),
            match r {
                Ok(()) => subscription_refusal(
                    old(self)@.database,
                    username@,
                    operation,
                    text_of(component),
                    text_of(tag),
                ) is None && final(self)@ == (StateView {
                    database: with_subscription(
                        old(self)@.database,
                        username@,
                        operation,
                        text_of(component),
                        text_of(tag),
                    ),
                    ..old(self)@
                }),
                Err(e) => subscription_refusal(
                    old(self)@.database,
                    username@,
                    operation,
                    text_of(component),
                    text_of(tag),
                ) == Some(e@) && final(self)@ == old(self)@,
            },
    {
        let mut specified: u8 = 0;
        if operation.is_some() {
            specified += 1;
        }
        if component.is_some() {
            specified += 1;
        }
        if tag.is_some() {
            specified += 1;
        }
        if specified != 1 {
            return Err(Error::SubscribingMultipleEntities);
        }
        if let Some(id) = operation {
            if self.database.find_operation(id).is_none() {
                return Err(Error::NotFound { entity: Entity::Operation, id: decimal_string(id) });
            }
        }
        if let Some(name) = &component {
            if self.database.find_component(name.as_str()).is_none() {
                return Err(Error::NotFound { entity: Entity::Component, id: name.clone() });
            }
        }
        if let Some(name) = &tag {
            if self.database.find_tag(name.as_str()).is_none() {
                return Err(Error::NotFound { entity: Entity::Tag, id: name.clone() });
            }
        }
        let i = match self.database.find_user(username) {
            Some(i) => i,
            None => {
                return Err(Error::NotFound { entity: Entity::User, id: username.to_owned() });
            },
        };
        let ghost before = self@.database;
        let mut user = self.database.users[i].clone();
        assert(user@ == before.users[i as int]);
        if let Some(id) = operation {
            user.subscriptions.add_operation(id);
        }
        if let Some(name) = component {
            user.subscriptions.add_component(name);
        }
        if let Some(name) = tag {
            user.subscriptions.add_tag(name);
        }
        let ghost updated = user@;
        self.database.users.set(i, user);
        proof {
            let after = with_subscription(
                before,
                username@,
                operation,
                text_of(component),
                text_of(tag),
            );
            let now = self@.database;
            assert forall|j: int| 0 <= j < before.users.len() implies now.users[j]
                == after.users[j] by {
                if j != i {
                    assert(user_names(before)[j] != user_names(before)[i as int]);
                }
            }
            assert(now.users =~= after.users);
            assert(user_names(now) =~= user_names(before));
            lemma_extends_same(before, now);
            lemma_sound_carried(before, now);
            let was = before.users[i as int].subscriptions;
            assert(user_sound(before, before.users[i as int]));
            lemma_with_id(was.operations, operation->0);
            lemma_inserted(was.components, text_of(component)->0);
            lemma_inserted(was.tags, text_of(tag)->0);
            let s = updated.subscriptions;
            assert forall|j: int| 0 <= j < s.operations.len() implies operation_of(
                now.operations,
                #[trigger] s.operations[j],
            ) is Some by {
                if operation is Some {
                    assert(s.operations.contains(s.operations[j]));
                    if s.operations[j] != operation->0 {
                        let m = choose|m: int|
                            0 <= m < was.operations.len() && was.operations[m] == s.operations[j];
                        assert(operation_of(before.operations, was.operations[m]) is Some);
                    }
                } else {
                    assert(operation_of(before.operations, was.operations[j]) is Some);
                }
            }
            assert forall|j: int| 0 <= j < s.components.len() implies has_component(
                now,
                #[trigger] s.components[j],
            ) by {
                if component is Some {
                    assert(s.components.contains(s.components[j]));
                    if s.components[j] != text_of(component)->0 {
                        let m = choose|m: int|
                            0 <= m < was.components.len() && was.components[m] == s.components[j];
                        assert(has_component(before, was.components[m]));
                    }
                } else {
                    assert(has_component(before, was.components[j]));
                }
            }
            assert forall|j: int| 0 <= j < s.tags.len() implies has_tag(
                now,
                #[trigger] s.tags[j],
            ) by {
                if tag is Some {
                    assert(s.tags.contains(s.tags[j]));
                    if s.tags[j] != text_of(tag)->0 {
                        let m = choose|m: int| 0 <= m < was.tags.len() && was.tags[m] == s.tags[j];
                        assert(has_tag(before, was.tags[m]));
                    }
                } else {
                    assert(has_tag(before, was.tags[j]));
                }
            }
            assert(user_sound(now, updated));
            assert forall|j: int| 0 <= j < now.users.len() implies user_sound(
                now,
                #[trigger] now.users[j],
            ) by {
                if j != i {
                    assert(user_sound(before, before.users[j]));
                }
            }
            assert forall|j: int| 0 <= j < now.components.len() implies component_sound(
                now,
                #[trigger] now.components[j],
            ) by {
                assert(component_sound(before, before.components[j]));
            }
            assert forall|j: int| 0 <= j < now.operations.len() implies operation_sound(
                now,
                #[trigger] now.operations[j],
            ) by {
                assert(operation_sound(before, before.operations[j]));
            }
        }
        Ok(())
    }

    /// Whether one of the operations with the ids `dependencies` is not
    /// completed.
    fn has_unmet_dependency(&self, dependencies: &Vec<u64>) -> (r: bool)
        ensures
            r == unmet(self@.database.operations, dependencies@),
    {
        let mut i: usize = 0;
        while i < dependencies.len()
            invariant
                i <= dependencies.len(),
                forall|j: int|
                    0 <= j < i ==> completed(self@.database.operations, #[trigger] dependencies@[j]),
            decreases dependencies.len() - i,
        {
            let done = match self.database.find_operation(dependencies[i]) {
                Some(k) => {
                    assert(self@.database.operations[k as int] == self.database.operations[k as int]@);
                    self.database.operations[k].status == OperationState::Completed
                },
                None => false,
            };
            if !done {
                assert(!completed(self@.database.operations, dependencies@[i as int]));
                return true;
            }
            i += 1;
        }
        false
    }

    /// Writes an operation: a new one, or a new value for the one with its
    /// id. The operation is brought into normal form and checked: for its
    /// flaws, for the change of status, for its dependencies where it is to
    /// be in progress, and for the locks it needs when under way. Where
    /// nothing stands against it, the store holds the new value and the lock
    /// table follows; the result says whether the stored value changed. A
    /// refusal changes nothing.
    pub fn upsert_operation(&mut self, operation: Operation) -> (r: Result<Committed, Error>)
        requires
            old(self).wf(),
            operation_of(old(self)@.database.operations, operation.id) is None ==> operation.status
                == OperationState::Planned && operation.id < old(self)@.database.next_id,
        ensures
            final(self).wf(),
            match r {
                Ok(done) => operation_refusal(old(self)@.database, operation@) is None
                    && done.operation@ == operation_form(operation@) && done.observable
                    == observable(old(self)@.database, operation@) && final(self)@
                    == with_operation(old(self)@, operation@),
                Err(e) => operation_refusal(old(self)@.database, operation@) == Some(e@)
                    && final(self)@ == old(self)@,
            },
    {
        let ghost raw = operation@;
        let ghost before = self@;
        let ghost ops = before.database.operations;
        let n = match self.database.check_operation(operation) {
            Ok(n) => n,
            Err(e) => {
                return Err(e);
            },
        };
        let k = self.database.place_of(n.id);
        let stored = k < self.database.operations.len() && self.database.operations[k].id == n.id;
        let mut changed = true;
        if stored {
            let current = &self.database.operations[k];
            assert(current@ == ops[k as int]);
            if !current.status.can_transition_to(n.status) {
                return Err(Error::InvalidStateTransition);
            }
            if n.status == OperationState::InProgress && self.has_unmet_dependency(&n.depends_on) {
                return Err(Error::UnmetDependency);
            }
            changed = !current.same(&n);
        }
        assert(status_refusal(before.database, raw) is None);
        let ghost rest = others(ops, n.id);
        let previous = if stored {
            Some(self.database.operations.remove(k))
        } else {
            None
        };
        proof {
            lemma_written_operations(ops, n@);
            assert(views_of(self.database.operations@) =~= rest);
            if stored {
                lemma_conflict_free_remove(ops, k as int);
            }
            assert forall|i: int| 0 <= i < self.database.operations.len() implies settled(
                #[trigger] self.database.operations[i]@,
            ) by {
                assert(self.database.operations[i]@ == rest[i]);
                let m = choose|m: int| 0 <= m < ops.len() && ops[m] == rest[i];
                lemma_sound_settled(before.database, ops[m]);
            }
        }
        let mut table = match LockTable::derive(&self.database.operations) {
            Some(table) => table,
            None => {
                // The other operations were out of each other's way before.
                assert(false);
                return Err(Error::Internal);
            },
        };
        match table.acquire_for(&n) {
            Ok(()) => {},
            Err(e) => {
                if let Some(p) = previous {
                    self.database.operations.insert(k, p);
                }
                proof {
                    assert(views_of(self.database.operations@) =~= ops);
                    assert(self@.database =~= before.database);
                }
                return Err(e);
            },
        }
        self.database.operations.insert(k, n.clone());
        self.locks = table;
        proof {
            assert(views_of(self.database.operations@) =~= rest.insert(k as int, n@));
            assert(self@ =~= with_operation(before, raw));
            lemma_write_keeps_well_formed(before, raw);
        }
        Ok(Committed { operation: n, observable: changed })
    }

    /// Creates the operation that `request` asks for, on behalf of the user
    /// `username`: planned, under the next id, and run by `username` where
    /// the request names no operator. The counter moves on only where the
    /// operation is created; a refusal changes nothing.
    pub fn create_operation(&mut self, request: CreateOperationRequest, username: &str) -> (r:
        Result<Committed, Error>)
        requires
            old(self).wf(),
            old(self)@.database.next_id < u64::MAX,
        ensures
            final(self).wf(),
            match r {
                Ok(done) => operation_refusal(
                    advanced(old(self)@).database,
                    request.operation(old(self)@.database.next_id, username@),
                ) is None && done.operation@ == operation_form(
                    request.operation(old(self)@.database.next_id, username@),
                ) && done.observable && final(self)@ == with_operation(
                    advanced(old(self)@),
                    request.operation(old(self)@.database.next_id, username@),
                ),
                Err(e) => operation_refusal(
                    advanced(old(self)@).database,
                    request.operation(old(self)@.database.next_id, username@),
                ) == Some(e@) && final(self)@ == old(self)@,
            },
    {
        let ghost before = self@;
        proof {
            if operation_of(before.database.operations, before.database.next_id) is Some {
                let k = place(ids_of(before.database.operations), before.database.next_id);
                lemma_place_found(ids_of(before.database.operations), before.database.next_id);
                assert(before.database.operations[k].id < before.database.next_id);
            }
        }
        let id = self.next_id();
        assert(self@ == advanced(before));
        let operation = request.into_operation(id, username);
        match self.upsert_operation(operation) {
            Ok(done) => Ok(done),
            Err(e) => {
                self.database.next_id = id;
                assert(self@.database =~= before.database);
                Err(e)
            },
        }
    }

    /// Gives the operation with the id `id` the values that `request`
    /// names, through the same checks as any write of an operation. Where
    /// there is no such operation, or a check refuses, nothing changes.
    pub fn update_operation(&mut self, id: u64, request: UpdateOperationRequest) -> (r: Result<
        Committed,
        Error,
    >)
        requires
            old(self).wf(),
        ensures
            final(self).wf(),
            match operation_of(old(self)@.database.operations, id) {
                None => r matches Err(e) && e@ == (ErrorView::NotFound {
                    entity: Entity::Operation,
                    id: decimal(id as nat),
                }) && final(self)@ == old(self)@,
                Some(current) => match r {
                    Ok(done) => operation_refusal(old(self)@.database, request.patched(current))
                        is None && done.operation@ == operation_form(request.patched(current))
                        && done.observable == observable(
                        old(self)@.database,
                        request.patched(current),
                    ) && final(self)@ == with_operation(old(self)@, request.patched(current)),
                    Err(e) => operation_refusal(old(self)@.database, request.patched(current))
                        == Some(e@) && final(self)@ == old(self)@,
                },
            },
    {
        let k = match self.database.find_operation(id) {
            Some(k) => k,
            None => {
                return Err(Error::NotFound { entity: Entity::Operation, id: decimal_string(id) });
            },
        };
        let current = self.database.operations[k].clone();
        assert(current@ == self@.database.operations[k as int]);
        let operation = request.apply(current);
        self.upsert_operation(operation)
    }

    /// The operations that `query` asks for, in ascending order of their
    /// ids.
    pub fn list_operations(&self, query: &ListOperationsQuery) -> (r: Vec<Operation>)
        ensures
            views_of(r@) == self@.database.operations.filter(selected_by(query@)),
    {
        let ghost all = self@.database.operations;
        let ghost p = selected_by(query@);
        let mut r: Vec<Operation> = Vec::new();
        let mut i: usize = 0;
        proof {
            reveal(Seq::filter);
            assert(all.take(0) =~= Seq::empty());
            assert(views_of(r@) =~= all.take(0).filter(p));
        }
        while i < self.database.operations.len()
            invariant
                i <= self.database.operations.len(),
                all == self@.database.operations,
                p == selected_by(query@),
                views_of(r@) == all.take(i as int).filter(p),
            decreases self.database.operations.len() - i,
        {
            let operation = &self.database.operations[i];
            assert(operation@ == all[i as int]);
            let ghost so_far = views_of(r@);
            proof {
                reveal(Seq::filter);
                assert(all.take(i + 1).drop_last() =~= all.take(i as int));
                assert(all.take(i + 1).last() == all[i as int]);
            }
            if query.selects(operation) {
                r.push(operation.clone());
                assert(views_of(r@) =~= so_far.push(all[i as int]));
            }
            i += 1;
        }
        assert(all.take(all.len() as int) =~= all);
        r
    }

    /// What the user `username` has subscribed to, each list in ascending
    /// order.
    pub fn list_subscriptions(&self, username: &str) -> (r: Result<ListSubscriptionResponse, Error>)
        ensures
            match r {
                Ok(list) => exists|i: int|
                    0 <= i < self@.database.users.len() && (#[trigger] self@.database.users[i]).name
                        == username@ && self@.database.users[i].subscriptions
                        == (SubscriptionView {
                        operations: list.operations@,
                        components: views(list.components@),
                        tags: views(list.tags@),
                    }) && forall|j: int|
                        0 <= j < i ==> user_names(self@.database)[j] != username@,
                Err(e) => !has_user(self@.database, username@) && e@ == (ErrorView::NotFound {
                    entity: Entity::User,
                    id: username@,
                }),
            },
            self.wf() ==> (r matches Ok(list) ==> ascending(list.operations@) && strictly_sorted(
                views(list.components@),
            ) && strictly_sorted(views(list.tags@))),
    {
        match self.database.find_user(username) {
            Some(i) => {
                let subscriptions = &self.database.users[i].subscriptions;
                assert(self@.database.users[i as int] == self.database.users[i as int]@);
                Ok(
                    ListSubscriptionResponse {
                        operations: subscriptions.operations.clone(),
                        components: clone_names(&subscriptions.components),
                        tags: clone_names(&subscriptions.tags),
                    },
                )
            },
            None => Err(Error::NotFound { entity: Entity::User, id: username.to_owned() }),
        }
    }

    /// Decides on what a caller presented as credentials: a missing token
    /// and an invalid one are refused as such, and claims are accepted where
    /// a user has the name that they give.
    pub fn authorize(&self, presented: Presented) -> (r: Result<Claims, Error>)
        ensures
            match presented {
                Presented::Nothing => r matches Err(e) && e@ == ErrorView::MissingToken,
                Presented::Invalid => r matches Err(e) && e@ == ErrorView::InvalidToken,
                Presented::Bearer(claims) => if has_user(self@.database, claims.username@) {
                    r == Ok::<Claims, Error>(claims)
                } else {
                    r matches Err(e) && e@ == (ErrorView::NotFound {
                        entity: Entity::User,
                        id: claims.username@,
                    })
                },
            },
    {
        match presented {
            Presented::Nothing => Err(Error::MissingToken),
            Presented::Invalid => Err(Error::InvalidToken),
            Presented::Bearer(claims) => {
                if self.database.find_user(claims.username.as_str()).is_some() {
                    Ok(claims)
                } else {
                    Err(Error::NotFound { entity: Entity::User, id: claims.username.clone() })
                }
            },
        }
    }

    /// The engine for a store that was kept: the store as it is, and the
    /// lock table that its operations under way give rise to. There is none
    /// where the store is not coherent or two of its operations under way
    /// are in each other's way.
    pub fn restore(database: Database) -> (r: Option<AppState>)
        ensures
            (match r {
                Some(state) => Some(state@),
                None => None,
            }) == restored(database@),
            r matches Some(state) ==> state.wf(),
    {
        if !database.is_coherent() {
            return None;
        }
        proof {
            assert forall|i: int| 0 <= i < database.operations.len() implies settled(
                #[trigger] database.operations[i]@,
            ) by {
                assert(database.operations[i]@ == database@.operations[i]);
                lemma_sound_settled(database@, database@.operations[i]);
            }
        }
        match LockTable::derive(&database.operations) {
            Some(locks) => Some(AppState { database, locks }),
            None => None,
        }
    }

    /// A copy of the store, to be kept.
    pub fn snapshot(&self) -> (r: Database)
        ensures
            r@ == self@.database,
    {
        self.database.clone()
    }
}

/// The state with its counter moved on by one.
pub open spec fn advanced(s: StateView) -> StateView {
    StateView {
        database: DatabaseView { next_id: (s.database.next_id + 1) as u64, ..s.database },
        ..s
    }
}

/// Of an operation: whether `query` asks for it.
pub open spec fn selected_by(query: QueryView) -> spec_fn(OperationView) -> bool {
    |operation: OperationView| selects(query, operation)
}

/// The state of the engine for a store that was kept, where there is one.
pub open spec fn restored(db: DatabaseView) -> Option<StateView> {
    if coherent(db) && conflict_free(db.operations) {
        Some(StateView { database: db, locks: held(db.operations) })
    } else {
        None
    }
}

/// The text of a name that may be there.
pub open spec fn text_of(name: Option<String>) -> Option<Seq<char>> {
    match name {
        Some(name) => Some(name@),
        None => None,
    }
}

/// A list of distinct names stays so when a name that it lacks is added.
pub proof fn lemma_names_push(before: Seq<Seq<char>>, after: Seq<Seq<char>>, name: Seq<char>)
    requires
        before.no_duplicates(),
        !before.contains(name),
        after =~= before.push(name),
    ensures
        after.no_duplicates(),
{
    assert forall|i: int, j: int|
        0 <= i < after.len() && 0 <= j < after.len() && i != j implies after[i] != after[j] by {
        if i < before.len() && j < before.len() {
            assert(before[i] != before[j]);
        } else if i < before.len() {
            assert(before.contains(before[i]));
        } else {
            assert(before.contains(before[j]));
        }
    }
}

} // verus!
