//! The checks behind every write, and the check of a store as a whole.

use crate::error::{Entity, Error, Field, Item};
use crate::ids::{is_ascending, normalize_ids};
use crate::locks::settled;
use crate::model::{Component, Operation, Tag, User};
use crate::names::{
    first_such, is_subset, lemma_first_such, lemma_first_such_at, no_repeats, normalize_names,
    views,
};
use crate::rules::{
    coherent, component_flaw, component_form, component_sound, lacks_component, lacks_operation,
    lacks_tag, lacks_user, lemma_operation_form_sound, operation_flaw, operation_form,
    operation_sound, tag_flaw, tag_form, tag_sound, user_sound,
};
use crate::store::{component_names, ids_of, tag_names, user_names, Database};
use crate::text::{decimal_string, str_eq, trimmed_string};
use crate::uri::has_web_scheme;
use vstd::prelude::*;

verus! {

/// The stored form of `tag`, where the tag has no flaw, and else the first
/// flaw.
pub fn check_tag(tag: Tag) -> (r: Result<Tag, Error>)
    ensures
        match r {
            Ok(n) => tag_flaw(tag@) is None && n@ == tag_form(tag@),
            Err(e) => tag_flaw(tag@) == Some(e@),
        },
{
    let name = trimmed_string(tag.name.as_str());
    if name.as_str().is_empty() {
        return Err(Error::BlankItem(Field::Name));
    }
    let description = trimmed_string(tag.description.as_str());
    if description.as_str().is_empty() {
        return Err(Error::BlankItem(Field::Description));
    }
    Ok(Tag { name, description })
}

impl Database {
    /// The first of `names` that no user has.
    pub fn first_unknown_user(&self, names: &Vec<String>) -> (r: Option<String>)
        ensures
            (match r {
                Some(name) => Some(name@),
                None => None,
            }) == first_such(views(names@), lacks_user(self@)),
    {
        let ghost p = lacks_user(self@);
        let mut i: usize = 0;
        while i < names.len()
            invariant
                i <= names.len(),
                p == lacks_user(self@),
                forall|j: int| 0 <= j < i ==> !p(#[trigger] views(names@)[j]),
            decreases names.len() - i,
        {
            assert(views(names@)[i as int] == names[i as int]@);
            if self.find_user(names[i].as_str()).is_none() {
                proof {
                    lemma_first_such_at(views(names@), p, i as int);
                }
                return Some(names[i].clone());
            }
            i += 1;
        }
        proof {
            lemma_first_such(views(names@), p);
        }
        None
    }

    /// The first of `names` that no component has.
    pub fn first_unknown_component(&self, names: &Vec<String>) -> (r: Option<String>)
        ensures
            (match r {
                Some(name) => Some(name@),
                None => None,
            }) == first_such(views(names@), lacks_component(self@)),
    {
        let ghost p = lacks_component(self@);
        let mut i: usize = 0;
        while i < names.len()
            invariant
                i <= names.len(),
                p == lacks_component(self@),
                forall|j: int| 0 <= j < i ==> !p(#[trigger] views(names@)[j]),
            decreases names.len() - i,
        {
            assert(views(names@)[i as int] == names[i as int]@);
            if self.find_component(names[i].as_str()).is_none() {
                proof {
                    lemma_first_such_at(views(names@), p, i as int);
                }
                return Some(names[i].clone());
            }
            i += 1;
        }
        proof {
            lemma_first_such(views(names@), p);
        }
        None
    }

    /// The first of `names` that no tag has.
    pub fn first_unknown_tag(&self, names: &Vec<String>) -> (r: Option<String>)
        ensures
            (match r {
                Some(name) => Some(name@),
                None => None,
            }) == first_such(views(names@), lacks_tag(self@)),
    {
        let ghost p = lacks_tag(self@);
        let mut i: usize = 0;
        while i < names.len()
            invariant
                i <= names.len(),
                p == lacks_tag(self@),
                forall|j: int| 0 <= j < i ==> !p(#[trigger] views(names@)[j]),
            decreases names.len() - i,
        {
            assert(views(names@)[i as int] == names[i as int]@);
            if self.find_tag(names[i].as_str()).is_none() {
                proof {
                    lemma_first_such_at(views(names@), p, i as int);
                }
                return Some(names[i].clone());
            }
            i += 1;
        }
        proof {
            lemma_first_such(views(names@), p);
        }
        None
    }

    /// The first of `ids` that no operation has.
    pub fn first_unknown_operation(&self, ids: &Vec<u64>) -> (r: Option<u64>)
        ensures
            r == first_such(ids@, lacks_operation(self@)),
    {
        let ghost p = lacks_operation(self@);
        let mut i: usize = 0;
        while i < ids.len()
            invariant
                i <= ids.len(),
                p == lacks_operation(self@),
                forall|j: int| 0 <= j < i ==> !p(#[trigger] ids@[j]),
            decreases ids.len() - i,
        {
            if self.find_operation(ids[i]).is_none() {
                proof {
                    lemma_first_such_at(ids@, p, i as int);
                }
                return Some(ids[i]);
            }
            i += 1;
        }
        proof {
            lemma_first_such(ids@, p);
        }
        None
    }


    /// The stored form of `component`, where the component has no flaw, and
    /// else the first flaw.
    pub fn check_component(&self, component: Component) -> (r: Result<Component, Error>)
        ensures
            match r {
                Ok(n) => component_flaw(self@, component@) is None && n@ == component_form(
                    component@,
                ),
                Err(e) => component_flaw(self@, component@) == Some(e@),
            },
    {
        let name = trimmed_string(component.name.as_str());
        if name.as_str().is_empty() {
            return Err(Error::BlankItem(Field::Name));
        }
        let description = trimmed_string(component.description.as_str());
        if description.as_str().is_empty() {
            return Err(Error::BlankItem(Field::Description));
        }
        if component.owners.len() == 0 {
            return Err(Error::MissingItem(Item::Owner));
        }
        let owners = normalize_names(&component.owners);
        if let Some(owner) = self.first_unknown_user(&owners) {
            return Err(Error::NotFound { entity: Entity::User, id: owner });
        }
        Ok(Component { name, description, owners })
    }

    /// The stored form of `operation`, where the operation has no flaw, and
    /// else the first flaw.
    pub fn check_operation(&self, operation: Operation) -> (r: Result<Operation, Error>)
        ensures
            match r {
                Ok(n) => operation_flaw(self@, operation@) is None && n@ == operation_form(
                    operation@,
                ) && settled(n@),
                Err(e) => operation_flaw(self@, operation@) == Some(e@),
            },
    {
        let ghost raw = operation@;
        let title = trimmed_string(operation.title.as_str());
        if title.as_str().is_empty() {
            return Err(Error::BlankItem(Field::Title));
        }
        let purpose = trimmed_string(operation.purpose.as_str());
        if purpose.as_str().is_empty() {
            return Err(Error::BlankItem(Field::Purpose));
        }
        if !has_web_scheme(operation.url.as_str()) {
            return Err(Error::InvalidUrlScheme);
        }
        if operation.components.len() == 0 {
            return Err(Error::MissingItem(Item::Component));
        }
        let components = normalize_names(&operation.components);
        if let Some(name) = self.first_unknown_component(&components) {
            return Err(Error::NotFound { entity: Entity::Component, id: name });
        }
        let locks = normalize_names(&operation.locks);
        if !is_subset(&locks, &components) {
            return Err(Error::LockingNonAffectedComponent);
        }
        let tags = normalize_names(&operation.tags);
        if let Some(name) = self.first_unknown_tag(&tags) {
            return Err(Error::NotFound { entity: Entity::Tag, id: name });
        }
        let depends_on = normalize_ids(&operation.depends_on);
        if let Some(id) = self.first_unknown_operation(&depends_on) {
            return Err(Error::NotFound { entity: Entity::Operation, id: decimal_string(id) });
        }
        if operation.operators.len() == 0 {
            return Err(Error::MissingItem(Item::Operator));
        }
        let operators = normalize_names(&operation.operators);
        if let Some(name) = self.first_unknown_user(&operators) {
            return Err(Error::NotFound { entity: Entity::User, id: name });
        }
        let n = Operation {
            id: operation.id,
            title,
            purpose,
            url: operation.url,
            components,
            locks,
            tags,
            depends_on,
            operators,
            status: operation.status,
            annotations: operation.annotations,
        };
        assert(n@ == operation_form(raw));
        proof {
            lemma_operation_form_sound(self@, raw);
        }
        Ok(n)
    }


    /// The names of the users.
    fn user_name_list(&self) -> (r: Vec<String>)
        ensures
            views(r@) == user_names(self@),
    {
        let mut r: Vec<String> = Vec::new();
        let mut i: usize = 0;
        while i < self.users.len()
            invariant
                i <= self.users.len(),
                r.len() == i,
                forall|j: int| 0 <= j < i ==> (#[trigger] r[j])@ == self.users[j].name@,
            decreases self.users.len() - i,
        {
            r.push(self.users[i].name.clone());
            i += 1;
        }
        assert(views(r@) =~= user_names(self@));
        r
    }

    /// The names of the components.
    fn component_name_list(&self) -> (r: Vec<String>)
        ensures
            views(r@) == component_names(self@),
    {
        let mut r: Vec<String> = Vec::new();
        let mut i: usize = 0;
        while i < self.components.len()
            invariant
                i <= self.components.len(),
                r.len() == i,
                forall|j: int| 0 <= j < i ==> (#[trigger] r[j])@ == self.components[j].name@,
            decreases self.components.len() - i,
        {
            r.push(self.components[i].name.clone());
            i += 1;
        }
        assert(views(r@) =~= component_names(self@));
        r
    }

    /// The names of the tags.
    fn tag_name_list(&self) -> (r: Vec<String>)
        ensures
            views(r@) == tag_names(self@),
    {
        let mut r: Vec<String> = Vec::new();
        let mut i: usize = 0;
        while i < self.tags.len()
            invariant
                i <= self.tags.len(),
                r.len() == i,
                forall|j: int| 0 <= j < i ==> (#[trigger] r[j])@ == self.tags[j].name@,
            decreases self.tags.len() - i,
        {
            r.push(self.tags[i].name.clone());
            i += 1;
        }
        assert(views(r@) =~= tag_names(self@));
        r
    }

    /// The ids of the operations.
    fn id_list(&self) -> (r: Vec<u64>)
        ensures
            r@ == ids_of(self@.operations),
    {
        let mut r: Vec<u64> = Vec::new();
        let mut i: usize = 0;
        while i < self.operations.len()
            invariant
                i <= self.operations.len(),
                r.len() == i,
                forall|j: int| 0 <= j < i ==> r[j] == self.operations[j].id,
            decreases self.operations.len() - i,
        {
            r.push(self.operations[i].id);
            i += 1;
        }
        assert(r@ =~= ids_of(self@.operations));
        r
    }

    /// Whether `user` is sound in this store.
    pub fn is_user_sound(&self, user: &User) -> (r: bool)
        ensures
            r == user_sound(self@, user@),
    {
        if user.name.as_str().is_empty() {
            return false;
        }
        let name = trimmed_string(user.name.as_str());
        if !str_eq(name.as_str(), user.name.as_str()) {
            return false;
        }
        if !user.subscriptions.is_tidy() {
            return false;
        }
        let subscriptions = &user.subscriptions;
        if self.first_unknown_operation(&subscriptions.operations).is_some() {
            proof {
                lemma_first_such(user@.subscriptions.operations, lacks_operation(self@));
            }
            return false;
        }
        if self.first_unknown_component(&subscriptions.components).is_some() {
            proof {
                lemma_first_such(user@.subscriptions.components, lacks_component(self@));
            }
            return false;
        }
        if self.first_unknown_tag(&subscriptions.tags).is_some() {
            proof {
                lemma_first_such(user@.subscriptions.tags, lacks_tag(self@));
            }
            return false;
        }
        proof {
            lemma_first_such(user@.subscriptions.operations, lacks_operation(self@));
            lemma_first_such(user@.subscriptions.components, lacks_component(self@));
            lemma_first_such(user@.subscriptions.tags, lacks_tag(self@));
        }
        true
    }

    /// Whether every user is sound.
    fn users_sound(&self) -> (r: bool)
        ensures
            r == forall|i: int|
                0 <= i < self@.users.len() ==> user_sound(self@, #[trigger] self@.users[i]),
    {
        let mut i: usize = 0;
        while i < self.users.len()
            invariant
                i <= self.users.len(),
                forall|j: int| 0 <= j < i ==> user_sound(self@, #[trigger] self@.users[j]),
            decreases self.users.len() - i,
        {
            assert(self.users[i as int]@ == self@.users[i as int]);
            if !self.is_user_sound(&self.users[i]) {
                return false;
            }
            i += 1;
        }
        true
    }

    /// Whether every component is sound.
    fn components_sound(&self) -> (r: bool)
        ensures
            r == forall|i: int|
                0 <= i < self@.components.len() ==> component_sound(
                    self@,
                    #[trigger] self@.components[i],
                ),
    {
        let mut i: usize = 0;
        while i < self.components.len()
            invariant
                i <= self.components.len(),
                forall|j: int|
                    0 <= j < i ==> component_sound(self@, #[trigger] self@.components[j]),
            decreases self.components.len() - i,
        {
            let component = &self.components[i];
            assert(component@ == self@.components[i as int]);
            let sound = match self.check_component(component.clone()) {
                Ok(n) => n.same(component),
                Err(_) => false,
            };
            if !sound {
                return false;
            }
            i += 1;
        }
        true
    }

    /// Whether every tag is sound.
    fn tags_sound(&self) -> (r: bool)
        ensures
            r == forall|i: int| 0 <= i < self@.tags.len() ==> tag_sound(#[trigger] self@.tags[i]),
    {
        let mut i: usize = 0;
        while i < self.tags.len()
            invariant
                i <= self.tags.len(),
                forall|j: int| 0 <= j < i ==> tag_sound(#[trigger] self@.tags[j]),
            decreases self.tags.len() - i,
        {
            let tag = &self.tags[i];
            assert(tag@ == self@.tags[i as int]);
            let sound = match check_tag(tag.clone()) {
                Ok(n) => n.same(tag),
                Err(_) => false,
            };
            if !sound {
                return false;
            }
            i += 1;
        }
        true
    }

    /// Whether every operation is sound and has an id that the counter has
    /// passed.
    fn operations_sound(&self) -> (r: bool)
        ensures
            r == ((forall|i: int|
                0 <= i < self@.operations.len() ==> (#[trigger] self@.operations[i]).id
                    < self@.next_id) && (forall|i: int|
                0 <= i < self@.operations.len() ==> operation_sound(
                    self@,
                    #[trigger] self@.operations[i],
                ))),
    {
        let mut i: usize = 0;
        while i < self.operations.len()
            invariant
                i <= self.operations.len(),
                forall|j: int| 0 <= j < i ==> (#[trigger] self@.operations[j]).id < self@.next_id,
                forall|j: int|
                    0 <= j < i ==> operation_sound(self@, #[trigger] self@.operations[j]),
            decreases self.operations.len() - i,
        {
            let operation = &self.operations[i];
            assert(operation@ == self@.operations[i as int]);
            if operation.id >= self.next_id {
                return false;
            }
            let sound = match self.check_operation(operation.clone()) {
                Ok(n) => n.same(operation),
                Err(_) => false,
            };
            if !sound {
                return false;
            }
            i += 1;
        }
        true
    }

    /// Whether the store is coherent.
    pub fn is_coherent(&self) -> (r: bool)
        ensures
            r == coherent(self@),
    {
        no_repeats(&self.user_name_list()) && no_repeats(&self.component_name_list())
            && no_repeats(&self.tag_name_list()) && is_ascending(&self.id_list())
            && self.operations_sound() && self.users_sound() && self.components_sound()
            && self.tags_sound()
    }
}

} // verus!
