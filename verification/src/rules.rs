//! What the engine accepts and what a write does to its state, as
//! mathematical functions of the state and the request.

use crate::error::{Entity, ErrorView, Field, Item};
use crate::ids::{ascending, lemma_sorted_ids, lemma_sorted_ids_fixed, sorted_ids, with_id};
use crate::locks::{
    compatible, conflict, conflict_free, extended, held, holding, lemma_conflict,
    lemma_conflict_free_insert, lemma_conflict_free_remove, lemma_held_insert, settled,
    ComponentLock,
};
use crate::model::{
    can_transition, tidy, ComponentView, OperationState, OperationView, SubscriptionView, TagView,
    UserView,
};
use crate::names::{
    first_such, inserted, lemma_first_such, lemma_normalized, lemma_normalized_idempotent,
    normalized, subset_of,
};
use crate::store::{
    component_names, has_component, has_tag, has_user, ids_of, is_place, lemma_operation_of,
    lemma_operation_of_none, lemma_place_found, operation_of, place, tag_names, user_names,
    DatabaseView,
};
use crate::text::{decimal, lemma_trimmed, trimmed};
use crate::uri::{uri_scheme, web_scheme};
use vstd::prelude::*;

verus! {

/// The state of the engine as plain values: the store and the lock table.
pub struct StateView {
    pub database: DatabaseView,
    pub locks: Map<Seq<char>, ComponentLock>,
}

/// The state is one that the engine's writes lead to: the store is
/// coherent, no two operations under way are in each other's way, and the
/// lock table is the one that the operations give rise to.
pub open spec fn well_formed(s: StateView) -> bool {
    &&& coherent(s.database)
    &&& conflict_free(s.database.operations)
    &&& s.locks == held(s.database.operations)
}

/// Of a name: whether the store has no user of it.
pub open spec fn lacks_user(db: DatabaseView) -> spec_fn(Seq<char>) -> bool {
    |name: Seq<char>| !has_user(db, name)
}

/// Of a name: whether the store has no component of it.
pub open spec fn lacks_component(db: DatabaseView) -> spec_fn(Seq<char>) -> bool {
    |name: Seq<char>| !has_component(db, name)
}

/// Of a name: whether the store has no tag of it.
pub open spec fn lacks_tag(db: DatabaseView) -> spec_fn(Seq<char>) -> bool {
    |name: Seq<char>| !has_tag(db, name)
}

/// Of an id: whether the store has no operation of it.
pub open spec fn lacks_operation(db: DatabaseView) -> spec_fn(u64) -> bool {
    |id: u64| operation_of(db.operations, id) is None
}

/// A subscription set that asks for nothing.
pub open spec fn no_subscriptions() -> SubscriptionView {
    SubscriptionView { operations: Seq::empty(), components: Seq::empty(), tags: Seq::empty() }
}

/// The user that is created for a name.
pub open spec fn new_user(username: Seq<char>) -> UserView {
    UserView { name: trimmed(username), subscriptions: no_subscriptions() }
}

/// Why a user is not created: the name is blank, or taken.
pub open spec fn user_refusal(db: DatabaseView, username: Seq<char>) -> Option<ErrorView> {
    let name = trimmed(username);
    if name.len() == 0 {
        Some(ErrorView::BlankItem(Field::Name))
    } else if has_user(db, name) {
        Some(ErrorView::AlreadyExists { entity: Entity::User, id: name })
    } else {
        None
    }
}

/// The store with a new user.
pub open spec fn with_user(db: DatabaseView, username: Seq<char>) -> DatabaseView {
    DatabaseView { users: db.users.push(new_user(username)), ..db }
}

/// A component as it is stored: texts trimmed, owners normalized.
pub open spec fn component_form(component: ComponentView) -> ComponentView {
    ComponentView {
        name: trimmed(component.name),
        description: trimmed(component.description),
        owners: normalized(component.owners),
    }
}

/// What is wrong with a component by itself and by what it refers to: a
/// blank name or description, no owner, or an owner that is no user.
pub open spec fn component_flaw(db: DatabaseView, component: ComponentView) -> Option<ErrorView> {
    let n = component_form(component);
    if n.name.len() == 0 {
        Some(ErrorView::BlankItem(Field::Name))
    } else if n.description.len() == 0 {
        Some(ErrorView::BlankItem(Field::Description))
    } else if component.owners.len() == 0 {
        Some(ErrorView::MissingItem(Item::Owner))
    } else {
        match first_such(n.owners, lacks_user(db)) {
            Some(owner) => Some(ErrorView::NotFound { entity: Entity::User, id: owner }),
            None => None,
        }
    }
}

/// Why a component is not created: it has a flaw, or its name is taken.
pub open spec fn component_refusal(db: DatabaseView, component: ComponentView) -> Option<
    ErrorView,
> {
    match component_flaw(db, component) {
        Some(e) => Some(e),
        None => if has_component(db, trimmed(component.name)) {
            Some(
                ErrorView::AlreadyExists { entity: Entity::Component, id: trimmed(component.name) },
            )
        } else {
            None
        },
    }
}

/// The store with a new component.
pub open spec fn with_component(db: DatabaseView, component: ComponentView) -> DatabaseView {
    DatabaseView { components: db.components.push(component_form(component)), ..db }
}

/// A tag as it is stored: texts trimmed.
pub open spec fn tag_form(tag: TagView) -> TagView {
    TagView { name: trimmed(tag.name), description: trimmed(tag.description) }
}

/// What is wrong with a tag by itself: a blank name or description.
pub open spec fn tag_flaw(tag: TagView) -> Option<ErrorView> {
    let n = tag_form(tag);
    if n.name.len() == 0 {
        Some(ErrorView::BlankItem(Field::Name))
    } else if n.description.len() == 0 {
        Some(ErrorView::BlankItem(Field::Description))
    } else {
        None
    }
}

/// Why a tag is not created: it has a flaw, or its name is taken.
pub open spec fn tag_refusal(db: DatabaseView, tag: TagView) -> Option<ErrorView> {
    match tag_flaw(tag) {
        Some(e) => Some(e),
        None => if has_tag(db, trimmed(tag.name)) {
            Some(ErrorView::AlreadyExists { entity: Entity::Tag, id: trimmed(tag.name) })
        } else {
            None
        },
    }
}

/// The store with a new tag.
pub open spec fn with_tag(db: DatabaseView, tag: TagView) -> DatabaseView {
    DatabaseView { tags: db.tags.push(tag_form(tag)), ..db }
}

/// How many of the three targets a subscription names.
pub open spec fn targets(
    operation: Option<u64>,
    component: Option<Seq<char>>,
    tag: Option<Seq<char>>,
) -> int {
    (if operation is Some {
        1int
    } else {
        0int
    }) + (if component is Some {
        1int
    } else {
        0int
    }) + (if tag is Some {
        1int
    } else {
        0int
    })
}

/// Why a subscription is not taken: it does not name exactly one target,
/// the target does not exist, or the user does not.
pub open spec fn subscription_refusal(
    db: DatabaseView,
    username: Seq<char>,
    operation: Option<u64>,
    component: Option<Seq<char>>,
    tag: Option<Seq<char>>,
) -> Option<ErrorView> {
    if targets(operation, component, tag) != 1 {
        Some(ErrorView::SubscribingMultipleEntities)
    } else if operation is Some && operation_of(db.operations, operation->0) is None {
        Some(ErrorView::NotFound { entity: Entity::Operation, id: decimal(operation->0 as nat) })
    } else if component is Some && !has_component(db, component->0) {
        Some(ErrorView::NotFound { entity: Entity::Component, id: component->0 })
    } else if tag is Some && !has_tag(db, tag->0) {
        Some(ErrorView::NotFound { entity: Entity::Tag, id: tag->0 })
    } else if !has_user(db, username) {
        Some(ErrorView::NotFound { entity: Entity::User, id: username })
    } else {
        None
    }
}

/// A subscription set with the named target added, unless it is there.
pub open spec fn subscribed(
    s: SubscriptionView,
    operation: Option<u64>,
    component: Option<Seq<char>>,
    tag: Option<Seq<char>>,
) -> SubscriptionView {
    SubscriptionView {
        operations: if operation is Some {
            with_id(s.operations, operation->0)
        } else {
            s.operations
        },
        components: if component is Some {
            inserted(s.components, component->0)
        } else {
            s.components
        },
        tags: if tag is Some {
            inserted(s.tags, tag->0)
        } else {
            s.tags
        },
    }
}

/// The store after the user `username` subscribed to the named target.
pub open spec fn with_subscription(
    db: DatabaseView,
    username: Seq<char>,
    operation: Option<u64>,
    component: Option<Seq<char>>,
    tag: Option<Seq<char>>,
) -> DatabaseView {
    DatabaseView {
        users: Seq::new(
            db.users.len(),
            |i: int|
                if db.users[i].name == username {
                    UserView {
                        subscriptions: subscribed(db.users[i].subscriptions, operation, component, tag),
                        ..db.users[i]
                    }
                } else {
                    db.users[i]
                },
        ),
        ..db
    }
}

/// An operation as it is stored: title and purpose trimmed, every list
/// normalized.
pub open spec fn operation_form(operation: OperationView) -> OperationView {
    OperationView {
        title: trimmed(operation.title),
        purpose: trimmed(operation.purpose),
        components: normalized(operation.components),
        locks: normalized(operation.locks),
        tags: normalized(operation.tags),
        depends_on: sorted_ids(operation.depends_on),
        operators: normalized(operation.operators),
        ..operation
    }
}

/// What is wrong with an operation by itself and by what it refers to, in
/// the order in which it is looked for: a blank title or purpose, a url that
/// is not http or https, no component, an unknown component, a lock that is
/// no component of the operation, an unknown tag, an unknown dependency, no
/// operator, an unknown operator.
pub open spec fn operation_flaw(db: DatabaseView, operation: OperationView) -> Option<ErrorView> {
    let n = operation_form(operation);
    if n.title.len() == 0 {
        Some(ErrorView::BlankItem(Field::Title))
    } else if n.purpose.len() == 0 {
        Some(ErrorView::BlankItem(Field::Purpose))
    } else if !web_scheme(uri_scheme(operation.url)) {
        Some(ErrorView::InvalidUrlScheme)
    } else if operation.components.len() == 0 {
        Some(ErrorView::MissingItem(Item::Component))
    } else if first_such(n.components, lacks_component(db)) is Some {
        Some(
            ErrorView::NotFound {
                entity: Entity::Component,
                id: first_such(n.components, lacks_component(db))->0,
            },
        )
    } else if !subset_of(n.locks, n.components) {
        Some(ErrorView::LockingNonAffectedComponent)
    } else if first_such(n.tags, lacks_tag(db)) is Some {
        Some(ErrorView::NotFound { entity: Entity::Tag, id: first_such(n.tags, lacks_tag(db))->0 })
    } else if first_such(n.depends_on, lacks_operation(db)) is Some {
        Some(
            ErrorView::NotFound {
                entity: Entity::Operation,
                id: decimal(first_such(n.depends_on, lacks_operation(db))->0 as nat),
            },
        )
    } else if operation.operators.len() == 0 {
        Some(ErrorView::MissingItem(Item::Operator))
    } else if first_such(n.operators, lacks_user(db)) is Some {
        Some(
            ErrorView::NotFound {
                entity: Entity::User,
                id: first_such(n.operators, lacks_user(db))->0,
            },
        )
    } else {
        None
    }
}

/// Whether one of the operations with the ids `dependencies` is not
/// completed.
pub open spec fn unmet(operations: Seq<OperationView>, dependencies: Seq<u64>) -> bool {
    exists|i: int|
        0 <= i < dependencies.len() && !completed(operations, #[trigger] dependencies[i])
}

/// Whether the operation with the id `id` is completed.
pub open spec fn completed(operations: Seq<OperationView>, id: u64) -> bool {
    operation_of(operations, id) is Some && operation_of(operations, id)->0.status
        == OperationState::Completed
}

/// The operations but the one with the id `id`.
pub open spec fn others(operations: Seq<OperationView>, id: u64) -> Seq<OperationView> {
    if operation_of(operations, id) is Some {
        operations.remove(place(ids_of(operations), id))
    } else {
        operations
    }
}

/// Why the status of a stored operation may not become what the new value
/// asks for: the change of status is not legal, or the operation is to be in
/// progress while one it depends on is not completed.
pub open spec fn status_refusal(db: DatabaseView, operation: OperationView) -> Option<ErrorView> {
    match operation_of(db.operations, operation.id) {
        Some(current) => if !can_transition(current.status, operation.status) {
            Some(ErrorView::InvalidStateTransition)
        } else if operation.status == OperationState::InProgress && unmet(
            db.operations,
            sorted_ids(operation.depends_on),
        ) {
            Some(ErrorView::UnmetDependency)
        } else {
            None
        },
        None => None,
    }
}

/// Why the operation does not get the locks it needs when under way: the
/// first of its components that the other operations keep it from.
pub open spec fn lock_refusal(db: DatabaseView, operation: OperationView) -> Option<ErrorView> {
    match conflict(held(others(db.operations, operation.id)), operation_form(operation)) {
        Some(component) => Some(ErrorView::LockFailed(component)),
        None => None,
    }
}

/// Why an operation is not written: it has a flaw, its status may not be
/// what it asks for, or it does not get its locks.
pub open spec fn operation_refusal(db: DatabaseView, operation: OperationView) -> Option<
    ErrorView,
> {
    if operation_flaw(db, operation) is Some {
        operation_flaw(db, operation)
    } else if status_refusal(db, operation) is Some {
        status_refusal(db, operation)
    } else {
        lock_refusal(db, operation)
    }
}

/// Whether writing the operation changes what the store holds: it is new,
/// or differs from the stored value.
pub open spec fn observable(db: DatabaseView, operation: OperationView) -> bool {
    operation_of(db.operations, operation.id) != Some(operation_form(operation))
}

/// The state after the operation was written: the store holds its normal
/// form at the place of its id, and the lock table is the one that the
/// operations then give rise to.
pub open spec fn with_operation(s: StateView, operation: OperationView) -> StateView {
    let n = operation_form(operation);
    let rest = others(s.database.operations, n.id);
    StateView {
        database: DatabaseView {
            operations: rest.insert(place(ids_of(s.database.operations), n.id), n),
            ..s.database
        },
        locks: extended(held(rest), n),
    }
}

/// A stored user is sound: the name is trimmed and not blank, and the
/// subscriptions are in order and name what the store holds.
pub open spec fn user_sound(db: DatabaseView, user: UserView) -> bool {
    &&& user.name.len() > 0
    &&& trimmed(user.name) == user.name
    &&& tidy(user.subscriptions)
    &&& forall|i: int|
        0 <= i < user.subscriptions.operations.len() ==> operation_of(
            db.operations,
            #[trigger] user.subscriptions.operations[i],
        ) is Some
    &&& forall|i: int|
        0 <= i < user.subscriptions.components.len() ==> has_component(
            db,
            #[trigger] user.subscriptions.components[i],
        )
    &&& forall|i: int|
        0 <= i < user.subscriptions.tags.len() ==> has_tag(db, #[trigger] user.subscriptions.tags[i])
}

/// A stored component is sound: it has no flaw and is in its stored form.
pub open spec fn component_sound(db: DatabaseView, component: ComponentView) -> bool {
    component_flaw(db, component) is None && component_form(component) == component
}

/// A stored tag is sound: it has no flaw and is in its stored form.
pub open spec fn tag_sound(tag: TagView) -> bool {
    tag_flaw(tag) is None && tag_form(tag) == tag
}

/// A stored operation is sound: it has no flaw and is in its stored form.
pub open spec fn operation_sound(db: DatabaseView, operation: OperationView) -> bool {
    operation_flaw(db, operation) is None && operation_form(operation) == operation
}

/// The store is coherent: no two entities of a kind have one identifier,
/// the operations stand in ascending order of ids that the counter has
/// passed, and every entity is sound, so that whatever an entity refers to
/// is in the store.
pub open spec fn coherent(db: DatabaseView) -> bool {
    &&& user_names(db).no_duplicates()
    &&& component_names(db).no_duplicates()
    &&& tag_names(db).no_duplicates()
    &&& ascending(ids_of(db.operations))
    &&& forall|i: int| 0 <= i < db.operations.len() ==> (#[trigger] db.operations[i]).id < db.next_id
    &&& forall|i: int| 0 <= i < db.users.len() ==> user_sound(db, #[trigger] db.users[i])
    &&& forall|i: int|
        0 <= i < db.components.len() ==> component_sound(db, #[trigger] db.components[i])
    &&& forall|i: int| 0 <= i < db.tags.len() ==> tag_sound(#[trigger] db.tags[i])
    &&& forall|i: int|
        0 <= i < db.operations.len() ==> operation_sound(db, #[trigger] db.operations[i])
}

/// The store `new` holds every identifier that the store `old` holds.
pub open spec fn extends(old: DatabaseView, new: DatabaseView) -> bool {
    &&& forall|name: Seq<char>| #[trigger] has_user(old, name) ==> has_user(new, name)
    &&& forall|name: Seq<char>| #[trigger] has_component(old, name) ==> has_component(new, name)
    &&& forall|name: Seq<char>| #[trigger] has_tag(old, name) ==> has_tag(new, name)
    &&& forall|id: u64| #[trigger]
        operation_of(old.operations, id) is Some ==> operation_of(new.operations, id) is Some
}

/// Names that are all known to a store are all known to a store that
/// extends it.
proof fn lemma_known_extends(
    names: Seq<Seq<char>>,
    lacks_old: spec_fn(Seq<char>) -> bool,
    lacks_new: spec_fn(Seq<char>) -> bool,
)
    requires
        first_such(names, lacks_old) is None,
        forall|i: int|
            0 <= i < names.len() && !lacks_old(#[trigger] names[i]) ==> !lacks_new(names[i]),
    ensures
        first_such(names, lacks_new) is None,
{
    lemma_first_such(names, lacks_old);
    lemma_first_such(names, lacks_new);
}

/// A sound user stays sound in a store that extends the one it is sound in.
pub proof fn lemma_user_sound_extends(old: DatabaseView, new: DatabaseView, user: UserView)
    requires
        extends(old, new),
        user_sound(old, user),
    ensures
        user_sound(new, user),
{
    assert forall|i: int| 0 <= i < user.subscriptions.components.len() implies has_component(
        new,
        #[trigger] user.subscriptions.components[i],
    ) by {
        assert(has_component(old, user.subscriptions.components[i]));
    }
    assert forall|i: int| 0 <= i < user.subscriptions.tags.len() implies has_tag(
        new,
        #[trigger] user.subscriptions.tags[i],
    ) by {
        assert(has_tag(old, user.subscriptions.tags[i]));
    }
}

/// A sound component stays sound in a store that extends the one it is
/// sound in.
pub proof fn lemma_component_sound_extends(
    old: DatabaseView,
    new: DatabaseView,
    component: ComponentView,
)
    requires
        extends(old, new),
        component_sound(old, component),
    ensures
        component_sound(new, component),
{
    let owners = component_form(component).owners;
    assert forall|i: int| 0 <= i < owners.len() && !lacks_user(old)(#[trigger] owners[i]) implies
        !lacks_user(new)(owners[i]) by {
        assert(has_user(old, owners[i]));
    }
    lemma_known_extends(owners, lacks_user(old), lacks_user(new));
}

/// A sound operation stays sound in a store that extends the one it is
/// sound in.
pub proof fn lemma_operation_sound_extends(
    old: DatabaseView,
    new: DatabaseView,
    operation: OperationView,
)
    requires
        extends(old, new),
        operation_sound(old, operation),
    ensures
        operation_sound(new, operation),
{
    let n = operation_form(operation);
    assert forall|i: int|
        0 <= i < n.operators.len() && !lacks_user(old)(#[trigger] n.operators[i]) implies
        !lacks_user(new)(n.operators[i]) by {
        assert(has_user(old, n.operators[i]));
    }
    assert forall|i: int|
        0 <= i < n.components.len() && !lacks_component(old)(
            #[trigger] n.components[i],
        ) implies !lacks_component(new)(n.components[i]) by {
        assert(has_component(old, n.components[i]));
    }
    assert forall|i: int| 0 <= i < n.tags.len() && !lacks_tag(old)(#[trigger] n.tags[i]) implies
        !lacks_tag(new)(n.tags[i]) by {
        assert(has_tag(old, n.tags[i]));
    }
    lemma_known_extends(n.components, lacks_component(old), lacks_component(new));
    lemma_known_extends(n.tags, lacks_tag(old), lacks_tag(new));
    lemma_known_extends(n.operators, lacks_user(old), lacks_user(new));
    lemma_first_such(n.depends_on, lacks_operation(old));
    lemma_first_such(n.depends_on, lacks_operation(new));
    assert forall|i: int| 0 <= i < n.depends_on.len() implies !lacks_operation(new)(
        #[trigger] n.depends_on[i],
    ) by {
        assert(!lacks_operation(old)(n.depends_on[i]));
        assert(operation_of(old.operations, n.depends_on[i]) is Some);
    }
}

/// Every entity that is sound in a store is sound in a store that extends
/// it.
pub proof fn lemma_sound_carried(old: DatabaseView, new: DatabaseView)
    requires
        extends(old, new),
    ensures
        forall|user: UserView| #[trigger] user_sound(old, user) ==> user_sound(new, user),
        forall|component: ComponentView| #[trigger]
            component_sound(old, component) ==> component_sound(new, component),
        forall|operation: OperationView| #[trigger]
            operation_sound(old, operation) ==> operation_sound(new, operation),
{
    assert forall|user: UserView| #[trigger] user_sound(old, user) implies user_sound(
        new,
        user,
    ) by {
        lemma_user_sound_extends(old, new, user);
    }
    assert forall|component: ComponentView| #[trigger]
        component_sound(old, component) implies component_sound(new, component) by {
        lemma_component_sound_extends(old, new, component);
    }
    assert forall|operation: OperationView| #[trigger]
        operation_sound(old, operation) implies operation_sound(new, operation) by {
        lemma_operation_sound_extends(old, new, operation);
    }
}

/// A store extends every store with the same names and the same operations.
pub proof fn lemma_extends_same(old: DatabaseView, new: DatabaseView)
    requires
        user_names(new) == user_names(old),
        component_names(new) == component_names(old),
        tag_names(new) == tag_names(old),
        new.operations == old.operations,
    ensures
        extends(old, new),
{
}

/// A store with one more name, and in which every operation that was found
/// is found still, extends the store it comes from.
pub proof fn lemma_extends_grown(old: DatabaseView, new: DatabaseView)
    requires
        user_names(new) == user_names(old) || exists|name: Seq<char>|
            user_names(new) == user_names(old).push(name),
        component_names(new) == component_names(old) || exists|name: Seq<char>|
            component_names(new) == component_names(old).push(name),
        tag_names(new) == tag_names(old) || exists|name: Seq<char>|
            tag_names(new) == tag_names(old).push(name),
        forall|id: u64| #[trigger]
            operation_of(old.operations, id) is Some ==> operation_of(new.operations, id) is Some,
    ensures
        extends(old, new),
{
    assert forall|name: Seq<char>| #[trigger] has_user(old, name) implies has_user(new, name) by {
        let k = choose|k: int| 0 <= k < user_names(old).len() && user_names(old)[k] == name;
        assert(user_names(new)[k] == name);
    }
    assert forall|name: Seq<char>| #[trigger] has_component(old, name) implies has_component(
        new,
        name,
    ) by {
        let k = choose|k: int|
            0 <= k < component_names(old).len() && component_names(old)[k] == name;
        assert(component_names(new)[k] == name);
    }
    assert forall|name: Seq<char>| #[trigger] has_tag(old, name) implies has_tag(new, name) by {
        let k = choose|k: int| 0 <= k < tag_names(old).len() && tag_names(old)[k] == name;
        assert(tag_names(new)[k] == name);
    }
}

/// The stored form of an operation is its own stored form.
pub proof fn lemma_operation_form_idempotent(operation: OperationView)
    ensures
        operation_form(operation_form(operation)) == operation_form(operation),
{
    lemma_trimmed(operation.title);
    lemma_trimmed(operation.purpose);
    lemma_normalized_idempotent(operation.components);
    lemma_normalized_idempotent(operation.locks);
    lemma_normalized_idempotent(operation.tags);
    lemma_normalized_idempotent(operation.operators);
    lemma_sorted_ids(operation.depends_on);
    lemma_sorted_ids_fixed(sorted_ids(operation.depends_on));
}

/// The stored form of an operation without a flaw is sound.
pub proof fn lemma_operation_form_sound(db: DatabaseView, operation: OperationView)
    requires
        operation_flaw(db, operation) is None,
    ensures
        operation_sound(db, operation_form(operation)),
        settled(operation_form(operation)),
{
    lemma_operation_form_idempotent(operation);
    lemma_normalized(operation.components);
    lemma_normalized(operation.locks);
    lemma_normalized(operation.operators);
}

/// The stored form of a component without a flaw is sound.
pub proof fn lemma_component_form_sound(db: DatabaseView, component: ComponentView)
    requires
        component_flaw(db, component) is None,
    ensures
        component_sound(db, component_form(component)),
{
    lemma_trimmed(component.name);
    lemma_trimmed(component.description);
    lemma_normalized_idempotent(component.owners);
    lemma_normalized(component.owners);
}

/// The stored form of a tag without a flaw is sound.
pub proof fn lemma_tag_form_sound(tag: TagView)
    requires
        tag_flaw(tag) is None,
    ensures
        tag_sound(tag_form(tag)),
{
    lemma_trimmed(tag.name);
    lemma_trimmed(tag.description);
}

/// A sound operation has the lists that decide what it holds in normal
/// form.
pub proof fn lemma_sound_settled(db: DatabaseView, operation: OperationView)
    requires
        operation_sound(db, operation),
    ensures
        settled(operation),
{
    lemma_normalized(operation.components);
    lemma_normalized(operation.locks);
}

/// In a store whose operations stand in ascending order, an operation is
/// found for an id exactly when one of the operations has the id.
pub proof fn lemma_operation_known(operations: Seq<OperationView>, id: u64)
    requires
        ascending(ids_of(operations)),
    ensures
        operation_of(operations, id) is Some <==> ids_of(operations).contains(id),
{
    if operation_of(operations, id) is None {
        lemma_operation_of_none(operations, id);
    } else {
        let k = place(ids_of(operations), id);
        lemma_place_found(ids_of(operations), id);
        assert(ids_of(operations)[k] == id);
    }
}

/// The operations after a write: the written one stands at the place of its
/// id, every other one is an operation that was there, every id that was
/// there is there still, and the order of the ids is kept.
pub proof fn lemma_written_operations(operations: Seq<OperationView>, n: OperationView)
    requires
        ascending(ids_of(operations)),
    ensures
        ({
            let k = place(ids_of(operations), n.id);
            let rest = others(operations, n.id);
            let new = rest.insert(k, n);
            &&& 0 <= k <= rest.len()
            &&& is_place(ids_of(operations), n.id, k)
            &&& operation_of(operations, n.id) is Some <==> (k < operations.len() && operations[k].id
                == n.id)
            &&& new.len() == rest.len() + 1
            &&& new[k] == n
            &&& forall|i: int| 0 <= i < new.len() && i != k ==> operations.contains(#[trigger] new[i])
            &&& forall|i: int| 0 <= i < rest.len() ==> operations.contains(#[trigger] rest[i])
            &&& forall|id: u64|
                ids_of(operations).contains(id) ==> #[trigger] ids_of(new).contains(id)
            &&& ascending(ids_of(new))
        }),
{
    let ops = operations;
    let ids = ids_of(ops);
    let k = place(ids, n.id);
    lemma_place_found(ids, n.id);
    let stored = operation_of(ops, n.id) is Some;
    let rest = others(ops, n.id);
    let new = rest.insert(k, n);
    assert forall|i: int| 0 <= i < rest.len() implies ops.contains(#[trigger] rest[i]) by {
        if stored && i >= k {
            assert(rest[i] == ops[i + 1]);
        } else {
            assert(rest[i] == ops[i]);
        }
    }
    assert forall|i: int| 0 <= i < new.len() && i != k implies ops.contains(#[trigger] new[i]) by {
        if i < k {
            assert(new[i] == rest[i]);
        } else {
            assert(new[i] == rest[i - 1]);
        }
        assert(ops.contains(rest[if i < k { i } else { i - 1 }]));
    }
    assert forall|id: u64| ids.contains(id) implies #[trigger] ids_of(new).contains(id) by {
        let m = choose|m: int| 0 <= m < ids.len() && ids[m] == id;
        if stored {
            assert(ids_of(new)[m] == id);
        } else if m < k {
            assert(ids_of(new)[m] == id);
        } else {
            assert(ids_of(new)[m + 1] == id);
        }
    }
    assert forall|i: int, j: int| 0 <= i < j < new.len() implies ids_of(new)[i] < ids_of(new)[j] by {
        let a = if i < k || stored {
            i
        } else {
            i - 1
        };
        let b = if j < k || stored {
            j
        } else {
            j - 1
        };
        if i == k {
            assert(ids[b] >= n.id);
            if stored {
                assert(ids[k] < ids[b]);
            } else if ids[b] == n.id {
                lemma_operation_of(ops, b);
            }
        } else if j == k {
            assert(ids[a] < n.id);
        } else {
            assert(ids[a] < ids[b]);
        }
    }
}

/// A write that nothing stands against leads from a well-formed state to a
/// well-formed state: the store stays coherent, the operations under way
/// stay out of each other's way, and the lock table is theirs.
pub proof fn lemma_write_keeps_well_formed(s: StateView, operation: OperationView)
    requires
        well_formed(s),
        operation_refusal(s.database, operation) is None,
        operation_of(s.database.operations, operation.id) is None ==> operation.id
            < s.database.next_id,
    ensures
        well_formed(with_operation(s, operation)),
{
    let old = s.database;
    let ops = old.operations;
    let n = operation_form(operation);
    let k = place(ids_of(ops), n.id);
    let rest = others(ops, n.id);
    let after = with_operation(s, operation);
    let new = after.database;
    lemma_written_operations(ops, n);
    lemma_operation_form_sound(old, operation);
    // The operations under way stay out of each other's way.
    if operation_of(ops, n.id) is Some {
        lemma_conflict_free_remove(ops, k);
    }
    if n.status.active() {
        lemma_conflict(rest, n);
    } else {
        assert forall|i: int| 0 <= i < rest.len() implies compatible(#[trigger] rest[i], n) by {
            assert forall|c: Seq<char>| holding(n, c) is None by {}
        }
    }
    lemma_conflict_free_insert(rest, k, n);
    lemma_held_insert(rest, k, n);
    // The store stays coherent.
    assert(user_names(new) =~= user_names(old));
    assert(component_names(new) =~= component_names(old));
    assert(tag_names(new) =~= tag_names(old));
    assert forall|id: u64| #[trigger] operation_of(ops, id) is Some implies operation_of(
        new.operations,
        id,
    ) is Some by {
        lemma_operation_known(ops, id);
        lemma_operation_known(new.operations, id);
    }
    lemma_extends_grown(old, new);
    lemma_sound_carried(old, new);
    assert forall|i: int| 0 <= i < new.operations.len() implies (#[trigger] new.operations[i]).id
        < new.next_id && operation_sound(new, new.operations[i]) by {
        if i != k {
            let m = choose|m: int| 0 <= m < ops.len() && ops[m] == new.operations[i];
            assert(operation_sound(old, ops[m]));
        } else if operation_of(ops, n.id) is Some {
            assert(ops[k].id < old.next_id);
        }
    }
    assert forall|i: int| 0 <= i < new.users.len() implies user_sound(
        new,
        #[trigger] new.users[i],
    ) by {
        assert(user_sound(old, old.users[i]));
    }
    assert forall|i: int| 0 <= i < new.components.len() implies component_sound(
        new,
        #[trigger] new.components[i],
    ) by {
        assert(component_sound(old, old.components[i]));
    }
}

} // verus!
