//! What holds of the engine whatever the request and the state.

use crate::engine::restored;
use crate::error::{Entity, ErrorView};
use crate::ids::{lemma_sorted_ids, sorted_ids};
use crate::locks::{
    acquired, barred, held, holding, lemma_conflict, lemma_mutual_exclusion, ComponentLock,
};
use crate::model::{
    can_transition, matches_operation, ComponentView, OperationState, OperationView,
    SubscriptionView, TagView,
};
use crate::names::{lemma_first_such, subset_of};
use crate::rules::{
    completed, component_flaw, component_form, component_refusal, component_sound,
    lacks_component, lacks_operation, lacks_tag, lacks_user, lock_refusal, observable,
    operation_flaw, operation_form, operation_refusal, operation_sound, tag_flaw, tag_refusal,
    lemma_written_operations, others, unmet, user_refusal, user_sound, well_formed,
    with_component, with_operation, with_tag, with_user, StateView,
};
use crate::store::{
    component_names, has_component, has_tag, has_user, ids_of, lemma_operation_of, operation_of,
    place, tag_names, user_names, DatabaseView,
};
use crate::text::trimmed;
use vstd::prelude::*;

verus! {

/// Once a user is created, a name that trims to the same text is refused as
/// taken.
pub proof fn lemma_user_collision(db: DatabaseView, first: Seq<char>, second: Seq<char>)
    requires
        user_refusal(db, first) is None,
        trimmed(second) == trimmed(first),
    ensures
        user_refusal(with_user(db, first), second) == Some(
            ErrorView::AlreadyExists { entity: Entity::User, id: trimmed(second) },
        ),
{
    let after = with_user(db, first);
    assert(user_names(after)[db.users.len() as int] == trimmed(first));
}

/// Once a component is created, a component without a flaw whose name trims
/// to the same text is refused as taken.
pub proof fn lemma_component_collision(db: DatabaseView, first: ComponentView, second: ComponentView)
    requires
        component_refusal(db, first) is None,
        component_flaw(with_component(db, first), second) is None,
        trimmed(second.name) == trimmed(first.name),
    ensures
        component_refusal(with_component(db, first), second) == Some(
            ErrorView::AlreadyExists { entity: Entity::Component, id: trimmed(second.name) },
        ),
{
    let after = with_component(db, first);
    assert(component_names(after)[db.components.len() as int] == component_form(first).name);
}

/// Once a tag is created, a tag without a flaw whose name trims to the same
/// text is refused as taken.
pub proof fn lemma_tag_collision(db: DatabaseView, first: TagView, second: TagView)
    requires
        tag_refusal(db, first) is None,
        tag_flaw(second) is None,
        trimmed(second.name) == trimmed(first.name),
    ensures
        tag_refusal(with_tag(db, first), second) == Some(
            ErrorView::AlreadyExists { entity: Entity::Tag, id: trimmed(second.name) },
        ),
{
    let after = with_tag(db, first);
    assert(tag_names(after)[db.tags.len() as int] == trimmed(first.name));
}

/// An operation that is written has every lock among its components; one
/// whose locks go beyond its components is refused.
pub proof fn lemma_locks_within_components(db: DatabaseView, operation: OperationView)
    ensures
        operation_refusal(db, operation) is None ==> subset_of(
            operation_form(operation).locks,
            operation_form(operation).components,
        ),
        !subset_of(operation_form(operation).locks, operation_form(operation).components)
            ==> operation_refusal(db, operation) is Some,
{
}

/// The legal changes of status are those of the table, and staying in a
/// status; nothing leads out of a status in which an operation has ended.
pub proof fn lemma_transitions(from: OperationState, to: OperationState)
    ensures
        can_transition(from, to) <==> (from == to || (from == OperationState::Planned && (to
            == OperationState::InProgress || to == OperationState::Canceled)) || (from
            == OperationState::Paused && to == OperationState::InProgress) || (from
            == OperationState::InProgress && (to == OperationState::Paused || to
            == OperationState::Completed || to == OperationState::Aborted))),
        (from == OperationState::Completed || from == OperationState::Aborted || from
            == OperationState::Canceled) ==> (can_transition(from, to) <==> to == from),
{
}

/// An operation that is to be in progress, has no flaw and may change its
/// status so, is refused for an unmet dependency exactly when one of the
/// operations it depends on is not completed; once all are, nothing but its
/// locks can stand against it.
pub proof fn lemma_dependency_gate(db: DatabaseView, operation: OperationView)
    requires
        operation.status == OperationState::InProgress,
        operation_flaw(db, operation) is None,
        operation_of(db.operations, operation.id) is Some,
        can_transition(operation_of(db.operations, operation.id)->0.status, operation.status),
    ensures
        unmet(db.operations, sorted_ids(operation.depends_on)) <==> exists|i: int|
            0 <= i < operation.depends_on.len() && !completed(
                db.operations,
                #[trigger] operation.depends_on[i],
            ),
        unmet(db.operations, sorted_ids(operation.depends_on)) ==> operation_refusal(db, operation)
            == Some(ErrorView::UnmetDependency),
        !unmet(db.operations, sorted_ids(operation.depends_on)) ==> operation_refusal(db, operation)
            == lock_refusal(db, operation),
{
    let raw = operation.depends_on;
    let ids = sorted_ids(raw);
    lemma_sorted_ids(raw);
    if unmet(db.operations, ids) {
        let i = choose|i: int| 0 <= i < ids.len() && !completed(db.operations, #[trigger] ids[i]);
        assert(ids.contains(ids[i]));
        assert(raw.contains(ids[i]));
        let j = choose|j: int| 0 <= j < raw.len() && raw[j] == ids[i];
        assert(!completed(db.operations, raw[j]));
    }
    if exists|i: int| 0 <= i < raw.len() && !completed(db.operations, #[trigger] raw[i]) {
        let i = choose|i: int| 0 <= i < raw.len() && !completed(db.operations, #[trigger] raw[i]);
        assert(raw.contains(raw[i]));
        assert(ids.contains(raw[i]));
        let j = choose|j: int| 0 <= j < ids.len() && ids[j] == raw[i];
        assert(!completed(db.operations, ids[j]));
    }
}

/// Of two requests for one component, the one after the other: where the
/// component was free or shared, and not both ask for it exclusively, both
/// get it if both ask to share it, and exactly one gets it otherwise.
pub proof fn lemma_two_requests(
    table: Map<Seq<char>, ComponentLock>,
    component: Seq<char>,
    first: ComponentLock,
    second: ComponentLock,
)
    requires
        table.contains_key(component) ==> table[component] == ComponentLock::Shared && (first
            == ComponentLock::Shared || second == ComponentLock::Shared),
    ensures
        ({
            let one = acquired(table, component, first);
            let two = acquired(
                if one is Some {
                    one->0
                } else {
                    table
                },
                component,
                second,
            );
            if first == ComponentLock::Shared && second == ComponentLock::Shared {
                one is Some && two is Some
            } else {
                one is Some != two is Some
            }
        }),
{
}

/// Who subscribed to a component hears of every operation on it, whatever
/// its id and its tags.
pub proof fn lemma_component_subscription(
    s: SubscriptionView,
    operation: OperationView,
    component: Seq<char>,
)
    requires
        s.components.contains(component),
        operation.components.contains(component),
    ensures
        matches_operation(s, operation),
{
    let i = choose|i: int| 0 <= i < operation.components.len() && operation.components[i] == component;
    assert(s.components.contains(operation.components[i]));
}

/// Who subscribed to a tag hears of every operation under it.
pub proof fn lemma_tag_subscription(s: SubscriptionView, operation: OperationView, tag: Seq<char>)
    requires
        s.tags.contains(tag),
        operation.tags.contains(tag),
    ensures
        matches_operation(s, operation),
{
    let i = choose|i: int| 0 <= i < operation.tags.len() && operation.tags[i] == tag;
    assert(s.tags.contains(operation.tags[i]));
}

/// Who subscribed to operations only hears of exactly those operations.
pub proof fn lemma_operation_subscription(s: SubscriptionView, operation: OperationView)
    requires
        s.components.len() == 0,
        s.tags.len() == 0,
    ensures
        matches_operation(s, operation) <==> s.operations.contains(operation.id),
{
}

/// In a well-formed state every operation names only what the store holds:
/// its components, its tags, its operators and the operations it depends
/// on; its locks are among its components, and it has a component and an
/// operator.
pub proof fn lemma_operations_resolve(s: StateView, i: int)
    requires
        well_formed(s),
        0 <= i < s.database.operations.len(),
    ensures
        ({
            let operation = s.database.operations[i];
            &&& operation.components.len() > 0
            &&& operation.operators.len() > 0
            &&& subset_of(operation.locks, operation.components)
            &&& forall|j: int|
                0 <= j < operation.components.len() ==> has_component(
                    s.database,
                    #[trigger] operation.components[j],
                )
            &&& forall|j: int|
                0 <= j < operation.tags.len() ==> has_tag(s.database, #[trigger] operation.tags[j])
            &&& forall|j: int|
                0 <= j < operation.operators.len() ==> has_user(
                    s.database,
                    #[trigger] operation.operators[j],
                )
            &&& forall|j: int|
                0 <= j < operation.depends_on.len() ==> operation_of(
                    s.database.operations,
                    #[trigger] operation.depends_on[j],
                ) is Some
        }),
{
    let db = s.database;
    let operation = db.operations[i];
    assert(operation_sound(db, operation));
    lemma_first_such(operation.components, lacks_component(db));
    lemma_first_such(operation.tags, lacks_tag(db));
    lemma_first_such(operation.operators, lacks_user(db));
    lemma_first_such(operation.depends_on, lacks_operation(db));
    assert forall|j: int| 0 <= j < operation.depends_on.len() implies operation_of(
        db.operations,
        #[trigger] operation.depends_on[j],
    ) is Some by {
        assert(!lacks_operation(db)(operation.depends_on[j]));
    }
}

/// In a well-formed state every owner of a component is a user, and every
/// subscription names what the store holds.
pub proof fn lemma_owners_and_subscriptions_resolve(s: StateView)
    requires
        well_formed(s),
    ensures
        forall|i: int, j: int|
            0 <= i < s.database.components.len() && 0 <= j < s.database.components[i].owners.len()
                ==> has_user(s.database, #[trigger] s.database.components[i].owners[j]),
        forall|i: int, j: int|
            0 <= i < s.database.users.len() && 0 <= j
                < s.database.users[i].subscriptions.components.len() ==> has_component(
                s.database,
                #[trigger] s.database.users[i].subscriptions.components[j],
            ),
        forall|i: int, j: int|
            0 <= i < s.database.users.len() && 0 <= j < s.database.users[i].subscriptions.tags.len()
                ==> has_tag(s.database, #[trigger] s.database.users[i].subscriptions.tags[j]),
        forall|i: int, j: int|
            0 <= i < s.database.users.len() && 0 <= j
                < s.database.users[i].subscriptions.operations.len() ==> operation_of(
                s.database.operations,
                #[trigger] s.database.users[i].subscriptions.operations[j],
            ) is Some,
{
    let db = s.database;
    assert forall|i: int, j: int|
        0 <= i < db.components.len() && 0 <= j < db.components[i].owners.len() implies has_user(
        db,
        #[trigger] db.components[i].owners[j],
    ) by {
        assert(component_sound(db, db.components[i]));
        lemma_first_such(db.components[i].owners, lacks_user(db));
    }
    assert forall|i: int, j: int|
        0 <= i < db.users.len() && 0 <= j
            < db.users[i].subscriptions.components.len() implies has_component(
        db,
        #[trigger] db.users[i].subscriptions.components[j],
    ) by {
        assert(user_sound(db, db.users[i]));
    }
    assert forall|i: int, j: int|
        0 <= i < db.users.len() && 0 <= j < db.users[i].subscriptions.tags.len() implies has_tag(
        db,
        #[trigger] db.users[i].subscriptions.tags[j],
    ) by {
        assert(user_sound(db, db.users[i]));
    }
    assert forall|i: int, j: int|
        0 <= i < db.users.len() && 0 <= j
            < db.users[i].subscriptions.operations.len() implies operation_of(
        db.operations,
        #[trigger] db.users[i].subscriptions.operations[j],
    ) is Some by {
        assert(user_sound(db, db.users[i]));
    }
}

/// Writing back the value that the store holds for an operation changes
/// nothing that anyone could observe.
pub proof fn lemma_rewrite_unobservable(s: StateView, i: int)
    requires
        well_formed(s),
        0 <= i < s.database.operations.len(),
    ensures
        !observable(s.database, s.database.operations[i]),
{
    let db = s.database;
    assert(operation_sound(db, db.operations[i]));
    lemma_operation_of(db.operations, i);
}

/// In a well-formed state no component is held exclusively by one operation
/// and held at all by another, and the lock table says how each component
/// is held.
pub proof fn lemma_exclusive_means_alone(s: StateView, i: int, j: int, component: Seq<char>)
    requires
        well_formed(s),
        0 <= i < s.database.operations.len(),
        0 <= j < s.database.operations.len(),
        i != j,
        holding(s.database.operations[i], component) == Some(ComponentLock::Exclusive),
    ensures
        holding(s.database.operations[j], component) is None,
        s.locks.contains_key(component),
        s.locks[component] == ComponentLock::Exclusive,
{
    lemma_mutual_exclusion(s.database.operations, i, j, component);
    assert(holding(s.database.operations[i], component) is Some);
}

/// An operation that is written as under way holds, from then on, each of
/// its locks exclusively and each of its other components shared.
pub proof fn lemma_under_way_holds(s: StateView, operation: OperationView, component: Seq<char>)
    requires
        well_formed(s),
        operation_refusal(s.database, operation) is None,
        operation.status.active(),
        operation_form(operation).components.contains(component),
    ensures
        with_operation(s, operation).locks.contains_key(component),
        operation_form(operation).locks.contains(component) ==> with_operation(
            s,
            operation,
        ).locks[component] == ComponentLock::Exclusive,
        !operation_form(operation).locks.contains(component) ==> with_operation(
            s,
            operation,
        ).locks[component] == ComponentLock::Shared,
{
    let n = operation_form(operation);
    let rest = others(s.database.operations, n.id);
    let table = held(rest);
    lemma_conflict(rest, n);
    lemma_first_such(n.components, barred(table, n.locks));
    if !n.locks.contains(component) && table.contains_key(component) {
        let m = choose|m: int| 0 <= m < n.components.len() && n.components[m] == component;
        assert(!barred(table, n.locks)(n.components[m]));
    }
}

/// When an operation is written as not under way, a component that no
/// other operation holds is free from then on: what the operation held is
/// given up.
pub proof fn lemma_ending_releases(s: StateView, operation: OperationView, component: Seq<char>)
    requires
        well_formed(s),
        operation_refusal(s.database, operation) is None,
        !operation.status.active(),
        forall|i: int|
            0 <= i < s.database.operations.len() && (#[trigger] s.database.operations[i]).id
                != operation.id ==> holding(s.database.operations[i], component) is None,
    ensures
        !with_operation(s, operation).locks.contains_key(component),
{
    let ops = s.database.operations;
    let n = operation_form(operation);
    let rest = others(ops, n.id);
    lemma_written_operations(ops, n);
    if held(rest).contains_key(component) {
        let i = choose|i: int| 0 <= i < rest.len() && holding(#[trigger] rest[i], component) is Some;
        let k = place(ids_of(ops), n.id);
        if operation_of(ops, n.id) is Some {
            let m = if i < k {
                i
            } else {
                i + 1
            };
            assert(rest[i] == ops[m]);
            assert(ids_of(ops)[m] != ids_of(ops)[k]);
        } else {
            assert(rest[i] == ops[i]);
            if ops[i].id == n.id {
                lemma_operation_of(ops, i);
            }
        }
    }
}

/// The engine that is restored from the store of a well-formed state is
/// that state: the same entities, and the same lock table.
pub proof fn lemma_round_trip(s: StateView)
    requires
        well_formed(s),
    ensures
        restored(s.database) == Some(s),
{
}

} // verus!
