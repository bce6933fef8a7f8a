use smokestack::annotations::Annotations;
use smokestack::api::{
    CreateOperationRequest, ListOperationsQuery, UpdateOperationRequest,
};
use smokestack::engine::{AppState, Presented};
use smokestack::error::{Entity, Error, Field, Item};
use smokestack::locks::ComponentLock;
use smokestack::model::{Claims, Component, Operation, OperationState, Tag};

fn names(items: &[&str]) -> Vec<String> {
    items.iter().map(|s| s.to_string()).collect()
}

fn component(name: &str, owners: &[&str]) -> Component {
    Component {
        name: name.to_string(),
        description: format!("the {} component", name),
        owners: names(owners),
    }
}

fn tag(name: &str) -> Tag {
    Tag { name: name.to_string(), description: format!("the {} tag", name) }
}

fn request(components: &[&str], locks: &[&str]) -> CreateOperationRequest {
    CreateOperationRequest {
        title: "Upgrade".to_string(),
        purpose: "Keep up".to_string(),
        url: "https://example.com/change/1".to_string(),
        components: names(components),
        locks: names(locks),
        tags: Vec::new(),
        depends_on: Vec::new(),
        operators: Vec::new(),
        annotations: Annotations::new(),
    }
}

fn status(status: OperationState) -> UpdateOperationRequest {
    let mut update = UpdateOperationRequest::default();
    update.status = Some(status);
    update
}

/// alice and bob; components db, web and cache; tags risky and routine.
fn stocked() -> AppState {
    let mut state = AppState::new();
    state.create_user("alice".to_string()).unwrap();
    state.create_user("bob".to_string()).unwrap();
    state.create_component(component("db", &["alice"])).unwrap();
    state.create_component(component("web", &["bob"])).unwrap();
    state.create_component(component("cache", &["alice", "bob"])).unwrap();
    state.create_tag(tag("risky")).unwrap();
    state.create_tag(tag("routine")).unwrap();
    state
}

fn not_found(entity: Entity, id: &str) -> Error {
    Error::NotFound { entity, id: id.to_string() }
}

#[test]
fn a_new_engine_is_empty() {
    let state = AppState::new();
    assert_eq!(state.database().next_id, 1234);
    assert!(state.users().is_empty());
    assert!(state.operations().is_empty());
    assert!(state.components().is_empty());
    assert!(state.tags().is_empty());
    assert!(state.locks().is_empty());
}

#[test]
fn a_user_is_created_with_a_trimmed_name_and_no_subscriptions() {
    let mut state = AppState::new();
    let user = state.create_user("  alice ".to_string()).unwrap();
    assert_eq!(user.name, "alice");
    assert!(user.subscriptions.operations.is_empty());
    assert!(user.subscriptions.components.is_empty());
    assert!(user.subscriptions.tags.is_empty());
    assert_eq!(state.user("alice").unwrap(), &user);
    assert_eq!(state.users().len(), 1);
}

#[test]
fn a_second_user_of_the_same_name_is_refused_and_nothing_changes() {
    let mut state = AppState::new();
    state.create_user("alice".to_string()).unwrap();
    let before = state.snapshot();
    assert_eq!(
        state.create_user("alice".to_string()),
        Err(Error::AlreadyExists { entity: Entity::User, id: "alice".to_string() })
    );
    assert_eq!(
        state.create_user(" alice\n".to_string()),
        Err(Error::AlreadyExists { entity: Entity::User, id: "alice".to_string() })
    );
    assert_eq!(state.snapshot(), before);
}

#[test]
fn a_blank_user_name_is_refused() {
    let mut state = AppState::new();
    assert_eq!(state.create_user("   ".to_string()), Err(Error::BlankItem(Field::Name)));
    assert!(state.users().is_empty());
}

#[test]
fn an_unknown_user_is_not_found() {
    let state = stocked();
    assert_eq!(state.user("carol"), Err(not_found(Entity::User, "carol")));
    assert_eq!(state.component("queue").unwrap_err(), not_found(Entity::Component, "queue"));
    assert_eq!(state.tag("urgent").unwrap_err(), not_found(Entity::Tag, "urgent"));
    assert_eq!(state.operation(1234).unwrap_err(), not_found(Entity::Operation, "1234"));
}

#[test]
fn a_component_is_stored_in_normal_form() {
    let mut state = stocked();
    let created = state
        .create_component(Component {
            name: " queue ".to_string(),
            description: "\tjobs\n".to_string(),
            owners: names(&["bob ", "alice", " bob"]),
        })
        .unwrap();
    assert_eq!(
        created,
        Component {
            name: "queue".to_string(),
            description: "jobs".to_string(),
            owners: names(&["alice", "bob"]),
        }
    );
    assert_eq!(state.component("queue").unwrap(), &created);
    assert_eq!(state.components().len(), 4);
}

#[test]
fn a_second_component_of_the_same_name_is_refused_and_nothing_changes() {
    let mut state = stocked();
    let before = state.snapshot();
    assert_eq!(
        state.create_component(component(" db", &["bob"])),
        Err(Error::AlreadyExists { entity: Entity::Component, id: "db".to_string() })
    );
    assert_eq!(state.snapshot(), before);
}

#[test]
fn flaws_of_a_component_are_refused_in_order() {
    let mut state = stocked();
    let before = state.snapshot();
    let mut c = component(" ", &[]);
    c.description = " ".to_string();
    assert_eq!(state.create_component(c), Err(Error::BlankItem(Field::Name)));
    let mut c = component("queue", &[]);
    c.description = " ".to_string();
    assert_eq!(state.create_component(c), Err(Error::BlankItem(Field::Description)));
    assert_eq!(
        state.create_component(component("queue", &[])),
        Err(Error::MissingItem(Item::Owner))
    );
    assert_eq!(
        state.create_component(component("queue", &["zed", "carol", "alice"])),
        Err(not_found(Entity::User, "carol"))
    );
    assert_eq!(
        state.create_component(component("db", &["carol"])),
        Err(not_found(Entity::User, "carol"))
    );
    assert_eq!(state.snapshot(), before);
}

#[test]
fn a_tag_is_stored_trimmed_and_its_name_is_taken_after() {
    let mut state = stocked();
    let created = state
        .create_tag(Tag { name: " urgent ".to_string(), description: " at once ".to_string() })
        .unwrap();
    assert_eq!(created, Tag { name: "urgent".to_string(), description: "at once".to_string() });
    assert_eq!(state.tag("urgent").unwrap(), &created);
    let before = state.snapshot();
    assert_eq!(
        state.create_tag(tag("urgent ")),
        Err(Error::AlreadyExists { entity: Entity::Tag, id: "urgent".to_string() })
    );
    assert_eq!(
        state.create_tag(Tag { name: "".to_string(), description: "x".to_string() }),
        Err(Error::BlankItem(Field::Name))
    );
    assert_eq!(
        state.create_tag(Tag { name: "x".to_string(), description: " ".to_string() }),
        Err(Error::BlankItem(Field::Description))
    );
    assert_eq!(state.snapshot(), before);
}

#[test]
fn an_operation_is_created_planned_under_the_next_id() {
    let mut state = stocked();
    let mut r = request(&["web ", "db", "web"], &[" db"]);
    r.title = "  Upgrade db ".to_string();
    r.purpose = " Security\n".to_string();
    r.tags = names(&["routine", "risky", "risky"]);
    r.annotations.set("ticket".to_string(), "T-1".to_string());
    let done = state.create_operation(r, "alice").unwrap();
    assert!(done.observable);
    let op = done.operation;
    assert_eq!(op.id, 1234);
    assert_eq!(op.status, OperationState::Planned);
    assert_eq!(op.title, "Upgrade db");
    assert_eq!(op.purpose, "Security");
    assert_eq!(op.url, "https://example.com/change/1");
    assert_eq!(op.components, names(&["db", "web"]));
    assert_eq!(op.locks, names(&["db"]));
    assert_eq!(op.tags, names(&["risky", "routine"]));
    assert_eq!(op.operators, names(&["alice"]));
    assert_eq!(op.annotations.get("ticket"), Some(&"T-1".to_string()));
    assert_eq!(state.operation(1234).unwrap(), &op);
    assert_eq!(state.database().next_id, 1235);
    assert!(state.locks().is_empty());
    let second = state.create_operation(request(&["cache"], &[]), "bob").unwrap();
    assert_eq!(second.operation.id, 1235);
    assert_eq!(second.operation.operators, names(&["bob"]));
    assert_eq!(state.database().next_id, 1236);
}

#[test]
fn named_operators_are_kept() {
    let mut state = stocked();
    let mut r = request(&["db"], &[]);
    r.operators = names(&["bob", "alice", "bob"]);
    let done = state.create_operation(r, "alice").unwrap();
    assert_eq!(done.operation.operators, names(&["alice", "bob"]));
}

#[test]
fn a_refused_creation_leaves_the_counter_and_the_store() {
    let mut state = stocked();
    let before = state.snapshot();
    let mut r = request(&["db"], &[]);
    r.title = " ".to_string();
    assert_eq!(state.create_operation(r, "alice").unwrap_err(), Error::BlankItem(Field::Title));
    assert_eq!(state.snapshot(), before);
    assert_eq!(state.database().next_id, 1234);
}

#[test]
fn flaws_of_an_operation_are_refused_in_order() {
    let mut state = stocked();
    state.create_operation(request(&["db"], &[]), "alice").unwrap();
    let before = state.snapshot();

    let mut r = request(&[], &["queue"]);
    r.title = "\t".to_string();
    r.purpose = "".to_string();
    r.url = "ftp://example.com".to_string();
    assert_eq!(state.create_operation(r, "carol").unwrap_err(), Error::BlankItem(Field::Title));

    let mut r = request(&[], &["queue"]);
    r.purpose = " ".to_string();
    r.url = "ftp://example.com".to_string();
    assert_eq!(state.create_operation(r, "carol").unwrap_err(), Error::BlankItem(Field::Purpose));

    let mut r = request(&[], &["queue"]);
    r.url = "ftp://example.com".to_string();
    assert_eq!(state.create_operation(r, "carol").unwrap_err(), Error::InvalidUrlScheme);

    let mut r = request(&["db"], &[]);
    r.url = "example.com/no-scheme".to_string();
    assert_eq!(state.create_operation(r, "alice").unwrap_err(), Error::InvalidUrlScheme);

    let r = request(&[], &["queue"]);
    assert_eq!(
        state.create_operation(r, "carol").unwrap_err(),
        Error::MissingItem(Item::Component)
    );

    let r = request(&["web", "queue", "bus"], &["disk"]);
    assert_eq!(
        state.create_operation(r, "carol").unwrap_err(),
        not_found(Entity::Component, "bus")
    );

    let mut r = request(&["web"], &["db"]);
    r.tags = names(&["urgent"]);
    assert_eq!(
        state.create_operation(r, "carol").unwrap_err(),
        Error::LockingNonAffectedComponent
    );

    let mut r = request(&["web"], &["web"]);
    r.tags = names(&["urgent", "risky"]);
    r.depends_on = vec![999];
    assert_eq!(state.create_operation(r, "carol").unwrap_err(), not_found(Entity::Tag, "urgent"));

    let mut r = request(&["web"], &["web"]);
    r.depends_on = vec![1234, 999, 7];
    assert_eq!(
        state.create_operation(r, "carol").unwrap_err(),
        not_found(Entity::Operation, "7")
    );

    let r = request(&["web"], &["web"]);
    assert_eq!(state.create_operation(r, "carol").unwrap_err(), not_found(Entity::User, "carol"));

    let mut r = request(&["web"], &["web"]);
    r.operators = names(&["bob", "dave", "carol"]);
    assert_eq!(state.create_operation(r, "alice").unwrap_err(), not_found(Entity::User, "carol"));

    assert_eq!(state.snapshot(), before);
}

#[test]
fn an_operation_without_operators_is_refused() {
    let mut state = stocked();
    state.create_operation(request(&["db"], &[]), "alice").unwrap();
    let before = state.snapshot();
    let mut update = UpdateOperationRequest::default();
    update.operators = Some(Vec::new());
    assert_eq!(
        state.update_operation(1234, update).unwrap_err(),
        Error::MissingItem(Item::Operator)
    );
    assert_eq!(state.snapshot(), before);
}

#[test]
fn an_update_changes_what_it_names_and_merges_annotations() {
    let mut state = stocked();
    let mut r = request(&["db"], &[]);
    r.annotations.set("ticket".to_string(), "T-1".to_string());
    r.annotations.set("team".to_string(), "core".to_string());
    state.create_operation(r, "alice").unwrap();

    let mut update = UpdateOperationRequest::default();
    update.title = Some(" New title ".to_string());
    update.components = Some(names(&["web", "db"]));
    update.locks = Some(names(&["web"]));
    update.annotations.set("ticket".to_string(), "T-2".to_string());
    update.annotations.set("window".to_string(), "night".to_string());
    let done = state.update_operation(1234, update).unwrap();
    assert!(done.observable);
    let op = done.operation;
    assert_eq!(op.id, 1234);
    assert_eq!(op.title, "New title");
    assert_eq!(op.purpose, "Keep up");
    assert_eq!(op.components, names(&["db", "web"]));
    assert_eq!(op.locks, names(&["web"]));
    assert_eq!(op.status, OperationState::Planned);
    assert_eq!(op.annotations.get("ticket"), Some(&"T-2".to_string()));
    assert_eq!(op.annotations.get("team"), Some(&"core".to_string()));
    assert_eq!(op.annotations.get("window"), Some(&"night".to_string()));
    assert_eq!(op.annotations.get("other"), None);
    assert_eq!(state.operation(1234).unwrap(), &op);
    assert_eq!(state.operations().len(), 1);
}

#[test]
fn an_update_that_changes_nothing_is_not_observable() {
    let mut state = stocked();
    state.create_operation(request(&["db"], &[]), "alice").unwrap();
    let before = state.snapshot();
    let done = state.update_operation(1234, UpdateOperationRequest::default()).unwrap();
    assert!(!done.observable);
    assert_eq!(state.snapshot(), before);
    let mut update = UpdateOperationRequest::default();
    update.title = Some("  Upgrade ".to_string());
    update.status = Some(OperationState::Planned);
    assert!(!state.update_operation(1234, update).unwrap().observable);
    let mut update = UpdateOperationRequest::default();
    update.purpose = Some("Other".to_string());
    assert!(state.update_operation(1234, update).unwrap().observable);
}

#[test]
fn an_update_of_an_unknown_operation_is_refused() {
    let mut state = stocked();
    assert_eq!(
        state.update_operation(42, status(OperationState::InProgress)).unwrap_err(),
        not_found(Entity::Operation, "42")
    );
}

#[test]
fn an_illegal_change_of_status_is_refused() {
    let mut state = stocked();
    state.create_operation(request(&["db"], &[]), "alice").unwrap();
    let before = state.snapshot();
    for to in [OperationState::Paused, OperationState::Completed, OperationState::Aborted] {
        assert_eq!(
            state.update_operation(1234, status(to)).unwrap_err(),
            Error::InvalidStateTransition
        );
    }
    assert_eq!(state.snapshot(), before);
    state.update_operation(1234, status(OperationState::Canceled)).unwrap();
    assert_eq!(
        state.update_operation(1234, status(OperationState::InProgress)).unwrap_err(),
        Error::InvalidStateTransition
    );
    assert_eq!(state.operation(1234).unwrap().status, OperationState::Canceled);
}

#[test]
fn an_operation_goes_through_its_life() {
    let mut state = stocked();
    state.create_operation(request(&["db"], &[]), "alice").unwrap();
    for to in [
        OperationState::InProgress,
        OperationState::Paused,
        OperationState::InProgress,
        OperationState::Completed,
    ] {
        let done = state.update_operation(1234, status(to)).unwrap();
        assert!(done.observable);
        assert_eq!(done.operation.status, to);
        assert_eq!(state.operation(1234).unwrap().status, to);
    }
}

#[test]
fn starting_waits_for_every_dependency_to_be_completed() {
    let mut state = stocked();
    state.create_operation(request(&["db"], &[]), "alice").unwrap();
    state.create_operation(request(&["web"], &[]), "alice").unwrap();
    let mut r = request(&["cache"], &[]);
    r.depends_on = vec![1235, 1234, 1235];
    let third = state.create_operation(r, "bob").unwrap().operation;
    assert_eq!(third.depends_on, vec![1234, 1235]);

    let before = state.snapshot();
    assert_eq!(
        state.update_operation(1236, status(OperationState::InProgress)).unwrap_err(),
        Error::UnmetDependency
    );
    assert_eq!(state.snapshot(), before);

    state.update_operation(1234, status(OperationState::InProgress)).unwrap();
    state.update_operation(1234, status(OperationState::Completed)).unwrap();
    assert_eq!(
        state.update_operation(1236, status(OperationState::InProgress)).unwrap_err(),
        Error::UnmetDependency
    );
    state.update_operation(1235, status(OperationState::InProgress)).unwrap();
    assert_eq!(
        state.update_operation(1236, status(OperationState::InProgress)).unwrap_err(),
        Error::UnmetDependency
    );
    state.update_operation(1235, status(OperationState::Aborted)).unwrap();
    assert_eq!(
        state.update_operation(1236, status(OperationState::InProgress)).unwrap_err(),
        Error::UnmetDependency
    );
    assert_eq!(state.operation(1236).unwrap().status, OperationState::Planned);
}

#[test]
fn starting_succeeds_once_all_dependencies_are_completed() {
    let mut state = stocked();
    state.create_operation(request(&["db"], &[]), "alice").unwrap();
    let mut r = request(&["cache"], &[]);
    r.depends_on = vec![1234];
    state.create_operation(r, "bob").unwrap();
    assert_eq!(
        state.update_operation(1235, status(OperationState::InProgress)).unwrap_err(),
        Error::UnmetDependency
    );
    state.update_operation(1234, status(OperationState::InProgress)).unwrap();
    state.update_operation(1234, status(OperationState::Completed)).unwrap();
    let done = state.update_operation(1235, status(OperationState::InProgress)).unwrap();
    assert_eq!(done.operation.status, OperationState::InProgress);
    assert_eq!(
        state.update_operation(1235, status(OperationState::Canceled)).unwrap_err(),
        Error::InvalidStateTransition
    );
}

#[test]
fn dependencies_are_not_asked_for_other_changes() {
    let mut state = stocked();
    state.create_operation(request(&["db"], &[]), "alice").unwrap();
    let mut r = request(&["cache"], &[]);
    r.depends_on = vec![1234];
    state.create_operation(r, "bob").unwrap();
    state.update_operation(1235, status(OperationState::Canceled)).unwrap();
    assert_eq!(state.operation(1235).unwrap().status, OperationState::Canceled);
}

#[test]
fn two_operations_share_and_lock_one_component() {
    // The scenario from start to end: a lock keeps the second operation
    // from starting until the first is over.
    let mut state = AppState::new();
    state.create_user("alice".to_string()).unwrap();
    state.create_component(component("db", &["alice"])).unwrap();
    let mut r = request(&["db"], &["db"]);
    r.operators = names(&["alice"]);
    let first = state.create_operation(r, "alice").unwrap().operation;
    assert_eq!(first.id, 1234);
    assert_eq!(first.status, OperationState::Planned);

    let started = state.update_operation(1234, status(OperationState::InProgress)).unwrap();
    assert_eq!(started.operation.status, OperationState::InProgress);
    assert_eq!(state.locks().get("db"), Some(ComponentLock::Exclusive));

    let second = state.create_operation(request(&["db"], &["db"]), "alice").unwrap().operation;
    assert_eq!(second.id, 1235);
    let before = state.snapshot();
    assert_eq!(
        state.update_operation(1235, status(OperationState::InProgress)).unwrap_err(),
        Error::LockFailed("db".to_string())
    );
    assert_eq!(state.snapshot(), before);
    assert_eq!(state.operation(1234).unwrap().status, OperationState::InProgress);
    assert_eq!(state.operation(1235).unwrap().status, OperationState::Planned);
    assert_eq!(state.locks().get("db"), Some(ComponentLock::Exclusive));

    state.update_operation(1234, status(OperationState::Completed)).unwrap();
    assert_eq!(state.locks().get("db"), None);
    let started = state.update_operation(1235, status(OperationState::InProgress)).unwrap();
    assert_eq!(started.operation.status, OperationState::InProgress);
    assert_eq!(state.locks().get("db"), Some(ComponentLock::Exclusive));
}

#[test]
fn operations_that_only_affect_a_component_share_it() {
    let mut state = stocked();
    state.create_operation(request(&["db", "web"], &[]), "alice").unwrap();
    state.create_operation(request(&["db"], &[]), "bob").unwrap();
    state.create_operation(request(&["cache", "db"], &["db"]), "bob").unwrap();
    state.update_operation(1234, status(OperationState::InProgress)).unwrap();
    state.update_operation(1235, status(OperationState::InProgress)).unwrap();
    assert_eq!(state.locks().get("db"), Some(ComponentLock::Shared));
    assert_eq!(state.locks().get("web"), Some(ComponentLock::Shared));
    assert_eq!(state.locks().get("cache"), None);
    assert_eq!(
        state.update_operation(1236, status(OperationState::InProgress)).unwrap_err(),
        Error::LockFailed("db".to_string())
    );
    state.update_operation(1234, status(OperationState::Completed)).unwrap();
    assert_eq!(state.locks().get("db"), Some(ComponentLock::Shared));
    assert_eq!(state.locks().get("web"), None);
    assert_eq!(
        state.update_operation(1236, status(OperationState::InProgress)).unwrap_err(),
        Error::LockFailed("db".to_string())
    );
    state.update_operation(1235, status(OperationState::Aborted)).unwrap();
    assert_eq!(state.locks().get("db"), None);
    state.update_operation(1236, status(OperationState::InProgress)).unwrap();
    assert_eq!(state.locks().get("db"), Some(ComponentLock::Exclusive));
    assert_eq!(state.locks().get("cache"), Some(ComponentLock::Shared));
}

#[test]
fn a_locked_component_keeps_out_who_would_only_affect_it() {
    let mut state = stocked();
    state.create_operation(request(&["db", "web"], &["web"]), "alice").unwrap();
    state.create_operation(request(&["cache", "web"], &[]), "bob").unwrap();
    state.update_operation(1234, status(OperationState::InProgress)).unwrap();
    assert_eq!(
        state.update_operation(1235, status(OperationState::InProgress)).unwrap_err(),
        Error::LockFailed("web".to_string())
    );
}

#[test]
fn a_paused_operation_keeps_its_locks() {
    let mut state = stocked();
    state.create_operation(request(&["db"], &["db"]), "alice").unwrap();
    state.create_operation(request(&["db"], &[]), "bob").unwrap();
    state.update_operation(1234, status(OperationState::InProgress)).unwrap();
    state.update_operation(1234, status(OperationState::Paused)).unwrap();
    assert_eq!(state.locks().get("db"), Some(ComponentLock::Exclusive));
    assert_eq!(
        state.update_operation(1235, status(OperationState::InProgress)).unwrap_err(),
        Error::LockFailed("db".to_string())
    );
    state.update_operation(1234, status(OperationState::InProgress)).unwrap();
    assert_eq!(state.locks().get("db"), Some(ComponentLock::Exclusive));
    state.update_operation(1234, status(OperationState::Aborted)).unwrap();
    state.update_operation(1235, status(OperationState::InProgress)).unwrap();
    assert_eq!(state.locks().get("db"), Some(ComponentLock::Shared));
}

#[test]
fn an_operation_under_way_cannot_reach_for_a_held_component() {
    let mut state = stocked();
    state.create_operation(request(&["db"], &["db"]), "alice").unwrap();
    state.create_operation(request(&["web"], &[]), "bob").unwrap();
    state.update_operation(1234, status(OperationState::InProgress)).unwrap();
    state.update_operation(1235, status(OperationState::InProgress)).unwrap();
    let before = state.snapshot();
    let mut update = UpdateOperationRequest::default();
    update.components = Some(names(&["web", "db"]));
    assert_eq!(
        state.update_operation(1235, update).unwrap_err(),
        Error::LockFailed("db".to_string())
    );
    assert_eq!(state.snapshot(), before);
    let mut update = UpdateOperationRequest::default();
    update.components = Some(names(&["web", "cache"]));
    update.locks = Some(names(&["cache"]));
    state.update_operation(1235, update).unwrap();
    assert_eq!(state.locks().get("cache"), Some(ComponentLock::Exclusive));
    assert_eq!(state.locks().get("web"), Some(ComponentLock::Shared));
}

#[test]
fn operations_are_listed_by_query() {
    let mut state = stocked();
    let mut r = request(&["db"], &[]);
    r.tags = names(&["risky"]);
    state.create_operation(r, "alice").unwrap();
    let mut r = request(&["web", "cache"], &[]);
    r.tags = names(&["routine"]);
    state.create_operation(r, "bob").unwrap();
    let mut r = request(&["cache"], &[]);
    r.operators = names(&["alice", "bob"]);
    state.create_operation(r, "bob").unwrap();
    state.update_operation(1235, status(OperationState::InProgress)).unwrap();

    let ids = |state: &AppState, q: ListOperationsQuery| -> Vec<u64> {
        state.list_operations(&q).iter().map(|o| o.id).collect()
    };
    let query = |c: &[&str], t: &[&str], o: &[&str], s: &[OperationState]| ListOperationsQuery {
        components: names(c),
        tags: names(t),
        operators: names(o),
        statuses: s.to_vec(),
    };
    assert_eq!(ids(&state, query(&[], &[], &[], &[])), vec![1234, 1235, 1236]);
    assert_eq!(ids(&state, query(&["cache"], &[], &[], &[])), vec![1235, 1236]);
    assert_eq!(ids(&state, query(&["db", "web"], &[], &[], &[])), vec![1234, 1235]);
    assert_eq!(ids(&state, query(&[], &["risky", "routine"], &[], &[])), vec![1234, 1235]);
    assert_eq!(ids(&state, query(&[], &[], &["alice"], &[])), vec![1234, 1236]);
    assert_eq!(ids(&state, query(&["cache"], &[], &["alice"], &[])), vec![1236]);
    assert_eq!(
        ids(&state, query(&[], &[], &[], &[OperationState::InProgress])),
        vec![1235]
    );
    assert_eq!(
        ids(
            &state,
            query(&["cache"], &[], &[], &[OperationState::Planned, OperationState::Paused])
        ),
        vec![1236]
    );
    assert_eq!(ids(&state, query(&["queue"], &[], &[], &[])), Vec::<u64>::new());
    assert_eq!(
        ids(&state, query(&["cache"], &["risky"], &[], &[])),
        Vec::<u64>::new()
    );
}

#[test]
fn credentials_are_decided() {
    let state = stocked();
    assert_eq!(state.authorize(Presented::Nothing).unwrap_err(), Error::MissingToken);
    assert_eq!(state.authorize(Presented::Invalid).unwrap_err(), Error::InvalidToken);
    let claims = state
        .authorize(Presented::Bearer(Claims { exp: 9, username: "alice".to_string() }))
        .unwrap();
    assert_eq!(claims.username, "alice");
    assert_eq!(claims.exp, 9);
    assert_eq!(
        state
            .authorize(Presented::Bearer(Claims { exp: 9, username: "carol".to_string() }))
            .unwrap_err(),
        not_found(Entity::User, "carol")
    );
}

#[test]
fn a_written_operation_is_found_under_its_id() {
    let mut state = stocked();
    state.create_operation(request(&["db"], &[]), "alice").unwrap();
    state.create_operation(request(&["web"], &[]), "alice").unwrap();
    let mut op: Operation = state.operation(1235).unwrap().clone();
    op.title = "Changed".to_string();
    let done = state.upsert_operation(op).unwrap();
    assert!(done.observable);
    assert_eq!(state.operation(1235).unwrap().title, "Changed");
    assert_eq!(state.operation(1234).unwrap().title, "Upgrade");
    let ids: Vec<u64> = state.operations().iter().map(|o| o.id).collect();
    assert_eq!(ids, vec![1234, 1235]);
}
