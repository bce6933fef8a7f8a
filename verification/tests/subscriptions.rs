use smokestack::annotations::Annotations;
use smokestack::api::{CreateOperationRequest, ListSubscriptionResponse};
use smokestack::engine::AppState;
use smokestack::error::{Entity, Error};
use smokestack::model::{Component, Operation, OperationState, SubscriptionSet, Tag};

fn names(items: &[&str]) -> Vec<String> {
    items.iter().map(|s| s.to_string()).collect()
}

fn operation(id: u64, components: &[&str], tags: &[&str]) -> Operation {
    Operation {
        id,
        title: "t".to_string(),
        purpose: "p".to_string(),
        url: "http://example.com".to_string(),
        components: names(components),
        locks: Vec::new(),
        tags: names(tags),
        depends_on: Vec::new(),
        operators: names(&["alice"]),
        status: OperationState::Planned,
        annotations: Annotations::new(),
    }
}

fn stocked() -> AppState {
    let mut state = AppState::new();
    state.create_user("alice".to_string()).unwrap();
    state.create_user("bob".to_string()).unwrap();
    for name in ["db", "web"] {
        state
            .create_component(Component {
                name: name.to_string(),
                description: "c".to_string(),
                owners: names(&["alice"]),
            })
            .unwrap();
    }
    for name in ["risky", "routine"] {
        state.create_tag(Tag { name: name.to_string(), description: "t".to_string() }).unwrap();
    }
    for _ in 0..3 {
        state
            .create_operation(
                CreateOperationRequest {
                    title: "t".to_string(),
                    purpose: "p".to_string(),
                    url: "http://example.com".to_string(),
                    components: names(&["db"]),
                    locks: Vec::new(),
                    tags: Vec::new(),
                    depends_on: Vec::new(),
                    operators: Vec::new(),
                    annotations: Annotations::new(),
                },
                "alice",
            )
            .unwrap();
    }
    state
}

#[test]
fn a_component_subscription_matches_whatever_the_id_and_tags() {
    let mut s = SubscriptionSet::default();
    s.add_component("db".to_string());
    assert!(s.is_match(&operation(1, &["db"], &[])));
    assert!(s.is_match(&operation(8, &["cache", "db", "web"], &["risky"])));
    assert!(!s.is_match(&operation(8, &["cache", "web"], &["db"])));
    assert!(!s.is_match(&operation(8, &[], &[])));
}

#[test]
fn an_operation_subscription_matches_that_operation_only() {
    let mut s = SubscriptionSet::default();
    s.add_operation(7);
    assert!(s.is_match(&operation(7, &["db"], &["risky"])));
    assert!(!s.is_match(&operation(8, &["db"], &["risky"])));
    assert!(!s.is_match(&operation(70, &[], &[])));
}

#[test]
fn a_tag_subscription_matches_by_tag() {
    let mut s = SubscriptionSet::default();
    s.add_tag("risky".to_string());
    assert!(s.is_match(&operation(1, &["db"], &["routine", "risky"])));
    assert!(!s.is_match(&operation(1, &["risky"], &["routine"])));
}

#[test]
fn an_empty_subscription_set_matches_nothing() {
    let s = SubscriptionSet::default();
    assert!(!s.is_match(&operation(1, &["db"], &["risky"])));
}

#[test]
fn subscriptions_are_kept_in_order_and_once() {
    let mut s = SubscriptionSet::default();
    for id in [9, 3, 9, 1] {
        s.add_operation(id);
    }
    for name in ["web", "db", "web"] {
        s.add_component(name.to_string());
    }
    s.add_tag("b".to_string());
    s.add_tag("a".to_string());
    assert_eq!(s.operations, vec![1, 3, 9]);
    assert_eq!(s.components, names(&["db", "web"]));
    assert_eq!(s.tags, names(&["a", "b"]));
    assert!(s.is_tidy());
}

#[test]
fn exactly_one_target_is_to_be_named() {
    let mut state = stocked();
    let before = state.snapshot();
    assert_eq!(
        state.subscribe("alice", None, None, None),
        Err(Error::SubscribingMultipleEntities)
    );
    assert_eq!(
        state.subscribe("alice", Some(1234), Some("db".to_string()), None),
        Err(Error::SubscribingMultipleEntities)
    );
    assert_eq!(
        state.subscribe("alice", None, Some("db".to_string()), Some("risky".to_string())),
        Err(Error::SubscribingMultipleEntities)
    );
    assert_eq!(
        state.subscribe("carol", Some(1), Some("x".to_string()), Some("y".to_string())),
        Err(Error::SubscribingMultipleEntities)
    );
    assert_eq!(state.snapshot(), before);
}

#[test]
fn the_target_and_the_user_must_exist() {
    let mut state = stocked();
    let before = state.snapshot();
    assert_eq!(
        state.subscribe("alice", Some(99), None, None),
        Err(Error::NotFound { entity: Entity::Operation, id: "99".to_string() })
    );
    assert_eq!(
        state.subscribe("alice", None, Some("queue".to_string()), None),
        Err(Error::NotFound { entity: Entity::Component, id: "queue".to_string() })
    );
    assert_eq!(
        state.subscribe("alice", None, Some(" db".to_string()), None),
        Err(Error::NotFound { entity: Entity::Component, id: " db".to_string() })
    );
    assert_eq!(
        state.subscribe("alice", None, None, Some("urgent".to_string())),
        Err(Error::NotFound { entity: Entity::Tag, id: "urgent".to_string() })
    );
    assert_eq!(
        state.subscribe("carol", None, None, Some("urgent".to_string())),
        Err(Error::NotFound { entity: Entity::Tag, id: "urgent".to_string() })
    );
    assert_eq!(
        state.subscribe("carol", None, None, Some("risky".to_string())),
        Err(Error::NotFound { entity: Entity::User, id: "carol".to_string() })
    );
    assert_eq!(state.snapshot(), before);
}

#[test]
fn subscriptions_are_listed_in_order() {
    let mut state = stocked();
    state.subscribe("alice", Some(1236), None, None).unwrap();
    state.subscribe("alice", Some(1234), None, None).unwrap();
    state.subscribe("alice", None, Some("web".to_string()), None).unwrap();
    state.subscribe("alice", None, Some("db".to_string()), None).unwrap();
    state.subscribe("alice", None, None, Some("routine".to_string())).unwrap();
    state.subscribe("bob", None, None, Some("risky".to_string())).unwrap();
    assert_eq!(
        state.list_subscriptions("alice"),
        Ok(ListSubscriptionResponse {
            operations: vec![1234, 1236],
            components: names(&["db", "web"]),
            tags: names(&["routine"]),
        })
    );
    assert_eq!(
        state.list_subscriptions("bob"),
        Ok(ListSubscriptionResponse {
            operations: Vec::new(),
            components: Vec::new(),
            tags: names(&["risky"]),
        })
    );
    assert_eq!(
        state.list_subscriptions("carol"),
        Err(Error::NotFound { entity: Entity::User, id: "carol".to_string() })
    );
}

#[test]
fn subscribing_again_changes_nothing() {
    let mut state = stocked();
    state.subscribe("alice", None, Some("db".to_string()), None).unwrap();
    state.subscribe("alice", Some(1234), None, None).unwrap();
    let before = state.snapshot();
    state.subscribe("alice", None, Some("db".to_string()), None).unwrap();
    state.subscribe("alice", Some(1234), None, None).unwrap();
    assert_eq!(state.snapshot(), before);
}

#[test]
fn a_subscriber_is_asked_for_the_operations_on_the_component() {
    let mut state = stocked();
    state.subscribe("alice", None, Some("db".to_string()), None).unwrap();
    state.subscribe("bob", Some(1235), None, None).unwrap();
    let alice = state.user("alice").unwrap().subscriptions.clone();
    let bob = state.user("bob").unwrap().subscriptions.clone();
    for id in [1234, 1235, 1236] {
        let op = state.operation(id).unwrap();
        assert!(alice.is_match(op));
        assert_eq!(bob.is_match(op), id == 1235);
    }
}

#[test]
fn an_empty_list_of_subscriptions() {
    let list = ListSubscriptionResponse::default();
    assert!(list.operations.is_empty());
    assert!(list.components.is_empty());
    assert!(list.tags.is_empty());
}
