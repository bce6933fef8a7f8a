use smokestack::annotations::Annotations;
use smokestack::api::{
    ApiResponse, CreateComponentRequest, CreateOperationRequest, CreateTagRequest,
    UpdateOperationRequest,
};
use smokestack::error::{Entity, Error, Field, Item};
use smokestack::model::{Component, Operation, OperationState, Tag};

fn names(items: &[&str]) -> Vec<String> {
    items.iter().map(|s| s.to_string()).collect()
}

#[test]
fn each_refusal_has_its_sentence() {
    assert_eq!(Error::MissingToken.message(), "no token provided");
    assert_eq!(Error::InvalidToken.message(), "invalid token");
    assert_eq!(
        Error::AlreadyExists { entity: Entity::Component, id: "db".to_string() }.message(),
        "component db already exists"
    );
    assert_eq!(
        Error::AlreadyExists { entity: Entity::User, id: "alice".to_string() }.message(),
        "user alice already exists"
    );
    assert_eq!(
        Error::NotFound { entity: Entity::Operation, id: "1234".to_string() }.message(),
        "operation 1234 not found"
    );
    assert_eq!(
        Error::NotFound { entity: Entity::Tag, id: "risky".to_string() }.message(),
        "tag risky not found"
    );
    assert_eq!(Error::MissingItem(Item::Component).message(), "at least one component is required");
    assert_eq!(Error::MissingItem(Item::Operator).message(), "at least one operator is required");
    assert_eq!(Error::MissingItem(Item::Owner).message(), "at least one owner is required");
    assert_eq!(Error::BlankItem(Field::Name).message(), "name cannot be blank");
    assert_eq!(Error::BlankItem(Field::Description).message(), "description cannot be blank");
    assert_eq!(Error::BlankItem(Field::Title).message(), "title cannot be blank");
    assert_eq!(Error::BlankItem(Field::Purpose).message(), "purpose cannot be blank");
    assert_eq!(Error::InvalidUrlScheme.message(), "url should have http or https scheme");
    assert_eq!(
        Error::LockingNonAffectedComponent.message(),
        "locked component must be one of the affected components"
    );
    assert_eq!(
        Error::LockFailed("db".to_string()).message(),
        "failed to acquire lock on component db"
    );
    assert_eq!(
        Error::UnmetDependency.message(),
        "Dependent operations must be completed before starting this operation"
    );
    assert_eq!(Error::InvalidStateTransition.message(), "invalid state transition");
    assert_eq!(
        Error::SubscribingMultipleEntities.message(),
        "exactly one of operation, component, or tag must be specified"
    );
    assert_eq!(Error::Internal.message(), "internal error");
}

#[test]
fn each_refusal_has_its_status() {
    assert_eq!(Error::MissingToken.status(), 401);
    assert_eq!(Error::InvalidToken.status(), 400);
    assert_eq!(Error::AlreadyExists { entity: Entity::Tag, id: "x".to_string() }.status(), 400);
    assert_eq!(Error::NotFound { entity: Entity::Tag, id: "x".to_string() }.status(), 404);
    assert_eq!(Error::MissingItem(Item::Owner).status(), 400);
    assert_eq!(Error::BlankItem(Field::Name).status(), 400);
    assert_eq!(Error::InvalidUrlScheme.status(), 400);
    assert_eq!(Error::LockingNonAffectedComponent.status(), 400);
    assert_eq!(Error::LockFailed("db".to_string()).status(), 423);
    assert_eq!(Error::UnmetDependency.status(), 424);
    assert_eq!(Error::InvalidStateTransition.status(), 400);
    assert_eq!(Error::SubscribingMultipleEntities.status(), 400);
    assert_eq!(Error::Internal.status(), 500);
}

#[test]
fn words_for_entities_items_and_fields() {
    assert_eq!(Entity::User.as_str(), "user");
    assert_eq!(Entity::Operation.as_str(), "operation");
    assert_eq!(Entity::Component.as_str(), "component");
    assert_eq!(Entity::Tag.as_str(), "tag");
    assert_eq!(Item::Component.as_str(), "component");
    assert_eq!(Item::Operator.as_str(), "operator");
    assert_eq!(Item::Owner.as_str(), "owner");
    assert_eq!(Field::Name.as_str(), "name");
    assert_eq!(Field::Description.as_str(), "description");
    assert_eq!(Field::Title.as_str(), "title");
    assert_eq!(Field::Purpose.as_str(), "purpose");
}

#[test]
fn an_answer_that_refuses_carries_the_message() {
    match ApiResponse::err("no such thing") {
        ApiResponse::Failure(message) => assert_eq!(message, "no such thing"),
        ApiResponse::Success(()) => panic!("a refusal was expected"),
    }
    match ApiResponse::err(Error::UnmetDependency.message()) {
        ApiResponse::Failure(message) => assert_eq!(
            message,
            "Dependent operations must be completed before starting this operation"
        ),
        ApiResponse::Success(()) => panic!("a refusal was expected"),
    }
    match ApiResponse::err(404) {
        ApiResponse::Failure(message) => assert_eq!(message, "404"),
        ApiResponse::Success(()) => panic!("a refusal was expected"),
    }
}

#[test]
fn an_answer_turns_into_a_result() {
    let ok: Result<u64, String> = ApiResponse::Success(7).into();
    assert_eq!(ok, Ok(7));
    let err: Result<u64, String> = ApiResponse::Failure("no".to_string()).into();
    assert_eq!(err, Err("no".to_string()));
}

#[test]
fn a_request_for_an_operation_becomes_a_planned_operation() {
    let mut annotations = Annotations::new();
    annotations.set("k".to_string(), "v".to_string());
    let request = CreateOperationRequest {
        title: " T ".to_string(),
        purpose: "P".to_string(),
        url: "http://example.com".to_string(),
        components: names(&["b", "a"]),
        locks: names(&["a"]),
        tags: names(&["t"]),
        depends_on: vec![3, 1],
        operators: Vec::new(),
        annotations,
    };
    let op = request.into_operation(55, "alice");
    assert_eq!(op.id, 55);
    assert_eq!(op.status, OperationState::Planned);
    assert_eq!(op.title, " T ");
    assert_eq!(op.components, names(&["b", "a"]));
    assert_eq!(op.locks, names(&["a"]));
    assert_eq!(op.tags, names(&["t"]));
    assert_eq!(op.depends_on, vec![3, 1]);
    assert_eq!(op.operators, names(&["alice"]));
    assert_eq!(op.annotations.get("k"), Some(&"v".to_string()));
}

#[test]
fn requests_for_components_and_tags_become_entities() {
    let c = CreateComponentRequest {
        name: "db".to_string(),
        description: "d".to_string(),
        owners: names(&["alice"]),
    };
    assert_eq!(
        c.into_component(),
        Component { name: "db".to_string(), description: "d".to_string(), owners: names(&["alice"]) }
    );
    let t = CreateTagRequest { name: "risky".to_string(), description: "d".to_string() };
    assert_eq!(t.into_tag(), Tag { name: "risky".to_string(), description: "d".to_string() });
}

#[test]
fn an_update_that_names_nothing_keeps_the_operation() {
    let op = Operation {
        id: 1,
        title: "t".to_string(),
        purpose: "p".to_string(),
        url: "http://example.com".to_string(),
        components: names(&["db"]),
        locks: Vec::new(),
        tags: Vec::new(),
        depends_on: vec![4],
        operators: names(&["alice"]),
        status: OperationState::Paused,
        annotations: Annotations::new(),
    };
    let same = UpdateOperationRequest::default().apply(op.clone());
    assert_eq!(same, op);
    let mut update = UpdateOperationRequest::default();
    update.url = Some("https://example.org".to_string());
    update.depends_on = Some(vec![]);
    update.status = Some(OperationState::InProgress);
    update.tags = Some(names(&["x"]));
    update.operators = Some(names(&["bob"]));
    update.purpose = Some("q".to_string());
    let changed = update.apply(op.clone());
    assert_ne!(changed, op);
    assert_eq!(changed.url, "https://example.org");
    assert_eq!(changed.depends_on, Vec::<u64>::new());
    assert_eq!(changed.status, OperationState::InProgress);
    assert_eq!(changed.tags, names(&["x"]));
    assert_eq!(changed.operators, names(&["bob"]));
    assert_eq!(changed.purpose, "q");
    assert_eq!(changed.title, "t");
    assert_eq!(changed.components, names(&["db"]));
}

#[test]
fn annotations_are_a_map() {
    let mut a = Annotations::new();
    assert_eq!(a.get("k"), None);
    a.set("k".to_string(), "1".to_string());
    a.set("j".to_string(), "2".to_string());
    a.set("k".to_string(), "3".to_string());
    assert_eq!(a.get("k"), Some(&"3".to_string()));
    assert_eq!(a.get("j"), Some(&"2".to_string()));
    assert_eq!(a.entries.len(), 2);
    let mut b = Annotations::new();
    b.set("j".to_string(), "2".to_string());
    b.set("k".to_string(), "3".to_string());
    assert!(a.same(&b));
    assert!(b.same(&a));
    b.set("l".to_string(), "".to_string());
    assert!(!a.same(&b));
    assert!(!b.same(&a));
    let mut c = a.clone();
    assert!(c.same(&a));
    c.set("j".to_string(), "x".to_string());
    assert!(!c.same(&a));
}

#[test]
fn merging_annotations_prefers_the_new_ones() {
    let mut a = Annotations::new();
    a.set("k".to_string(), "1".to_string());
    a.set("j".to_string(), "2".to_string());
    let mut b = Annotations::new();
    b.set("k".to_string(), "9".to_string());
    b.set("m".to_string(), "8".to_string());
    a.merge(&b);
    assert_eq!(a.get("k"), Some(&"9".to_string()));
    assert_eq!(a.get("j"), Some(&"2".to_string()));
    assert_eq!(a.get("m"), Some(&"8".to_string()));
    let doubled = Annotations {
        entries: vec![
            ("k".to_string(), "first".to_string()),
            ("k".to_string(), "second".to_string()),
        ],
    };
    assert_eq!(doubled.get("k"), Some(&"first".to_string()));
    a.merge(&doubled);
    assert_eq!(a.get("k"), Some(&"first".to_string()));
}
