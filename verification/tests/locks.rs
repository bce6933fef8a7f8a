use smokestack::annotations::Annotations;
use smokestack::error::Error;
use smokestack::locks::{ComponentLock, LockTable};
use smokestack::model::{Operation, OperationState};

fn names(items: &[&str]) -> Vec<String> {
    items.iter().map(|s| s.to_string()).collect()
}

fn operation(id: u64, status: OperationState, components: &[&str], locks: &[&str]) -> Operation {
    Operation {
        id,
        title: "t".to_string(),
        purpose: "p".to_string(),
        url: "http://example.com".to_string(),
        components: names(components),
        locks: names(locks),
        tags: Vec::new(),
        depends_on: Vec::new(),
        operators: names(&["alice"]),
        status,
        annotations: Annotations::new(),
    }
}

fn failed(component: &str) -> Result<(), Error> {
    Err(Error::LockFailed(component.to_string()))
}

#[test]
fn a_free_component_is_held_as_asked() {
    let mut table = LockTable::default();
    assert!(table.is_empty());
    assert_eq!(table.get("db"), None);
    assert_eq!(table.lock("db", ComponentLock::Exclusive), Ok(()));
    assert_eq!(table.lock("web", ComponentLock::Shared), Ok(()));
    assert_eq!(table.get("db"), Some(ComponentLock::Exclusive));
    assert_eq!(table.get("web"), Some(ComponentLock::Shared));
    assert!(!table.is_empty());
}

#[test]
fn two_shared_requests_both_succeed() {
    let mut table = LockTable::default();
    assert_eq!(table.lock("db", ComponentLock::Shared), Ok(()));
    assert_eq!(table.lock("db", ComponentLock::Shared), Ok(()));
    assert_eq!(table.get("db"), Some(ComponentLock::Shared));
}

#[test]
fn of_two_requests_with_an_exclusive_one_exactly_one_succeeds() {
    for (first, second) in [
        (ComponentLock::Exclusive, ComponentLock::Exclusive),
        (ComponentLock::Exclusive, ComponentLock::Shared),
        (ComponentLock::Shared, ComponentLock::Exclusive),
    ] {
        let mut table = LockTable::default();
        assert_eq!(table.lock("db", first), Ok(()));
        assert_eq!(table.lock("db", second), failed("db"));
        assert_eq!(table.get("db"), Some(first));
    }
}

#[test]
fn a_lock_that_is_given_up_can_be_had_again() {
    let mut table = LockTable::default();
    table.lock("db", ComponentLock::Exclusive).unwrap();
    table.lock("web", ComponentLock::Shared).unwrap();
    table.unlock("db");
    assert_eq!(table.get("db"), None);
    assert_eq!(table.get("web"), Some(ComponentLock::Shared));
    assert_eq!(table.lock("db", ComponentLock::Shared), Ok(()));
    table.unlock("web");
    table.unlock("db");
    assert!(table.is_empty());
}

#[test]
fn an_operation_under_way_gets_all_its_locks() {
    let mut table = LockTable::default();
    let op = operation(1, OperationState::InProgress, &["cache", "db", "web"], &["db"]);
    assert_eq!(table.conflict_with(&op), None);
    assert_eq!(table.acquire_for(&op), Ok(()));
    assert_eq!(table.get("cache"), Some(ComponentLock::Shared));
    assert_eq!(table.get("db"), Some(ComponentLock::Exclusive));
    assert_eq!(table.get("web"), Some(ComponentLock::Shared));
}

#[test]
fn an_operation_that_is_not_under_way_gets_none() {
    for status in [
        OperationState::Planned,
        OperationState::Completed,
        OperationState::Aborted,
        OperationState::Canceled,
    ] {
        let mut table = LockTable::default();
        table.lock("db", ComponentLock::Exclusive).unwrap();
        let op = operation(1, status, &["db", "web"], &["db"]);
        assert_eq!(table.conflict_with(&op), None);
        assert_eq!(table.acquire_for(&op), Ok(()));
        assert_eq!(table.get("web"), None);
        assert_eq!(table.get("db"), Some(ComponentLock::Exclusive));
    }
}

#[test]
fn where_a_lock_cannot_be_had_none_is_taken() {
    let mut table = LockTable::default();
    table.lock("web", ComponentLock::Shared).unwrap();
    let op = operation(1, OperationState::Paused, &["cache", "db", "web"], &["db", "web"]);
    assert_eq!(table.conflict_with(&op), Some("web".to_string()));
    assert_eq!(table.acquire_for(&op), failed("web"));
    assert_eq!(table.get("cache"), None);
    assert_eq!(table.get("db"), None);
    assert_eq!(table.get("web"), Some(ComponentLock::Shared));
}

#[test]
fn locks_are_asked_for_before_shared_components() {
    let mut table = LockTable::default();
    table.lock("a", ComponentLock::Exclusive).unwrap();
    table.lock("z", ComponentLock::Shared).unwrap();
    let op = operation(1, OperationState::InProgress, &["a", "m", "z"], &["z"]);
    assert_eq!(table.acquire_for(&op), failed("z"));
    let op = operation(1, OperationState::InProgress, &["a", "m", "z"], &["m"]);
    assert_eq!(table.acquire_for(&op), failed("a"));
    let op = operation(1, OperationState::InProgress, &["m", "z"], &["m"]);
    assert_eq!(table.acquire_for(&op), Ok(()));
    assert_eq!(table.get("m"), Some(ComponentLock::Exclusive));
    assert_eq!(table.get("z"), Some(ComponentLock::Shared));
}

#[test]
fn the_table_of_a_list_of_operations() {
    let ops = vec![
        operation(1, OperationState::InProgress, &["db", "web"], &["db"]),
        operation(2, OperationState::Planned, &["db"], &["db"]),
        operation(3, OperationState::Paused, &["cache", "web"], &[]),
        operation(4, OperationState::Completed, &["cache"], &["cache"]),
    ];
    let table = LockTable::derive(&ops).unwrap();
    assert_eq!(table.get("db"), Some(ComponentLock::Exclusive));
    assert_eq!(table.get("web"), Some(ComponentLock::Shared));
    assert_eq!(table.get("cache"), Some(ComponentLock::Shared));
    assert!(LockTable::derive(&Vec::new()).unwrap().is_empty());
}

#[test]
fn there_is_no_table_for_operations_in_conflict() {
    let ops = vec![
        operation(1, OperationState::InProgress, &["db", "web"], &["db"]),
        operation(2, OperationState::Paused, &["db"], &[]),
    ];
    assert!(LockTable::derive(&ops).is_none());
    let ops = vec![
        operation(1, OperationState::InProgress, &["db"], &[]),
        operation(2, OperationState::InProgress, &["db"], &["db"]),
    ];
    assert!(LockTable::derive(&ops).is_none());
}
