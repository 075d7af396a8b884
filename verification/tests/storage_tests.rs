//! The in-memory store and the deferred-completion driver.

use repo_wire::storage::{InMemoryStorage, StorageDriver, StorageRequest, StorageResponse};
use repo_wire::DocumentId;

fn doc(s: &str) -> DocumentId {
    DocumentId(s.to_string())
}

#[test]
fn empty_store_has_nothing() {
    let store = InMemoryStorage::new();
    assert!(!store.contains_document(doc("a")));
    assert_eq!(store.get(doc("a")), None);
    assert!(store.list_all().is_empty());
}

#[test]
fn add_then_get() {
    let mut store = InMemoryStorage::new();
    store.add_document(doc("a"), vec![1, 2]);
    assert!(store.contains_document(doc("a")));
    assert!(!store.contains_document(doc("b")));
    assert_eq!(store.get(doc("a")), Some(vec![1, 2]));
}

#[test]
fn add_accumulates() {
    let mut store = InMemoryStorage::new();
    store.add_document(doc("a"), vec![1]);
    store.add_document(doc("a"), vec![2, 3]);
    assert_eq!(store.get(doc("a")), Some(vec![1, 2, 3]));
}

#[test]
fn append_creates_and_accumulates() {
    let mut store = InMemoryStorage::new();
    store.append(doc("a"), vec![1]);
    store.append(doc("b"), vec![9]);
    store.append(doc("a"), vec![2]);
    assert_eq!(store.get(doc("a")), Some(vec![1, 2]));
    assert_eq!(store.get(doc("b")), Some(vec![9]));
}

#[test]
fn compact_replaces() {
    let mut store = InMemoryStorage::new();
    store.append(doc("a"), vec![1, 2, 3]);
    store.compact(doc("a"), vec![7]);
    assert_eq!(store.get(doc("a")), Some(vec![7]));
}

#[test]
fn list_all_names_every_document_once() {
    let mut store = InMemoryStorage::new();
    store.append(doc("a"), vec![1]);
    store.append(doc("b"), vec![2]);
    store.append(doc("a"), vec![3]);
    let mut names: Vec<String> = store.list_all().into_iter().map(|d| d.0).collect();
    names.sort();
    assert_eq!(names, vec!["a".to_string(), "b".to_string()]);
}

#[test]
fn unstepped_driver_releases_at_once() {
    let mut driver = StorageDriver::new(InMemoryStorage::new(), false);
    let (resp, released) = driver.handle(StorageRequest::Append(doc("a"), vec![1]));
    assert!(matches!(resp, Some(StorageResponse::Done)));
    assert_eq!(released, 1);
    let (resp, released) = driver.handle(StorageRequest::Load(doc("a")));
    match resp {
        Some(StorageResponse::Data(v)) => assert_eq!(v, Some(vec![1])),
        other => panic!("expected data, got {:?}", other.is_some()),
    }
    assert_eq!(released, 1);
}

#[test]
fn stepped_driver_defers_until_released() {
    let mut driver = StorageDriver::new(InMemoryStorage::new(), true);
    let (resp, released) = driver.handle(StorageRequest::Load(doc("a")));
    match resp {
        Some(StorageResponse::Data(v)) => assert_eq!(v, None),
        _ => panic!("expected data"),
    }
    assert_eq!(released, 0);
    let (resp, released) = driver.handle(StorageRequest::ProcessNextResult);
    assert!(resp.is_none());
    assert_eq!(released, 1);
}

#[test]
fn stepped_driver_releases_in_request_order() {
    let mut driver = StorageDriver::new(InMemoryStorage::new(), true);
    let (_, r1) = driver.handle(StorageRequest::Append(doc("a"), vec![1]));
    let (_, r2) = driver.handle(StorageRequest::ListAll);
    assert_eq!((r1, r2), (0, 0));
    let (_, released) = driver.handle(StorageRequest::ProcessNextResult);
    assert_eq!(released, 1);
    let (_, released) = driver.handle(StorageRequest::ProcessNextResult);
    assert_eq!(released, 1);
}

#[test]
fn driver_list_all_reports_contents() {
    let mut driver = StorageDriver::new(InMemoryStorage::new(), false);
    let _ = driver.handle(StorageRequest::Append(doc("a"), vec![1]));
    let _ = driver.handle(StorageRequest::Compact(doc("a"), vec![5]));
    let (resp, _) = driver.handle(StorageRequest::ListAll);
    match resp {
        Some(StorageResponse::List(ids)) => {
            assert_eq!(ids.len(), 1);
            assert_eq!(ids[0].0, "a".to_string());
        }
        _ => panic!("expected a listing"),
    }
    let (resp, _) = driver.handle(StorageRequest::Load(doc("a")));
    match resp {
        Some(StorageResponse::Data(v)) => assert_eq!(v, Some(vec![5])),
        _ => panic!("expected data"),
    }
}
