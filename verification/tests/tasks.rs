use meilisearch_lib::content_store::{ContentStore, ContentStoreError};
use meilisearch_lib::task::{DocumentDeletion, TaskContent, TaskStatus};
use meilisearch_lib::task_store::{TaskFilter, TaskStore};

#[test]
fn task_ids_strictly_increase() {
    let mut store = TaskStore::new();
    let t0 = store
        .register(String::from("movies"), TaskContent::IndexDeletion, 10)
        .unwrap();
    let t1 = store
        .register(String::from("movies"), TaskContent::SettingsUpdate, 11)
        .unwrap();
    let t2 = store
        .register(
            String::from("books"),
            TaskContent::DocumentDeletion(DocumentDeletion::Clear),
            12,
        )
        .unwrap();
    assert_eq!(t0.id, 0);
    assert_eq!(t1.id, 1);
    assert_eq!(t2.id, 2);
    assert!(t0.id < t1.id && t1.id < t2.id);
    assert_eq!(store.next_task_id(), 3);
}

#[test]
fn register_stamps_the_new_task() {
    let mut store = TaskStore::new();
    let t = store
        .register(String::from("movies"), TaskContent::SettingsUpdate, 1234)
        .unwrap();
    assert_eq!(t.index_uid, "movies");
    assert_eq!(t.status, TaskStatus::Enqueued);
    assert_eq!(t.created_at, 1234);
    assert_eq!(t.finished_at, None);
    assert_eq!(t.error, None);
}

#[test]
fn get_task_hides_filtered_tasks_like_missing_ones() {
    let mut store = TaskStore::new();
    let t = store
        .register(String::from("movies"), TaskContent::IndexDeletion, 5)
        .unwrap();

    assert!(store.get_task(t.id, None).is_some());
    assert!(store.get_task(99, None).is_none());

    let allow = TaskFilter { indexes: Some(vec![String::from("movies")]) };
    assert!(store.get_task(t.id, Some(&allow)).is_some());

    // a task outside the caller's visible indexes looks exactly like a
    // task that never existed
    let deny = TaskFilter { indexes: Some(vec![String::from("books")]) };
    assert!(store.get_task(t.id, Some(&deny)).is_none());
}

#[test]
fn list_tasks_is_most_recent_first_with_limit_and_cursor() {
    let mut store = TaskStore::new();
    for i in 0..5 {
        store
            .register(
                String::from(if i % 2 == 0 { "movies" } else { "books" }),
                TaskContent::SettingsUpdate,
                i,
            )
            .unwrap();
    }

    let all = store.list_tasks(None, 20, None);
    let ids: Vec<u64> = all.iter().map(|t| t.id).collect();
    assert_eq!(ids, vec![4, 3, 2, 1, 0]);

    let limited = store.list_tasks(None, 2, None);
    let ids: Vec<u64> = limited.iter().map(|t| t.id).collect();
    assert_eq!(ids, vec![4, 3]);

    let resumed = store.list_tasks(None, 20, Some(2));
    let ids: Vec<u64> = resumed.iter().map(|t| t.id).collect();
    assert_eq!(ids, vec![2, 1, 0]);

    let filter = TaskFilter { indexes: Some(vec![String::from("movies")]) };
    let filtered = store.list_tasks(Some(&filter), 20, None);
    let ids: Vec<u64> = filtered.iter().map(|t| t.id).collect();
    assert_eq!(ids, vec![4, 2, 0]);
}

#[test]
fn finish_task_writes_terminal_status() {
    let mut store = TaskStore::new();
    let t = store
        .register(String::from("movies"), TaskContent::IndexDeletion, 5)
        .unwrap();

    assert!(store.finish_task(t.id, false, Some(String::from("index not found")), 77));
    let done = store.get_task(t.id, None).unwrap();
    assert_eq!(done.status, TaskStatus::Failed);
    assert_eq!(done.finished_at, Some(77));
    assert_eq!(done.error.as_deref(), Some("index not found"));

    assert!(!store.finish_task(99, true, None, 78));
}

#[test]
fn content_store_is_write_once() {
    let mut store = ContentStore::new();
    assert!(!store.contains(7));
    assert!(store.get(7).is_none());

    let records = vec![b"{\"id\":1}".to_vec(), b"{\"id\":2}".to_vec()];
    store.save(7, records.clone()).unwrap();
    assert!(store.contains(7));
    assert_eq!(store.get(7).unwrap(), records);

    // a second write under the same identifier is refused whole
    let other = vec![b"{}".to_vec()];
    assert_eq!(store.save(7, other), Err(ContentStoreError::ContentIdReused));
    assert_eq!(store.get(7).unwrap(), records);
}
