use frodo::repo::{RepoError, SecureStoreTaskRepo};
use frodo::store::{InMemorySecureStore, SecureStore};
use frodo::taskdoc::{decode_tasks, encode_tasks};
use frodo::tasks::{status_label, Task, TaskStatus};

#[test]
fn creates_and_lists_tasks() {
    let mut repo = SecureStoreTaskRepo::new(InMemorySecureStore::new());
    let created = repo
        .create(
            "Write docs".into(),
            Some("MVP tasks".into()),
            vec!["docs".into()],
        )
        .expect("create");
    assert_eq!(created.status, TaskStatus::Todo);

    let tasks = repo.list().expect("list");
    assert_eq!(tasks.len(), 1);
    assert_eq!(tasks[0].title, "Write docs");
    assert_eq!(tasks[0].description.as_deref(), Some("MVP tasks"));
}

#[test]
fn updates_status() {
    let mut repo = SecureStoreTaskRepo::new(InMemorySecureStore::new());
    let created = repo
        .create("Ship".to_string(), None, vec![])
        .expect("create");

    let updated = repo
        .set_status(created.id, TaskStatus::Done)
        .expect("update");

    assert_eq!(updated.status, TaskStatus::Done);
    let tasks = repo.list().expect("list");
    assert_eq!(tasks[0].status, TaskStatus::Done);
}

#[test]
fn task_repo_round_trip() {
    let mut repo = SecureStoreTaskRepo::new(InMemorySecureStore::new());
    let created = repo
        .create("Example".into(), None, vec!["tag".into()])
        .expect("create");
    let listed = repo.list().expect("list");
    assert_eq!(listed.len(), 1);
    assert_eq!(listed[0].id, created.id);
}

#[test]
fn repo_scenario_create_then_done() {
    let mut repo = SecureStoreTaskRepo::new(InMemorySecureStore::new());
    let created = repo
        .create("Write docs".into(), None, vec!["docs".into()])
        .expect("create");
    assert_eq!(created.status, TaskStatus::Todo);

    let listed = repo.list().expect("list");
    assert_eq!(listed.len(), 1);
    assert_eq!(listed[0].title, "Write docs");

    let updated = repo.set_status(created.id, TaskStatus::Done).expect("done");
    assert_eq!(updated.status, TaskStatus::Done);
    assert!(
        updated.updated_at > updated.created_at,
        "update timestamp must move strictly past creation"
    );

    let listed = repo.list().expect("list again");
    assert_eq!(listed[0].status, TaskStatus::Done);
    assert!(listed[0].updated_at > listed[0].created_at);
}

#[test]
fn set_status_of_unknown_id_is_not_found() {
    let mut repo = SecureStoreTaskRepo::new(InMemorySecureStore::new());
    repo.create("One".into(), None, vec![]).expect("create");
    let err = repo
        .set_status(0xDEAD_BEEF, TaskStatus::Done)
        .expect_err("unknown id should fail");
    assert!(matches!(err, RepoError::NotFound));
}

#[test]
fn list_on_empty_store_is_empty() {
    let repo = SecureStoreTaskRepo::new(InMemorySecureStore::new());
    let tasks = repo.list().expect("list");
    assert!(tasks.is_empty());
}

#[test]
fn task_document_round_trip() {
    let tasks = vec![
        Task {
            id: 42,
            title: "Grüße".to_string(),
            description: Some("desc".to_string()),
            tags: vec!["a".to_string(), "b".to_string()],
            status: TaskStatus::InProgress,
            created_at: 1000,
            updated_at: 2000,
        },
        Task {
            id: u128::MAX,
            title: String::new(),
            description: None,
            tags: vec![],
            status: TaskStatus::Done,
            created_at: -5,
            updated_at: 0,
        },
    ];
    let bytes = encode_tasks(&tasks);
    let decoded = decode_tasks(&bytes).expect("decode");
    assert_eq!(decoded.len(), 2);
    assert_eq!(decoded[0].id, 42);
    assert_eq!(decoded[0].title, "Grüße");
    assert_eq!(decoded[0].description.as_deref(), Some("desc"));
    assert_eq!(decoded[0].tags, vec!["a".to_string(), "b".to_string()]);
    assert_eq!(decoded[0].status, TaskStatus::InProgress);
    assert_eq!(decoded[0].created_at, 1000);
    assert_eq!(decoded[0].updated_at, 2000);
    assert_eq!(decoded[1].id, u128::MAX);
    assert_eq!(decoded[1].title, "");
    assert_eq!(decoded[1].description, None);
    assert!(decoded[1].tags.is_empty());
    assert_eq!(decoded[1].status, TaskStatus::Done);
    assert_eq!(decoded[1].created_at, -5);
    assert_eq!(decoded[1].updated_at, 0);
}

#[test]
fn task_document_rejects_garbage() {
    assert!(decode_tasks(b"junk").is_none());
    assert!(decode_tasks(b"").is_none());
}

#[test]
fn empty_task_document_round_trips() {
    let tasks: Vec<Task> = vec![];
    let bytes = encode_tasks(&tasks);
    let decoded = decode_tasks(&bytes).expect("decode");
    assert!(decoded.is_empty());
}

#[test]
fn status_labels() {
    assert_eq!(status_label(&TaskStatus::Todo), "todo");
    assert_eq!(status_label(&TaskStatus::InProgress), "doing");
    assert_eq!(status_label(&TaskStatus::Done), "done");
}

#[test]
fn list_rejects_corrupt_document() {
    let mut store = InMemorySecureStore::new();
    store.put("tasks", b"garbage").expect("put");
    let repo = SecureStoreTaskRepo::new(store);
    let err = repo.list().expect_err("corrupt document should fail");
    assert!(matches!(err, RepoError::Storage { .. }));
}
