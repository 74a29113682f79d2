use pm::error::PmError;
use pm::index::{Index, Status};

fn assert_same_index(a: &Index, b: &Index) {
    assert_eq!(a.meta.name, b.meta.name);
    assert_eq!(a.tasks.len(), b.tasks.len());
    for (x, y) in a.tasks.iter().zip(b.tasks.iter()) {
        assert_eq!(x.id, y.id);
        assert_eq!(x.status, y.status);
        assert_eq!(x.priority, y.priority);
        assert_eq!(x.changes.len(), y.changes.len());
        for (c, d) in x.changes.iter().zip(y.changes.iter()) {
            assert_eq!(c.from, d.from);
            assert_eq!(c.to, d.to);
            assert_eq!(c.on, d.on);
        }
    }
}

#[test]
fn index_round_trips_through_save_and_load() {
    let mut index = Index::new("My project".to_string());
    let entry = vec!["first".to_string(), ":tag:".to_string()];
    index.create_task(&entry);
    index.create_task(&vec!["second".to_string()]);
    index.create_task(&vec!["third".to_string()]);
    index.move_task(1, Status::Doing).unwrap();
    index.move_task(1, Status::Done).unwrap();
    index.move_task(2, Status::Doing).unwrap();
    index.tasks[2].priority = Some(4);

    let text = index.save(false, false).unwrap();
    let loaded = Index::load(&text).unwrap();
    assert_same_index(&index, &loaded);
}

#[test]
fn empty_index_round_trips() {
    let index = Index::new("p".to_string());
    let text = index.save(false, false).unwrap();
    let loaded = Index::load(&text).unwrap();
    assert_eq!(loaded.meta.name, "p");
    assert!(loaded.tasks.is_empty());
}

#[test]
fn save_refuses_to_clobber_without_force() {
    let index = Index::new("p".to_string());
    assert!(matches!(index.save(true, false), Err(PmError::IndexExists)));
    assert!(index.save(true, true).is_ok());
    assert!(index.save(false, false).is_ok());
}

#[test]
fn load_rejects_malformed_text() {
    assert!(matches!(Index::load(""), Err(PmError::Parse)));
    assert!(matches!(Index::load("garbage"), Err(PmError::Parse)));
    assert!(matches!(Index::load("meta:\n  name: p\n"), Err(PmError::Parse)));
    assert!(matches!(
        Index::load("meta:\n  name: p\ntasks:\n- id: x\n  status: Todo\n  changes:\n"),
        Err(PmError::Parse)
    ));
    assert!(matches!(
        Index::load("meta:\n  name: p\ntasks:\n- id: 1\n  status: Waiting\n  changes:\n"),
        Err(PmError::Parse)
    ));
}

#[test]
fn load_accepts_document_marker_and_empty_lists() {
    let ix = Index::load("---\nmeta:\n  name: p\ntasks: []\n").unwrap();
    assert_eq!(ix.meta.name, "p");
    assert!(ix.tasks.is_empty());

    let ix2 = Index::load("meta:\n  name: p\ntasks:\n").unwrap();
    assert!(ix2.tasks.is_empty());

    let ix3 = Index::load(
        "meta:\n  name: p\ntasks:\n- id: 1\n  status: Todo\n  changes: []\n  priority: ~\n",
    )
    .unwrap();
    assert_eq!(ix3.tasks.len(), 1);
    assert!(ix3.tasks[0].changes.is_empty());
    assert!(ix3.tasks[0].priority.is_none());
}

#[test]
fn priority_values_at_the_u64_boundary() {
    let text = "meta:\n  name: p\ntasks:\n- id: 1\n  status: Todo\n  changes:\n  priority: 18446744073709551615\n";
    let ix = Index::load(text).unwrap();
    assert_eq!(ix.tasks[0].priority, Some(u64::MAX));

    let over = "meta:\n  name: p\ntasks:\n- id: 1\n  status: Todo\n  changes:\n  priority: 18446744073709551616\n";
    assert!(matches!(Index::load(over), Err(PmError::Parse)));
}

#[test]
fn sentinel_status_survives_the_round_trip() {
    let mut index = Index::new("p".to_string());
    index.create_task(&vec!["a".to_string()]);
    index.move_task(1, Status::Initial).unwrap();
    let text = index.save(false, false).unwrap();
    assert!(text.contains("status: None"));
    let loaded = Index::load(&text).unwrap();
    assert_eq!(loaded.tasks[0].status, Status::Initial);
}

#[test]
fn saved_timestamps_are_single_lines() {
    let mut index = Index::new("p".to_string());
    index.create_task(&vec!["a".to_string()]);
    let on = &index.tasks[0].changes[0].on;
    assert!(!on.is_empty());
    assert!(!on.contains('\n'));
    // and so the document has exactly one `on:` line per change
    let text = index.save(false, false).unwrap();
    assert_eq!(text.matches("    on: ").count(), 1);
}
