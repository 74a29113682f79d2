use pm::error::PmError;
use pm::index::{Change, Index, Meta, Status, Task};

fn fresh(name: &str) -> Index {
    Index::new(name.to_string())
}

#[test]
fn parse_index() {
    let text = "
meta:
  name: My first project
tasks:
- id: 1
  status: Doing
  changes:
  - from: Todo
    to: Doing
    on: 2021-01-01T00:00:00+00:00
- id: 2
  status: Done
  changes:
  - from: Todo
    to: Doing
    on: 2021-01-01T00:00:00+00:00
  - from: Doing
    to: Done
    on: 2021-02-01T00:00:00+00:00
";

    let parsed = Index::load(text).unwrap();
    assert_eq!(parsed.meta.name, "My first project");
}

#[test]
fn task_sorting_without_priorities() {
    let tasks = vec![
        Task {
            id: 1,
            status: Status::Done,
            changes: vec![],
            priority: None,
        },
        Task {
            id: 2,
            status: Status::Done,
            changes: vec![],
            priority: None,
        },
    ];

    let index = Index {
        meta: Meta {
            name: "Foo".to_string(),
        },
        tasks,
    };
    let retrieved_tasks = index.sorted_tasks_with_status(Status::Done).unwrap();
    let ids: Vec<_> = retrieved_tasks.iter().map(|t| t.id).collect();
    assert_eq!(ids, &[1, 2]);
}

#[test]
fn task_sorting_with_priorities() {
    let tasks = vec![
        Task {
            id: 1,
            status: Status::Done,
            changes: vec![],
            priority: Some(100),
        },
        Task {
            id: 2,
            status: Status::Done,
            changes: vec![],
            priority: None,
        },
    ];

    let index = Index {
        meta: Meta {
            name: "Foo".to_string(),
        },
        tasks,
    };
    let retrieved_tasks = index.sorted_tasks_with_status(Status::Done).unwrap();
    let ids: Vec<_> = retrieved_tasks.iter().map(|t| t.id).collect();
    // A task with a priority precedes any task without one.
    assert_eq!(ids, &[1, 2]);
}

#[test]
fn created_ids_count_up_from_one() {
    let mut index = fresh("p");
    let entry = vec!["a".to_string()];
    let d1 = index.create_task(&entry);
    let d2 = index.create_task(&entry);
    let d3 = index.create_task(&entry);
    assert_eq!(d1.id, 1);
    assert_eq!(d2.id, 2);
    assert_eq!(d3.id, 3);
    let ids: Vec<_> = index.tasks.iter().map(|t| t.id).collect();
    assert_eq!(ids, &[1, 2, 3]);
}

#[test]
fn new_task_history_starts_at_todo() {
    let mut index = fresh("p");
    let entry = vec!["a".to_string()];
    index.create_task(&entry);
    let t = index.get_task(1).unwrap();
    assert_eq!(t.status, Status::Todo);
    assert_eq!(t.changes.len(), 1);
    assert_eq!(t.changes[0].from, Status::Initial);
    assert_eq!(t.changes[0].to, Status::Todo);
    assert!(t.priority.is_none());
}

#[test]
fn history_last_change_matches_status_after_moves() {
    let mut index = fresh("p");
    let entry = vec!["a".to_string()];
    index.create_task(&entry);
    index.move_task(1, Status::Doing).unwrap();
    index.move_task(1, Status::Done).unwrap();
    let t = index.get_task(1).unwrap();
    assert_eq!(t.status, Status::Done);
    assert_eq!(t.changes.len(), 3);
    assert_eq!(t.changes[2].from, Status::Doing);
    assert_eq!(t.changes[2].to, Status::Done);
    assert_eq!(t.changes[t.changes.len() - 1].to, t.status);
    assert_eq!(t.changes[0].from, Status::Initial);
    assert_eq!(t.changes[0].to, Status::Todo);
}

#[test]
fn move_to_current_status_records_nothing() {
    let mut index = fresh("p");
    let entry = vec!["a".to_string()];
    index.create_task(&entry);
    let before = index.get_task(1).unwrap().changes.len();
    index.move_task(1, Status::Todo).unwrap();
    let after = index.get_task(1).unwrap().changes.len();
    assert_eq!(before, after);
}

#[test]
fn move_of_missing_task_fails() {
    let mut index = fresh("p");
    assert_eq!(index.move_task(7, Status::Done), Err(PmError::TaskNotFound));
}

#[test]
fn move_accepts_the_sentinel_target() {
    // The registry does not validate the target state; rejecting the
    // sentinel is the command line's concern.
    let mut index = fresh("p");
    index.create_task(&vec!["a".to_string()]);
    index.move_task(1, Status::Initial).unwrap();
    assert_eq!(index.get_task(1).unwrap().status, Status::Initial);
}

#[test]
fn deleted_task_is_gone() {
    let mut index = fresh("p");
    let entry = vec!["a".to_string()];
    index.create_task(&entry);
    index.create_task(&entry);
    assert!(index.delete_task(1));
    assert!(index.get_task(1).is_none());
    assert!(index.get_task(2).is_some());
    assert!(!index.delete_task(1));
}

#[test]
fn deleting_the_largest_id_lets_it_be_reused() {
    let mut index = fresh("p");
    let entry = vec!["a".to_string()];
    index.create_task(&entry);
    index.create_task(&entry);
    index.delete_task(2);
    let d = index.create_task(&entry);
    assert_eq!(d.id, 2);
}

#[test]
fn deleting_a_smaller_id_does_not_reuse_it() {
    let mut index = fresh("p");
    let entry = vec!["a".to_string()];
    index.create_task(&entry);
    index.create_task(&entry);
    index.delete_task(1);
    let d = index.create_task(&entry);
    assert_eq!(d.id, 3);
}

#[test]
fn priority_order_beats_id_order() {
    let tasks = vec![
        Task {
            id: 5,
            status: Status::Todo,
            changes: vec![],
            priority: None,
        },
        Task {
            id: 6,
            status: Status::Todo,
            changes: vec![],
            priority: Some(100),
        },
        Task {
            id: 7,
            status: Status::Todo,
            changes: vec![],
            priority: Some(1),
        },
    ];
    let index = Index {
        meta: Meta {
            name: "p".to_string(),
        },
        tasks,
    };
    let sorted = index.sorted_tasks_with_status(Status::Todo).unwrap();
    let ids: Vec<_> = sorted.iter().map(|t| t.id).collect();
    assert_eq!(ids, &[7, 6, 5]);
}

#[test]
fn tasks_without_priority_order_by_id() {
    let tasks = vec![
        Task {
            id: 9,
            status: Status::Todo,
            changes: vec![],
            priority: None,
        },
        Task {
            id: 2,
            status: Status::Todo,
            changes: vec![],
            priority: None,
        },
    ];
    let index = Index {
        meta: Meta {
            name: "p".to_string(),
        },
        tasks,
    };
    let sorted = index.sorted_tasks_with_status(Status::Todo).unwrap();
    let ids: Vec<_> = sorted.iter().map(|t| t.id).collect();
    assert_eq!(ids, &[2, 9]);
}

#[test]
fn equal_priorities_keep_both_tasks() {
    let tasks = vec![
        Task {
            id: 1,
            status: Status::Todo,
            changes: vec![],
            priority: Some(5),
        },
        Task {
            id: 2,
            status: Status::Todo,
            changes: vec![],
            priority: Some(5),
        },
    ];
    let index = Index {
        meta: Meta {
            name: "p".to_string(),
        },
        tasks,
    };
    let sorted = index.sorted_tasks_with_status(Status::Todo).unwrap();
    let mut ids: Vec<_> = sorted.iter().map(|t| t.id).collect();
    ids.sort();
    assert_eq!(ids, &[1, 2]);
}

#[test]
fn no_task_with_status_yields_the_sentinel() {
    let mut index = fresh("p");
    index.create_task(&vec!["a".to_string()]);
    assert!(index.sorted_tasks_with_status(Status::Doing).is_none());
    assert!(index.sorted_tasks_with_status(Status::Todo).is_some());
}

#[test]
fn status_words_parse_in_any_ascii_case() {
    assert_eq!(Status::parse("todo"), Ok(Status::Todo));
    assert_eq!(Status::parse("TODO"), Ok(Status::Todo));
    assert_eq!(Status::parse("Doing"), Ok(Status::Doing));
    assert_eq!(Status::parse("dOnE"), Ok(Status::Done));
    assert_eq!(Status::parse("none"), Err(PmError::Parse));
    assert_eq!(Status::parse("finished"), Err(PmError::Parse));
    assert_eq!(Status::parse(""), Err(PmError::Parse));
}

#[test]
fn status_names_serialize_as_the_four_words() {
    assert_eq!(Status::Initial.name(), "None");
    assert_eq!(Status::Todo.name(), "Todo");
    assert_eq!(Status::Doing.name(), "Doing");
    assert_eq!(Status::Done.name(), "Done");
}

#[test]
fn get_task_finds_first_match() {
    let mut index = fresh("p");
    index.create_task(&vec!["a".to_string()]);
    index.tasks.push(Task {
        id: 1,
        status: Status::Done,
        changes: vec![Change {
            from: Status::Initial,
            to: Status::Todo,
            on: "2021-01-01T00:00:00+00:00".to_string(),
        }],
        priority: None,
    });
    let t = index.get_task(1).unwrap();
    assert_eq!(t.status, Status::Todo);
}
