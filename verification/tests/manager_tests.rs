use pm::error::PmError;
use pm::index::{Index, Status};
use pm::manager::{show_line, Manager};
use pm::paths::{find_index_path, find_project_root};

#[test]
fn manager_add_returns_index_text_and_detail() {
    let mut m = Manager::new(Index::new("p".to_string()));
    let entry = vec!["fix".to_string(), ":urgent:".to_string(), "the bug".to_string()];
    let (text, detail) = m.add(&entry);
    assert_eq!(detail.id, 1);
    assert_eq!(detail.summary, "fix the bug");
    assert_eq!(detail.tags, vec!["urgent".to_string()]);
    let loaded = Index::load(&text).unwrap();
    assert_eq!(loaded.tasks.len(), 1);
    assert_eq!(loaded.tasks[0].id, 1);
    assert_eq!(loaded.tasks[0].status, Status::Todo);
}

#[test]
fn manager_move_task_persists_the_transition() {
    let mut m = Manager::new(Index::new("p".to_string()));
    m.add(&vec!["a".to_string()]);
    let text = m.move_task(1, Status::Doing).unwrap();
    let loaded = Index::load(&text).unwrap();
    assert_eq!(loaded.tasks[0].status, Status::Doing);
    assert_eq!(loaded.tasks[0].changes.len(), 2);
    assert_eq!(m.move_task(9, Status::Done), Err(PmError::TaskNotFound));
}

#[test]
fn manager_delete_task_removes_the_entry() {
    let mut m = Manager::new(Index::new("p".to_string()));
    m.add(&vec!["a".to_string()]);
    m.add(&vec!["b".to_string()]);
    let (removed, text) = m.delete_task(1);
    assert!(removed);
    let loaded = Index::load(&text).unwrap();
    assert_eq!(loaded.tasks.len(), 1);
    assert_eq!(loaded.tasks[0].id, 2);
    let (removed_again, _) = m.delete_task(1);
    assert!(!removed_again);
}

#[test]
fn manager_init_guards_an_existing_index() {
    assert_eq!(
        Manager::init("p".to_string(), true, false),
        Err(PmError::IndexExists)
    );
    let text = Manager::init("p".to_string(), false, false).unwrap();
    let loaded = Index::load(&text).unwrap();
    assert_eq!(loaded.meta.name, "p");
    assert!(loaded.tasks.is_empty());
    assert!(Manager::init("p".to_string(), true, true).is_ok());
}

#[test]
fn index_path_is_under_pm() {
    assert_eq!(find_index_path("/work/proj"), "/work/proj/pm/index.yml");
}

#[test]
fn detail_paths_zero_pad_to_three_digits() {
    let index = Index::new("p".to_string());
    assert_eq!(index.detail_path("/r", 7), "/r/pm/tasks/007.md");
    assert_eq!(index.detail_path("/r", 42), "/r/pm/tasks/042.md");
    assert_eq!(index.detail_path("/r", 123), "/r/pm/tasks/123.md");
    assert_eq!(index.detail_path("/r", 98765), "/r/pm/tasks/98765.md");
}

#[test]
fn project_root_is_the_nearest_marked_ancestor() {
    assert_eq!(find_project_root(&vec![false, false, true, true]), Some(2));
    assert_eq!(find_project_root(&vec![true]), Some(0));
    assert_eq!(find_project_root(&vec![false, false]), None);
    assert_eq!(find_project_root(&Vec::new()), None);
}

#[test]
fn show_lines_carry_padded_id_and_tags() {
    assert_eq!(show_line(7, "Fix the bug", &Vec::new()), "007: Fix the bug");
    assert_eq!(
        show_line(41, "Fix", &vec!["a".to_string(), "b".to_string()]),
        "041: Fix\t\t:a b:"
    );
}
