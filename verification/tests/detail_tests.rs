use pm::detail::TaskDetail;
use pm::index::{Status, Task};

#[test]
fn parse_entry_for_task_detail_no_tags() {
    let entry = vec!["A".to_string(), "basic".to_string(), "title".to_string()];
    let task_detail = TaskDetail::new(0, &entry);

    assert_eq!(task_detail.summary, "A basic title".to_string());
    assert_eq!(task_detail.tags, Vec::<String>::new());
}

#[test]
fn parse_entry_for_task_detail_with_tags() {
    let entry = vec![
        "A".to_string(),
        "basic".to_string(),
        ":tag:".to_string(),
        "title".to_string(),
    ];
    let task_detail = TaskDetail::new(0, &entry);

    assert_eq!(task_detail.summary, "A basic title".to_string());
    assert_eq!(task_detail.tags, vec!["tag".to_string()]);
}

#[test]
fn entry_word_of_one_colon_is_a_tag() {
    let entry = vec![":".to_string(), "x".to_string()];
    let d = TaskDetail::new(3, &entry);
    assert_eq!(d.summary, "x");
    assert_eq!(d.tags, vec!["".to_string()]);
}

#[test]
fn tag_content_stops_at_inner_colon() {
    let entry = vec![":a:b:".to_string()];
    let d = TaskDetail::new(3, &entry);
    assert_eq!(d.summary, "");
    assert_eq!(d.tags, vec!["a".to_string()]);
}

#[test]
fn empty_entry_gives_empty_summary_and_no_tags() {
    let entry: Vec<String> = Vec::new();
    let d = TaskDetail::new(1, &entry);
    assert_eq!(d.id, 1);
    assert_eq!(d.summary, "");
    assert!(d.tags.is_empty());
    assert_eq!(d.description, "");
}

#[test]
fn detail_header_copies_id_summary_and_tags() {
    let entry = vec!["fix".to_string(), ":urgent:".to_string()];
    let d = TaskDetail::new(9, &entry);
    let h = d.header();
    assert_eq!(h.id, 9);
    assert_eq!(h.summary, "fix");
    assert_eq!(h.tags, vec!["urgent".to_string()]);
}

#[test]
fn detail_document_round_trips() {
    let entry = vec![
        "A".to_string(),
        "basic".to_string(),
        ":tag:".to_string(),
        ":other:".to_string(),
        "title".to_string(),
    ];
    let mut d = TaskDetail::new(12, &entry);
    d.description = "First line.\n\nSecond paragraph with --- dashes.\n".to_string();
    let text = d.save();

    let task = Task {
        id: 12,
        status: Status::Todo,
        changes: vec![],
        priority: None,
    };
    let back = task.detail(&text).unwrap();
    assert_eq!(back.id, 12);
    assert_eq!(back.summary, "A basic title");
    assert_eq!(back.tags, vec!["tag".to_string(), "other".to_string()]);
    assert_eq!(back.description, "First line.\n\nSecond paragraph with --- dashes.\n");
}

#[test]
fn detail_parse_rejects_text_without_separator() {
    let task = Task {
        id: 1,
        status: Status::Todo,
        changes: vec![],
        priority: None,
    };
    assert!(task.detail("---\nid: 1\nsummary: s\ntags:\n").is_err());
    assert!(task.detail("not a detail document").is_err());
}

#[test]
fn detail_parse_accepts_empty_tag_list_forms() {
    let task = Task {
        id: 4,
        status: Status::Todo,
        changes: vec![],
        priority: None,
    };
    let d = task.detail("---\nid: 4\nsummary: s\ntags: []\n---\nbody").unwrap();
    assert_eq!(d.id, 4);
    assert!(d.tags.is_empty());
    assert_eq!(d.description, "body");
}
