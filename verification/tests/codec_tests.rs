use rusttaskflow::Priority;
use rusttaskflow::Status;
use rusttaskflow::Task;
use rusttaskflow::TaskFlowError;
use rusttaskflow::TaskManager;
use rusttaskflow::TransitionPolicy;
use rusttaskflow::codec::decode_collection;
use rusttaskflow::codec::encode_collection;
use rusttaskflow::rows::TaskRow;
use rusttaskflow::rows::decode_rows;
use rusttaskflow::rows::encode_rows;
use rusttaskflow::rows::priority_from_text;
use rusttaskflow::rows::priority_to_text;
use rusttaskflow::rows::status_from_text;
use rusttaskflow::rows::status_to_text;

const NOW: i64 = 1_700_000_000_000;

fn sample_manager() -> TaskManager {
    let mut manager = TaskManager::new();
    let a = manager.add_task("Buy milk, eggs; and \"bread\"".to_string(), NOW);
    let b = manager.add_task("Négocier l'échéance".to_string(), NOW + 1);
    let c = manager.add_task("plain".to_string(), NOW + 2);
    manager.update_task_description(a, Some("semi;colon:tricks\n".to_string()), NOW + 3).unwrap();
    manager.update_task_priority(a, Priority::Critical, NOW + 4).unwrap();
    manager.add_tag_to_task(a, "errands".to_string(), NOW + 5).unwrap();
    manager.add_tag_to_task(a, "früh".to_string(), NOW + 6).unwrap();
    manager.set_task_due_date(a, Some(-123), NOW + 7).unwrap();
    manager.start_task(b, NOW + 8).unwrap();
    manager.complete_task(c, NOW + 9).unwrap();
    manager
}

#[test]
fn document_round_trip_keeps_every_field() {
    let manager = sample_manager();
    let document = encode_collection(&manager);
    let back = decode_collection(document.as_str()).unwrap();
    assert_eq!(back.export_tasks(), manager.export_tasks());
}

#[test]
fn document_round_trip_of_empty_collection() {
    let manager = TaskManager::new();
    let document = encode_collection(&manager);
    let back = decode_collection(document.as_str()).unwrap();
    assert_eq!(back.count_tasks(), 0);
}

#[test]
fn malformed_documents_are_rejected() {
    assert!(matches!(
        decode_collection(""),
        Err(TaskFlowError::Serialization { .. })
    ));
    assert!(matches!(
        decode_collection("not a document"),
        Err(TaskFlowError::Serialization { .. })
    ));
    // A well-formed document with trailing garbage is rejected too.
    let manager = TaskManager::new();
    let mut document = encode_collection(&manager);
    document.push_str("tail");
    assert!(matches!(
        decode_collection(document.as_str()),
        Err(TaskFlowError::Serialization { .. })
    ));
}

#[test]
fn rows_round_trip_keeps_every_field() {
    let manager = sample_manager();
    let rows = encode_rows(&manager);
    assert_eq!(rows.len(), 3);
    let back = decode_rows(&rows).unwrap();
    assert_eq!(back.export_tasks(), manager.export_tasks());
}

#[test]
fn enum_names_round_trip_and_unknown_names_fall_back() {
    for st in [Status::Todo, Status::InProgress, Status::Completed, Status::Cancelled] {
        assert_eq!(status_from_text(&status_to_text(st)), st);
    }
    for p in [Priority::Low, Priority::Medium, Priority::High, Priority::Critical] {
        assert_eq!(priority_from_text(&priority_to_text(p)), p);
    }
    assert_eq!(status_from_text(&"Archived".to_string()), Status::Todo);
    assert_eq!(priority_from_text(&"Extreme".to_string()), Priority::Medium);
}

#[test]
fn unreadable_timestamp_column_is_a_hard_load_error() {
    let manager = sample_manager();
    let mut rows = encode_rows(&manager);
    rows[0].created_at = "yesterday".to_string();
    assert!(matches!(
        decode_rows(&rows),
        Err(TaskFlowError::Serialization { .. })
    ));
}

#[test]
fn unreadable_tags_column_falls_back_to_no_tags() {
    let mut manager = TaskManager::new();
    let id = manager.add_task("tagged".to_string(), NOW);
    manager.add_tag_to_task(id, "keep".to_string(), NOW + 1).unwrap();
    let mut rows = encode_rows(&manager);
    rows[0].tags = "not a tag list".to_string();
    let back = decode_rows(&rows).unwrap();
    assert!(back.export_tasks()[0].tags.is_empty());
}

#[test]
fn duplicate_identifiers_in_rows_are_rejected() {
    let mut manager = TaskManager::new();
    manager.load_tasks(vec![Task::with_id(5, "a".to_string(), NOW)]).unwrap();
    let rows = encode_rows(&manager);
    let mut doubled: Vec<TaskRow> = Vec::new();
    for row in &rows {
        doubled.push(TaskRow {
            id: row.id.clone(),
            title: row.title.clone(),
            description: row.description.clone(),
            status: row.status.clone(),
            priority: row.priority.clone(),
            tags: row.tags.clone(),
            created_at: row.created_at.clone(),
            updated_at: row.updated_at.clone(),
            due_date: row.due_date.clone(),
            completed_at: row.completed_at.clone(),
            started_at: row.started_at.clone(),
            created_by: row.created_by.clone(),
            assigned_to: row.assigned_to.clone(),
        });
        doubled.push(TaskRow {
            id: row.id.clone(),
            title: row.title.clone(),
            description: row.description.clone(),
            status: row.status.clone(),
            priority: row.priority.clone(),
            tags: row.tags.clone(),
            created_at: row.created_at.clone(),
            updated_at: row.updated_at.clone(),
            due_date: row.due_date.clone(),
            completed_at: row.completed_at.clone(),
            started_at: row.started_at.clone(),
            created_by: row.created_by.clone(),
            assigned_to: row.assigned_to.clone(),
        });
    }
    assert!(matches!(
        decode_rows(&doubled),
        Err(TaskFlowError::Serialization { .. })
    ));
}

#[test]
fn decoded_collections_come_back_under_the_strict_policy() {
    let mut manager = TaskManager::with_policy(TransitionPolicy::Permissive);
    manager.add_task("free".to_string(), NOW);
    let document = encode_collection(&manager);
    let back = decode_collection(document.as_str()).unwrap();
    assert_eq!(back.policy, TransitionPolicy::Strict);
}
