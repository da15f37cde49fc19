use rusttaskflow::Status;
use rusttaskflow::Task;
use rusttaskflow::TaskFlowError;
use rusttaskflow::Priority;
use rusttaskflow::TransitionPolicy;

const NOW: i64 = 1_700_000_000_000;

#[test]
fn test_new_task() {
    let task = Task::new("Test task".to_string(), NOW);
    assert_eq!(task.title, "Test task");
    assert_eq!(task.status, Status::Todo);
    assert_eq!(task.priority, Priority::Medium);
    assert!(task.tags.is_empty());
}

#[test]
fn task_test_complete_task() {
    let mut task = Task::new("Test task".to_string(), NOW);
    task.complete(TransitionPolicy::Strict, NOW + 1).unwrap();
    assert_eq!(task.status, Status::Completed);
    assert!(task.completed_at.is_some());
}

#[test]
fn test_add_remove_tags() {
    let mut task = Task::new("Test task".to_string(), NOW);
    task.add_tag("work".to_string(), NOW + 1);
    task.add_tag("urgent".to_string(), NOW + 2);
    assert_eq!(task.tags.len(), 2);

    task.remove_tag("work", NOW + 3);
    assert_eq!(task.tags.len(), 1);
    assert_eq!(task.tags[0], "urgent");
}

#[test]
fn test_text_matching() {
    let mut task = Task::new("Important work task".to_string(), NOW);
    task.set_description(Some("This is a critical task".to_string()), NOW + 1);
    task.add_tag("urgent".to_string(), NOW + 2);

    assert!(task.matches_text("work"));
    assert!(task.matches_text("critical"));
    assert!(task.matches_text("urgent"));
    assert!(!task.matches_text("personal"));
}

#[test]
fn text_matching_folds_case() {
    let task = Task::new("work task".to_string(), NOW);
    assert!(task.matches_text("WORK"));
    let shouting = Task::new("LAUNDRY DAY".to_string(), NOW);
    assert!(shouting.matches_text("laundry"));
}

#[test]
fn created_at_stays_at_or_before_updated_at() {
    let mut task = Task::new("Chores".to_string(), NOW);
    assert!(task.created_at <= task.updated_at);
    task.set_priority(Priority::High, NOW + 5);
    assert!(task.created_at <= task.updated_at);
    task.add_tag("home".to_string(), NOW + 9);
    assert!(task.created_at <= task.updated_at);
    task.start(TransitionPolicy::Strict, NOW + 12).unwrap();
    assert!(task.created_at <= task.updated_at);
    task.complete(TransitionPolicy::Strict, NOW + 20).unwrap();
    assert!(task.created_at <= task.updated_at);
}

#[test]
fn completed_task_is_never_overdue() {
    let mut task = Task::new("Pay the bill".to_string(), NOW);
    task.set_due_date(Some(NOW - 86_400_000), NOW);
    assert!(task.is_overdue(NOW));
    task.complete(TransitionPolicy::Strict, NOW + 1).unwrap();
    assert!(!task.is_overdue(NOW + 2));
    assert_eq!(task.due_date, Some(NOW - 86_400_000));
}

#[test]
fn overdue_needs_past_due_date_and_open_status() {
    let mut task = Task::new("Water plants".to_string(), NOW);
    assert!(!task.is_overdue(NOW));
    task.set_due_date(Some(NOW + 1000), NOW);
    assert!(!task.is_overdue(NOW));
    task.set_due_date(Some(NOW - 1000), NOW);
    assert!(task.is_overdue(NOW));
    task.cancel(TransitionPolicy::Strict, NOW).unwrap();
    assert!(task.is_overdue(NOW));
}

#[test]
fn starting_twice_fails_with_invalid_transition() {
    let mut task = Task::new("One-shot".to_string(), NOW);
    task.start(TransitionPolicy::Strict, NOW + 1).unwrap();
    assert_eq!(task.status, Status::InProgress);
    let second = task.start(TransitionPolicy::Strict, NOW + 2);
    assert_eq!(
        second,
        Err(TaskFlowError::InvalidStatusTransition {
            from: Status::InProgress,
            to: Status::InProgress,
        })
    );
    assert_eq!(task.status, Status::InProgress);
}

#[test]
fn permissive_policy_allows_reentry() {
    let mut task = Task::new("Loose".to_string(), NOW);
    task.complete(TransitionPolicy::Permissive, NOW + 1).unwrap();
    assert_eq!(task.status, Status::Completed);
    task.start(TransitionPolicy::Permissive, NOW + 2).unwrap();
    assert_eq!(task.status, Status::InProgress);
    assert_eq!(task.completed_at, None);
}

#[test]
fn adding_same_tag_twice_keeps_one_occurrence() {
    let mut task = Task::new("Tagged".to_string(), NOW);
    task.add_tag("x".to_string(), NOW + 5);
    assert_eq!(task.updated_at, NOW + 5);
    task.add_tag("x".to_string(), NOW + 9);
    assert_eq!(task.tags.iter().filter(|t| t.as_str() == "x").count(), 1);
    assert_eq!(task.updated_at, NOW + 5);
}

#[test]
fn transitions_from_terminal_states_fail_strictly() {
    let mut done = Task::new("Done".to_string(), NOW);
    done.complete(TransitionPolicy::Strict, NOW + 1).unwrap();
    assert!(matches!(
        done.complete(TransitionPolicy::Strict, NOW + 2),
        Err(TaskFlowError::InvalidStatusTransition { .. })
    ));
    assert!(matches!(
        done.cancel(TransitionPolicy::Strict, NOW + 2),
        Err(TaskFlowError::InvalidStatusTransition { .. })
    ));

    let mut gone = Task::new("Gone".to_string(), NOW);
    gone.cancel(TransitionPolicy::Strict, NOW + 1).unwrap();
    assert!(matches!(
        gone.start(TransitionPolicy::Strict, NOW + 2),
        Err(TaskFlowError::InvalidStatusTransition { .. })
    ));
}
