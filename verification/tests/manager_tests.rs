use rusttaskflow::Priority;
use rusttaskflow::Status;
use rusttaskflow::Task;
use rusttaskflow::TaskFilter;
use rusttaskflow::TaskFlowError;
use rusttaskflow::TaskManager;
use rusttaskflow::TransitionPolicy;

const NOW: i64 = 1_700_000_000_000;

#[test]
fn test_add_and_get_task() {
    let mut manager = TaskManager::new();
    let id = manager.add_task("Test task".to_string(), NOW);

    let task = manager.get_task(id).unwrap();
    assert_eq!(task.title, "Test task");
    assert_eq!(task.status, Status::Todo);
}

#[test]
fn task_manager_test_complete_task() {
    let mut manager = TaskManager::new();
    let id = manager.add_task("Test task".to_string(), NOW);

    manager.complete_task(id, NOW + 1).unwrap();
    let task = manager.get_task(id).unwrap();
    assert_eq!(task.status, Status::Completed);
}

#[test]
fn test_filter_tasks() {
    let mut manager = TaskManager::new();
    let id1 = manager.add_task("Task 1".to_string(), NOW);
    let _id2 = manager.add_task("Task 2".to_string(), NOW + 1);

    manager.complete_task(id1, NOW + 2).unwrap();

    let completed_tasks = manager.get_tasks_by_status(Status::Completed);
    assert_eq!(completed_tasks.len(), 1);
    assert_eq!(completed_tasks[0].title, "Task 1");

    let todo_tasks = manager.get_tasks_by_status(Status::Todo);
    assert_eq!(todo_tasks.len(), 1);
    assert_eq!(todo_tasks[0].title, "Task 2");
}

#[test]
fn test_search_tasks() {
    let mut manager = TaskManager::new();
    manager.add_task("Important work task".to_string(), NOW);
    manager.add_task("Personal shopping".to_string(), NOW + 1);

    let work_tasks = manager.search_tasks("work");
    assert_eq!(work_tasks.len(), 1);
    assert_eq!(work_tasks[0].title, "Important work task");
}

#[test]
fn test_stats() {
    let mut manager = TaskManager::new();
    let id1 = manager.add_task("Task 1".to_string(), NOW);
    let id2 = manager.add_task("Task 2".to_string(), NOW + 1);
    let _id3 = manager.add_task("Task 3".to_string(), NOW + 2);

    manager.complete_task(id1, NOW + 3).unwrap();
    manager.start_task(id2, NOW + 4).unwrap();

    let stats = manager.get_stats(NOW + 5);
    assert_eq!(stats.total, 3);
    assert_eq!(stats.completed, 1);
    assert_eq!(stats.in_progress, 1);
    assert_eq!(stats.todo, 1);
    assert_eq!(stats.cancelled, 0);
}

#[test]
fn deleting_missing_id_fails_and_keeps_size() {
    let mut manager = TaskManager::new();
    manager.add_task("Keeper".to_string(), NOW);
    let absent: u128 = 42;
    let before = manager.count_tasks();
    let result = manager.delete_task(absent);
    assert_eq!(result, Err(TaskFlowError::TaskNotFound { id: absent }));
    assert_eq!(manager.count_tasks(), before);
}

#[test]
fn delete_returns_the_task() {
    let mut manager = TaskManager::new();
    let id = manager.add_task("Ephemeral".to_string(), NOW);
    let removed = manager.delete_task(id).unwrap();
    assert_eq!(removed.title, "Ephemeral");
    assert_eq!(manager.count_tasks(), 0);
    assert!(manager.get_task(id).is_none());
}

#[test]
fn buy_milk_scenario() {
    let mut manager = TaskManager::new();
    let id = manager.add_task("Buy milk".to_string(), NOW);

    manager.start_task(id, NOW + 1).unwrap();
    assert_eq!(manager.get_task(id).unwrap().status, Status::InProgress);

    manager.complete_task(id, NOW + 2).unwrap();
    let task = manager.get_task(id).unwrap();
    assert_eq!(task.status, Status::Completed);
    assert!(task.completed_at.is_some());

    assert!(matches!(
        manager.start_task(id, NOW + 3),
        Err(TaskFlowError::InvalidStatusTransition { .. })
    ));
}

#[test]
fn status_filter_returns_exactly_the_subset() {
    let mut manager = TaskManager::new();
    let a = manager.add_task("a".to_string(), NOW);
    let b = manager.add_task("b".to_string(), NOW + 1);
    let c = manager.add_task("c".to_string(), NOW + 2);
    manager.complete_task(a, NOW + 3).unwrap();
    manager.complete_task(c, NOW + 4).unwrap();

    let mut filter = TaskFilter::default();
    filter.status = Some(Status::Completed);
    let picked = manager.filter_tasks(&filter, NOW + 5);
    assert_eq!(picked.len(), 2);
    assert!(picked.iter().all(|t| t.status == Status::Completed));
    assert!(picked.iter().any(|t| t.id == a));
    assert!(picked.iter().any(|t| t.id == c));
    assert!(picked.iter().all(|t| t.id != b));
}

#[test]
fn filter_combines_constraints_by_conjunction() {
    let mut manager = TaskManager::new();
    let a = manager.add_task("deep work".to_string(), NOW);
    let b = manager.add_task("shallow work".to_string(), NOW + 1);
    manager.update_task_priority(a, Priority::High, NOW + 2).unwrap();
    manager.add_tag_to_task(a, "focus".to_string(), NOW + 3).unwrap();
    manager.update_task_priority(b, Priority::High, NOW + 4).unwrap();

    let mut filter = TaskFilter::default();
    filter.priority = Some(Priority::High);
    filter.tags = vec!["focus".to_string()];
    let picked = manager.filter_tasks(&filter, NOW + 5);
    assert_eq!(picked.len(), 1);
    assert_eq!(picked[0].id, a);
}

#[test]
fn overdue_filter_spares_completed_tasks() {
    let mut manager = TaskManager::new();
    let late = manager.add_task("late".to_string(), NOW);
    let done = manager.add_task("done".to_string(), NOW + 1);
    manager.set_task_due_date(late, Some(NOW - 10), NOW + 2).unwrap();
    manager.set_task_due_date(done, Some(NOW - 10), NOW + 3).unwrap();
    manager.complete_task(done, NOW + 4).unwrap();

    let overdue = manager.get_overdue_tasks(NOW + 5);
    assert_eq!(overdue.len(), 1);
    assert_eq!(overdue[0].id, late);
}

#[test]
fn get_all_tags_is_sorted_and_deduplicated() {
    let mut manager = TaskManager::new();
    let a = manager.add_task("a".to_string(), NOW);
    let b = manager.add_task("b".to_string(), NOW + 1);
    manager.add_tag_to_task(a, "work".to_string(), NOW + 2).unwrap();
    manager.add_tag_to_task(a, "errand".to_string(), NOW + 3).unwrap();
    manager.add_tag_to_task(b, "work".to_string(), NOW + 4).unwrap();
    manager.add_tag_to_task(b, "alpha".to_string(), NOW + 5).unwrap();

    let tags = manager.get_all_tags();
    assert_eq!(tags, vec!["alpha".to_string(), "errand".to_string(), "work".to_string()]);
}

#[test]
fn update_title_stamps_and_replaces() {
    let mut manager = TaskManager::new();
    let id = manager.add_task("Before".to_string(), NOW);
    manager.update_task_title(id, "After".to_string(), NOW + 7).unwrap();
    let task = manager.get_task(id).unwrap();
    assert_eq!(task.title, "After");
    assert_eq!(task.updated_at, NOW + 7);
    assert!(matches!(
        manager.update_task_title(9999, "Nope".to_string(), NOW + 8),
        Err(TaskFlowError::TaskNotFound { .. })
    ));
}

#[test]
fn load_tasks_rejects_duplicate_ids() {
    let mut manager = TaskManager::new();
    let t1 = Task::with_id(7, "one".to_string(), NOW);
    let t2 = Task::with_id(7, "two".to_string(), NOW + 1);
    let result = manager.load_tasks(vec![t1, t2]);
    assert!(matches!(result, Err(TaskFlowError::Validation { .. })));
    assert_eq!(manager.count_tasks(), 0);
}

#[test]
fn load_and_export_round_trip_in_memory() {
    let mut manager = TaskManager::new();
    let t1 = Task::with_id(1, "one".to_string(), NOW);
    let t2 = Task::with_id(2, "two".to_string(), NOW + 1);
    manager.load_tasks(vec![t1, t2]).unwrap();
    let exported = manager.export_tasks();
    assert_eq!(exported.len(), 2);
    assert_eq!(exported[0].title, "one");
    assert_eq!(exported[1].title, "two");
}

#[test]
fn manager_policy_is_selectable() {
    let mut permissive = TaskManager::with_policy(TransitionPolicy::Permissive);
    let id = permissive.add_task("free".to_string(), NOW);
    permissive.complete_task(id, NOW + 1).unwrap();
    permissive.start_task(id, NOW + 2).unwrap();
    assert_eq!(permissive.get_task(id).unwrap().status, Status::InProgress);
}
