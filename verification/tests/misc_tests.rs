use rusttaskflow::Claims;
use rusttaskflow::CreateTaskRequest;
use rusttaskflow::JsonStorage;
use rusttaskflow::Priority;
use rusttaskflow::RegisterRequest;
use rusttaskflow::SqliteStorage;
use rusttaskflow::Status;
use rusttaskflow::StorageKind;
use rusttaskflow::Task;
use rusttaskflow::TaskFlowError;
use rusttaskflow::UpdateTaskRequest;
use rusttaskflow::User;
use rusttaskflow::create_storage;
use rusttaskflow::auth::login_decision;
use rusttaskflow::auth::validate_registration;
use rusttaskflow::auth::can_access;
use rusttaskflow::auth::can_delete;
use rusttaskflow::parse_tags;
use rusttaskflow::requests::apply_update;
use rusttaskflow::requests::create_task_from_request;
use rusttaskflow::ws::ClientAction;
use rusttaskflow::ws::ClientMessage;
use rusttaskflow::ws::client_action;

const NOW: i64 = 1_700_000_000_000;

#[test]
fn test_parse_tags() {
    let tags = parse_tags("work, urgent, important");
    assert_eq!(tags, vec!["work", "urgent", "important"]);

    let tags = parse_tags("single");
    assert_eq!(tags, vec!["single"]);

    let tags = parse_tags("");
    assert!(tags.is_empty());
}

#[test]
fn parse_tags_trims_and_drops_empty_segments() {
    assert_eq!(parse_tags("  a  ,, ,b"), vec!["a", "b"]);
    assert_eq!(parse_tags(",,,"), Vec::<String>::new());
    assert_eq!(parse_tags("\t x \n"), vec!["x"]);
}

#[test]
fn storage_lookup_is_case_insensitive_and_strict() {
    assert_eq!(create_storage("json").unwrap(), StorageKind::Json);
    assert_eq!(create_storage("JSON").unwrap(), StorageKind::Json);
    assert_eq!(create_storage("SqLiTe").unwrap(), StorageKind::Sqlite);
    assert!(matches!(
        create_storage("parquet"),
        Err(TaskFlowError::Validation { .. })
    ));
}

#[test]
fn backup_paths_are_siblings() {
    let json = JsonStorage::new("/tmp/tasks.json".to_string());
    assert_eq!(json.backup_path(), "/tmp/tasks.json.backup");
    let db = SqliteStorage::new("/tmp/tasks.db".to_string());
    assert_eq!(db.backup_path(), "/tmp/tasks.db.backup");
}

#[test]
fn registration_validation_checks_in_order() {
    let ok = RegisterRequest {
        username: "ada".to_string(),
        email: "ada@example.com".to_string(),
        password: "longenough".to_string(),
    };
    assert!(validate_registration(&ok).is_ok());

    let blank_name = RegisterRequest {
        username: "   ".to_string(),
        email: "ada@example.com".to_string(),
        password: "longenough".to_string(),
    };
    assert!(matches!(
        validate_registration(&blank_name),
        Err(TaskFlowError::Validation { .. })
    ));

    let short_password = RegisterRequest {
        username: "ada".to_string(),
        email: "ada@example.com".to_string(),
        password: "tiny".to_string(),
    };
    assert!(matches!(
        validate_registration(&short_password),
        Err(TaskFlowError::Validation { .. })
    ));
}

#[test]
fn login_decision_hides_which_credential_failed() {
    assert!(matches!(
        login_decision(false, false, false),
        Err(TaskFlowError::Authentication { .. })
    ));
    assert!(matches!(
        login_decision(true, false, true),
        Err(TaskFlowError::Authentication { .. })
    ));
    assert!(matches!(
        login_decision(true, true, false),
        Err(TaskFlowError::Authentication { .. })
    ));
    assert!(login_decision(true, true, true).is_ok());
}

#[test]
fn claims_expire_one_day_after_issue() {
    let user = User::new(
        "ada".to_string(),
        "ada@example.com".to_string(),
        "hash".to_string(),
        9,
        NOW,
    );
    let claims = Claims::new(&user, 1_000_000);
    assert_eq!(claims.iat, 1_000_000);
    assert_eq!(claims.exp, 1_000_000 + 86_400);
    assert_eq!(claims.sub, "9");
    assert!(!claims.is_expired(1_000_000 + 86_400));
    assert!(claims.is_expired(1_000_000 + 86_401));
}

#[test]
fn access_requires_creator_or_assignee() {
    let mut task = Task::with_id(1, "shared".to_string(), NOW);
    task.created_by = Some(10);
    task.assigned_to = Some(20);
    assert!(can_access(&task, 10));
    assert!(can_access(&task, 20));
    assert!(!can_access(&task, 30));
    assert!(can_delete(&task, 10));
    assert!(!can_delete(&task, 20));
}

#[test]
fn create_request_builds_a_sanitized_task() {
    let req = CreateTaskRequest {
        title: "Ship it".to_string(),
        description: Some("soon".to_string()),
        priority: Priority::High,
        tags: vec!["a".to_string(), "".to_string(), "a".to_string(), "b".to_string()],
        due_date: Some(NOW + 5),
        assigned_to: Some(77),
    };
    let task = create_task_from_request(req, 3, 9, NOW).unwrap();
    assert_eq!(task.id, 3);
    assert_eq!(task.created_by, Some(9));
    assert_eq!(task.assigned_to, Some(77));
    assert_eq!(task.tags, vec!["a".to_string(), "b".to_string()]);
    assert_eq!(task.status, Status::Todo);

    let blank = CreateTaskRequest {
        title: "   ".to_string(),
        description: None,
        priority: Priority::Low,
        tags: vec![],
        due_date: None,
        assigned_to: None,
    };
    assert!(matches!(
        create_task_from_request(blank, 4, 9, NOW),
        Err(TaskFlowError::Validation { .. })
    ));
}

#[test]
fn update_request_merges_present_fields_only() {
    let mut task = Task::with_id(1, "old title".to_string(), NOW);
    task.description = Some("old".to_string());
    let req = UpdateTaskRequest {
        title: Some("new title".to_string()),
        description: None,
        priority: Some(Priority::Critical),
        tags: None,
        due_date: Some(NOW + 100),
        assigned_to: None,
    };
    apply_update(&mut task, req, NOW + 50).unwrap();
    assert_eq!(task.title, "new title");
    assert_eq!(task.description, Some("old".to_string()));
    assert_eq!(task.priority, Priority::Critical);
    assert_eq!(task.due_date, Some(NOW + 100));
    assert_eq!(task.updated_at, NOW + 50);

    let bad = UpdateTaskRequest {
        title: Some("  ".to_string()),
        description: None,
        priority: None,
        tags: None,
        due_date: None,
        assigned_to: None,
    };
    let before_update = task.updated_at;
    assert!(matches!(
        apply_update(&mut task, bad, NOW + 60),
        Err(TaskFlowError::Validation { .. })
    ));
    assert_eq!(task.updated_at, before_update);
}

#[test]
fn client_messages_decide_their_action() {
    assert!(matches!(client_action(ClientMessage::Ping), ClientAction::Pong));
    assert!(matches!(
        client_action(ClientMessage::Subscribe { room: "r".to_string() }),
        ClientAction::Ignore
    ));
    match client_action(ClientMessage::Authenticate { token: "tok".to_string() }) {
        ClientAction::CheckToken { token } => assert_eq!(token, "tok"),
        _ => panic!("an authentication request must ask for a token check"),
    }
}

#[test]
fn fresh_identifiers_are_distinct_in_practice() {
    let a = Task::new("a".to_string(), NOW);
    let b = Task::new("b".to_string(), NOW);
    assert_ne!(a.id, b.id);
}
