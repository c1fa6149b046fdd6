// Scenarios of the task listing and of single tasks.
use tc_middleware::handlers::tasks::{create_task, delete_task, get_task, list_tasks, update_task, TaskFilter};
use tc_middleware::handlers::{ApiError, TaskEdit};
use tc_middleware::models::{CreateTaskRequest, TaskRecord, TaskStatus, UpdateTaskRequest};

fn record(uuid: u128, description: &str, tags: &[&str], project: Option<&str>, status: TaskStatus, entry: Option<i64>) -> TaskRecord {
    TaskRecord {
        uuid,
        description: description.to_string(),
        status,
        entry,
        modified: entry,
        tags: tags.iter().map(|t| t.to_string()).collect(),
        priority: String::new(),
        due: None,
        project: project.map(|p| p.to_string()),
    }
}

fn fresh_task() -> TaskRecord {
    record(99, "", &["PENDING", "UNBLOCKED"], None, TaskStatus::Pending, Some(1_700_000_000))
}

fn filtering_data() -> Vec<TaskRecord> {
    vec![
        record(1, "Task 1", &["urgent", "PENDING"], Some("work"), TaskStatus::Pending, Some(10)),
        record(2, "Task 2", &["home", "PENDING"], Some("personal"), TaskStatus::Pending, Some(20)),
        record(3, "Task 3", &["PENDING"], Some("work"), TaskStatus::Pending, Some(30)),
    ]
}

fn uuids(v: &[tc_middleware::models::TaskResponse]) -> Vec<u128> {
    v.iter().map(|r| r.uuid).collect()
}

#[test]
fn test_list_tasks_filtering() {
    let tasks = filtering_data();
    let by_tag = TaskFilter { tag: Some("urgent".to_string()), project: None };
    assert_eq!(uuids(&list_tasks(&tasks, &by_tag)), vec![1]);
    let by_project = TaskFilter { tag: None, project: Some("work".to_string()) };
    assert_eq!(uuids(&list_tasks(&tasks, &by_project)), vec![1, 3]);
    let both = TaskFilter { tag: Some("urgent".to_string()), project: Some("work".to_string()) };
    assert_eq!(uuids(&list_tasks(&tasks, &both)), vec![1]);
    let missing = TaskFilter { tag: Some("nonexistent".to_string()), project: None };
    assert!(list_tasks(&tasks, &missing).is_empty());
}

#[test]
fn list_tasks_hides_deleted_tasks() {
    let mut tasks = filtering_data();
    tasks.push(record(4, "Gone", &["urgent"], Some("work"), TaskStatus::Deleted, Some(40)));
    let all = TaskFilter { tag: None, project: None };
    assert_eq!(uuids(&list_tasks(&tasks, &all)), vec![1, 2, 3]);
}

#[test]
fn list_tasks_shows_task_fields() {
    let mut t = record(7, "Buy milk", &["shopping"], Some("home"), TaskStatus::Completed, Some(5));
    t.priority = "H".to_string();
    t.due = Some(100);
    let shown = list_tasks(&vec![t], &TaskFilter { tag: None, project: None });
    assert_eq!(shown.len(), 1);
    let r = &shown[0];
    assert_eq!(r.uuid, 7);
    assert_eq!(r.description, "Buy milk");
    assert_eq!(r.status, "completed");
    assert_eq!(r.tags, vec!["shopping".to_string()]);
    assert_eq!(r.priority, Some("H".to_string()));
    assert_eq!(r.due, Some(100));
    assert_eq!(r.project, Some("home".to_string()));
    assert_eq!(r.entry, Some(5));
}

#[test]
fn unknown_status_is_shown_as_lowercased_debug_form() {
    let t = record(8, "x", &[], None, TaskStatus::Unknown("Wishful".to_string()), None);
    let shown = get_task(Some(t)).unwrap();
    assert_eq!(shown.status, "unknown(\"wishful\")");
    assert_eq!(shown.priority, None);
}

#[test]
fn get_task_of_deleted_or_absent_is_not_found() {
    let gone = record(9, "x", &[], None, TaskStatus::Deleted, None);
    assert_eq!(get_task(Some(gone)).unwrap_err(), ApiError::NotFound);
    assert_eq!(get_task(None).unwrap_err(), ApiError::NotFound);
    assert_eq!(ApiError::NotFound.status_code(), 404);
}

#[test]
fn create_task_plan_fills_new_task() {
    let payload = CreateTaskRequest {
        description: "Buy milk".to_string(),
        tags: Some(vec!["shopping".to_string()]),
        priority: Some("high".to_string()),
        due: Some(1_800_000_000),
        project: Some("ignored".to_string()),
    };
    let plan = create_task(&fresh_task(), payload).unwrap();
    assert_eq!(plan.success_status, 201);
    let e = &plan.edits;
    assert_eq!(e.len(), 5);
    assert!(matches!(e[0], TaskEdit::SetStatus(TaskStatus::Pending)));
    assert!(matches!(&e[1], TaskEdit::SetDescription(d) if d == "Buy milk"));
    assert!(matches!(&e[2], TaskEdit::AddTag(t) if t == "shopping"));
    assert!(matches!(&e[3], TaskEdit::SetPriority(p) if p == "H"));
    assert!(matches!(e[4], TaskEdit::SetDue(1_800_000_000)));
}

#[test]
fn create_task_rejects_synthetic_or_invalid_tags_and_priorities() {
    let with_tags = |tags: Vec<&str>| CreateTaskRequest {
        description: "x".to_string(),
        tags: Some(tags.into_iter().map(String::from).collect()),
        priority: None,
        due: None,
        project: None,
    };
    assert_eq!(create_task(&fresh_task(), with_tags(vec!["PENDING"])).unwrap_err(), ApiError::BadRequest);
    assert_eq!(create_task(&fresh_task(), with_tags(vec!["a:b"])).unwrap_err(), ApiError::BadRequest);
    assert_eq!(create_task(&fresh_task(), with_tags(vec!["ok", "+bad"])).unwrap_err(), ApiError::BadRequest);
    let bad_priority = CreateTaskRequest {
        description: "x".to_string(),
        tags: None,
        priority: Some("urgent".to_string()),
        due: None,
        project: None,
    };
    assert_eq!(create_task(&fresh_task(), bad_priority).unwrap_err(), ApiError::BadRequest);
    assert_eq!(ApiError::BadRequest.status_code(), 400);
}

#[test]
fn update_task_replaces_user_tags_only() {
    let t = record(5, "old", &["home", "PENDING", "UNBLOCKED"], Some("p"), TaskStatus::Pending, Some(1));
    let payload = UpdateTaskRequest {
        description: Some("new".to_string()),
        priority: None,
        status: Some("Completed".to_string()),
        tags: Some(vec!["work".to_string()]),
        due: None,
        project: Some(String::new()),
    };
    let plan = update_task(Some(t), payload).unwrap();
    assert_eq!(plan.success_status, 200);
    let e = &plan.edits;
    assert_eq!(e.len(), 5);
    assert!(matches!(&e[0], TaskEdit::SetDescription(d) if d == "new"));
    assert!(matches!(e[1], TaskEdit::SetStatus(TaskStatus::Completed)));
    assert!(matches!(&e[2], TaskEdit::RemoveTag(x) if x == "home"));
    assert!(matches!(&e[3], TaskEdit::AddTag(x) if x == "work"));
    assert!(matches!(e[4], TaskEdit::SetProject(None)));
}

#[test]
fn update_task_with_bad_status_is_bad_request() {
    let t = record(5, "old", &[], None, TaskStatus::Pending, None);
    let payload = UpdateTaskRequest {
        description: None,
        priority: None,
        status: Some("done".to_string()),
        tags: None,
        due: None,
        project: None,
    };
    assert_eq!(update_task(Some(t), payload).unwrap_err(), ApiError::BadRequest);
}

#[test]
fn update_task_sets_project_and_priority() {
    let t = record(5, "old", &[], None, TaskStatus::Pending, None);
    let payload = UpdateTaskRequest {
        description: None,
        priority: Some("none".to_string()),
        status: None,
        tags: None,
        due: Some(42),
        project: Some("garden".to_string()),
    };
    let plan = update_task(Some(t), payload).unwrap();
    let e = &plan.edits;
    assert_eq!(e.len(), 3);
    assert!(matches!(&e[0], TaskEdit::SetPriority(p) if p.is_empty()));
    assert!(matches!(e[1], TaskEdit::SetDue(42)));
    assert!(matches!(&e[2], TaskEdit::SetProject(Some(p)) if p == "garden"));
}

#[test]
fn delete_task_marks_deleted_with_no_content() {
    let t = record(5, "old", &[], None, TaskStatus::Pending, None);
    let plan = delete_task(Some(t)).unwrap();
    assert_eq!(plan.success_status, 204);
    assert_eq!(plan.edits.len(), 1);
    assert!(matches!(plan.edits[0], TaskEdit::SetStatus(TaskStatus::Deleted)));
}

fn no_change() -> UpdateTaskRequest {
    UpdateTaskRequest { description: None, priority: None, status: None, tags: None, due: None, project: None }
}

#[test]
fn update_of_absent_or_deleted_task_is_not_found() {
    let gone = record(5, "old", &[], None, TaskStatus::Deleted, None);
    assert_eq!(update_task(Some(gone), no_change()).unwrap_err(), ApiError::NotFound);
    assert_eq!(update_task(None, no_change()).unwrap_err(), ApiError::NotFound);
    // Not found comes before the check of the request.
    let gone = record(5, "old", &[], None, TaskStatus::Deleted, None);
    let bad = UpdateTaskRequest { status: Some("done".to_string()), ..no_change() };
    assert_eq!(update_task(Some(gone), bad).unwrap_err(), ApiError::NotFound);
}

#[test]
fn update_that_deletes_answers_not_found() {
    let t = record(5, "old", &[], None, TaskStatus::Pending, None);
    let deleting = UpdateTaskRequest { status: Some("DELETED".to_string()), ..no_change() };
    let plan = update_task(Some(t), deleting).unwrap();
    assert_eq!(plan.success_status, 404);
    assert!(matches!(plan.edits[0], TaskEdit::SetStatus(TaskStatus::Deleted)));
    let t = record(6, "old", &[], None, TaskStatus::Completed, None);
    let reopening = UpdateTaskRequest { status: Some("pending".to_string()), ..no_change() };
    assert_eq!(update_task(Some(t), reopening).unwrap().success_status, 200);
}

#[test]
fn delete_of_absent_or_deleted_task_is_not_found() {
    let gone = record(5, "old", &[], None, TaskStatus::Deleted, None);
    assert_eq!(delete_task(Some(gone)).unwrap_err(), ApiError::NotFound);
    assert_eq!(delete_task(None).unwrap_err(), ApiError::NotFound);
}
