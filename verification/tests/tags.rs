// Scenarios of the tag handlers.
use tc_middleware::handlers::tags::{
    create_task_with_tag, get_tag_details, get_tag_stats, get_tag_tasks, list_tags,
};
use tc_middleware::handlers::{ApiError, TaskEdit};
use tc_middleware::models::{CreateTaskRequest, TaskRecord, TaskStatus};

fn task(uuid: u128, tags: &[&str], status: TaskStatus, entry: Option<i64>) -> TaskRecord {
    TaskRecord {
        uuid,
        description: format!("task {}", uuid),
        status,
        entry,
        modified: None,
        tags: tags.iter().map(|t| t.to_string()).collect(),
        priority: String::new(),
        due: None,
        project: None,
    }
}

#[test]
fn test_list_tags_empty() {
    assert!(list_tags(&vec![]).is_empty());
}

#[test]
fn list_tags_skips_deleted_tasks_and_keeps_synthetic_tags() {
    let tasks = vec![
        task(1, &["work", "PENDING"], TaskStatus::Pending, None),
        task(2, &["old", "DELETED"], TaskStatus::Deleted, None),
        task(3, &["home", "work", "COMPLETED"], TaskStatus::Completed, None),
    ];
    let expected: Vec<String> = ["COMPLETED", "PENDING", "home", "work"].iter().map(|s| s.to_string()).collect();
    assert_eq!(list_tags(&tasks), expected);
}

#[test]
fn test_tag_stats_not_found() {
    assert_eq!(get_tag_stats(&vec![], "nonexistent".to_string()).unwrap_err(), ApiError::NotFound);
}

#[test]
fn tag_stats_of_invalid_tag_is_bad_request() {
    let tasks = vec![task(1, &["work"], TaskStatus::Pending, None)];
    assert_eq!(get_tag_stats(&tasks, "a b".to_string()).unwrap_err(), ApiError::BadRequest);
    assert_eq!(get_tag_stats(&tasks, "NOSUCH".to_string()).unwrap_err(), ApiError::BadRequest);
}

#[test]
fn tag_stats_count_every_status() {
    let tasks = vec![
        task(1, &["work"], TaskStatus::Pending, None),
        task(2, &["work"], TaskStatus::Deleted, None),
        task(3, &["work"], TaskStatus::Completed, None),
        task(4, &["home"], TaskStatus::Pending, None),
    ];
    let s = get_tag_stats(&tasks, "work".to_string()).unwrap();
    assert_eq!((s.task_count, s.pending_count, s.completed_count, s.deleted_count), (3, 1, 1, 1));
    let p = get_tag_stats(&tasks, "PENDING".to_string()).unwrap_err();
    assert_eq!(p, ApiError::NotFound);
}

#[test]
fn tag_details_preview_skips_deleted_and_keeps_five_newest() {
    let mut tasks = Vec::new();
    for i in 0..7u128 {
        tasks.push(task(i, &["w"], TaskStatus::Pending, Some(i as i64)));
    }
    tasks.push(task(50, &["w"], TaskStatus::Deleted, Some(100)));
    let d = get_tag_details(&tasks, "w".to_string()).unwrap();
    assert_eq!(d.task_count, 8);
    assert_eq!(d.deleted_count, 1);
    let preview: Vec<u128> = d.tasks_preview.iter().map(|r| r.uuid).collect();
    assert_eq!(preview, vec![6, 5, 4, 3, 2]);
}

#[test]
fn tag_tasks_are_visible_newest_first() {
    let tasks = vec![
        task(1, &["w"], TaskStatus::Pending, Some(1)),
        task(2, &["w"], TaskStatus::Deleted, Some(5)),
        task(3, &["w"], TaskStatus::Completed, Some(3)),
        task(4, &["x"], TaskStatus::Pending, Some(9)),
    ];
    let shown: Vec<u128> = get_tag_tasks(&tasks, "w").unwrap().iter().map(|r| r.uuid).collect();
    assert_eq!(shown, vec![3, 1]);
    assert_eq!(get_tag_tasks(&tasks, "y").unwrap_err(), ApiError::NotFound);
    assert_eq!(get_tag_tasks(&tasks, "9lives").unwrap_err(), ApiError::BadRequest);
}

#[test]
fn test_create_task_with_tag() {
    let new_task = task(9, &["PENDING"], TaskStatus::Pending, Some(1));
    let payload = CreateTaskRequest {
        description: "Test task".to_string(),
        tags: None,
        priority: None,
        due: None,
        project: None,
    };
    let plan = create_task_with_tag(&new_task, "urgent".to_string(), payload).unwrap();
    assert_eq!(plan.success_status, 200);
    assert!(plan.edits.iter().any(|e| matches!(e, TaskEdit::AddTag(t) if t == "urgent")));
}

#[test]
fn create_task_with_tag_does_not_repeat_the_tag() {
    let new_task = task(9, &[], TaskStatus::Pending, Some(1));
    let payload = CreateTaskRequest {
        description: "x".to_string(),
        tags: Some(vec!["urgent".to_string(), "home".to_string()]),
        priority: None,
        due: None,
        project: None,
    };
    let plan = create_task_with_tag(&new_task, "urgent".to_string(), payload).unwrap();
    let added: Vec<String> = plan
        .edits
        .iter()
        .filter_map(|e| match e {
            TaskEdit::AddTag(t) => Some(t.clone()),
            _ => None,
        })
        .collect();
    assert_eq!(added, vec!["urgent".to_string(), "home".to_string()]);
}

#[test]
fn create_task_with_invalid_or_synthetic_tag_is_bad_request() {
    let payload = || CreateTaskRequest {
        description: "x".to_string(),
        tags: None,
        priority: None,
        due: None,
        project: None,
    };
    let new_task = task(9, &[], TaskStatus::Pending, Some(1));
    assert_eq!(create_task_with_tag(&new_task, "-x".to_string(), payload()).unwrap_err(), ApiError::BadRequest);
    assert_eq!(create_task_with_tag(&new_task, "PENDING".to_string(), payload()).unwrap_err(), ApiError::BadRequest);
}
