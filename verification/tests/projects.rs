// Scenarios of the project handlers.
use tc_middleware::handlers::projects::{
    create_project_task, get_project_details, get_project_stats, get_project_tasks, list_projects,
};
use tc_middleware::handlers::{ApiError, TaskEdit};
use tc_middleware::models::{CreateTaskRequest, TaskRecord, TaskStatus};

fn task(uuid: u128, description: &str, project: Option<&str>, status: TaskStatus, entry: Option<i64>) -> TaskRecord {
    TaskRecord {
        uuid,
        description: description.to_string(),
        status,
        entry,
        modified: None,
        tags: vec![],
        priority: String::new(),
        due: None,
        project: project.map(|p| p.to_string()),
    }
}

#[test]
fn test_list_projects_empty() {
    assert!(list_projects(&vec![]).is_empty());
}

#[test]
fn test_list_projects_with_data() {
    let tasks = vec![
        task(1, "Task 1", Some("work"), TaskStatus::Pending, None),
        task(2, "Task 2", Some("home"), TaskStatus::Pending, None),
    ];
    assert_eq!(list_projects(&tasks), vec!["home".to_string(), "work".to_string()]);
}

#[test]
fn list_projects_is_sorted_unique_and_counts_deleted_tasks() {
    let tasks = vec![
        task(1, "a", Some("zeta"), TaskStatus::Pending, None),
        task(2, "b", Some("Alpha"), TaskStatus::Deleted, None),
        task(3, "c", Some("zeta"), TaskStatus::Completed, None),
        task(4, "d", None, TaskStatus::Pending, None),
        task(5, "e", Some("alpha"), TaskStatus::Pending, None),
        task(6, "f", Some("alph"), TaskStatus::Pending, None),
    ];
    let expected: Vec<String> = ["Alpha", "alph", "alpha", "zeta"].iter().map(|s| s.to_string()).collect();
    assert_eq!(list_projects(&tasks), expected);
    let mut reversed = tasks;
    reversed.reverse();
    assert_eq!(list_projects(&reversed), expected);
}

#[test]
fn test_get_project_stats() {
    let tasks = vec![
        task(1, "Task 1", Some("work"), TaskStatus::Pending, None),
        task(2, "Task 2", Some("work"), TaskStatus::Completed, None),
    ];
    let stats = get_project_stats(&tasks, "work".to_string()).unwrap();
    assert_eq!(stats.name, "work");
    assert_eq!(stats.task_count, 2);
    assert_eq!(stats.pending_count, 1);
    assert_eq!(stats.completed_count, 1);
    assert_eq!(stats.deleted_count, 0);
}

#[test]
fn project_stats_of_unknown_project_is_not_found() {
    let tasks = vec![task(1, "Task 1", Some("work"), TaskStatus::Pending, None)];
    assert_eq!(get_project_stats(&tasks, "play".to_string()).unwrap_err(), ApiError::NotFound);
}

#[test]
fn project_stats_count_recurring_in_total_only() {
    let tasks = vec![
        task(1, "a", Some("work"), TaskStatus::Recurring, None),
        task(2, "b", Some("work"), TaskStatus::Deleted, None),
    ];
    let stats = get_project_stats(&tasks, "work".to_string()).unwrap();
    assert_eq!((stats.task_count, stats.pending_count, stats.completed_count, stats.deleted_count), (2, 0, 0, 1));
}

#[test]
fn test_get_project_tasks() {
    let tasks = vec![
        task(1, "Task 1", Some("work"), TaskStatus::Pending, None),
        task(2, "Task 2", Some("home"), TaskStatus::Pending, None),
    ];
    let shown = get_project_tasks(&tasks, "work");
    assert_eq!(shown.len(), 1);
    assert_eq!(shown[0].description, "Task 1");
}

#[test]
fn project_tasks_are_newest_first_with_ties_in_order() {
    let tasks = vec![
        task(1, "a", Some("w"), TaskStatus::Pending, Some(10)),
        task(2, "b", Some("w"), TaskStatus::Deleted, None),
        task(3, "c", Some("w"), TaskStatus::Pending, Some(30)),
        task(4, "d", Some("w"), TaskStatus::Completed, Some(10)),
        task(5, "e", Some("w"), TaskStatus::Pending, Some(20)),
    ];
    let shown: Vec<u128> = get_project_tasks(&tasks, "w").iter().map(|r| r.uuid).collect();
    assert_eq!(shown, vec![3, 5, 1, 4, 2]);
}

#[test]
fn project_details_preview_holds_first_ten_pending_newest_first() {
    let mut tasks = Vec::new();
    for i in 0..12u128 {
        tasks.push(task(i, "t", Some("w"), TaskStatus::Pending, Some(i as i64)));
    }
    tasks.push(task(100, "done", Some("w"), TaskStatus::Completed, Some(1000)));
    let d = get_project_details(&tasks, "w".to_string()).unwrap();
    assert_eq!(d.task_count, 13);
    assert_eq!(d.pending_count, 12);
    assert_eq!(d.completed_count, 1);
    let preview: Vec<u128> = d.tasks_preview.iter().map(|r| r.uuid).collect();
    assert_eq!(preview, vec![9, 8, 7, 6, 5, 4, 3, 2, 1, 0]);
    assert_eq!(get_project_details(&tasks, "x".to_string()).unwrap_err(), ApiError::NotFound);
}

#[test]
fn create_project_task_sets_project_last() {
    let new_task = task(9, "", None, TaskStatus::Pending, Some(1));
    let payload = CreateTaskRequest {
        description: "Plan trip".to_string(),
        tags: None,
        priority: None,
        due: None,
        project: None,
    };
    let plan = create_project_task(&new_task, "travel".to_string(), payload).unwrap();
    assert_eq!(plan.success_status, 201);
    assert_eq!(plan.edits.len(), 3);
    assert!(matches!(&plan.edits[2], TaskEdit::SetProject(Some(p)) if p == "travel"));
}

#[test]
fn created_project_task_is_listed_exactly_once() {
    let new_task = task(9, "", None, TaskStatus::Pending, Some(5));
    let payload = CreateTaskRequest {
        description: "Plan trip".to_string(),
        tags: None,
        priority: None,
        due: None,
        project: None,
    };
    let plan = create_project_task(&new_task, "travel".to_string(), payload).unwrap();
    assert_eq!(plan.success_status, 201);
    let mut committed = new_task;
    for edit in &plan.edits {
        match edit {
            TaskEdit::SetDescription(d) => committed.description = d.clone(),
            TaskEdit::SetProject(p) => committed.project = p.clone(),
            TaskEdit::SetStatus(s) => committed.status = s.duplicate(),
            _ => {}
        }
    }
    let store = vec![
        task(1, "older", Some("travel"), TaskStatus::Pending, Some(1)),
        task(2, "elsewhere", Some("home"), TaskStatus::Pending, Some(7)),
        committed,
        task(3, "newer", Some("travel"), TaskStatus::Completed, Some(8)),
    ];
    let shown = get_project_tasks(&store, "travel");
    let uuids: Vec<u128> = shown.iter().map(|r| r.uuid).collect();
    assert_eq!(uuids, vec![3, 9, 1]);
    let created: Vec<_> = shown.iter().filter(|r| r.uuid == 9).collect();
    assert_eq!(created.len(), 1);
    assert_eq!(created[0].project.as_deref(), Some("travel"));
    assert_eq!(created[0].description, "Plan trip");
    assert!(list_projects(&store).iter().any(|p| p == "travel"));
}
