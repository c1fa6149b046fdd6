// Parsing, text order, sorting, synchronisation answers.
use tc_middleware::handlers::helpers::{apply_tags, get_task_from_replica, map_priority, map_status, status_from_lower};
use tc_middleware::handlers::system::{next_write_action, sync_failure_message, trigger_sync, WriteAction, WriteEvent};
use tc_middleware::handlers::{ApiError, Priority, TaskEdit};
use tc_middleware::models::{TaskRecord, TaskStatus};
use tc_middleware::order::{not_older, sort_newest_first};
use tc_middleware::tag::{tag_kind, TagKind};
use tc_middleware::text::{text_eq, text_less};

fn task(uuid: u128, tags: &[&str], entry: Option<i64>) -> TaskRecord {
    TaskRecord {
        uuid,
        description: String::new(),
        status: TaskStatus::Pending,
        entry,
        modified: None,
        tags: tags.iter().map(|t| t.to_string()).collect(),
        priority: String::new(),
        due: None,
        project: None,
    }
}

#[test]
fn priority_names_in_any_case() {
    assert_eq!(Priority::try_from("h"), Ok(Priority::High));
    assert_eq!(Priority::try_from("High"), Ok(Priority::High));
    assert_eq!(Priority::try_from("medium"), Ok(Priority::Medium));
    assert_eq!(Priority::try_from("L"), Ok(Priority::Low));
    assert_eq!(Priority::try_from(""), Ok(Priority::Unset));
    assert_eq!(Priority::try_from("none"), Ok(Priority::Unset));
    assert_eq!(Priority::try_from("urgent"), Err(()));
    // Unicode uppercasing: the dotless i uppercases to I.
    assert_eq!(Priority::try_from("h\u{131}gh"), Ok(Priority::High));
    assert_eq!(map_priority("x"), Err(ApiError::BadRequest));
}

#[test]
fn priority_labels_round_trip() {
    for p in [Priority::High, Priority::Medium, Priority::Low, Priority::Unset] {
        assert_eq!(Priority::try_from(p.label().as_str()), Ok(p));
        assert_eq!(String::from(p), p.label());
    }
    assert_eq!(String::from(Priority::Medium), "M");
    assert_eq!(Priority::from_upper("LOW"), Some(Priority::Low));
    assert_eq!(Priority::from_upper("low"), None);
}

#[test]
fn status_names_in_any_case() {
    assert!(matches!(map_status("pending"), Ok(TaskStatus::Pending)));
    assert!(matches!(map_status("COMPLETED"), Ok(TaskStatus::Completed)));
    assert!(matches!(map_status("Deleted"), Ok(TaskStatus::Deleted)));
    assert!(matches!(map_status("recurring"), Err(ApiError::BadRequest)));
    assert!(matches!(status_from_lower("Pending"), None));
    for s in [TaskStatus::Pending, TaskStatus::Completed, TaskStatus::Deleted] {
        let label = s.label();
        assert_eq!(map_status(&label).map(|x| x.label()), Ok(label.clone()));
    }
}

#[test]
fn tag_kinds_follow_taskchampion() {
    assert_eq!(tag_kind("urgent"), TagKind::User);
    assert_eq!(tag_kind(":abc"), TagKind::User);
    assert_eq!(tag_kind("a123_456"), TagKind::User);
    assert_eq!(tag_kind("WAITING"), TagKind::Synthetic);
    assert_eq!(tag_kind("UNBLOCKED"), TagKind::Synthetic);
    assert_eq!(tag_kind(""), TagKind::Invalid);
    assert_eq!(tag_kind("a:b"), TagKind::Invalid);
    assert_eq!(tag_kind("999"), TagKind::Invalid);
    assert_eq!(tag_kind("-x"), TagKind::Invalid);
    assert_eq!(tag_kind("abc foo"), TagKind::Invalid);
    assert_eq!(tag_kind("NOSUCH"), TagKind::Invalid);
    assert_eq!(tag_kind("Work"), TagKind::User);
    assert_eq!(tag_kind("caf\u{e9}"), TagKind::User);
    assert_eq!(tag_kind("a\u{a0}b"), TagKind::Invalid);
    assert_eq!(tag_kind("\u{3000}x"), TagKind::Invalid);
    assert_eq!(tag_kind("x\u{2028}"), TagKind::Invalid);
    assert_eq!(tag_kind("a\u{200b}b"), TagKind::User);
}

#[test]
fn apply_tags_removes_user_tags_and_adds_new_ones() {
    let t = task(1, &["a", "PENDING", "b"], None);
    let mut ops = Vec::new();
    apply_tags(&t, vec!["c".to_string()], &mut ops).unwrap();
    assert_eq!(ops.len(), 3);
    assert!(matches!(&ops[0], TaskEdit::RemoveTag(x) if x == "a"));
    assert!(matches!(&ops[1], TaskEdit::RemoveTag(x) if x == "b"));
    assert!(matches!(&ops[2], TaskEdit::AddTag(x) if x == "c"));
    let mut bad = Vec::new();
    assert_eq!(apply_tags(&t, vec!["ok".to_string(), "BLOCKED".to_string()], &mut bad), Err(ApiError::BadRequest));
}

#[test]
fn get_task_from_replica_hides_deleted() {
    let mut t = task(3, &[], None);
    assert!(get_task_from_replica(Some(task(3, &[], None))).is_ok());
    t.status = TaskStatus::Deleted;
    assert_eq!(get_task_from_replica(Some(t)).unwrap_err(), ApiError::NotFound);
    assert_eq!(get_task_from_replica(None).unwrap_err(), ApiError::NotFound);
    assert_eq!(ApiError::Internal.status_code(), 500);
}

#[test]
fn text_order_and_equality() {
    assert!(text_less("abc", "abd"));
    assert!(text_less("ab", "abc"));
    assert!(!text_less("abc", "abc"));
    assert!(text_less("Z", "a"));
    assert!(text_less("z", "\u{e9}"));
    assert!(text_eq("caf\u{e9}", "caf\u{e9}"));
    assert!(!text_eq("cafe", "caf\u{e9}"));
}

#[test]
fn case_conversions_reach_the_parsers() {
    // German sharp s uppercases to two letters; Kelvin sign lowercases to k.
    assert_eq!(Priority::try_from("me\u{df}ium"), Err(()));
    assert!(matches!(map_status("\u{212a}"), Err(ApiError::BadRequest)));
    assert!(matches!(map_status("DELETED"), Ok(TaskStatus::Deleted)));
}

#[test]
fn newest_first_is_stable() {
    let v = vec![task(1, &[], Some(5)), task(2, &[], None), task(3, &[], Some(7)), task(4, &[], Some(5)), task(5, &[], None)];
    let sorted: Vec<u128> = sort_newest_first(&v).iter().map(|t| t.uuid).collect();
    assert_eq!(sorted, vec![3, 1, 4, 2, 5]);
    let again: Vec<u128> = sort_newest_first(&sort_newest_first(&v)).iter().map(|t| t.uuid).collect();
    assert_eq!(again, sorted);
    assert!(not_older(Some(1), None));
    assert!(!not_older(None, Some(i64::MIN)));
    assert!(not_older(None, None));
}

#[test]
fn sync_answers() {
    let (code, ok) = trigger_sync(Ok(()), "2024-01-01T00:00:00+00:00".to_string());
    assert_eq!(code, 200);
    assert!(ok.success);
    assert_eq!(ok.message, "Sync completed successfully");
    let (code, failed) = trigger_sync(Err(sync_failure_message("offline")), "t".to_string());
    assert_eq!(code, 500);
    assert!(!failed.success);
    assert_eq!(failed.message, "Sync failed: offline");
    assert_eq!(failed.synced_at, "t");
}

#[test]
fn write_steps() {
    assert_eq!(next_write_action(WriteEvent::Committed, true, 201), WriteAction::Sync);
    assert_eq!(next_write_action(WriteEvent::Committed, false, 201), WriteAction::Answer(201));
    assert_eq!(next_write_action(WriteEvent::SyncFailed, true, 204), WriteAction::Answer(204));
    assert_eq!(next_write_action(WriteEvent::CommitFailed, true, 200), WriteAction::Fail(ApiError::Internal));
}
