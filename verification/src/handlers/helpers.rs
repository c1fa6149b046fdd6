//! Decisions that several handlers share.
use vstd::prelude::*;

use crate::handlers::{
    ApiError, EditView, Priority, TaskEdit, TaskState, additions, apply_edit, apply_edits, edit_views,
    is_user_tag, lemma_apply_edits_append, lemma_retag_replaces, parsed_priority, priority_label,
    removals, retag_edits, state_of, user_tag_pred, user_tags_of,
};
use crate::models::{CreateTaskRequest, CreateView, RecordView, TaskRecord, TaskStatus, opt_text, opt_texts};
use crate::order::lemma_filter_push;
use crate::tag::{TagKind, tag_kind};
use crate::text::{ascii_lowercase, spec_to_lowercase, text_eq, texts, to_lowercase};
use crate::models::status_label;
use vstd::utf8::is_ascii_chars;

verus! {

broadcast use vstd::seq_lib::group_seq_properties;

/// The stored task as the handlers see it: a deleted task counts as absent.
pub fn get_task_from_replica(found: Option<TaskRecord>) -> (r: Result<TaskRecord, ApiError>)
    ensures
        match found {
            Some(t) => if t.status is Deleted {
                r == Err::<TaskRecord, ApiError>(ApiError::NotFound)
            } else {
                r == Ok::<TaskRecord, ApiError>(t)
            },
            None => r == Err::<TaskRecord, ApiError>(ApiError::NotFound),
        },
{
    match found {
        Some(task) => {
            if task.status.is_deleted() {
                Err(ApiError::NotFound)
            } else {
                Ok(task)
            }
        },
        None => Err(ApiError::NotFound),
    }
}

/// The status that a lowercased name denotes; only the three statuses a
/// request may set have names.
pub open spec fn status_from_lowercase(l: Seq<char>) -> Option<TaskStatus> {
    if l == "pending"@ {
        Some(TaskStatus::Pending)
    } else if l == "completed"@ {
        Some(TaskStatus::Completed)
    } else if l == "deleted"@ {
        Some(TaskStatus::Deleted)
    } else {
        None
    }
}

/// The status that a name denotes, in any case.
pub open spec fn parsed_status(s: Seq<char>) -> Option<TaskStatus> {
    status_from_lowercase(spec_to_lowercase(s))
}

/// Law: the label of a status that a request may set, lowercased as ASCII
/// text is, names that status again; with the contract of `to_lowercase` on
/// ASCII text, `map_status` of the label gives back the status.
pub proof fn lemma_status_label_round_trip(s: TaskStatus)
    requires
        s is Pending || s is Completed || s is Deleted,
    ensures
        is_ascii_chars(status_label(s)),
        status_from_lowercase(ascii_lowercase(status_label(s))) == Some(s),
{
    reveal_strlit("pending");
    reveal_strlit("completed");
    reveal_strlit("deleted");
    let l = status_label(s);
    assert(ascii_lowercase(l) =~= l);
    if s is Completed {
        assert(l[0] != "pending"@[0]);
    }
    if s is Deleted {
        assert(l[0] != "pending"@[0]);
        assert(l[0] != "completed"@[0]);
    }
}

/// The status that a lowercased name denotes.
pub fn status_from_lower(lower: &str) -> (r: Option<TaskStatus>)
    ensures
        r == status_from_lowercase(lower@),
{
    if text_eq(lower, "pending") {
        Some(TaskStatus::Pending)
    } else if text_eq(lower, "completed") {
        Some(TaskStatus::Completed)
    } else if text_eq(lower, "deleted") {
        Some(TaskStatus::Deleted)
    } else {
        None
    }
}

/// The status that a request names: `pending`, `completed` or `deleted`, in
/// any case; any other name is a bad request.
pub fn map_status(status_str: &str) -> (r: Result<TaskStatus, ApiError>)
    ensures
        r == (match parsed_status(status_str@) {
            Some(s) => Ok::<TaskStatus, ApiError>(s),
            None => Err(ApiError::BadRequest),
        }),
{
    let lower = to_lowercase(status_str);
    match status_from_lower(lower.as_str()) {
        Some(s) => Ok(s),
        None => Err(ApiError::BadRequest),
    }
}

/// The priority that a request names (see `Priority::try_from`); any other
/// name is a bad request.
pub fn map_priority(priority_str: &str) -> (r: Result<Priority, ApiError>)
    ensures
        r == (match parsed_priority(priority_str@) {
            Some(p) => Ok::<Priority, ApiError>(p),
            None => Err(ApiError::BadRequest),
        }),
{
    match Priority::try_from(priority_str) {
        Ok(p) => Ok(p),
        Err(_) => Err(ApiError::BadRequest),
    }
}

/// Every one of the texts is a user tag.
pub open spec fn all_user_tags(ts: Seq<Seq<char>>) -> bool {
    forall|i: int| 0 <= i < ts.len() ==> is_user_tag(#[trigger] ts[i])
}

/// The edits that give `task` the user tags `tags`, in place of its own
/// (`None` when one of them is not a user tag).
pub open spec fn tags_part(task: RecordView, tags: Option<Seq<Seq<char>>>) -> Option<Seq<EditView>> {
    match tags {
        None => Some(Seq::<EditView>::empty()),
        Some(ts) => if all_user_tags(ts) {
            Some(retag_edits(task.tags, ts))
        } else {
            None
        },
    }
}

/// Law: giving a task the same tags a second time is accepted again and
/// leaves its user tags as the first time left them: the requested tags.
pub proof fn lemma_retag_twice(t: RecordView, ws: Seq<Seq<char>>, stored: RecordView)
    requires
        tags_part(t, Some(ws)) is Some,
        state_of(stored) == apply_edits(state_of(t), retag_edits(t.tags, ws)),
    ensures
        tags_part(stored, Some(ws)) is Some,
        state_of(stored).user_tags == ws.to_set(),
        apply_edits(state_of(stored), retag_edits(stored.tags, ws)) == state_of(stored),
{
    lemma_retag_replaces(t, ws, state_of(t));
    lemma_retag_replaces(stored, ws, state_of(stored));
}

/// The edit that sets the priority a request names (`None` when the name is invalid).
pub open spec fn priority_part(p: Option<Seq<char>>) -> Option<Seq<EditView>> {
    match p {
        None => Some(Seq::<EditView>::empty()),
        Some(s) => match parsed_priority(s) {
            Some(q) => Some(seq![EditView::SetPriority(priority_label(q))]),
            None => None,
        },
    }
}

/// The edit that sets a due time, if one is given.
pub open spec fn due_part(d: Option<i64>) -> Seq<EditView> {
    match d {
        Some(t) => seq![EditView::SetDue(t)],
        None => Seq::<EditView>::empty(),
    }
}

/// Replaces the user tags of `task` by `tags`: removes each of its user tags,
/// then adds each of `tags`.  A tag that is not a user tag (invalid, or
/// synthetic) makes the request bad.
pub fn apply_tags(task: &TaskRecord, tags: Vec<String>, ops: &mut Vec<TaskEdit>) -> (r: Result<
    (),
    ApiError,
>)
    ensures
        r is Ok <==> all_user_tags(texts(tags@)),
        r matches Err(e) ==> e == ApiError::BadRequest,
        r is Ok ==> edit_views(final(ops)@) == edit_views(old(ops)@) + retag_edits(
            task@.tags,
            texts(tags@),
        ),
{
    let ghost start = edit_views(ops@);
    let ghost current = task@.tags;
    let n = task.tags.len();
    let mut i: usize = 0;
    assert(current.take(0) =~= Seq::<Seq<char>>::empty());
    assert(user_tags_of(Seq::<Seq<char>>::empty()) =~= Seq::<Seq<char>>::empty()) by {
        reveal(Seq::filter);
    }
    assert(start + removals(user_tags_of(current.take(0))) =~= start);
    while i < n
        invariant
            n == task.tags.len(),
            current == task@.tags,
            i <= n,
            edit_views(ops@) == start + removals(user_tags_of(current.take(i as int))),
        decreases n - i,
    {
        let t = &task.tags[i];
        let ghost before = current.take(i as int);
        proof {
            assert(current.take(i + 1) =~= before.push(current[i as int]));
            lemma_filter_push(before, user_tag_pred(), current[i as int]);
        }
        if tag_kind(t.as_str()) == TagKind::User {
            let ghost prev = ops@;
            ops.push(TaskEdit::RemoveTag(t.clone()));
            proof {
                assert(edit_views(ops@) =~= edit_views(prev).push(EditView::RemoveTag(t@)));
                let u = user_tags_of(before);
                assert(removals(u.push(t@)) =~= removals(u).push(EditView::RemoveTag(t@)));
            }
        }
        i = i + 1;
    }
    assert(current.take(n as int) =~= current);
    let ghost removed = edit_views(ops@);
    let ghost wanted = texts(tags@);
    let m = tags.len();
    let mut j: usize = 0;
    assert(additions(wanted.take(0)) =~= Seq::<EditView>::empty());
    assert(removed + additions(wanted.take(0)) =~= removed);
    while j < m
        invariant
            m == tags.len(),
            wanted == texts(tags@),
            j <= m,
            edit_views(ops@) == removed + additions(wanted.take(j as int)),
            all_user_tags(wanted.take(j as int)),
        decreases m - j,
    {
        let t = &tags[j];
        if tag_kind(t.as_str()) != TagKind::User {
            assert(!all_user_tags(wanted)) by {
                assert(wanted[j as int] == t@);
            }
            return Err(ApiError::BadRequest);
        }
        let ghost prev = ops@;
        ops.push(TaskEdit::AddTag(t.clone()));
        proof {
            assert(edit_views(ops@) =~= edit_views(prev).push(EditView::AddTag(t@)));
            assert(wanted.take(j + 1) =~= wanted.take(j as int).push(t@));
            assert(additions(wanted.take(j + 1)) =~= additions(wanted.take(j as int)).push(
                EditView::AddTag(t@),
            ));
            assert forall|k: int| 0 <= k < j + 1 implies is_user_tag(
                #[trigger] wanted.take(j + 1)[k],
            ) by {
                if k < j {
                    assert(wanted.take(j + 1)[k] == wanted.take(j as int)[k]);
                }
            }
        }
        j = j + 1;
    }
    assert(wanted.take(m as int) =~= wanted);
    assert(edit_views(ops@) =~= start + retag_edits(current, wanted));
    Ok(())
}

/// The edit that sets the status a request names (`None` when the name is invalid).
pub open spec fn status_part(s: Option<Seq<char>>) -> Option<Seq<EditView>> {
    match s {
        Some(x) => match parsed_status(x) {
            Some(st) => Some(seq![EditView::SetStatus(st)]),
            None => None,
        },
        None => Some(Seq::<EditView>::empty()),
    }
}

/// Whether a request names the status `deleted`.
pub open spec fn names_deleted(status: Option<Seq<char>>) -> bool {
    match status {
        Some(x) => parsed_status(x) == Some(TaskStatus::Deleted),
        None => false,
    }
}

/// Adds the edit that sets the status a request names, if it names one;
/// tells whether that status is `deleted`.
pub fn push_status_edit(status: Option<String>, ops: &mut Vec<TaskEdit>) -> (r: Result<bool, ApiError>)
    ensures
        r is Ok <==> status_part(opt_text(status)) is Some,
        r matches Err(e) ==> e == ApiError::BadRequest,
        r matches Ok(b) ==> b == names_deleted(opt_text(status)),
        r is Ok ==> edit_views(final(ops)@) == edit_views(old(ops)@) + status_part(opt_text(status)).unwrap(),
{
    let ghost start = edit_views(ops@);
    match status {
        Some(s) => {
            let st = map_status(s.as_str())?;
            let deleted = st.is_deleted();
            ops.push(TaskEdit::SetStatus(st));
            assert(edit_views(ops@) =~= start + status_part(opt_text(status)).unwrap());
            Ok(deleted)
        },
        None => {
            assert(edit_views(ops@) =~= start + Seq::<EditView>::empty());
            Ok(false)
        },
    }
}

/// Adds the edits that replace the user tags of `task` by those a request
/// gives, if it gives any.
pub fn push_tag_edits(task: &TaskRecord, tags: Option<Vec<String>>, ops: &mut Vec<TaskEdit>) -> (r:
    Result<(), ApiError>)
    ensures
        r is Ok <==> tags_part(task@, opt_texts(tags)) is Some,
        r matches Err(e) ==> e == ApiError::BadRequest,
        r is Ok ==> edit_views(final(ops)@) == edit_views(old(ops)@) + tags_part(task@, opt_texts(tags)).unwrap(),
{
    let ghost start = edit_views(ops@);
    match tags {
        Some(ts) => {
            let res = apply_tags(task, ts, ops);
            if res.is_err() {
                return Err(ApiError::BadRequest);
            }
        },
        None => {
            assert(edit_views(ops@) =~= start + Seq::<EditView>::empty());
        },
    }
    Ok(())
}

/// Adds the edit that sets the priority a request names, if it names one.
pub fn push_priority_edit(priority: Option<String>, ops: &mut Vec<TaskEdit>) -> (r: Result<
    (),
    ApiError,
>)
    ensures
        r is Ok <==> priority_part(opt_text(priority)) is Some,
        r matches Err(e) ==> e == ApiError::BadRequest,
        r is Ok ==> edit_views(final(ops)@) == edit_views(old(ops)@) + priority_part(opt_text(priority)).unwrap(),
{
    let ghost start = edit_views(ops@);
    match priority {
        Some(p) => {
            let level = map_priority(p.as_str())?;
            ops.push(TaskEdit::SetPriority(level.label()));
            assert(edit_views(ops@) =~= start + priority_part(opt_text(priority)).unwrap());
        },
        None => {
            assert(edit_views(ops@) =~= start + Seq::<EditView>::empty());
        },
    }
    Ok(())
}

/// The edits that fill a new task from a creation request: status pending,
/// the description, the tags, the priority and the due time, in that order.
/// `None` when a tag or the priority is invalid.  A project in the request
/// is not applied here.
pub open spec fn create_part(task: RecordView, payload: CreateView) -> Option<Seq<EditView>> {
    match (tags_part(task, payload.tags), priority_part(payload.priority)) {
        (Some(t), Some(p)) => Some(
            seq![EditView::SetStatus(TaskStatus::Pending), EditView::SetDescription(payload.description)]
                + t + p + due_part(payload.due),
        ),
        _ => None,
    }
}

/// The state of a new task once a creation request has filled it.
pub open spec fn created_state(st: TaskState, payload: CreateView) -> TaskState {
    TaskState {
        description: payload.description,
        status: TaskStatus::Pending,
        user_tags: match payload.tags {
            Some(ts) => ts.to_set(),
            None => st.user_tags,
        },
        priority: match payload.priority {
            Some(p) => priority_label(parsed_priority(p).unwrap()),
            None => st.priority,
        },
        due: match payload.due {
            Some(d) => Some(d),
            None => st.due,
        },
        project: st.project,
    }
}

proof fn lemma_create_part_effect(task: RecordView, payload: CreateView)
    requires
        create_part(task, payload) is Some,
    ensures
        apply_edits(state_of(task), create_part(task, payload).unwrap()) == created_state(
            state_of(task),
            payload,
        ),
{
    let st = state_of(task);
    let head = seq![EditView::SetStatus(TaskStatus::Pending), EditView::SetDescription(payload.description)];
    let t = tags_part(task, payload.tags).unwrap();
    let p = priority_part(payload.priority).unwrap();
    let d = due_part(payload.due);
    let h1 = seq![EditView::SetStatus(TaskStatus::Pending)];
    assert(head.drop_last() =~= h1);
    assert(h1.drop_last() =~= Seq::<EditView>::empty());
    assert(apply_edits(st, Seq::<EditView>::empty()) == st);
    assert(apply_edits(st, h1) == apply_edit(st, EditView::SetStatus(TaskStatus::Pending)));
    let s1 = apply_edits(st, head);
    assert(s1 == apply_edit(apply_edits(st, h1), EditView::SetDescription(payload.description)));
    assert(s1.user_tags == st.user_tags);
    lemma_apply_edits_append(st, head, t);
    lemma_apply_edits_append(st, head + t, p);
    lemma_apply_edits_append(st, head + t + p, d);
    let s2 = apply_edits(s1, t);
    if let Some(ts) = payload.tags {
        lemma_retag_replaces(task, ts, s1);
    }
    let s3 = apply_edits(s2, p);
    if let Some(q) = payload.priority {
        assert(p.drop_last() =~= Seq::<EditView>::empty());
        assert(apply_edits(s2, Seq::<EditView>::empty()) == s2);
    } else {
        assert(apply_edits(s2, p) == s2);
    }
    if let Some(due) = payload.due {
        assert(d.drop_last() =~= Seq::<EditView>::empty());
        assert(apply_edits(s3, Seq::<EditView>::empty()) == s3);
    } else {
        assert(apply_edits(s3, d) == s3);
    }
    if payload.tags is None {
        assert(s2 == s1);
    }
}

/// Fills a new task from a creation request: sets it pending, sets the
/// description, replaces its user tags by the requested ones, and sets the
/// priority and the due time when they are given.  An invalid tag or
/// priority makes the request bad.
pub fn fill_task_from_create_request(
    task: &TaskRecord,
    payload: CreateTaskRequest,
    ops: &mut Vec<TaskEdit>,
) -> (r: Result<(), ApiError>)
    ensures
        r is Ok <==> create_part(task@, payload@) is Some,
        r matches Err(e) ==> e == ApiError::BadRequest,
        r is Ok ==> edit_views(final(ops)@) == edit_views(old(ops)@) + create_part(
            task@,
            payload@,
        ).unwrap(),
        r is Ok ==> apply_edits(state_of(task@), create_part(task@, payload@).unwrap())
            == created_state(state_of(task@), payload@),
{
    let ghost start = edit_views(ops@);
    let ghost whole = payload;
    let CreateTaskRequest { description, tags, priority, due, project: _ } = payload;
    let ghost desc = description@;
    ops.push(TaskEdit::SetStatus(TaskStatus::Pending));
    ops.push(TaskEdit::SetDescription(description));
    let ghost head = seq![EditView::SetStatus(TaskStatus::Pending), EditView::SetDescription(desc)];
    assert(edit_views(ops@) =~= start + head);
    let ghost after_head = edit_views(ops@);
    push_tag_edits(task, tags, ops)?;
    let ghost t = tags_part(task@, whole@.tags).unwrap();
    assert(edit_views(ops@) =~= start + head + t);
    push_priority_edit(priority, ops)?;
    let ghost after_priority = edit_views(ops@);
    match due {
        Some(d) => {
            ops.push(TaskEdit::SetDue(d));
        },
        None => {},
    }
    assert(edit_views(ops@) =~= after_priority + due_part(whole.due));
    assert(edit_views(ops@) =~= start + create_part(task@, whole@).unwrap());
    proof {
        lemma_create_part_effect(task@, whole@);
    }
    Ok(())
}

} // verus!
