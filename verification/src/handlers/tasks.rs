//! Handlers of single tasks and of the task list.
use vstd::prelude::*;

use crate::handlers::helpers::{
    created_state, create_part, due_part, fill_task_from_create_request, get_task_from_replica,
    names_deleted, parsed_status, priority_part, push_priority_edit, push_status_edit,
    push_tag_edits,
    status_part, tags_part,
};
use crate::handlers::{
    ApiError, EditView, TaskEdit, TaskState, WritePlan, apply_edits, edit_views,
    lemma_apply_edits_append, lemma_apply_single, lemma_retag_replaces, parsed_priority,
    priority_label, state_of,
};
use crate::models::{
    CreateTaskRequest, CreateView, RecordView, TaskRecord, TaskResponse, TaskStatus, UpdateTaskRequest,
    UpdateView, views,
};
use crate::select::{
    Criterion, has_tag, in_project, is_visible, lemma_filter_membership, responses, select, shows,
};

verus! {

broadcast use vstd::seq_lib::group_seq_properties;

/// What a task listing asks for: the tasks with a tag, in a project, or both.
#[derive(Debug)]
pub struct TaskFilter {
    pub tag: Option<String>,
    pub project: Option<String>,
}

/// The criterion of a task listing.
pub open spec fn listing(filter: TaskFilter) -> Criterion {
    Criterion::Listed { tag: filter.tag, project: filter.project }
}

fn copy_text(o: &Option<String>) -> (r: Option<String>)
    ensures
        r == *o,
{
    match o {
        Some(s) => Some(s.clone()),
        None => None,
    }
}

/// The tasks that are not deleted and have the tag and the project that the
/// filter gives, in the order given, shown.
pub fn list_tasks(tasks: &Vec<TaskRecord>, filter: &TaskFilter) -> (r: Vec<TaskResponse>)
    ensures
        shows(r@, views(tasks@).filter(listing(*filter).pred())),
{
    let c = Criterion::Listed { tag: copy_text(&filter.tag), project: copy_text(&filter.project) };
    let chosen = select(tasks, &c);
    responses(&chosen)
}

/// Law: a task listing never shows a deleted task, and every task it shows
/// has the tag and the project that the filter asks for.
pub proof fn lemma_listing_matches(ts: Seq<RecordView>, filter: TaskFilter)
    ensures
        forall|i: int|
            0 <= i < ts.filter(listing(filter).pred()).len() ==> {
                let t = #[trigger] ts.filter(listing(filter).pred())[i];
                &&& is_visible(t)
                &&& (filter.tag matches Some(x) ==> has_tag(t, x@))
                &&& (filter.project matches Some(p) ==> in_project(t, p@))
            },
{
    let f = listing(filter).pred();
    assert forall|i: int| 0 <= i < ts.filter(f).len() implies #[trigger] f(ts.filter(f)[i]) by {
        ts.lemma_filter_pred(f, i);
    }
}

/// Law: a listing by tag and project holds exactly the tasks that are in
/// both the listing by that tag and the listing by that project; every
/// listing is part of the unfiltered one; and of the unfiltered listing, the
/// listing by a tag keeps the tasks with that tag, the listing by a project
/// those of that project.
pub proof fn lemma_listing_intersection(ts: Seq<RecordView>, g: String, p: String, f: TaskFilter, x: RecordView)
    ensures
        ts.filter(listing((TaskFilter { tag: Some(g), project: Some(p) })).pred()).contains(x) <==> (
        ts.filter(listing((TaskFilter { tag: Some(g), project: None })).pred()).contains(x)
            && ts.filter(listing((TaskFilter { tag: None, project: Some(p) })).pred()).contains(x)),
        ts.filter(listing(f).pred()).contains(x) ==> ts.filter(
            listing((TaskFilter { tag: None, project: None })).pred(),
        ).contains(x),
        ts.filter(listing((TaskFilter { tag: None, project: None })).pred()).contains(x) ==> {
            &&& (ts.filter(listing((TaskFilter { tag: Some(g), project: None })).pred()).contains(x)
                <==> has_tag(x, g@))
            &&& (ts.filter(listing((TaskFilter { tag: None, project: Some(p) })).pred()).contains(x)
                <==> in_project(x, p@))
        },
{
    let both = listing(TaskFilter { tag: Some(g), project: Some(p) }).pred();
    let by_tag = listing(TaskFilter { tag: Some(g), project: None }).pred();
    let by_project = listing(TaskFilter { tag: None, project: Some(p) }).pred();
    let all = listing(TaskFilter { tag: None, project: None }).pred();
    lemma_filter_membership(ts, both, x);
    lemma_filter_membership(ts, by_tag, x);
    lemma_filter_membership(ts, by_project, x);
    lemma_filter_membership(ts, all, x);
    lemma_filter_membership(ts, listing(f).pred(), x);
}

/// Law: once a deletion is committed, a read of the task finds it deleted:
/// reading, changing or deleting it again is not found, and no listing shows it.
pub proof fn lemma_read_after_delete(t: RecordView, stored: RecordView, f: TaskFilter)
    requires
        state_of(stored) == apply_edits(
            state_of(t),
            seq![EditView::SetStatus(TaskStatus::Deleted)],
        ),
    ensures
        stored.status is Deleted,
        !listing(f).holds(stored),
{
    lemma_apply_single(state_of(t), EditView::SetStatus(TaskStatus::Deleted));
}

/// Law: once a creation is committed, a read of the task finds it pending
/// (so shown, and listed), with the description, user tags, priority and due
/// time that the request gave.
pub proof fn lemma_read_after_create(new: RecordView, payload: CreateView, stored: RecordView)
    requires
        create_part(new, payload) is Some,
        state_of(stored) == created_state(state_of(new), payload),
    ensures
        stored.status is Pending,
        listing((TaskFilter { tag: None, project: None })).holds(stored),
        stored.description == payload.description,
        payload.tags matches Some(ts) ==> state_of(stored).user_tags == ts.to_set(),
        payload.priority matches Some(q) ==> stored.priority == priority_label(
            parsed_priority(q).unwrap(),
        ),
        payload.due matches Some(d) ==> stored.due == Some(d),
{
}

/// Law: once a change that names the status `deleted` is committed, a read of
/// the task finds it deleted, and the answer is not found.
pub proof fn lemma_read_after_update(t: RecordView, payload: UpdateView, stored: RecordView)
    requires
        update_part(t, payload) is Some,
        state_of(stored) == updated_state(state_of(t), payload),
        !(t.status is Deleted),
    ensures
        stored.status is Deleted <==> names_deleted(payload.status),
        answer_after(state_of(stored)) == (if names_deleted(payload.status) {
            404u16
        } else {
            200u16
        }),
{
}

/// A stored task, shown; absent and deleted tasks are not found.
pub fn get_task(found: Option<TaskRecord>) -> (r: Result<TaskResponse, ApiError>)
    ensures
        match found {
            Some(t) => if t.status is Deleted {
                r == Err::<TaskResponse, ApiError>(ApiError::NotFound)
            } else {
                r matches Ok(resp) && resp.describes(t@)
            },
            None => r == Err::<TaskResponse, ApiError>(ApiError::NotFound),
        },
{
    let task = get_task_from_replica(found)?;
    Ok(TaskResponse::from_task(&task))
}

/// Creating a task from a request: the edits that fill the new task `task`,
/// answered with 201 Created.  An invalid tag or priority makes it a bad request.
pub fn create_task(task: &TaskRecord, payload: CreateTaskRequest) -> (r: Result<WritePlan, ApiError>)
    ensures
        r is Ok <==> create_part(task@, payload@) is Some,
        r matches Err(e) ==> e == ApiError::BadRequest,
        r matches Ok(plan) ==> {
            &&& plan.success_status == 201
            &&& edit_views(plan.edits@) == create_part(task@, payload@).unwrap()
            &&& apply_edits(state_of(task@), edit_views(plan.edits@)) == created_state(
                state_of(task@),
                payload@,
            )
        },
{
    let mut ops: Vec<TaskEdit> = Vec::new();
    fill_task_from_create_request(task, payload, &mut ops)?;
    assert(edit_views(ops@) =~= create_part(task@, payload@).unwrap());
    Ok(WritePlan { edits: ops, success_status: 201 })
}

/// The edits that a change request makes, in order: description, status,
/// tags, priority, due time, project (an empty project clears it).  `None`
/// when the status, a tag or the priority is invalid.
pub open spec fn update_part(task: RecordView, payload: UpdateView) -> Option<
    Seq<EditView>,
> {
    let d = match payload.description {
        Some(x) => seq![EditView::SetDescription(x)],
        None => Seq::<EditView>::empty(),
    };
    let s = status_part(payload.status);
    let t = tags_part(task, payload.tags);
    let p = priority_part(payload.priority);
    let pr = match payload.project {
        Some(x) => seq![
            EditView::SetProject(
                if x.len() == 0 {
                    None
                } else {
                    Some(x)
                },
            ),
        ],
        None => Seq::<EditView>::empty(),
    };
    if s is Some && t is Some && p is Some {
        Some(d + s.unwrap() + t.unwrap() + p.unwrap() + due_part(payload.due) + pr)
    } else {
        None
    }
}

/// The state of a task once a change request has been made: each field the
/// request gives takes the given value; the others keep theirs.
pub open spec fn updated_state(st: TaskState, payload: UpdateView) -> TaskState {
    TaskState {
        description: match payload.description {
            Some(d) => d,
            None => st.description,
        },
        status: match payload.status {
            Some(s) => parsed_status(s).unwrap(),
            None => st.status,
        },
        user_tags: match payload.tags {
            Some(ts) => ts.to_set(),
            None => st.user_tags,
        },
        priority: match payload.priority {
            Some(p) => priority_label(parsed_priority(p).unwrap()),
            None => st.priority,
        },
        due: match payload.due {
            Some(d) => Some(d),
            None => st.due,
        },
        project: match payload.project {
            Some(p) => if p.len() == 0 {
                None
            } else {
                Some(p)
            },
            None => st.project,
        },
    }
}

/// Law: a change request touches only the fields it gives. Each field it
/// leaves out keeps its value; a given description, due date or tag list is
/// taken as given, and a given project is taken as given, an empty one
/// clearing it.
pub proof fn lemma_update_changes_only_given_fields(st: TaskState, payload: UpdateView)
    ensures
        payload.description is None ==> updated_state(st, payload).description == st.description,
        payload.status is None ==> updated_state(st, payload).status == st.status,
        payload.tags is None ==> updated_state(st, payload).user_tags == st.user_tags,
        payload.priority is None ==> updated_state(st, payload).priority == st.priority,
        payload.due is None ==> updated_state(st, payload).due == st.due,
        payload.project is None ==> updated_state(st, payload).project == st.project,
        payload.description matches Some(d) ==> updated_state(st, payload).description == d,
        payload.tags matches Some(ts) ==> updated_state(st, payload).user_tags == ts.to_set(),
        payload.due matches Some(d) ==> updated_state(st, payload).due == Some(d),
        payload.project matches Some(p) ==> updated_state(st, payload).project == (if p.len()
            == 0 {
            None
        } else {
            Some(p)
        }),
{
}

proof fn lemma_update_part_effect(task: RecordView, payload: UpdateView)
    requires
        update_part(task, payload) is Some,
    ensures
        apply_edits(state_of(task), update_part(task, payload).unwrap()) == updated_state(
            state_of(task),
            payload,
        ),
{
    let st = state_of(task);
    let d = match payload.description {
        Some(x) => seq![EditView::SetDescription(x)],
        None => Seq::<EditView>::empty(),
    };
    let s = match payload.status {
        Some(x) => seq![EditView::SetStatus(parsed_status(x).unwrap())],
        None => Seq::<EditView>::empty(),
    };
    let t = tags_part(task, payload.tags).unwrap();
    let p = priority_part(payload.priority).unwrap();
    let du = due_part(payload.due);
    let pr = match payload.project {
        Some(x) => seq![
            EditView::SetProject(
                if x.len() == 0 {
                    None
                } else {
                    Some(x)
                },
            ),
        ],
        None => Seq::<EditView>::empty(),
    };
    assert(update_part(task, payload).unwrap() == d + s + t + p + du + pr);
    lemma_apply_edits_append(st, d, s);
    lemma_apply_edits_append(st, d + s, t);
    lemma_apply_edits_append(st, d + s + t, p);
    lemma_apply_edits_append(st, d + s + t + p, du);
    lemma_apply_edits_append(st, d + s + t + p + du, pr);
    let e = Seq::<EditView>::empty();
    let s1 = apply_edits(st, d);
    if let Some(x) = payload.description {
        lemma_apply_single(st, EditView::SetDescription(x));
    } else {
        assert(apply_edits(st, e) == st);
    }
    let s2 = apply_edits(s1, s);
    if let Some(x) = payload.status {
        lemma_apply_single(s1, EditView::SetStatus(parsed_status(x).unwrap()));
    } else {
        assert(apply_edits(s1, e) == s1);
    }
    let s3 = apply_edits(s2, t);
    if let Some(ts) = payload.tags {
        lemma_retag_replaces(task, ts, s2);
    } else {
        assert(apply_edits(s2, e) == s2);
    }
    let s4 = apply_edits(s3, p);
    if let Some(x) = payload.priority {
        lemma_apply_single(s3, EditView::SetPriority(priority_label(parsed_priority(x).unwrap())));
    } else {
        assert(apply_edits(s3, e) == s3);
    }
    let s5 = apply_edits(s4, du);
    if let Some(x) = payload.due {
        lemma_apply_single(s4, EditView::SetDue(x));
    } else {
        assert(apply_edits(s4, e) == s4);
    }
    if let Some(x) = payload.project {
        lemma_apply_single(
            s5,
            EditView::SetProject(
                if x.len() == 0 {
                    None
                } else {
                    Some(x)
                },
            ),
        );
    } else {
        assert(apply_edits(s5, e) == s5);
    }
}

/// The plan of a change request on a task that is not deleted.
fn plan_update(task: &TaskRecord, payload: UpdateTaskRequest) -> (r: Result<(WritePlan, bool), ApiError>)
    ensures
        r is Ok <==> update_part(task@, payload@) is Some,
        r matches Err(e) ==> e == ApiError::BadRequest,
        r matches Ok((plan, deleted)) ==> {
            &&& deleted == names_deleted(payload@.status)
            &&& plan.success_status == 200
            &&& edit_views(plan.edits@) == update_part(task@, payload@).unwrap()
            &&& apply_edits(state_of(task@), edit_views(plan.edits@)) == updated_state(
                state_of(task@),
                payload@,
            )
        },
{
    let ghost whole = payload;
    let UpdateTaskRequest { description, priority, status, tags, due, project } = payload;
    let mut ops: Vec<TaskEdit> = Vec::new();
    match description {
        Some(d) => ops.push(TaskEdit::SetDescription(d)),
        None => {},
    }
    let ghost after_desc = edit_views(ops@);
    let deleted = push_status_edit(status, &mut ops)?;
    push_tag_edits(task, tags, &mut ops)?;
    push_priority_edit(priority, &mut ops)?;
    let ghost after_priority = edit_views(ops@);
    match due {
        Some(d) => ops.push(TaskEdit::SetDue(d)),
        None => {},
    }
    let ghost after_due = edit_views(ops@);
    match project {
        Some(p) => {
            let value = if p.as_str().is_empty() {
                None
            } else {
                Some(p)
            };
            ops.push(TaskEdit::SetProject(value));
        },
        None => {},
    }
    proof {
        let e = Seq::<EditView>::empty();
        if let Some(x) = whole.description {
            assert(after_desc =~= seq![EditView::SetDescription(x@)]);
        } else {
            assert(after_desc =~= e);
        }
        assert(after_due =~= after_priority + due_part(whole.due));
        assert(edit_views(ops@) =~= update_part(task@, whole@).unwrap());
        lemma_update_part_effect(task@, whole@);
    }
    Ok((WritePlan { edits: ops, success_status: 200 }, deleted))
}

/// The answer to a task that a write leaves in state `st`, when it is read
/// back: not found if it is deleted, 200 OK otherwise.
pub open spec fn answer_after(st: TaskState) -> u16 {
    if st.status is Deleted {
        404
    } else {
        200
    }
}

/// Changing a task as a request asks, given what the store holds under its
/// id: an absent or deleted task is not found; an invalid status, tag or
/// priority makes a bad request; otherwise the edits to make.  Once they
/// are committed the task is read back and shown, so the answer is 200 OK,
/// or 404 Not Found when the change deletes the task (`success_status`).
pub fn update_task(found: Option<TaskRecord>, payload: UpdateTaskRequest) -> (r: Result<
    WritePlan,
    ApiError,
>)
    ensures
        match found {
            None => r == Err::<WritePlan, ApiError>(ApiError::NotFound),
            Some(task) => if task.status is Deleted {
                r == Err::<WritePlan, ApiError>(ApiError::NotFound)
            } else {
                &&& r is Ok <==> update_part(task@, payload@) is Some
                &&& r matches Err(e) ==> e == ApiError::BadRequest
                &&& r matches Ok(plan) ==> {
                    &&& edit_views(plan.edits@) == update_part(task@, payload@).unwrap()
                    &&& apply_edits(state_of(task@), edit_views(plan.edits@)) == updated_state(
                        state_of(task@),
                        payload@,
                    )
                    &&& plan.success_status == answer_after(
                        updated_state(state_of(task@), payload@),
                    )
                    &&& (plan.success_status == 404 <==> names_deleted(payload@.status))
                    &&& ({
                        let before = state_of(task@);
                        let after = apply_edits(before, edit_views(plan.edits@));
                        &&& payload@.description is None ==> after.description == before.description
                        &&& payload@.status is None ==> after.status == before.status
                        &&& payload@.tags is None ==> after.user_tags == before.user_tags
                        &&& payload@.priority is None ==> after.priority == before.priority
                        &&& payload@.due is None ==> after.due == before.due
                        &&& payload@.project is None ==> after.project == before.project
                    })
                }
            },
        },
{
    let task = get_task_from_replica(found)?;
    proof {
        lemma_update_changes_only_given_fields(state_of(task@), payload@);
    }
    let (mut plan, deleted) = plan_update(&task, payload)?;
    if deleted {
        plan.success_status = 404;
    }
    Ok(plan)
}

/// Deleting a task, given what the store holds under its id: an absent or
/// deleted task is not found; otherwise its status is set to deleted,
/// answered with 204 No Content.
pub fn delete_task(found: Option<TaskRecord>) -> (r: Result<WritePlan, ApiError>)
    ensures
        match found {
            None => r == Err::<WritePlan, ApiError>(ApiError::NotFound),
            Some(task) => if task.status is Deleted {
                r == Err::<WritePlan, ApiError>(ApiError::NotFound)
            } else {
                r matches Ok(plan) && {
                    &&& plan.success_status == 204
                    &&& edit_views(plan.edits@) == seq![EditView::SetStatus(TaskStatus::Deleted)]
                    &&& apply_edits(state_of(task@), edit_views(plan.edits@)) == (TaskState {
                        status: TaskStatus::Deleted,
                        ..state_of(task@)
                    })
                }
            },
        },
{
    let task = get_task_from_replica(found)?;
    let mut ops: Vec<TaskEdit> = Vec::new();
    ops.push(TaskEdit::SetStatus(TaskStatus::Deleted));
    assert(edit_views(ops@) =~= seq![EditView::SetStatus(TaskStatus::Deleted)]);
    proof {
        lemma_apply_single(state_of(task@), EditView::SetStatus(TaskStatus::Deleted));
    }
    Ok(WritePlan { edits: ops, success_status: 204 })
}

} // verus!
