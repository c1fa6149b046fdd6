//! Handlers of projects: a project is the value of a task's `project` property.
use vstd::prelude::*;

use crate::handlers::helpers::{create_part, created_state, fill_task_from_create_request};
use crate::handlers::{
    ApiError, EditView, TaskEdit, TaskState, WritePlan, apply_edits, edit_views,
    lemma_apply_edits_append, lemma_apply_single, state_of,
};
use crate::models::{CreateTaskRequest, CreateView, RecordView, TaskRecord, TaskResponse, views};
use crate::order::{
    distinct_uuids, lemma_filter_keeps_distinct, lemma_newest_first_is_permutation,
    lemma_newest_first_keeps_distinct, newest_first, sort_newest_first,
};
use crate::select::{
    Criterion, completed_pred, count_by_status, deleted_pred, in_project, lemma_filter_membership,
    pending_pred, responses,
    select, shows,
};
use crate::text::{
    ascending_list, holds_exactly, insert_ascending, lemma_is_ascending_list, strictly_ascending,
    texts,
};

verus! {

broadcast use vstd::seq_lib::group_seq_properties;

/// How many tasks a project has, by status.
#[derive(Debug)]
pub struct ProjectStats {
    pub name: String,
    pub task_count: usize,
    pub pending_count: usize,
    pub completed_count: usize,
    pub deleted_count: usize,
}

/// How many tasks a project has, by status, with its newest pending tasks.
#[derive(Debug)]
pub struct ProjectDetails {
    pub name: String,
    pub task_count: usize,
    pub pending_count: usize,
    pub completed_count: usize,
    pub deleted_count: usize,
    pub tasks_preview: Vec<TaskResponse>,
}

/// The projects that tasks belong to, deleted tasks included.
pub open spec fn project_names(ts: Seq<RecordView>) -> Set<Seq<char>> {
    Set::new(|p: Seq<char>| exists|i: int| 0 <= i < ts.len() && #[trigger] ts[i].project == Some(p))
}

/// The projects of the tasks, each once, in ascending order.
pub fn list_projects(tasks: &Vec<TaskRecord>) -> (r: Vec<String>)
    ensures
        strictly_ascending(texts(r@)),
        holds_exactly(texts(r@), project_names(views(tasks@))),
        texts(r@) == ascending_list(project_names(views(tasks@))),
{
    let n = tasks.len();
    let ghost all = views(tasks@);
    let mut out: Vec<String> = Vec::new();
    let mut i: usize = 0;
    assert(texts(out@) =~= Seq::<Seq<char>>::empty());
    while i < n
        invariant
            n == tasks.len(),
            all == views(tasks@),
            i <= n,
            strictly_ascending(texts(out@)),
            holds_exactly(texts(out@), project_names(all.take(i as int))),
        decreases n - i,
    {
        let ghost before = texts(out@);
        let ghost prefix = all.take(i as int);
        let ghost next = all.take(i + 1);
        match &tasks[i].project {
            Some(p) => {
                insert_ascending(&mut out, p.clone());
                assert forall|q: Seq<char>| #[trigger]
                    texts(out@).contains(q) <==> project_names(next).contains(q) by {
                    if project_names(prefix).contains(q) {
                        let k = choose|k: int| 0 <= k < prefix.len() && prefix[k].project == Some(q);
                        assert(next[k].project == Some(q));
                    }
                    if project_names(next).contains(q) {
                        let k = choose|k: int| 0 <= k < next.len() && next[k].project == Some(q);
                        if k < i {
                            assert(prefix[k].project == Some(q));
                        } else {
                            assert(q == p@);
                        }
                    }
                    if q == p@ {
                        assert(next[i as int].project == Some(q));
                    }
                }
            },
            None => {
                assert forall|q: Seq<char>| #[trigger]
                    texts(out@).contains(q) <==> project_names(next).contains(q) by {
                    if project_names(prefix).contains(q) {
                        let k = choose|k: int| 0 <= k < prefix.len() && prefix[k].project == Some(q);
                        assert(next[k].project == Some(q));
                    }
                    if project_names(next).contains(q) {
                        let k = choose|k: int| 0 <= k < next.len() && next[k].project == Some(q);
                        assert(k < i);
                        assert(prefix[k].project == Some(q));
                    }
                }
            },
        }
        i = i + 1;
    }
    assert(all.take(n as int) =~= all);
    proof {
        lemma_is_ascending_list(texts(out@), project_names(all));
    }
    out
}

/// Law: the project list depends on which tasks there are, not on the order
/// in which they are given.
pub proof fn lemma_project_list_order_free(a: Seq<RecordView>, b: Seq<RecordView>)
    requires
        forall|t: RecordView| #[trigger] a.contains(t) <==> b.contains(t),
    ensures
        ascending_list(project_names(a)) == ascending_list(project_names(b)),
{
    assert forall|p: Seq<char>| project_names(a).contains(p) <==> project_names(b).contains(p) by {
        if project_names(a).contains(p) {
            let i = choose|i: int| 0 <= i < a.len() && a[i].project == Some(p);
            assert(a.contains(a[i]));
            let j = choose|j: int| 0 <= j < b.len() && b[j] == a[i];
            assert(b[j].project == Some(p));
        }
        if project_names(b).contains(p) {
            let i = choose|i: int| 0 <= i < b.len() && b[i].project == Some(p);
            assert(b.contains(b[i]));
            assert(a.contains(b[i]));
            let j = choose|j: int| 0 <= j < a.len() && a[j] == b[i];
            assert(a[j].project == Some(p));
        }
    }
    assert(project_names(a) =~= project_names(b));
}

/// The criterion for a project's tasks.
pub open spec fn of_project(name: Seq<char>) -> spec_fn(RecordView) -> bool {
    |t: RecordView| in_project(t, name)
}

/// Law: the project list names a project exactly when some task, whatever
/// its status, is in it, which is when the project's counts are found.
pub proof fn lemma_project_listed_iff_it_has_tasks(tasks: Seq<RecordView>, name: Seq<char>)
    ensures
        forall|i: int|
            0 <= i < tasks.len() && #[trigger] tasks[i].project == Some(name)
                ==> project_names(tasks).contains(name),
        project_names(tasks).contains(name) <==> tasks.filter(of_project(name)).len() > 0,
{
    if project_names(tasks).contains(name) {
        let i = choose|i: int| 0 <= i < tasks.len() && #[trigger] tasks[i].project == Some(name);
        assert(tasks.contains(tasks[i]));
        lemma_filter_membership(tasks, of_project(name), tasks[i]);
        assert(tasks.filter(of_project(name)).contains(tasks[i]));
    }
    if tasks.filter(of_project(name)).len() > 0 {
        let chosen = tasks.filter(of_project(name));
        assert(chosen.contains(chosen[0]));
        lemma_filter_membership(tasks, of_project(name), chosen[0]);
        let i = choose|i: int| 0 <= i < tasks.len() && tasks[i] == chosen[0];
        assert(tasks[i].project == Some(name));
    }
}

/// The counts of a project's tasks by status; a project without tasks is not found.
pub fn get_project_stats(tasks: &Vec<TaskRecord>, project_name: String) -> (r: Result<
    ProjectStats,
    ApiError,
>)
    ensures
        ({
            let chosen = views(tasks@).filter(of_project(project_name@));
            &&& r is Err <==> chosen.len() == 0
            &&& r matches Err(e) ==> e == ApiError::NotFound
            &&& r matches Ok(s) ==> {
                &&& s.name@ == project_name@
                &&& s.task_count == chosen.len()
                &&& s.pending_count == chosen.filter(pending_pred()).len()
                &&& s.completed_count == chosen.filter(completed_pred()).len()
                &&& s.deleted_count == chosen.filter(deleted_pred()).len()
            }
        }),
{
    let c = Criterion::InProject(project_name.clone());
    let chosen = select(tasks, &c);
    assert(c.pred() =~= of_project(project_name@));
    let task_count = chosen.len();
    if task_count == 0 {
        return Err(ApiError::NotFound);
    }
    let (pending_count, completed_count, deleted_count) = count_by_status(&chosen);
    Ok(ProjectStats { name: project_name, task_count, pending_count, completed_count, deleted_count })
}

/// A project's tasks, deleted ones too, newest first, shown.
pub fn get_project_tasks(tasks: &Vec<TaskRecord>, project_name: &str) -> (r: Vec<TaskResponse>)
    ensures
        shows(r@, newest_first(views(tasks@).filter(of_project(project_name@)))),
{
    let c = Criterion::InProject(project_name.to_string());
    let chosen = select(tasks, &c);
    assert(c.pred() =~= of_project(project_name@));
    let sorted = sort_newest_first(&chosen);
    responses(&sorted)
}

/// The criterion for a project's pending tasks.
pub open spec fn pending_of_project(name: Seq<char>) -> spec_fn(RecordView) -> bool {
    |t: RecordView| in_project(t, name) && t.status is Pending
}

/// The first `n` elements of `s`, or all of them if there are fewer.
pub open spec fn first_n<A>(s: Seq<A>, n: int) -> Seq<A> {
    if s.len() <= n {
        s
    } else {
        s.take(n)
    }
}

/// How many pending tasks a project preview shows.
pub const PROJECT_PREVIEW_LEN: usize = 10;

/// The counts of a project's tasks by status, and a preview: its first ten
/// pending tasks in the order given, newest first; a project without tasks
/// is not found.
pub fn get_project_details(tasks: &Vec<TaskRecord>, project_name: String) -> (r: Result<
    ProjectDetails,
    ApiError,
>)
    ensures
        ({
            let chosen = views(tasks@).filter(of_project(project_name@));
            &&& r is Err <==> chosen.len() == 0
            &&& r matches Err(e) ==> e == ApiError::NotFound
            &&& r matches Ok(d) ==> {
                &&& d.name@ == project_name@
                &&& d.task_count == chosen.len()
                &&& d.pending_count == chosen.filter(pending_pred()).len()
                &&& d.completed_count == chosen.filter(completed_pred()).len()
                &&& d.deleted_count == chosen.filter(deleted_pred()).len()
                &&& shows(
                    d.tasks_preview@,
                    newest_first(
                        first_n(
                            views(tasks@).filter(pending_of_project(project_name@)),
                            PROJECT_PREVIEW_LEN as int,
                        ),
                    ),
                )
            }
        }),
{
    let c = Criterion::InProject(project_name.clone());
    let chosen = select(tasks, &c);
    assert(c.pred() =~= of_project(project_name@));
    let task_count = chosen.len();
    if task_count == 0 {
        return Err(ApiError::NotFound);
    }
    let (pending_count, completed_count, deleted_count) = count_by_status(&chosen);
    let pc = Criterion::PendingInProject(project_name.clone());
    let mut pending = select(tasks, &pc);
    assert(pc.pred() =~= pending_of_project(project_name@));
    let ghost all_pending = views(pending@);
    pending.truncate(PROJECT_PREVIEW_LEN);
    assert(views(pending@) =~= first_n(all_pending, PROJECT_PREVIEW_LEN as int));
    let sorted = sort_newest_first(&pending);
    let tasks_preview = responses(&sorted);
    Ok(
        ProjectDetails {
            name: project_name,
            task_count,
            pending_count,
            completed_count,
            deleted_count,
            tasks_preview,
        },
    )
}

/// The state of a new task once a creation request in a project has filled it.
pub open spec fn created_in_project(st: TaskState, payload: CreateView, name: Seq<char>) -> TaskState {
    TaskState { project: Some(name), ..created_state(st, payload) }
}

/// `t` stands in `s` at exactly one place, and no other task of `s` has its uuid.
pub open spec fn listed_once(s: Seq<RecordView>, t: RecordView) -> bool {
    exists|j: int|
        #![trigger s[j]]
        0 <= j < s.len() && s[j] == t && forall|k: int|
            0 <= k < s.len() && (#[trigger] s[k]).uuid == t.uuid ==> k == j
}

/// Law: once a creation in a project is committed to a store whose tasks
/// have distinct uuids, the project's task list holds the task exactly once,
/// newest first among its tasks, and the project list names the project.
pub proof fn lemma_project_task_listed(
    tasks: Seq<RecordView>,
    i: int,
    new: RecordView,
    payload: CreateView,
    name: Seq<char>,
)
    requires
        distinct_uuids(tasks),
        0 <= i < tasks.len(),
        state_of(tasks[i]) == created_in_project(state_of(new), payload, name),
    ensures
        tasks.filter(of_project(name)).contains(tasks[i]),
        listed_once(newest_first(tasks.filter(of_project(name))), tasks[i]),
        tasks[i].project == Some(name),
        project_names(tasks).contains(name),
{
    broadcast use vstd::seq_lib::to_multiset_contains;

    assert(tasks.contains(tasks[i]));
    lemma_filter_membership(tasks, of_project(name), tasks[i]);
    let chosen = tasks.filter(of_project(name));
    lemma_newest_first_is_permutation(chosen);
    assert(chosen.to_multiset().count(tasks[i]) > 0);
    let listed = newest_first(chosen);
    assert(listed.to_multiset().count(tasks[i]) > 0);
    assert(listed.contains(tasks[i]));
    lemma_filter_keeps_distinct(tasks, of_project(name));
    lemma_newest_first_keeps_distinct(chosen);
    let j = choose|j: int| 0 <= j < listed.len() && listed[j] == tasks[i];
    assert forall|k: int| 0 <= k < listed.len() && (#[trigger] listed[k]).uuid == tasks[i].uuid
        implies k == j by {
        if k < j {
            assert(listed[k].uuid != listed[j].uuid);
        } else if j < k {
            assert(listed[j].uuid != listed[k].uuid);
        }
    }
    assert(listed[j] == tasks[i]);
}

/// Creating a task in a project: the edits that fill the new task `task`
/// from the request and then set its project, answered with 201 Created.
/// An invalid tag or priority makes it a bad request.
pub fn create_project_task(task: &TaskRecord, project_name: String, payload: CreateTaskRequest) -> (r:
    Result<WritePlan, ApiError>)
    ensures
        r is Ok <==> create_part(task@, payload@) is Some,
        r matches Err(e) ==> e == ApiError::BadRequest,
        r matches Ok(plan) ==> {
            &&& plan.success_status == 201
            &&& edit_views(plan.edits@) == create_part(task@, payload@).unwrap() + seq![
                EditView::SetProject(Some(project_name@)),
            ]
            &&& apply_edits(state_of(task@), edit_views(plan.edits@)) == created_in_project(
                state_of(task@),
                payload@,
                project_name@,
            )
        },
{
    let ghost name = project_name@;
    let mut ops: Vec<TaskEdit> = Vec::new();
    fill_task_from_create_request(task, payload, &mut ops)?;
    let ghost filled = edit_views(ops@);
    ops.push(TaskEdit::SetProject(Some(project_name)));
    let ghost last = seq![EditView::SetProject(Some(name))];
    assert(edit_views(ops@) =~= filled + last);
    proof {
        assert(filled =~= create_part(task@, payload@).unwrap());
        lemma_apply_edits_append(state_of(task@), filled, last);
        lemma_apply_single(apply_edits(state_of(task@), filled), EditView::SetProject(Some(name)));
    }
    Ok(WritePlan { edits: ops, success_status: 201 })
}

} // verus!
