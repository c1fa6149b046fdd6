//! Handlers of tags: user tags, and the synthetic tags Taskchampion derives.
use vstd::prelude::*;

use crate::handlers::helpers::{create_part, created_state, fill_task_from_create_request};
use crate::handlers::{ApiError, TaskEdit, TaskState, WritePlan, apply_edits, edit_views, state_of};
use crate::models::{CreateTaskRequest, CreateView, RecordView, TaskRecord, TaskResponse, views};
use crate::order::{
    lemma_filter_keeps_sorted, lemma_newest_first_is_sorted,
    lemma_newest_first_of_sorted, lemma_take_keeps_sorted, newest_first, sort_newest_first,
};
use crate::handlers::projects::first_n;
use crate::select::{
    Criterion, completed_pred, count_by_status, deleted_pred, has_tag, is_visible,
    lemma_filter_membership, pending_pred,
    responses, select, shows, visible_pred,
};
use crate::tag::{TagKind, spec_tag_kind, tag_kind};
use crate::text::{
    ascending_list, holds_exactly, insert_ascending, lemma_is_ascending_list, strictly_ascending,
    text_eq, texts,
};

verus! {

broadcast use vstd::seq_lib::group_seq_properties;

/// How many tasks carry a tag, by status.
#[derive(Debug)]
pub struct TagStats {
    pub name: String,
    pub task_count: usize,
    pub pending_count: usize,
    pub completed_count: usize,
    pub deleted_count: usize,
}

/// How many tasks carry a tag, by status, with a preview of the newest ones.
#[derive(Debug)]
pub struct TagDetails {
    pub name: String,
    pub task_count: usize,
    pub pending_count: usize,
    pub completed_count: usize,
    pub deleted_count: usize,
    pub tasks_preview: Vec<TaskResponse>,
}

/// The tags of tasks that are not deleted.
pub open spec fn tag_names(ts: Seq<RecordView>) -> Set<Seq<char>> {
    Set::new(
        |t: Seq<char>|
            exists|i: int| 0 <= i < ts.len() && is_visible(ts[i]) && #[trigger] ts[i].tags.contains(t),
    )
}

/// The tags of the tasks that are not deleted, each once, in ascending order.
pub fn list_tags(tasks: &Vec<TaskRecord>) -> (r: Vec<String>)
    ensures
        strictly_ascending(texts(r@)),
        holds_exactly(texts(r@), tag_names(views(tasks@))),
        texts(r@) == ascending_list(tag_names(views(tasks@))),
{
    let n = tasks.len();
    let ghost all = views(tasks@);
    let mut out: Vec<String> = Vec::new();
    let mut i: usize = 0;
    assert(texts(out@) =~= Seq::<Seq<char>>::empty());
    while i < n
        invariant
            n == tasks.len(),
            all == views(tasks@),
            i <= n,
            strictly_ascending(texts(out@)),
            holds_exactly(texts(out@), tag_names(all.take(i as int))),
        decreases n - i,
    {
        let ghost prefix = all.take(i as int);
        let ghost next = all.take(i + 1);
        let task = &tasks[i];
        let visible = !task.status.is_deleted();
        let ghost start = texts(out@);
        if visible {
            let m = task.tags.len();
            let mut j: usize = 0;
            while j < m
                invariant
                    m == task.tags.len(),
                    j <= m,
                    strictly_ascending(texts(out@)),
                    forall|q: Seq<char>| #[trigger]
                        texts(out@).contains(q) <==> (start.contains(q) || task@.tags.take(
                            j as int,
                        ).contains(q)),
                decreases m - j,
            {
                let ghost before = texts(out@);
                insert_ascending(&mut out, task.tags[j].clone());
                assert forall|q: Seq<char>| #[trigger]
                    texts(out@).contains(q) <==> (start.contains(q) || task@.tags.take(
                        j + 1,
                    ).contains(q)) by {
                    assert(task@.tags.take(j + 1) =~= task@.tags.take(j as int).push(
                        task@.tags[j as int],
                    ));
                }
                j = j + 1;
            }
            assert(task@.tags.take(m as int) =~= task@.tags);
        }
        assert forall|q: Seq<char>| #[trigger]
            texts(out@).contains(q) <==> tag_names(next).contains(q) by {
            if tag_names(prefix).contains(q) {
                let k = choose|k: int|
                    0 <= k < prefix.len() && is_visible(prefix[k]) && prefix[k].tags.contains(q);
                assert(next[k] == prefix[k]);
            }
            if tag_names(next).contains(q) {
                let k = choose|k: int|
                    0 <= k < next.len() && is_visible(next[k]) && next[k].tags.contains(q);
                if k < i {
                    assert(prefix[k] == next[k]);
                    assert(tag_names(prefix).contains(q));
                } else {
                    assert(next[k] == task@);
                }
            }
            if visible && task@.tags.contains(q) {
                assert(next[i as int] == task@);
            }
        }
        i = i + 1;
    }
    assert(all.take(n as int) =~= all);
    proof {
        lemma_is_ascending_list(texts(out@), tag_names(all));
    }
    out
}

/// Law: the tag list depends on which tasks there are, not on the order in
/// which they are given.
pub proof fn lemma_tag_list_order_free(a: Seq<RecordView>, b: Seq<RecordView>)
    requires
        forall|t: RecordView| #[trigger] a.contains(t) <==> b.contains(t),
    ensures
        ascending_list(tag_names(a)) == ascending_list(tag_names(b)),
{
    assert forall|q: Seq<char>| tag_names(a).contains(q) <==> tag_names(b).contains(q) by {
        if tag_names(a).contains(q) {
            let i = choose|i: int| 0 <= i < a.len() && is_visible(a[i]) && a[i].tags.contains(q);
            assert(a.contains(a[i]));
            let j = choose|j: int| 0 <= j < b.len() && b[j] == a[i];
            assert(b[j].tags.contains(q));
        }
        if tag_names(b).contains(q) {
            let i = choose|i: int| 0 <= i < b.len() && is_visible(b[i]) && b[i].tags.contains(q);
            assert(b.contains(b[i]));
            assert(a.contains(b[i]));
            let j = choose|j: int| 0 <= j < a.len() && a[j] == b[i];
            assert(a[j].tags.contains(q));
        }
    }
    assert(tag_names(a) =~= tag_names(b));
}

/// The tasks that carry the tag `name`, deleted ones too.
pub open spec fn tagged(name: Seq<char>) -> spec_fn(RecordView) -> bool {
    |t: RecordView| has_tag(t, name)
}

/// The tasks that carry the tag `name` and are not deleted.
pub open spec fn visible_tagged(name: Seq<char>) -> spec_fn(RecordView) -> bool {
    |t: RecordView| is_visible(t) && has_tag(t, name)
}

/// Law: a task counts under a tag exactly when the tag is among its tags,
/// synthetic tags and deleted tasks included; so every tag that the tag list
/// names has at least one task under it, and one that is not deleted.
pub proof fn lemma_tag_counts_every_carrier(tasks: Seq<RecordView>, name: Seq<char>)
    ensures
        forall|i: int|
            0 <= i < tasks.len() ==> (#[trigger] tasks.filter(tagged(name)).contains(tasks[i])
                <==> tasks[i].tags.contains(name)),
        forall|i: int|
            0 <= i < tasks.len() ==> (#[trigger] tasks.filter(visible_tagged(name)).contains(tasks[i])
                <==> (tasks[i].tags.contains(name) && !(tasks[i].status is Deleted))),
        tag_names(tasks).contains(name) ==> tasks.filter(tagged(name)).len() > 0,
        tag_names(tasks).contains(name) ==> tasks.filter(visible_tagged(name)).len() > 0,
{
    assert forall|i: int| 0 <= i < tasks.len() implies (#[trigger] tasks.filter(
        tagged(name),
    ).contains(tasks[i]) <==> tasks[i].tags.contains(name)) by {
        assert(tasks.contains(tasks[i]));
        lemma_filter_membership(tasks, tagged(name), tasks[i]);
    }
    assert forall|i: int| 0 <= i < tasks.len() implies (#[trigger] tasks.filter(
        visible_tagged(name),
    ).contains(tasks[i]) <==> (tasks[i].tags.contains(name) && !(tasks[i].status is Deleted))) by {
        assert(tasks.contains(tasks[i]));
        lemma_filter_membership(tasks, visible_tagged(name), tasks[i]);
    }
    if tag_names(tasks).contains(name) {
        let i = choose|i: int|
            0 <= i < tasks.len() && is_visible(tasks[i]) && #[trigger] tasks[i].tags.contains(name);
        assert(tasks.filter(tagged(name)).contains(tasks[i]));
        assert(tasks.filter(visible_tagged(name)).contains(tasks[i]));
    }
}

/// The counts of the tasks that carry a tag, by status: a name that is not
/// a tag is a bad request, and a tag that no task carries is not found.
pub fn get_tag_stats(tasks: &Vec<TaskRecord>, tag_name: String) -> (r: Result<TagStats, ApiError>)
    ensures
        ({
            let chosen = views(tasks@).filter(tagged(tag_name@));
            &&& spec_tag_kind(tag_name@) == TagKind::Invalid ==> r == Err::<TagStats, ApiError>(
                ApiError::BadRequest,
            )
            &&& spec_tag_kind(tag_name@) != TagKind::Invalid ==> {
                &&& r is Err <==> chosen.len() == 0
                &&& r matches Err(e) ==> e == ApiError::NotFound
                &&& r matches Ok(s) ==> {
                    &&& s.name@ == tag_name@
                    &&& s.task_count == chosen.len()
                    &&& s.pending_count == chosen.filter(pending_pred()).len()
                    &&& s.completed_count == chosen.filter(completed_pred()).len()
                    &&& s.deleted_count == chosen.filter(deleted_pred()).len()
                }
            }
        }),
{
    if tag_kind(tag_name.as_str()) == TagKind::Invalid {
        return Err(ApiError::BadRequest);
    }
    let c = Criterion::Tagged(tag_name.clone());
    let chosen = select(tasks, &c);
    assert(c.pred() =~= tagged(tag_name@));
    let task_count = chosen.len();
    if task_count == 0 {
        return Err(ApiError::NotFound);
    }
    let (pending_count, completed_count, deleted_count) = count_by_status(&chosen);
    Ok(TagStats { name: tag_name, task_count, pending_count, completed_count, deleted_count })
}

/// How many tasks a tag preview shows.
pub const TAG_PREVIEW_LEN: usize = 5;

/// The counts of the tasks that carry a tag, by status, and a preview: of
/// those tasks newest first, the first five that are not deleted.  A name
/// that is not a tag is a bad request, and a tag that no task carries is
/// not found.
pub fn get_tag_details(tasks: &Vec<TaskRecord>, tag_name: String) -> (r: Result<
    TagDetails,
    ApiError,
>)
    ensures
        ({
            let chosen = views(tasks@).filter(tagged(tag_name@));
            &&& spec_tag_kind(tag_name@) == TagKind::Invalid ==> r == Err::<TagDetails, ApiError>(
                ApiError::BadRequest,
            )
            &&& spec_tag_kind(tag_name@) != TagKind::Invalid ==> {
                &&& r is Err <==> chosen.len() == 0
                &&& r matches Err(e) ==> e == ApiError::NotFound
                &&& r matches Ok(d) ==> {
                    &&& d.name@ == tag_name@
                    &&& d.task_count == chosen.len()
                    &&& d.pending_count == chosen.filter(pending_pred()).len()
                    &&& d.completed_count == chosen.filter(completed_pred()).len()
                    &&& d.deleted_count == chosen.filter(deleted_pred()).len()
                    &&& shows(
                        d.tasks_preview@,
                        first_n(
                            newest_first(chosen).filter(visible_pred()),
                            TAG_PREVIEW_LEN as int,
                        ),
                    )
                }
            }
        }),
{
    if tag_kind(tag_name.as_str()) == TagKind::Invalid {
        return Err(ApiError::BadRequest);
    }
    let c = Criterion::Tagged(tag_name.clone());
    let matching = select(tasks, &c);
    assert(c.pred() =~= tagged(tag_name@));
    let task_count = matching.len();
    if task_count == 0 {
        return Err(ApiError::NotFound);
    }
    let (pending_count, completed_count, deleted_count) = count_by_status(&matching);
    let sorted = sort_newest_first(&matching);
    let ghost ordered = views(sorted@);
    let n = sorted.len();
    let mut preview: Vec<TaskRecord> = Vec::new();
    let mut i: usize = 0;
    let ghost kept = ordered.filter(visible_pred());
    assert(ordered.take(0) =~= Seq::<RecordView>::empty());
    assert(Seq::<RecordView>::empty().filter(visible_pred()) =~= Seq::<RecordView>::empty()) by {
        reveal(Seq::filter);
    }
    assert(views(preview@) =~= Seq::<RecordView>::empty());
    while i < n
        invariant
            n == sorted.len(),
            ordered == views(sorted@),
            i <= n,
            views(preview@) == first_n(
                ordered.take(i as int).filter(visible_pred()),
                TAG_PREVIEW_LEN as int,
            ),
        decreases n - i,
    {
        let ghost before = ordered.take(i as int).filter(visible_pred());
        proof {
            assert(ordered.take(i + 1) =~= ordered.take(i as int).push(ordered[i as int]));
            crate::order::lemma_filter_push(ordered.take(i as int), visible_pred(), ordered[i as int]);
        }
        if preview.len() < TAG_PREVIEW_LEN && !sorted[i].status.is_deleted() {
            let ghost prev = preview@;
            preview.push(sorted[i].duplicate());
            assert(views(preview@) =~= views(prev).push(ordered[i as int]));
        } else {
            proof {
                if !(sorted@[i as int].status is Deleted) {
                    let after = before.push(ordered[i as int]);
                    assert(after.take(TAG_PREVIEW_LEN as int) =~= before.take(TAG_PREVIEW_LEN as int));
                }
            }
        }
        i = i + 1;
    }
    assert(ordered.take(n as int) =~= ordered);
    let again = sort_newest_first(&preview);
    proof {
        lemma_newest_first_is_sorted(views(matching@));
        lemma_filter_keeps_sorted(ordered, visible_pred());
        if kept.len() > TAG_PREVIEW_LEN {
            lemma_take_keeps_sorted(kept, TAG_PREVIEW_LEN as int);
        }
        lemma_newest_first_of_sorted(views(preview@));
    }
    let tasks_preview = responses(&again);
    Ok(
        TagDetails {
            name: tag_name,
            task_count,
            pending_count,
            completed_count,
            deleted_count,
            tasks_preview,
        },
    )
}

/// The tasks that carry a tag and are not deleted, newest first, shown.  A
/// name that is not a tag is a bad request, and when no such task is there
/// the tag is not found.
pub fn get_tag_tasks(tasks: &Vec<TaskRecord>, tag_name: &str) -> (r: Result<
    Vec<TaskResponse>,
    ApiError,
>)
    ensures
        ({
            let chosen = views(tasks@).filter(visible_tagged(tag_name@));
            &&& spec_tag_kind(tag_name@) == TagKind::Invalid ==> r is Err && r->Err_0
                == ApiError::BadRequest
            &&& spec_tag_kind(tag_name@) != TagKind::Invalid ==> {
                &&& r is Err <==> chosen.len() == 0
                &&& r matches Err(e) ==> e == ApiError::NotFound
                &&& r matches Ok(v) ==> shows(v@, newest_first(chosen))
            }
        }),
{
    if tag_kind(tag_name) == TagKind::Invalid {
        return Err(ApiError::BadRequest);
    }
    let c = Criterion::VisibleTagged(tag_name.to_string());
    let matching = select(tasks, &c);
    assert(c.pred() =~= visible_tagged(tag_name@));
    if matching.len() == 0 {
        return Err(ApiError::NotFound);
    }
    let sorted = sort_newest_first(&matching);
    Ok(responses(&sorted))
}

/// Whether the list holds the text `s`.
pub fn contains_text(v: &Vec<String>, s: &str) -> (b: bool)
    ensures
        b == texts(v@).contains(s@),
{
    let n = v.len();
    let mut i: usize = 0;
    while i < n
        invariant
            n == v.len(),
            i <= n,
            forall|j: int| 0 <= j < i ==> texts(v@)[j] != s@,
        decreases n - i,
    {
        if text_eq(v[i].as_str(), s) {
            assert(texts(v@)[i as int] == s@);
            return true;
        }
        i = i + 1;
    }
    false
}

/// The tags of a creation request with `name` added at the end, unless it is there.
pub open spec fn with_tag(tags: Option<Seq<Seq<char>>>, name: Seq<char>) -> Seq<Seq<char>> {
    let ts = match tags {
        Some(t) => t,
        None => Seq::<Seq<char>>::empty(),
    };
    if ts.contains(name) {
        ts
    } else {
        ts.push(name)
    }
}

/// A creation request with the tag `name` among its tags.
pub open spec fn tagged_request(payload: CreateView, name: Seq<char>) -> CreateView {
    CreateView { tags: Some(with_tag(payload.tags, name)), ..payload }
}

/// Law: creating under a tag keeps every tag the request gives and adds the
/// path's tag: the new task's user tags are the request's tags plus `name`.
/// The request's tags keep their order, and `name` comes after them when it
/// is not among them.
pub proof fn lemma_tag_joins_request_tags(st: TaskState, payload: CreateView, name: Seq<char>)
    ensures
        ({
            let ts = match payload.tags {
                Some(t) => t,
                None => Seq::<Seq<char>>::empty(),
            };
            let w = tagged_request(payload, name).tags.unwrap();
            &&& w.take(ts.len() as int) == ts
            &&& w.len() == (if ts.contains(name) {
                ts.len()
            } else {
                ts.len() + 1
            })
        }),
        created_state(st, tagged_request(payload, name)).user_tags == (match payload.tags {
            Some(ts) => ts.to_set(),
            None => Set::<Seq<char>>::empty(),
        }).insert(name),
{
    let ts = match payload.tags {
        Some(t) => t,
        None => Seq::<Seq<char>>::empty(),
    };
    let w = with_tag(payload.tags, name);
    assert forall|x: Seq<char>| #[trigger] w.to_set().contains(x) <==> ts.to_set().insert(name).contains(x) by {
        if ts.contains(name) {
            assert(w == ts);
        } else {
            assert(w == ts.push(name));
            if ts.contains(x) {
                let k = choose|k: int| 0 <= k < ts.len() && ts[k] == x;
                assert(w[k] == x);
            }
            if w.contains(x) {
                let k = choose|k: int| 0 <= k < w.len() && w[k] == x;
                if k < ts.len() {
                    assert(ts[k] == x);
                }
            }
            assert(w[ts.len() as int] == name);
        }
    }
    assert(w.to_set() =~= ts.to_set().insert(name));
    assert(w.take(ts.len() as int) =~= ts);
    assert(ts.to_set() =~= (match payload.tags {
        Some(t) => t.to_set(),
        None => Set::<Seq<char>>::empty(),
    }));
}

/// Creating a task that carries a tag: a name that is not a tag is a bad
/// request; otherwise the tag joins the request's tags and the new task
/// `task` is filled from the request, answered with 200 OK.
pub fn create_task_with_tag(task: &TaskRecord, tag_name: String, payload: CreateTaskRequest) -> (r:
    Result<WritePlan, ApiError>)
    ensures
        spec_tag_kind(tag_name@) == TagKind::Invalid ==> r is Err && r->Err_0 == ApiError::BadRequest,
        spec_tag_kind(tag_name@) != TagKind::Invalid ==> {
            let req = tagged_request(payload@, tag_name@);
            &&& r is Ok <==> create_part(task@, req) is Some
            &&& r matches Err(e) ==> e == ApiError::BadRequest
            &&& r matches Ok(plan) ==> {
                &&& plan.success_status == 200
                &&& edit_views(plan.edits@) == create_part(task@, req).unwrap()
                &&& apply_edits(state_of(task@), edit_views(plan.edits@)) == created_state(
                    state_of(task@),
                    req,
                )
                &&& apply_edits(state_of(task@), edit_views(plan.edits@)).user_tags.contains(
                    tag_name@,
                )
                &&& apply_edits(state_of(task@), edit_views(plan.edits@)).user_tags == (
                match payload@.tags {
                    Some(ts) => ts.to_set(),
                    None => Set::<Seq<char>>::empty(),
                }).insert(tag_name@)
            }
        },
{
    if tag_kind(tag_name.as_str()) == TagKind::Invalid {
        return Err(ApiError::BadRequest);
    }
    let ghost name = tag_name@;
    let ghost whole = payload@;
    let CreateTaskRequest { description, tags, priority, due, project } = payload;
    let mut tags = match tags {
        Some(t) => t,
        None => Vec::new(),
    };
    let ghost given = texts(tags@);
    if !contains_text(&tags, tag_name.as_str()) {
        tags.push(tag_name);
        assert(texts(tags@) =~= given.push(name));
    }
    let request = CreateTaskRequest { description, tags: Some(tags), priority, due, project };
    assert(request@ == tagged_request(whole, name));
    let mut ops: Vec<TaskEdit> = Vec::new();
    fill_task_from_create_request(task, request, &mut ops)?;
    assert(edit_views(ops@) =~= create_part(task@, tagged_request(whole, name)).unwrap());
    proof {
        lemma_tag_joins_request_tags(state_of(task@), whole, name);
        let ts = with_tag(whole.tags, name);
        if ts.contains(name) {
            let k = choose|k: int| 0 <= k < ts.len() && ts[k] == name;
            assert(ts.to_set().contains(ts[k]));
        } else {
            assert(ts.push(name).to_set().contains(name)) by {
                assert(ts.push(name)[ts.len() as int] == name);
            }
        }
    }
    Ok(WritePlan { edits: ops, success_status: 200 })
}

} // verus!
