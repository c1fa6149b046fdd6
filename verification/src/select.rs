//! Choosing, counting and showing tasks.
use vstd::prelude::*;

use crate::models::{RecordView, TaskRecord, TaskResponse, views};
use crate::order::lemma_filter_push;
use crate::text::text_eq;

verus! {

broadcast use vstd::seq_lib::group_seq_properties;

/// The task carries the tag `name` (user or synthetic).
pub open spec fn has_tag(t: RecordView, name: Seq<char>) -> bool {
    t.tags.contains(name)
}

/// The task belongs to the project `name`.
pub open spec fn in_project(t: RecordView, name: Seq<char>) -> bool {
    t.project == Some(name)
}

/// The task is not deleted.
pub open spec fn is_visible(t: RecordView) -> bool {
    !(t.status is Deleted)
}

/// Which tasks a request is about.
#[derive(Debug)]
pub enum Criterion {
    /// Tasks that are not deleted, with the tag and in the project, where these are given.
    Listed { tag: Option<String>, project: Option<String> },
    /// Tasks of a project, deleted ones too.
    InProject(String),
    /// Pending tasks of a project.
    PendingInProject(String),
    /// Tasks with a tag, deleted ones too.
    Tagged(String),
    /// Tasks with a tag that are not deleted.
    VisibleTagged(String),
}

impl Criterion {
    /// Whether the task is one this criterion chooses.
    pub open spec fn holds(self, t: RecordView) -> bool {
        match self {
            Criterion::Listed { tag, project } => {
                &&& is_visible(t)
                &&& (tag matches Some(x) ==> has_tag(t, x@))
                &&& (project matches Some(p) ==> in_project(t, p@))
            },
            Criterion::InProject(p) => in_project(t, p@),
            Criterion::PendingInProject(p) => in_project(t, p@) && t.status is Pending,
            Criterion::Tagged(x) => has_tag(t, x@),
            Criterion::VisibleTagged(x) => is_visible(t) && has_tag(t, x@),
        }
    }

    /// `holds` as a predicate.
    pub open spec fn pred(self) -> spec_fn(RecordView) -> bool {
        |t: RecordView| self.holds(t)
    }

    /// Whether the criterion chooses `t`.
    pub fn test(&self, t: &TaskRecord) -> (b: bool)
        ensures
            b == self.holds(t@),
    {
        match self {
            Criterion::Listed { tag, project } => {
                if t.status.is_deleted() {
                    return false;
                }
                match tag {
                    Some(x) => {
                        if !carries_tag(t, x.as_str()) {
                            return false;
                        }
                    },
                    None => {},
                }
                match project {
                    Some(p) => belongs_to(t, p.as_str()),
                    None => true,
                }
            },
            Criterion::InProject(p) => belongs_to(t, p.as_str()),
            Criterion::PendingInProject(p) => belongs_to(t, p.as_str()) && t.status.is_pending(),
            Criterion::Tagged(x) => carries_tag(t, x.as_str()),
            Criterion::VisibleTagged(x) => !t.status.is_deleted() && carries_tag(t, x.as_str()),
        }
    }
}

/// Whether the task carries the tag `name`.
pub fn carries_tag(t: &TaskRecord, name: &str) -> (b: bool)
    ensures
        b == has_tag(t@, name@),
        b == t@.tags.contains(name@),
{
    let n = t.tags.len();
    let mut i: usize = 0;
    while i < n
        invariant
            n == t.tags.len(),
            i <= n,
            forall|j: int| 0 <= j < i ==> t@.tags[j] != name@,
        decreases n - i,
    {
        if text_eq(t.tags[i].as_str(), name) {
            assert(t@.tags[i as int] == name@);
            return true;
        }
        i = i + 1;
    }
    false
}

/// Whether the task belongs to the project `name`.
pub fn belongs_to(t: &TaskRecord, name: &str) -> (b: bool)
    ensures
        b == in_project(t@, name@),
        b == (t@.project == Some(name@)),
{
    match &t.project {
        Some(p) => text_eq(p.as_str(), name),
        None => false,
    }
}

/// The tasks that the criterion chooses, in their order.
pub fn select(tasks: &Vec<TaskRecord>, c: &Criterion) -> (r: Vec<TaskRecord>)
    ensures
        views(r@) == views(tasks@).filter(c.pred()),
{
    let n = tasks.len();
    let mut out: Vec<TaskRecord> = Vec::new();
    let mut i: usize = 0;
    let ghost all = views(tasks@);
    assert(all.take(0) =~= Seq::<RecordView>::empty());
    assert(Seq::<RecordView>::empty().filter(c.pred()) =~= Seq::<RecordView>::empty()) by {
        reveal(Seq::filter);
    }
    assert(views(out@) =~= Seq::<RecordView>::empty());
    while i < n
        invariant
            n == tasks.len(),
            all == views(tasks@),
            i <= n,
            views(out@) == all.take(i as int).filter(c.pred()),
        decreases n - i,
    {
        proof {
            assert(all.take(i + 1) =~= all.take(i as int).push(all[i as int]));
            lemma_filter_push(all.take(i as int), c.pred(), all[i as int]);
        }
        if c.test(&tasks[i]) {
            let ghost prev = out@;
            out.push(tasks[i].duplicate());
            assert(views(out@) =~= views(prev).push(all[i as int]));
        }
        i = i + 1;
    }
    assert(all.take(n as int) =~= all);
    out
}

/// Tasks that are not deleted.
pub open spec fn visible_pred() -> spec_fn(RecordView) -> bool {
    |t: RecordView| is_visible(t)
}

/// An element is kept by a filter exactly when it is in the sequence and passes.
pub proof fn lemma_filter_membership<A>(s: Seq<A>, f: spec_fn(A) -> bool, x: A)
    ensures
        s.filter(f).contains(x) <==> (s.contains(x) && f(x)),
    decreases s.len(),
{
    if s.len() > 0 {
        let t = s.drop_last();
        lemma_filter_membership(t, f, x);
        assert(t.push(s.last()) =~= s);
        lemma_filter_push(t, f, s.last());
        if s.contains(x) && !t.contains(x) {
            let i = choose|i: int| 0 <= i < s.len() && s[i] == x;
            if i < t.len() {
                assert(t[i] == x);
            }
        }
        if t.contains(x) {
            let i = choose|i: int| 0 <= i < t.len() && t[i] == x;
            assert(s[i] == x);
        }
        if f(s.last()) {
            let ft = t.filter(f);
            let fs = ft.push(s.last());
            if fs.contains(x) && !ft.contains(x) {
                let i = choose|i: int| 0 <= i < fs.len() && fs[i] == x;
                if i < ft.len() {
                    assert(ft[i] == x);
                }
            }
            if ft.contains(x) {
                let i = choose|i: int| 0 <= i < ft.len() && ft[i] == x;
                assert(fs[i] == x);
            }
            assert(fs[ft.len() as int] == s.last());
        }
    } else {
        assert(s.filter(f) =~= s) by {
            reveal(Seq::filter);
        }
    }
}

/// Pending tasks.
pub open spec fn pending_pred() -> spec_fn(RecordView) -> bool {
    |t: RecordView| t.status is Pending
}

/// Completed tasks.
pub open spec fn completed_pred() -> spec_fn(RecordView) -> bool {
    |t: RecordView| t.status is Completed
}

/// Deleted tasks.
pub open spec fn deleted_pred() -> spec_fn(RecordView) -> bool {
    |t: RecordView| t.status is Deleted
}

/// Law: the pending, completed and deleted tasks together are no more than
/// all the tasks (the rest are recurring or of an unknown status).
pub proof fn lemma_status_counts_bounded(ts: Seq<RecordView>)
    ensures
        ts.filter(pending_pred()).len() + ts.filter(completed_pred()).len() + ts.filter(
            deleted_pred(),
        ).len() <= ts.len(),
    decreases ts.len(),
{
    if ts.len() == 0 {
        assert(ts.filter(pending_pred()) =~= ts) by { reveal(Seq::filter); }
        assert(ts.filter(completed_pred()) =~= ts) by { reveal(Seq::filter); }
        assert(ts.filter(deleted_pred()) =~= ts) by { reveal(Seq::filter); }
    } else {
        let t = ts.drop_last();
        lemma_status_counts_bounded(t);
        assert(t.push(ts.last()) =~= ts);
        lemma_filter_push(t, pending_pred(), ts.last());
        lemma_filter_push(t, completed_pred(), ts.last());
        lemma_filter_push(t, deleted_pred(), ts.last());
    }
}

/// How many of the tasks are pending, completed and deleted.
pub fn count_by_status(tasks: &Vec<TaskRecord>) -> (r: (usize, usize, usize))
    ensures
        r.0 == views(tasks@).filter(pending_pred()).len(),
        r.1 == views(tasks@).filter(completed_pred()).len(),
        r.2 == views(tasks@).filter(deleted_pred()).len(),
        r.0 + r.1 + r.2 <= tasks.len(),
{
    let n = tasks.len();
    let ghost all = views(tasks@);
    let mut pending: usize = 0;
    let mut completed: usize = 0;
    let mut deleted: usize = 0;
    let mut i: usize = 0;
    assert(all.take(0) =~= Seq::<RecordView>::empty());
    assert(Seq::<RecordView>::empty().filter(pending_pred()) =~= Seq::<RecordView>::empty()) by {
        reveal(Seq::filter);
    }
    assert(Seq::<RecordView>::empty().filter(completed_pred()) =~= Seq::<RecordView>::empty()) by {
        reveal(Seq::filter);
    }
    assert(Seq::<RecordView>::empty().filter(deleted_pred()) =~= Seq::<RecordView>::empty()) by {
        reveal(Seq::filter);
    }
    while i < n
        invariant
            n == tasks.len(),
            all == views(tasks@),
            i <= n,
            pending == all.take(i as int).filter(pending_pred()).len(),
            completed == all.take(i as int).filter(completed_pred()).len(),
            deleted == all.take(i as int).filter(deleted_pred()).len(),
            pending + completed + deleted <= i,
        decreases n - i,
    {
        proof {
            let before = all.take(i as int);
            assert(all.take(i + 1) =~= before.push(all[i as int]));
            lemma_filter_push(before, pending_pred(), all[i as int]);
            lemma_filter_push(before, completed_pred(), all[i as int]);
            lemma_filter_push(before, deleted_pred(), all[i as int]);
        }
        if tasks[i].status.is_pending() {
            pending = pending + 1;
        } else if tasks[i].status.is_completed() {
            completed = completed + 1;
        } else if tasks[i].status.is_deleted() {
            deleted = deleted + 1;
        }
        i = i + 1;
    }
    assert(all.take(n as int) =~= all);
    (pending, completed, deleted)
}

/// The responses show the tasks, one for one and in order.
pub open spec fn shows(rs: Seq<TaskResponse>, ts: Seq<RecordView>) -> bool {
    &&& rs.len() == ts.len()
    &&& forall|i: int| 0 <= i < ts.len() ==> (#[trigger] rs[i]).describes(ts[i])
}

/// The responses that show the tasks.
pub fn responses(tasks: &Vec<TaskRecord>) -> (r: Vec<TaskResponse>)
    ensures
        shows(r@, views(tasks@)),
{
    let n = tasks.len();
    let mut out: Vec<TaskResponse> = Vec::new();
    let mut i: usize = 0;
    while i < n
        invariant
            n == tasks.len(),
            i <= n,
            out.len() == i,
            forall|j: int| 0 <= j < i ==> (#[trigger] out@[j]).describes(views(tasks@)[j]),
        decreases n - i,
    {
        out.push(TaskResponse::from_task(&tasks[i]));
        i = i + 1;
    }
    out
}

} // verus!
