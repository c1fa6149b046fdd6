//! The decisions of the service's request handlers.
//!
//! A handler that changes a task does not change it here: it computes a
//! `WritePlan`, the edits to make to the stored task and the status to
//! answer with, and the caller makes the edits.  `TaskState` models what
//! the edits change, so that the contracts can say what a later read gives back.
use vstd::prelude::*;

use crate::models::{RecordView, TaskStatus};
use crate::tag::{TagKind, spec_tag_kind};
use crate::text::{ascii_uppercase, spec_to_uppercase, text_eq, to_uppercase};
use vstd::utf8::is_ascii_chars;

pub mod helpers;
pub mod projects;
pub mod system;
pub mod tags;
pub mod tasks;

verus! {

broadcast use vstd::seq_lib::group_seq_properties;

// ============================================
// PRIORITY
// ============================================

/// The priority of a task.
#[derive(Debug, Clone, Copy, PartialEq, Eq, Structural)]
pub enum Priority {
    High,
    Medium,
    Low,
    Unset,
}

/// The priority that an uppercased name denotes.
pub open spec fn priority_from_upper(u: Seq<char>) -> Option<Priority> {
    if u == "H"@ || u == "HIGH"@ {
        Some(Priority::High)
    } else if u == "M"@ || u == "MEDIUM"@ {
        Some(Priority::Medium)
    } else if u == "L"@ || u == "LOW"@ {
        Some(Priority::Low)
    } else if u == ""@ || u == "NONE"@ {
        Some(Priority::Unset)
    } else {
        Option::None
    }
}

/// The priority that a name denotes, in any case.
pub open spec fn parsed_priority(s: Seq<char>) -> Option<Priority> {
    priority_from_upper(spec_to_uppercase(s))
}

/// How a priority is stored.
pub open spec fn priority_label(p: Priority) -> Seq<char> {
    match p {
        Priority::High => "H"@,
        Priority::Medium => "M"@,
        Priority::Low => "L"@,
        Priority::Unset => ""@,
    }
}

impl Priority {
    /// The priority that an uppercased name denotes: `H`/`HIGH`, `M`/`MEDIUM`,
    /// `L`/`LOW`, or the empty name or `NONE` for no priority.
    pub fn from_upper(upper: &str) -> (r: Option<Priority>)
        ensures
            r == priority_from_upper(upper@),
    {
        if text_eq(upper, "H") || text_eq(upper, "HIGH") {
            Some(Priority::High)
        } else if text_eq(upper, "M") || text_eq(upper, "MEDIUM") {
            Some(Priority::Medium)
        } else if text_eq(upper, "L") || text_eq(upper, "LOW") {
            Some(Priority::Low)
        } else if text_eq(upper, "") || text_eq(upper, "NONE") {
            Some(Priority::Unset)
        } else {
            Option::None
        }
    }

    /// The priority that `value` names, in any case; `Err(())` for any other name.
    pub fn try_from(value: &str) -> (r: Result<Priority, ()>)
        ensures
            r == (match parsed_priority(value@) {
                Some(p) => Ok::<Priority, ()>(p),
                Option::None => Err(()),
            }),
    {
        let upper = to_uppercase(value);
        match Priority::from_upper(upper.as_str()) {
            Some(p) => Ok(p),
            Option::None => Err(()),
        }
    }

    /// How this priority is stored: `H`, `M`, `L`, or empty for none.
    pub fn label(self) -> (r: String)
        ensures
            r@ == priority_label(self),
            r@.len() == (if self is Unset {
                0nat
            } else {
                1nat
            }),
            priority_from_upper(r@) == Some(self),
    {
        proof {
            lemma_priority_label_is_shortest_name(self, priority_label(self));
        }
        match self {
            Priority::High => String::from_str("H"),
            Priority::Medium => String::from_str("M"),
            Priority::Low => String::from_str("L"),
            Priority::Unset => String::from_str(""),
        }
    }
}

impl From<Priority> for String {
    /// How a priority is stored (see `Priority::label`).
    fn from(priority: Priority) -> (r: String)
        ensures
            r@ == priority_label(priority),
    {
        priority.label()
    }
}

impl vstd::std_specs::convert::FromSpecImpl<Priority> for String {
    /// No result is claimed through this trait: `from` above states its
    /// result by the string's view.
    open spec fn obeys_from_spec() -> bool {
        false
    }

    open spec fn from_spec(v: Priority) -> String {
        arbitrary()
    }
}

/// Law: the stored form of a priority, uppercased as ASCII text is, names
/// that priority again; with the contract of `to_uppercase` on ASCII text,
/// `Priority::try_from(&p.label())` gives `Ok(p)`.
pub proof fn lemma_priority_label_round_trip(p: Priority)
    ensures
        is_ascii_chars(priority_label(p)),
        priority_from_upper(ascii_uppercase(priority_label(p))) == Some(p),
{
    reveal_strlit("H");
    reveal_strlit("M");
    reveal_strlit("L");
    reveal_strlit("");
    reveal_strlit("HIGH");
    reveal_strlit("MEDIUM");
    reveal_strlit("LOW");
    reveal_strlit("NONE");
    let l = priority_label(p);
    assert(ascii_uppercase(l) =~= l);
    match p {
        Priority::High => {},
        Priority::Medium => {
            assert(l[0] != "H"@[0]);
            assert(l.len() != "HIGH"@.len());
        },
        Priority::Low => {
            assert(l[0] != "H"@[0]);
            assert(l[0] != "M"@[0]);
            assert(l.len() != "HIGH"@.len());
            assert(l.len() != "MEDIUM"@.len());
        },
        Priority::Unset => {
            assert(l.len() == 0);
            assert(l != "H"@ && l != "HIGH"@ && l != "M"@ && l != "MEDIUM"@ && l != "L"@ && l != "LOW"@);
        },
    }
}

/// Law: a priority is stored as its shortest name, Taskchampion's one-letter
/// value: one letter for a set priority and nothing for none, a name that
/// denotes the priority again, and no name of the priority is shorter.
pub proof fn lemma_priority_label_is_shortest_name(p: Priority, u: Seq<char>)
    ensures
        priority_label(p).len() == (if p is Unset {
            0nat
        } else {
            1nat
        }),
        priority_from_upper(priority_label(p)) == Some(p),
        priority_from_upper(u) == Some(p) ==> priority_label(p).len() <= u.len(),
{
    reveal_strlit("H");
    reveal_strlit("M");
    reveal_strlit("L");
    reveal_strlit("");
    reveal_strlit("HIGH");
    reveal_strlit("MEDIUM");
    reveal_strlit("LOW");
    reveal_strlit("NONE");
    lemma_priority_label_round_trip(p);
    assert(ascii_uppercase(priority_label(p)) =~= priority_label(p));
}

// ============================================
// ERRORS
// ============================================

/// Why a request fails.
#[derive(Debug, Clone, Copy, PartialEq, Eq, Structural)]
pub enum ApiError {
    /// The request names something invalid (a tag, a status, a priority).
    BadRequest,
    /// The task, project or tag asked for is not there.
    NotFound,
    /// The store failed.
    Internal,
}

pub open spec fn error_status(e: ApiError) -> u16 {
    match e {
        ApiError::BadRequest => 400,
        ApiError::NotFound => 404,
        ApiError::Internal => 500,
    }
}

impl ApiError {
    /// The HTTP status code of the answer.
    pub fn status_code(&self) -> (c: u16)
        ensures
            c == error_status(*self),
    {
        match self {
            ApiError::BadRequest => 400,
            ApiError::NotFound => 404,
            ApiError::Internal => 500,
        }
    }
}

// ============================================
// EDITS AND WHAT THEY DO
// ============================================

/// One change to a stored task.
#[derive(Debug)]
pub enum TaskEdit {
    SetStatus(TaskStatus),
    SetDescription(String),
    AddTag(String),
    RemoveTag(String),
    SetPriority(String),
    SetDue(i64),
    /// Sets the project, or clears it.
    SetProject(Option<String>),
}

/// A change to a stored task as a mathematical value.
pub enum EditView {
    SetStatus(TaskStatus),
    SetDescription(Seq<char>),
    AddTag(Seq<char>),
    RemoveTag(Seq<char>),
    SetPriority(Seq<char>),
    SetDue(i64),
    SetProject(Option<Seq<char>>),
}

impl View for TaskEdit {
    type V = EditView;

    open spec fn view(&self) -> EditView {
        match self {
            TaskEdit::SetStatus(s) => EditView::SetStatus(*s),
            TaskEdit::SetDescription(d) => EditView::SetDescription(d@),
            TaskEdit::AddTag(t) => EditView::AddTag(t@),
            TaskEdit::RemoveTag(t) => EditView::RemoveTag(t@),
            TaskEdit::SetPriority(p) => EditView::SetPriority(p@),
            TaskEdit::SetDue(d) => EditView::SetDue(*d),
            TaskEdit::SetProject(p) => EditView::SetProject(crate::models::opt_text(*p)),
        }
    }
}

/// The views of a list of edits.
pub open spec fn edit_views(v: Seq<TaskEdit>) -> Seq<EditView> {
    v.map_values(|e: TaskEdit| e@)
}

/// What a handler that changes a task decided: the edits, in order, and the
/// HTTP status to answer with once they are committed.
#[derive(Debug)]
pub struct WritePlan {
    pub edits: Vec<TaskEdit>,
    pub success_status: u16,
}

/// The part of a stored task that the edits change.
pub struct TaskState {
    pub description: Seq<char>,
    pub status: TaskStatus,
    pub user_tags: Set<Seq<char>>,
    pub priority: Seq<char>,
    pub due: Option<i64>,
    pub project: Option<Seq<char>>,
}

/// Whether a tag is one a user can add and remove.
pub open spec fn is_user_tag(t: Seq<char>) -> bool {
    spec_tag_kind(t) == TagKind::User
}

/// `is_user_tag` as a predicate.
pub open spec fn user_tag_pred() -> spec_fn(Seq<char>) -> bool {
    |t: Seq<char>| is_user_tag(t)
}

/// The user tags among a task's tags.
pub open spec fn user_tags_of(tags: Seq<Seq<char>>) -> Seq<Seq<char>> {
    tags.filter(user_tag_pred())
}

/// The state of a stored task.
pub open spec fn state_of(t: RecordView) -> TaskState {
    TaskState {
        description: t.description,
        status: t.status,
        user_tags: user_tags_of(t.tags).to_set(),
        priority: t.priority,
        due: t.due,
        project: t.project,
    }
}

/// What one edit does.
pub open spec fn apply_edit(st: TaskState, e: EditView) -> TaskState {
    match e {
        EditView::SetStatus(s) => TaskState { status: s, ..st },
        EditView::SetDescription(d) => TaskState { description: d, ..st },
        EditView::AddTag(t) => TaskState { user_tags: st.user_tags.insert(t), ..st },
        EditView::RemoveTag(t) => TaskState { user_tags: st.user_tags.remove(t), ..st },
        EditView::SetPriority(p) => TaskState { priority: p, ..st },
        EditView::SetDue(d) => TaskState { due: Some(d), ..st },
        EditView::SetProject(p) => TaskState { project: p, ..st },
    }
}

/// What a list of edits does, made in order.
pub open spec fn apply_edits(st: TaskState, es: Seq<EditView>) -> TaskState
    decreases es.len(),
{
    if es.len() == 0 {
        st
    } else {
        apply_edit(apply_edits(st, es.drop_last()), es.last())
    }
}

/// Making a single edit.
pub proof fn lemma_apply_single(st: TaskState, e: EditView)
    ensures
        apply_edits(st, seq![e]) == apply_edit(st, e),
{
    assert(seq![e].drop_last() =~= Seq::<EditView>::empty());
    assert(apply_edits(st, Seq::<EditView>::empty()) == st);
}

/// Making two lists of edits one after the other.
pub proof fn lemma_apply_edits_append(st: TaskState, a: Seq<EditView>, b: Seq<EditView>)
    ensures
        apply_edits(st, a + b) == apply_edits(apply_edits(st, a), b),
    decreases b.len(),
{
    if b.len() == 0 {
        assert(a + b =~= a);
    } else {
        lemma_apply_edits_append(st, a, b.drop_last());
        assert((a + b).drop_last() =~= a + b.drop_last());
    }
}

/// Removing each of a list of tags.
pub open spec fn removals(ts: Seq<Seq<char>>) -> Seq<EditView> {
    ts.map_values(|t: Seq<char>| EditView::RemoveTag(t))
}

/// Adding each of a list of tags.
pub open spec fn additions(ts: Seq<Seq<char>>) -> Seq<EditView> {
    ts.map_values(|t: Seq<char>| EditView::AddTag(t))
}

/// Removing tags leaves the rest of the task as it was.
pub proof fn lemma_apply_removals(st: TaskState, ts: Seq<Seq<char>>)
    ensures
        apply_edits(st, removals(ts)) == (TaskState {
            user_tags: st.user_tags.difference(ts.to_set()),
            ..st
        }),
    decreases ts.len(),
{
    if ts.len() == 0 {
        assert(st.user_tags.difference(ts.to_set()) =~= st.user_tags);
    } else {
        let rest = ts.drop_last();
        lemma_apply_removals(st, rest);
        assert(removals(ts).drop_last() =~= removals(rest));
        assert(ts.to_set() =~= rest.to_set().insert(ts.last())) by {
            assert(ts =~= rest.push(ts.last()));
        }
        assert(st.user_tags.difference(rest.to_set()).remove(ts.last()) =~= st.user_tags.difference(
            ts.to_set(),
        ));
    }
}

/// Adding tags leaves the rest of the task as it was.
pub proof fn lemma_apply_additions(st: TaskState, ts: Seq<Seq<char>>)
    ensures
        apply_edits(st, additions(ts)) == (TaskState {
            user_tags: st.user_tags.union(ts.to_set()),
            ..st
        }),
    decreases ts.len(),
{
    if ts.len() == 0 {
        assert(st.user_tags.union(ts.to_set()) =~= st.user_tags);
    } else {
        let rest = ts.drop_last();
        lemma_apply_additions(st, rest);
        assert(additions(ts).drop_last() =~= additions(rest));
        assert(ts.to_set() =~= rest.to_set().insert(ts.last())) by {
            assert(ts =~= rest.push(ts.last()));
        }
        assert(st.user_tags.union(rest.to_set()).insert(ts.last()) =~= st.user_tags.union(
            ts.to_set(),
        ));
    }
}

/// The edits that replace the user tags `current` by `wanted`: each current
/// user tag removed, then each wanted tag added, in order.
pub open spec fn retag_edits(current: Seq<Seq<char>>, wanted: Seq<Seq<char>>) -> Seq<EditView> {
    removals(user_tags_of(current)) + additions(wanted)
}

/// Law: replacing a task's tags leaves exactly the wanted tags as its user tags.
pub proof fn lemma_retag_replaces(t: RecordView, wanted: Seq<Seq<char>>, st: TaskState)
    requires
        st.user_tags == state_of(t).user_tags,
    ensures
        apply_edits(st, retag_edits(t.tags, wanted)) == (TaskState {
            user_tags: wanted.to_set(),
            ..st
        }),
{
    let cur = user_tags_of(t.tags);
    lemma_apply_edits_append(st, removals(cur), additions(wanted));
    lemma_apply_removals(st, cur);
    let mid = TaskState { user_tags: st.user_tags.difference(cur.to_set()), ..st };
    assert(mid.user_tags =~= Set::<Seq<char>>::empty());
    lemma_apply_additions(mid, wanted);
    assert(Set::<Seq<char>>::empty().union(wanted.to_set()) =~= wanted.to_set());
}

} // verus!
