//! The data the service reads and answers with.
//!
//! A `TaskRecord` holds, as plain values, what the service reads of a stored
//! Taskchampion task; timestamps are seconds since the Unix epoch.
use vstd::prelude::*;
use vstd::string::*;

use crate::text::{spec_debug_text, spec_to_lowercase, texts, to_lowercase, debug_text};

verus! {

/// The status of a task, as Taskchampion stores it.
#[derive(Debug)]
pub enum TaskStatus {
    Pending,
    Completed,
    Deleted,
    Recurring,
    /// A status that Taskchampion does not recognise, as stored.
    Unknown(String),
}

/// How a status is shown: the lowercase of its `Debug` form.
pub open spec fn status_label(s: TaskStatus) -> Seq<char> {
    match s {
        TaskStatus::Pending => "pending"@,
        TaskStatus::Completed => "completed"@,
        TaskStatus::Deleted => "deleted"@,
        TaskStatus::Recurring => "recurring"@,
        TaskStatus::Unknown(v) => spec_to_lowercase("Unknown("@ + spec_debug_text(v@) + ")"@),
    }
}

impl TaskStatus {
    /// A copy of this status.
    pub fn duplicate(&self) -> (r: TaskStatus)
        ensures
            r == *self,
    {
        match self {
            TaskStatus::Pending => TaskStatus::Pending,
            TaskStatus::Completed => TaskStatus::Completed,
            TaskStatus::Deleted => TaskStatus::Deleted,
            TaskStatus::Recurring => TaskStatus::Recurring,
            TaskStatus::Unknown(v) => TaskStatus::Unknown(v.clone()),
        }
    }

    pub fn is_deleted(&self) -> (b: bool)
        ensures
            b == (*self is Deleted),
    {
        match self {
            TaskStatus::Deleted => true,
            _ => false,
        }
    }

    pub fn is_pending(&self) -> (b: bool)
        ensures
            b == (*self is Pending),
    {
        match self {
            TaskStatus::Pending => true,
            _ => false,
        }
    }

    pub fn is_completed(&self) -> (b: bool)
        ensures
            b == (*self is Completed),
    {
        match self {
            TaskStatus::Completed => true,
            _ => false,
        }
    }

    /// The status as shown in responses (`format!("{:?}", status).to_lowercase()`).
    pub fn label(&self) -> (r: String)
        ensures
            r@ == status_label(*self),
    {
        match self {
            TaskStatus::Pending => String::from_str("pending"),
            TaskStatus::Completed => String::from_str("completed"),
            TaskStatus::Deleted => String::from_str("deleted"),
            TaskStatus::Recurring => String::from_str("recurring"),
            TaskStatus::Unknown(v) => {
                let mut shown = String::from_str("Unknown(");
                let quoted = debug_text(v.as_str());
                shown.append(quoted.as_str());
                shown.append(")");
                to_lowercase(shown.as_str())
            },
        }
    }
}

/// The views of an optional string.
pub open spec fn opt_text(o: Option<String>) -> Option<Seq<char>> {
    match o {
        Some(s) => Some(s@),
        None => None,
    }
}

/// What the service reads of a stored task.
#[derive(Debug)]
pub struct TaskRecord {
    pub uuid: u128,
    pub description: String,
    pub status: TaskStatus,
    pub entry: Option<i64>,
    pub modified: Option<i64>,
    /// The task's tags, user tags and synthetic ones, as Taskchampion lists them.
    pub tags: Vec<String>,
    /// The priority as stored; empty when none is set.
    pub priority: String,
    pub due: Option<i64>,
    pub project: Option<String>,
}

/// A task record as a mathematical value.
pub struct RecordView {
    pub uuid: u128,
    pub description: Seq<char>,
    pub status: TaskStatus,
    pub entry: Option<i64>,
    pub modified: Option<i64>,
    pub tags: Seq<Seq<char>>,
    pub priority: Seq<char>,
    pub due: Option<i64>,
    pub project: Option<Seq<char>>,
}

impl View for TaskRecord {
    type V = RecordView;

    open spec fn view(&self) -> RecordView {
        RecordView {
            uuid: self.uuid,
            description: self.description@,
            status: self.status,
            entry: self.entry,
            modified: self.modified,
            tags: texts(self.tags@),
            priority: self.priority@,
            due: self.due,
            project: opt_text(self.project),
        }
    }
}

/// The views of a list of task records.
pub open spec fn views(v: Seq<TaskRecord>) -> Seq<RecordView> {
    v.map_values(|t: TaskRecord| t@)
}

impl TaskRecord {
    /// A copy of this record.
    pub fn duplicate(&self) -> (r: TaskRecord)
        ensures
            r@ == self@,
    {
        let tags = self.tags.clone();
        assert(tags@ =~= self.tags@);
        let project = match &self.project {
            Some(p) => Some(p.clone()),
            None => None,
        };
        TaskRecord {
            uuid: self.uuid,
            description: self.description.clone(),
            status: self.status.duplicate(),
            entry: self.entry,
            modified: self.modified,
            tags,
            priority: self.priority.clone(),
            due: self.due,
            project,
        }
    }
}

/// A task as the service shows it.  The urgency that is shown beside it is a
/// floating-point score that the service computes apart.
#[derive(Debug)]
pub struct TaskResponse {
    pub uuid: u128,
    pub description: String,
    pub status: String,
    pub entry: Option<i64>,
    pub modified: Option<i64>,
    pub tags: Vec<String>,
    pub priority: Option<String>,
    pub due: Option<i64>,
    pub project: Option<String>,
}

impl TaskResponse {
    /// This response shows `task`.
    pub open spec fn describes(self, task: RecordView) -> bool {
        &&& self.uuid == task.uuid
        &&& self.description@ == task.description
        &&& self.status@ == status_label(task.status)
        &&& self.entry == task.entry
        &&& self.modified == task.modified
        &&& texts(self.tags@) == task.tags
        &&& (task.priority.len() == 0 ==> self.priority is None)
        &&& (task.priority.len() != 0 ==> opt_text(self.priority) == Some(task.priority))
        &&& self.due == task.due
        &&& opt_text(self.project) == task.project
    }

    /// The response that shows `task`; an empty priority is shown as none.
    pub fn from_task(task: &TaskRecord) -> (r: TaskResponse)
        ensures
            r.describes(task@),
    {
        let tags = task.tags.clone();
        assert(tags@ =~= task.tags@);
        let priority = if task.priority.as_str().is_empty() {
            None
        } else {
            Some(task.priority.clone())
        };
        let project = match &task.project {
            Some(p) => Some(p.clone()),
            None => None,
        };
        TaskResponse {
            uuid: task.uuid,
            description: task.description.clone(),
            status: task.status.label(),
            entry: task.entry,
            modified: task.modified,
            tags,
            priority,
            due: task.due,
            project,
        }
    }
}

/// The body of a request that creates a task.
#[derive(Debug)]
pub struct CreateTaskRequest {
    pub description: String,
    pub tags: Option<Vec<String>>,
    pub priority: Option<String>,
    pub due: Option<i64>,
    pub project: Option<String>,
}

/// A creation request as a mathematical value.
pub struct CreateView {
    pub description: Seq<char>,
    pub tags: Option<Seq<Seq<char>>>,
    pub priority: Option<Seq<char>>,
    pub due: Option<i64>,
    pub project: Option<Seq<char>>,
}

/// The views of an optional list of strings.
pub open spec fn opt_texts(o: Option<Vec<String>>) -> Option<Seq<Seq<char>>> {
    match o {
        Some(v) => Some(texts(v@)),
        None => None,
    }
}

impl View for CreateTaskRequest {
    type V = CreateView;

    open spec fn view(&self) -> CreateView {
        CreateView {
            description: self.description@,
            tags: opt_texts(self.tags),
            priority: opt_text(self.priority),
            due: self.due,
            project: opt_text(self.project),
        }
    }
}

/// The body of a request that changes a task; each field that is given is changed.
#[derive(Debug)]
pub struct UpdateTaskRequest {
    pub description: Option<String>,
    pub priority: Option<String>,
    pub status: Option<String>,
    pub tags: Option<Vec<String>>,
    pub due: Option<i64>,
    pub project: Option<String>,
}

/// A change request as a mathematical value.
pub struct UpdateView {
    pub description: Option<Seq<char>>,
    pub priority: Option<Seq<char>>,
    pub status: Option<Seq<char>>,
    pub tags: Option<Seq<Seq<char>>>,
    pub due: Option<i64>,
    pub project: Option<Seq<char>>,
}

impl View for UpdateTaskRequest {
    type V = UpdateView;

    open spec fn view(&self) -> UpdateView {
        UpdateView {
            description: opt_text(self.description),
            priority: opt_text(self.priority),
            status: opt_text(self.status),
            tags: opt_texts(self.tags),
            due: self.due,
            project: opt_text(self.project),
        }
    }
}

/// The answer to a request for synchronisation.
#[derive(Debug)]
pub struct SyncResponse {
    pub success: bool,
    pub message: String,
    pub synced_at: String,
}

} // verus!
