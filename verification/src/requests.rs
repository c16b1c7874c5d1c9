//! The compute half of each mutating request: validate the request fields,
//! build or update the entity, and say exactly which error comes back on
//! which input.  Reading and writing the documents is the caller's side.

use vstd::prelude::*;
use crate::note::{Note, NoteQuery};
use crate::task::{status_of_text, Task, TaskQuery, TaskStatus};

verus! {

/// Everything a request can be rejected for, with the exact served text.
#[derive(Clone, Copy, PartialEq, Eq, Structural, Debug)]
pub enum RequestError {
    /// A creation request without the required `content` field.
    MissingContent,
    /// A status string outside the synonym table.
    UnknownStatus,
    /// No document stored under the given identifier.
    NotAssociated,
    /// A thread edit naming no task reference under the given identifier.
    TaskNotAssociated,
    /// A thread edit naming no note reference under the given identifier.
    NoteNotAssociated,
    /// A thread delete naming both a task and a note.
    BothOnDelete,
    /// A thread extension naming both a task and a note.
    BothOnAdd,
    /// A thread extension naming neither a task nor a note.
    NothingToAdd,
}

impl RequestError {
    /// The human-readable request error text, as it is served.
    pub fn message(&self) -> (r: String)
        ensures
            *self == RequestError::MissingContent ==> r@ == "Field 'content' is missing"@,
            *self == RequestError::UnknownStatus ==> r@ == "Unknown status"@,
            *self == RequestError::NotAssociated ==> r@ == "UUID is not associated"@,
            *self == RequestError::TaskNotAssociated ==> r@ == "Task UUID is not associated"@,
            *self == RequestError::NoteNotAssociated ==> r@ == "Note UUID is not associated"@,
            *self == RequestError::BothOnDelete ==> r@ == "Either remove task or note from Thread"@,
            *self == RequestError::BothOnAdd ==> r@ == "Either remove task or note"@,
            *self == RequestError::NothingToAdd ==> r@ == "No task or note given to add"@,
    {
        match self {
            RequestError::MissingContent => String::from_str("Field 'content' is missing"),
            RequestError::UnknownStatus => String::from_str("Unknown status"),
            RequestError::NotAssociated => String::from_str("UUID is not associated"),
            RequestError::TaskNotAssociated => String::from_str("Task UUID is not associated"),
            RequestError::NoteNotAssociated => String::from_str("Note UUID is not associated"),
            RequestError::BothOnDelete => String::from_str(
                "Either remove task or note from Thread",
            ),
            RequestError::BothOnAdd => String::from_str("Either remove task or note"),
            RequestError::NothingToAdd => String::from_str("No task or note given to add"),
        }
    }
}

/// The title a creation request assigns: the given one, or empty.
pub open spec fn title_or_empty(t: Option<String>) -> Seq<char> {
    match t {
        Some(s) => s@,
        None => Seq::empty(),
    }
}

/// Create a note from a request: rejected exactly when `content` is
/// missing, otherwise a fresh note carrying the given content and title.
pub fn create_note(q: NoteQuery) -> (r: Result<Note, RequestError>)
    ensures
        match r {
            Ok(n) => {
                &&& q.content matches Some(c) && n@.content == c@
                &&& n@.title == title_or_empty(q.title)
                &&& n@.wf()
                &&& n@.meta.created_on == n@.meta.last_modified
            },
            Err(e) => q.content is None && e == RequestError::MissingContent,
        },
{
    let content = match q.content {
        None => {
            return Err(RequestError::MissingContent);
        },
        Some(c) => c,
    };
    let title = match q.title {
        Some(t) => t,
        None => String::new(),
    };
    Ok(Note::with_title(content, title))
}

/// Create a task from a request: rejected when `content` is missing, or
/// when a status string is given that the synonym table does not know;
/// otherwise a fresh task, open unless the status string says otherwise.
pub fn create_task(q: TaskQuery) -> (r: Result<Task, RequestError>)
    ensures
        match r {
            Ok(t) => {
                &&& q.content matches Some(c) && t@.content == c@
                &&& t@.title == title_or_empty(q.title)
                &&& (match q.status {
                    None => t@.status == TaskStatus::Open,
                    Some(s) => status_of_text(s@) == Some(t@.status),
                })
                &&& t@.wf()
                &&& t@.meta.created_on == t@.meta.last_modified
            },
            Err(RequestError::MissingContent) => q.content is None,
            Err(RequestError::UnknownStatus) => q.content is Some && (q.status matches Some(s)
                && status_of_text(s@) is None),
            Err(_) => false,
        },
{
    if q.content.is_none() {
        return Err(RequestError::MissingContent);
    }
    let status = match q.status {
        None => TaskStatus::Open,
        Some(s) => match TaskStatus::from(s) {
            None => {
                return Err(RequestError::UnknownStatus);
            },
            Some(st) => st,
        },
    };
    let content = match q.content {
        None => {
            return Err(RequestError::MissingContent);
        },
        Some(c) => c,
    };
    let title = match q.title {
        Some(t) => t,
        None => String::new(),
    };
    Ok(Task::with_title_and_status(content, title, status))
}

/// Apply an update request to a note: every present field replaces the
/// stored one, and the note is touched exactly when something was present.
pub fn apply_note_update(note: &mut Note, q: NoteQuery) -> (changed: bool)
    ensures
        changed == (q.title is Some || q.content is Some),
        final(note)@.title == (match q.title {
            Some(t) => t@,
            None => old(note)@.title,
        }),
        final(note)@.content == (match q.content {
            Some(c) => c@,
            None => old(note)@.content,
        }),
        final(note)@.meta.uuid == old(note)@.meta.uuid,
        final(note)@.meta.created_on == old(note)@.meta.created_on,
        old(note)@.meta.last_modified.le_spec(final(note)@.meta.last_modified),
        !changed ==> *final(note) == *old(note),
        old(note)@.wf() ==> final(note)@.wf(),
{
    let mut changed = false;
    if let Some(c) = q.content {
        note.content = c;
        changed = true;
    }
    if let Some(t) = q.title {
        note.title = t;
        changed = true;
    }
    if changed {
        note.update_modified_date();
    }
    changed
}

/// Apply an update request to a task.  An unknown status string rejects
/// the update after the text fields were already replaced (the caller then
/// drops the task unsaved, as the route does); otherwise every present
/// field replaces the stored one and the task is touched exactly when
/// something was present.
pub fn apply_task_update(task: &mut Task, q: TaskQuery) -> (r: Result<bool, RequestError>)
    ensures
        final(task)@.title == (match q.title {
            Some(t) => t@,
            None => old(task)@.title,
        }),
        final(task)@.content == (match q.content {
            Some(c) => c@,
            None => old(task)@.content,
        }),
        final(task)@.meta.uuid == old(task)@.meta.uuid,
        final(task)@.meta.created_on == old(task)@.meta.created_on,
        old(task)@.meta.last_modified.le_spec(final(task)@.meta.last_modified),
        old(task)@.wf() ==> final(task)@.wf(),
        match r {
            Ok(changed) => {
                &&& changed == (q.title is Some || q.content is Some || q.status is Some)
                &&& (match q.status {
                    Some(s) => status_of_text(s@) == Some(final(task)@.status),
                    None => final(task)@.status == old(task)@.status,
                })
                &&& (!changed ==> *final(task) == *old(task))
            },
            Err(e) => {
                &&& e == RequestError::UnknownStatus
                &&& (q.status matches Some(s) && status_of_text(s@) is None)
                &&& final(task)@.status == old(task)@.status
                &&& final(task)@.meta == old(task)@.meta
            },
        },
{
    let mut changed = false;
    if let Some(c) = q.content {
        task.content = c;
        changed = true;
    }
    if let Some(t) = q.title {
        task.title = t;
        changed = true;
    }
    if let Some(s) = q.status {
        match TaskStatus::from(s) {
            Some(st) => {
                task.status = st;
            },
            None => {
                return Err(RequestError::UnknownStatus);
            },
        }
        changed = true;
    }
    if changed {
        task.update_modified_date();
    }
    Ok(changed)
}

} // verus!
