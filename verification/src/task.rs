//! Tasks: notes with a workflow status, and the status vocabulary with its
//! case-insensitive synonym table.

use vstd::prelude::*;
use crate::time::Timestamp;
use vstd::std_specs::convert::FromSpec;
use crate::ident::Uuid;
use crate::meta::{Idable, Meta};
use crate::note::Note;
use crate::text::str_chars;

verus! {

/// The fields a task request may carry.
#[derive(Clone, Debug)]
pub struct TaskQuery {
    pub title: Option<String>,
    pub content: Option<String>,
    pub status: Option<String>,
}

impl TaskQuery {
    /// An empty request.
    pub fn new() -> (r: TaskQuery)
        ensures
            r.title is None,
            r.content is None,
            r.status is None,
    {
        TaskQuery { title: None, content: None, status: None }
    }
}

impl Default for TaskQuery {
    fn default() -> (r: TaskQuery)
        ensures
            r.title is None,
            r.content is None,
            r.status is None,
    {
        TaskQuery::new()
    }
}

/// The closed status vocabulary of a task.
#[derive(Clone, Copy, PartialEq, Eq, Structural, Debug)]
pub enum TaskStatus {
    Open,
    Waiting,
    Closed,
    Deactivated,
}

impl Default for TaskStatus {
    fn default() -> (r: TaskStatus)
        ensures
            r == TaskStatus::Open,
    {
        TaskStatus::Open
    }
}

/// ASCII letters are folded to lowercase; other characters stay.
pub open spec fn lower_char(c: char) -> char {
    if 65 <= c as u32 <= 90 {
        ((c as u32 + 32) as u8) as char
    } else {
        c
    }
}

pub open spec fn lower_text(s: Seq<char>) -> Seq<char> {
    s.map_values(|c: char| lower_char(c))
}

/// The canonical lowercase name of a status, as it is stored and served.
pub open spec fn status_text(st: TaskStatus) -> Seq<char> {
    match st {
        TaskStatus::Open => "open"@,
        TaskStatus::Waiting => "waiting"@,
        TaskStatus::Closed => "closed"@,
        TaskStatus::Deactivated => "deactivated"@,
    }
}

/// What a status string denotes, case-insensitively and with synonyms:
/// `closed` and `done` close a task; `deactivated` and `expired` deactivate
/// it; `waiting`, `delegated` and `scheduled` park it; `open` opens it.  Any
/// other string denotes nothing.
pub open spec fn status_of_text(s: Seq<char>) -> Option<TaskStatus> {
    let l = lower_text(s);
    if l == "closed"@ || l == "done"@ {
        Some(TaskStatus::Closed)
    } else if l == "deactivated"@ || l == "expired"@ {
        Some(TaskStatus::Deactivated)
    } else if l == "open"@ {
        Some(TaskStatus::Open)
    } else if l == "waiting"@ || l == "delegated"@ || l == "scheduled"@ {
        Some(TaskStatus::Waiting)
    } else {
        None
    }
}

/// The characters of `s`, ASCII letters folded to lowercase.
fn lowered_chars(s: &str) -> (r: Vec<char>)
    ensures
        r@ == lower_text(s@),
{
    let v = str_chars(s);
    let mut out: Vec<char> = Vec::new();
    let mut j: usize = 0;
    while j < v.len()
        invariant
            j <= v.len(),
            v@ == s@,
            out@ == lower_text(s@.take(j as int)),
        decreases v.len() - j,
    {
        let c = v[j];
        let u: u32 = c as u32;
        let lc: char = if 65 <= u && u <= 90 {
            ((u + 32) as u8) as char
        } else {
            c
        };
        assert(lc == lower_char(s@[j as int]));
        out.push(lc);
        proof {
            assert(lower_text(s@.take(j + 1 as int)) =~= lower_text(s@.take(j as int)).push(
                lower_char(s@[j as int]),
            ));
        }
        j += 1;
    }
    proof {
        assert(s@.take(v@.len() as int) =~= s@);
    }
    out
}

/// Whether `v` holds exactly the characters of `lit`.
pub(crate) fn chars_eq_lit(v: &Vec<char>, lit: &str) -> (r: bool)
    ensures
        r == (v@ == lit@),
{
    let n = lit.unicode_len();
    if v.len() != n {
        return false;
    }
    let mut j: usize = 0;
    while j < n
        invariant
            j <= n,
            n == lit@.len() == v@.len(),
            forall|k: int| 0 <= k < j ==> v@[k] == lit@[k],
        decreases n - j,
    {
        if v[j] != lit.get_char(j) {
            return false;
        }
        j += 1;
    }
    proof {
        assert(v@ =~= lit@);
    }
    true
}

impl TaskStatus {
    /// Normalize a status string: exactly the synonym table of
    /// `status_of_text`, or `None` for anything else.
    pub fn from(stst: String) -> (r: Option<TaskStatus>)
        ensures
            r == status_of_text(stst@),
    {
        let l = lowered_chars(stst.as_str());
        if chars_eq_lit(&l, "closed") || chars_eq_lit(&l, "done") {
            Some(TaskStatus::Closed)
        } else if chars_eq_lit(&l, "deactivated") || chars_eq_lit(&l, "expired") {
            Some(TaskStatus::Deactivated)
        } else if chars_eq_lit(&l, "open") {
            Some(TaskStatus::Open)
        } else if chars_eq_lit(&l, "waiting") || chars_eq_lit(&l, "delegated") || chars_eq_lit(
            &l,
            "scheduled",
        ) {
            Some(TaskStatus::Waiting)
        } else {
            None
        }
    }

    /// The canonical lowercase name of this status.
    pub fn name(&self) -> (r: &'static str)
        ensures
            r@ == status_text(*self),
    {
        match self {
            TaskStatus::Open => "open",
            TaskStatus::Waiting => "waiting",
            TaskStatus::Closed => "closed",
            TaskStatus::Deactivated => "deactivated",
        }
    }
}

/// Normalization closes over the canonical names: the stored lowercase name
/// of every status normalizes back to that status.
pub proof fn lemma_status_text_round(st: TaskStatus)
    ensures
        status_of_text(status_text(st)) == Some(st),
{
    reveal_strlit("open");
    reveal_strlit("waiting");
    reveal_strlit("closed");
    reveal_strlit("deactivated");
    reveal_strlit("done");
    reveal_strlit("expired");
    reveal_strlit("delegated");
    reveal_strlit("scheduled");
    assert("open"@[0] != "done"@[0]);
    assert("waiting"@[0] != "expired"@[0]);
    match st {
        TaskStatus::Open => {
            assert(lower_text("open"@) =~= "open"@);
            assert(status_of_text("open"@) == Some(TaskStatus::Open));
        },
        TaskStatus::Waiting => {
            assert(lower_text("waiting"@) =~= "waiting"@);
            assert(status_of_text("waiting"@) == Some(TaskStatus::Waiting));
        },
        TaskStatus::Closed => {
            assert(lower_text("closed"@) =~= "closed"@);
            assert(status_of_text("closed"@) == Some(TaskStatus::Closed));
        },
        TaskStatus::Deactivated => {
            assert(lower_text("deactivated"@) =~= "deactivated"@);
            assert(status_of_text("deactivated"@) == Some(TaskStatus::Deactivated));
        },
    }
}

/// A task: a note's text fields together with a status.
#[derive(Debug)]
pub struct Task {
    pub title: String,
    pub content: String,
    pub status: TaskStatus,
    pub(crate) meta: Meta,
}

/// The mathematical value of a task.
#[verifier::ext_equal]
pub ghost struct TaskV {
    pub title: Seq<char>,
    pub content: Seq<char>,
    pub status: TaskStatus,
    pub meta: Meta,
}

impl TaskV {
    pub open spec fn wf(self) -> bool {
        self.meta.wf()
    }
}

impl View for Task {
    type V = TaskV;

    open(crate) spec fn view(&self) -> TaskV {
        TaskV { title: self.title@, content: self.content@, status: self.status, meta: self.meta }
    }
}

impl Task {
    /// A new open task holding `content`, with an empty title.
    pub fn new(content: String) -> (r: Task)
        ensures
            r@.content == content@,
            r@.title.len() == 0,
            r@.status == TaskStatus::Open,
            r@.wf(),
            r@.meta.created_on == r@.meta.last_modified,
    {
        Task { title: String::new(), content, status: TaskStatus::Open, meta: Meta::new() }
    }

    /// A new open task holding `content` under `title`.
    pub fn with_title(content: String, title: String) -> (r: Task)
        ensures
            r@.content == content@,
            r@.title == title@,
            r@.status == TaskStatus::Open,
            r@.wf(),
            r@.meta.created_on == r@.meta.last_modified,
    {
        Task { title, content, status: TaskStatus::Open, meta: Meta::new() }
    }

    /// A new task with an explicit status.
    pub fn with_title_and_status(content: String, title: String, status: TaskStatus) -> (r: Task)
        ensures
            r@.content == content@,
            r@.title == title@,
            r@.status == status,
            r@.wf(),
            r@.meta.created_on == r@.meta.last_modified,
    {
        Task { title, content, status, meta: Meta::new() }
    }

    /// Assemble a task from already-validated parts (the codec's entry).
    pub(crate) fn from_parts(title: String, content: String, status: TaskStatus, meta: Meta) -> (r:
        Task)
        ensures
            r@ == (TaskV { title: title@, content: content@, status, meta }),
    {
        Task { title, content, status, meta }
    }

    /// The creation moment.
    pub fn created_at(&self) -> (r: Timestamp)
        ensures
            r == self@.meta.created_on,
    {
        self.meta.created_on
    }

    /// The last-modified moment.
    pub fn last_modified_at(&self) -> (r: Timestamp)
        ensures
            r == self@.meta.last_modified,
    {
        self.meta.last_modified
    }

    /// Record a content mutation: the identifier and creation moment stay,
    /// the last-modified moment moves forward to now.
    pub fn update_modified_date(&mut self)
        ensures
            final(self)@.title == old(self)@.title,
            final(self)@.content == old(self)@.content,
            final(self)@.status == old(self)@.status,
            final(self)@.meta.uuid == old(self)@.meta.uuid,
            final(self)@.meta.created_on == old(self)@.meta.created_on,
            old(self)@.meta.last_modified.le_spec(final(self)@.meta.last_modified),
            old(self)@.wf() ==> final(self)@.wf(),
    {
        self.meta.update_modified_date();
    }
}

impl Idable for Task {
    open spec fn uuid_spec(&self) -> Uuid {
        self@.meta.uuid
    }

    fn get_uuid(&self) -> (r: Uuid) {
        self.meta.uuid
    }
}

impl From<Note> for Task {
    /// A task made from a note carries the note's title, content and
    /// metadata over verbatim and starts out open.
    fn from(note: Note) -> (r: Task) {
        Task {
            content: note.content,
            title: note.title,
            status: TaskStatus::Open,
            meta: note.meta,
        }
    }
}

impl vstd::std_specs::convert::FromSpecImpl<Note> for Task {
    closed spec fn obeys_from_spec() -> bool {
        true
    }

    closed spec fn from_spec(note: Note) -> Task {
        Task {
            content: note.content,
            title: note.title,
            status: TaskStatus::Open,
            meta: note.meta,
        }
    }
}

/// What conversion from a note yields, stated over the values: the title,
/// content and metadata carry over verbatim and the status defaults to open.
pub proof fn lemma_task_from_note(note: Note)
    ensures
        (Task::from_spec(note))@ == (TaskV {
            title: note@.title,
            content: note@.content,
            status: TaskStatus::Open,
            meta: note@.meta,
        }),
{
}

/// Restrict tasks by a status string, leniently: a missing or unrecognized
/// string keeps the whole collection; a recognized one keeps exactly the
/// tasks with that status.
#[verifier::loop_isolation(false)]
pub fn filter_tasks_by_status(tasks: Vec<Task>, status: Option<String>) -> (r: Vec<Task>)
    ensures
        r@ == match status {
            None => tasks@,
            Some(s) => match status_of_text(s@) {
                None => tasks@,
                Some(st) => tasks@.filter(|t: Task| t@.status == st),
            },
        },
{
    broadcast use Seq::lemma_filter_push;

    let st = match status {
        None => {
            return tasks;
        },
        Some(s) => match TaskStatus::from(s) {
            None => {
                return tasks;
            },
            Some(st) => st,
        },
    };
    let ghost pred = |t: Task| t@.status == st;
    let mut out: Vec<Task> = Vec::new();
    let mut rest = tasks;
    let ghost all = rest@;
    let total = rest.len();
    let mut k: usize = 0;
    proof {
        assert(all.take(0).filter(pred) =~= Seq::<Task>::empty()) by {
            reveal(Seq::filter);
        }
        assert(rest@ =~= all.skip(0));
    }
    while rest.len() > 0
        invariant
            k + rest.len() == total,
            total == all.len(),
            rest@ == all.skip(k as int),
            out@ == all.take(k as int).filter(pred),
        decreases rest.len(),
    {
        let t = rest.remove(0);
        proof {
            assert(t == all[k as int]);
            assert(rest@ =~= all.skip(k + 1 as int));
            assert(all.take(k + 1 as int) =~= all.take(k as int).push(all[k as int]));
            all.take(k as int).lemma_filter_push(all[k as int], pred);
        }
        if t.status == st {
            out.push(t);
        }
        k += 1;
    }
    proof {
        assert(all.take(k as int) =~= all);
    }
    out
}

} // verus!
