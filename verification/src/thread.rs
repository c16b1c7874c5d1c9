//! Threads: ordered groupings of note and task references.  A thread holds
//! identifiers only, never embedded copies of the entities it links.

use vstd::prelude::*;
use crate::time::Timestamp;
use crate::ident::{uuid_text, Uuid};
use crate::meta::{Idable, Meta};
use crate::task::chars_eq_lit;

verus! {

/// A note reference held by a thread.
pub type NoteUuid = Uuid;

/// A task reference held by a thread.
pub type TaskUuid = Uuid;

/// The fields a thread request may carry: single references to add or
/// remove, reference lists at creation, and a projection filter.
#[derive(Clone, Debug)]
pub struct ThreadQuery {
    pub task: Option<String>,
    pub tasks: Option<Vec<String>>,
    pub note: Option<String>,
    pub notes: Option<Vec<String>>,
    pub filter: Option<ThreadFilter>,
}

impl ThreadQuery {
    /// An empty request.
    pub fn new() -> (r: ThreadQuery)
        ensures
            r.task is None,
            r.tasks is None,
            r.note is None,
            r.notes is None,
            r.filter is None,
    {
        ThreadQuery { task: None, tasks: None, note: None, notes: None, filter: None }
    }
}

/// Which side of a thread a listing projects to.
#[derive(Clone, Copy, PartialEq, Eq, Structural, Debug)]
pub enum ThreadFilter {
    Tasks,
    Notes,
}

/// A thread: ordered note and task references plus the shared metadata.
#[derive(Debug)]
pub struct Thread {
    pub notes: Vec<Uuid>,
    pub tasks: Vec<Uuid>,
    pub(crate) meta: Meta,
}

/// The mathematical value of a thread.
#[verifier::ext_equal]
pub ghost struct ThreadV {
    pub notes: Seq<Uuid>,
    pub tasks: Seq<Uuid>,
    pub meta: Meta,
}

impl ThreadV {
    pub open spec fn wf(self) -> bool {
        self.meta.wf()
    }
}

impl View for Thread {
    type V = ThreadV;

    open(crate) spec fn view(&self) -> ThreadV {
        ThreadV { notes: self.notes@, tasks: self.tasks@, meta: self.meta }
    }
}

impl Thread {
    /// A new empty thread with fresh metadata.
    pub fn new() -> (r: Thread)
        ensures
            r@.notes.len() == 0,
            r@.tasks.len() == 0,
            r@.wf(),
            r@.meta.created_on == r@.meta.last_modified,
    {
        Thread { notes: Vec::new(), tasks: Vec::new(), meta: Meta::new() }
    }

    /// A new thread referencing the given notes.
    pub fn with_notes(notes: Vec<Uuid>) -> (r: Thread)
        ensures
            r@.notes == notes@,
            r@.tasks.len() == 0,
            r@.wf(),
            r@.meta.created_on == r@.meta.last_modified,
    {
        Thread { notes, tasks: Vec::new(), meta: Meta::new() }
    }

    /// A new thread referencing the given tasks.
    pub fn with_tasks(tasks: Vec<Uuid>) -> (r: Thread)
        ensures
            r@.tasks == tasks@,
            r@.notes.len() == 0,
            r@.wf(),
            r@.meta.created_on == r@.meta.last_modified,
    {
        Thread { notes: Vec::new(), tasks, meta: Meta::new() }
    }

    /// A new thread referencing the given tasks and notes.
    pub fn with_tasks_and_notes(tasks: Vec<Uuid>, notes: Vec<Uuid>) -> (r: Thread)
        ensures
            r@.tasks == tasks@,
            r@.notes == notes@,
            r@.wf(),
            r@.meta.created_on == r@.meta.last_modified,
    {
        Thread { notes, tasks, meta: Meta::new() }
    }

    /// Assemble a thread from already-validated parts (the codec's entry).
    pub(crate) fn from_parts(notes: Vec<Uuid>, tasks: Vec<Uuid>, meta: Meta) -> (r: Thread)
        ensures
            r@ == (ThreadV { notes: notes@, tasks: tasks@, meta }),
    {
        Thread { notes, tasks, meta }
    }

    /// Append a note reference and record the mutation.
    pub fn add_note(&mut self, note: Uuid)
        ensures
            final(self)@.notes == old(self)@.notes.push(note),
            final(self)@.tasks == old(self)@.tasks,
            final(self)@.meta.uuid == old(self)@.meta.uuid,
            final(self)@.meta.created_on == old(self)@.meta.created_on,
            old(self)@.meta.last_modified.le_spec(final(self)@.meta.last_modified),
            old(self)@.wf() ==> final(self)@.wf(),
    {
        self.notes.push(note);
        self.update_modified_date();
    }

    /// Append a task reference and record the mutation.
    pub fn add_task(&mut self, task: Uuid)
        ensures
            final(self)@.tasks == old(self)@.tasks.push(task),
            final(self)@.notes == old(self)@.notes,
            final(self)@.meta.uuid == old(self)@.meta.uuid,
            final(self)@.meta.created_on == old(self)@.meta.created_on,
            old(self)@.meta.last_modified.le_spec(final(self)@.meta.last_modified),
            old(self)@.wf() ==> final(self)@.wf(),
    {
        self.tasks.push(task);
        self.update_modified_date();
    }

    /// The creation moment.
    pub fn created_at(&self) -> (r: Timestamp)
        ensures
            r == self@.meta.created_on,
    {
        self.meta.created_on
    }

    /// The last-modified moment.
    pub fn last_modified_at(&self) -> (r: Timestamp)
        ensures
            r == self@.meta.last_modified,
    {
        self.meta.last_modified
    }

    /// Record a content mutation: the identifier and creation moment stay,
    /// the last-modified moment moves forward to now.
    pub fn update_modified_date(&mut self)
        ensures
            final(self)@.notes == old(self)@.notes,
            final(self)@.tasks == old(self)@.tasks,
            final(self)@.meta.uuid == old(self)@.meta.uuid,
            final(self)@.meta.created_on == old(self)@.meta.created_on,
            old(self)@.meta.last_modified.le_spec(final(self)@.meta.last_modified),
            old(self)@.wf() ==> final(self)@.wf(),
    {
        self.meta.update_modified_date();
    }

    /// Drop the first task reference whose canonical text is `text` and
    /// record the mutation; without a match the thread is untouched.
    pub fn remove_task_by_uuid(&mut self, text: &str) -> (r: bool)
        ensures
            ({
                let i = first_uuid_match(old(self)@.tasks, text@);
                if i >= 0 {
                    &&& r == true
                    &&& final(self)@.tasks == old(self)@.tasks.remove(i)
                    &&& final(self)@.notes == old(self)@.notes
                    &&& final(self)@.meta.uuid == old(self)@.meta.uuid
                    &&& final(self)@.meta.created_on == old(self)@.meta.created_on
                    &&& old(self)@.meta.last_modified.le_spec(final(self)@.meta.last_modified)
                    &&& (old(self)@.wf() ==> final(self)@.wf())
                } else {
                    r == false && *final(self) == *old(self)
                }
            }),
    {
        let i = match find_uuid_text(&self.tasks, text) {
            None => {
                return false;
            },
            Some(i) => i,
        };
        self.tasks.remove(i);
        self.update_modified_date();
        true
    }

    /// Drop the first note reference whose canonical text is `text` and
    /// record the mutation; without a match the thread is untouched.
    pub fn remove_note_by_uuid(&mut self, text: &str) -> (r: bool)
        ensures
            ({
                let i = first_uuid_match(old(self)@.notes, text@);
                if i >= 0 {
                    &&& r == true
                    &&& final(self)@.notes == old(self)@.notes.remove(i)
                    &&& final(self)@.tasks == old(self)@.tasks
                    &&& final(self)@.meta.uuid == old(self)@.meta.uuid
                    &&& final(self)@.meta.created_on == old(self)@.meta.created_on
                    &&& old(self)@.meta.last_modified.le_spec(final(self)@.meta.last_modified)
                    &&& (old(self)@.wf() ==> final(self)@.wf())
                } else {
                    r == false && *final(self) == *old(self)
                }
            }),
    {
        let i = match find_uuid_text(&self.notes, text) {
            None => {
                return false;
            },
            Some(i) => i,
        };
        self.notes.remove(i);
        self.update_modified_date();
        true
    }
}

impl Idable for Thread {
    open spec fn uuid_spec(&self) -> Uuid {
        self@.meta.uuid
    }

    fn get_uuid(&self) -> (r: Uuid) {
        self.meta.uuid
    }
}

/// The index of the first identifier in `s` whose canonical text is `t`, or
/// `-1` if none matches.
pub open spec fn first_uuid_match(s: Seq<Uuid>, t: Seq<char>) -> int
    decreases s.len(),
{
    if s.len() == 0 {
        -1
    } else if uuid_text(s[0]) == t {
        0
    } else {
        let r = first_uuid_match(s.skip(1), t);
        if r == -1 {
            -1
        } else {
            r + 1
        }
    }
}

proof fn lemma_first_match_at(s: Seq<Uuid>, t: Seq<char>, i: int)
    requires
        0 <= i < s.len(),
        uuid_text(s[i]) == t,
        forall|j: int| 0 <= j < i ==> uuid_text(#[trigger] s[j]) != t,
    ensures
        first_uuid_match(s, t) == i,
    decreases i,
{
    if i == 0 {
    } else {
        assert(uuid_text(s[0]) != t);
        assert(s.skip(1)[i - 1] == s[i]);
        assert(forall|j: int| 0 <= j < i - 1 ==> #[trigger] s.skip(1)[j] == s[j + 1]);
        lemma_first_match_at(s.skip(1), t, i - 1);
    }
}

proof fn lemma_first_match_none(s: Seq<Uuid>, t: Seq<char>)
    requires
        forall|j: int| 0 <= j < s.len() ==> uuid_text(#[trigger] s[j]) != t,
    ensures
        first_uuid_match(s, t) == -1,
    decreases s.len(),
{
    if s.len() > 0 {
        assert(forall|j: int| 0 <= j < s.len() - 1 ==> #[trigger] s.skip(1)[j] == s[j + 1]);
        lemma_first_match_none(s.skip(1), t);
    }
}

/// Find the first identifier whose canonical text is `text`.
#[verifier::loop_isolation(false)]
fn find_uuid_text(v: &Vec<Uuid>, text: &str) -> (r: Option<usize>)
    ensures
        match r {
            Some(i) => first_uuid_match(v@, text@) == i && i < v.len(),
            None => first_uuid_match(v@, text@) == -1,
        },
{
    let mut i: usize = 0;
    while i < v.len()
        invariant
            i <= v.len(),
            forall|j: int| 0 <= j < i ==> uuid_text(#[trigger] v@[j]) != text@,
        decreases v.len() - i,
    {
        let mut buf: Vec<char> = Vec::new();
        v[i].push_text(&mut buf);
        proof {
            assert(buf@ =~= uuid_text(v@[i as int]));
        }
        if chars_eq_lit(&buf, text) {
            proof {
                lemma_first_match_at(v@, text@, i as int);
            }
            return Some(i);
        }
        i += 1;
    }
    proof {
        lemma_first_match_none(v@, text@);
    }
    None
}

/// What a whole-thread listing serves for one thread: the thread itself, or
/// just its task or note references.
#[derive(Debug)]
pub enum ThreadResponse {
    Threads(Thread),
    Tasks(Vec<Uuid>),
    Notes(Vec<Uuid>),
}

/// Project one thread by an optional filter: no filter serves the whole
/// thread, otherwise only the chosen reference list.
pub fn project_thread(thread: Thread, filter: Option<ThreadFilter>) -> (r: ThreadResponse)
    ensures
        match filter {
            None => r == ThreadResponse::Threads(thread),
            Some(ThreadFilter::Tasks) => r matches ThreadResponse::Tasks(v) && v@
                == thread@.tasks,
            Some(ThreadFilter::Notes) => r matches ThreadResponse::Notes(v) && v@
                == thread@.notes,
        },
{
    match filter {
        None => ThreadResponse::Threads(thread),
        Some(ThreadFilter::Tasks) => ThreadResponse::Tasks(thread.tasks),
        Some(ThreadFilter::Notes) => ThreadResponse::Notes(thread.notes),
    }
}

/// Project a whole listing of threads by an optional filter, keeping order.
#[verifier::loop_isolation(false)]
pub fn project_threads(threads: Vec<Thread>, filter: Option<ThreadFilter>) -> (r: Vec<
    ThreadResponse,
>)
    ensures
        r@.len() == threads@.len(),
        forall|i: int|
            0 <= i < r@.len() ==> match filter {
                None => r@[i] == ThreadResponse::Threads(threads@[i]),
                Some(ThreadFilter::Tasks) => #[trigger] r@[i] matches ThreadResponse::Tasks(v)
                    && v@ == threads@[i]@.tasks,
                Some(ThreadFilter::Notes) => r@[i] matches ThreadResponse::Notes(v) && v@
                    == threads@[i]@.notes,
            },
{
    let mut out: Vec<ThreadResponse> = Vec::new();
    let mut rest = threads;
    let ghost all = rest@;
    let total = rest.len();
    let mut k: usize = 0;
    proof {
        assert(total == all.len());
        assert(rest@ =~= all.skip(0));
    }
    while rest.len() > 0
        invariant
            k + rest.len() == all.len(),
            rest@ == all.skip(k as int),
            out@.len() == k,
            forall|i: int|
                0 <= i < k ==> match filter {
                    None => out@[i] == ThreadResponse::Threads(all[i]),
                    Some(ThreadFilter::Tasks) => #[trigger] out@[i] matches ThreadResponse::Tasks(
                        v,
                    ) && v@ == all[i]@.tasks,
                    Some(ThreadFilter::Notes) => out@[i] matches ThreadResponse::Notes(v) && v@
                        == all[i]@.notes,
                },
        decreases rest.len(),
    {
        let t = rest.remove(0);
        proof {
            assert(t == all[k as int]);
            assert(rest@ =~= all.skip(k + 1 as int));
        }
        let piece = match filter {
            None => ThreadResponse::Threads(t),
            Some(ThreadFilter::Tasks) => ThreadResponse::Tasks(t.tasks),
            Some(ThreadFilter::Notes) => ThreadResponse::Notes(t.notes),
        };
        out.push(piece);
        k += 1;
    }
    out
}

/// Which edit a thread request selects: both sides named (rejected), one
/// task, one note, or neither.
#[derive(Debug)]
pub enum ThreadTarget {
    Both,
    Task(String),
    Note(String),
    Neither,
}

/// Read the single-reference selection out of a request: naming both a task
/// and a note is the `Both` case, which every caller rejects.
pub fn target_of_query(task: Option<String>, note: Option<String>) -> (r: ThreadTarget)
    ensures
        r == match (task, note) {
            (Some(_), Some(_)) => ThreadTarget::Both,
            (Some(t), None) => ThreadTarget::Task(t),
            (None, Some(n)) => ThreadTarget::Note(n),
            (None, None) => ThreadTarget::Neither,
        },
{
    match (task, note) {
        (Some(_), Some(_)) => ThreadTarget::Both,
        (Some(t), None) => ThreadTarget::Task(t),
        (None, Some(n)) => ThreadTarget::Note(n),
        (None, None) => ThreadTarget::Neither,
    }
}

} // verus!
