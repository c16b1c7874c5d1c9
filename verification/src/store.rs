//! The persistence layer's logic: where each entity kind lives on disk, and
//! the lenient reading of whole directories of documents.  The file system
//! calls themselves live outside the library; they hand whole documents in
//! and take whole documents and paths back.

use vstd::prelude::*;
use crate::codec::{note_of_text, parse_note, parse_task, parse_thread, task_of_text, thread_of_text};
use crate::note::{Note, NoteV};
use crate::task::{Task, TaskV};
use crate::thread::{Thread, ThreadV};

verus! {

/// Which entity kind a path belongs to.
pub enum Location {
    Note,
    Thread,
    Task,
}

/// The directory of each entity kind: a per-kind folder under the base
/// directory.
pub open spec fn loc_folder(l: Location) -> Seq<char> {
    match l {
        Location::Note => "/tmp/notes"@,
        Location::Thread => "/tmp/threads"@,
        Location::Task => "/tmp/tasks"@,
    }
}

impl Location {
    /// The directory that holds this kind's documents.
    pub fn get_basefolder(&self) -> (r: String)
        ensures
            r@ == loc_folder(*self),
    {
        match self {
            Location::Note => String::from_str("/tmp/notes"),
            Location::Thread => String::from_str("/tmp/threads"),
            Location::Task => String::from_str("/tmp/tasks"),
        }
    }

    /// The document path of one entity of this kind: `<folder>/<uuid>.json`.
    pub fn create_filename(&self, uuid: &String) -> (r: String)
        ensures
            r@ == loc_folder(*self) + "/"@ + uuid@ + ".json"@,
    {
        let mut out = self.get_basefolder();
        out.append("/");
        out.append(uuid.as_str());
        out.append(".json");
        out
    }
}

/// The notes a directory's documents hold, in order, unreadable documents
/// skipped.
pub open spec fn parsed_notes(docs: Seq<String>) -> Seq<NoteV>
    decreases docs.len(),
{
    if docs.len() == 0 {
        Seq::empty()
    } else {
        match note_of_text(docs[0]@) {
            Some(v) => seq![v] + parsed_notes(docs.skip(1)),
            None => parsed_notes(docs.skip(1)),
        }
    }
}

/// The tasks a directory's documents hold, in order, unreadable documents
/// skipped.
pub open spec fn parsed_tasks(docs: Seq<String>) -> Seq<TaskV>
    decreases docs.len(),
{
    if docs.len() == 0 {
        Seq::empty()
    } else {
        match task_of_text(docs[0]@) {
            Some(v) => seq![v] + parsed_tasks(docs.skip(1)),
            None => parsed_tasks(docs.skip(1)),
        }
    }
}

/// The threads a directory's documents hold, in order, unreadable documents
/// skipped.
pub open spec fn parsed_threads(docs: Seq<String>) -> Seq<ThreadV>
    decreases docs.len(),
{
    if docs.len() == 0 {
        Seq::empty()
    } else {
        match thread_of_text(docs[0]@) {
            Some(v) => seq![v] + parsed_threads(docs.skip(1)),
            None => parsed_threads(docs.skip(1)),
        }
    }
}

/// Read every note document of a directory listing, leniently: documents
/// that do not parse are skipped and only counted.
#[verifier::loop_isolation(false)]
pub fn load_notes(docs: Vec<String>) -> (r: (Vec<Note>, usize))
    ensures
        r.0@.map_values(|n: Note| n@) == parsed_notes(docs@),
        r.1 == docs@.len() - r.0@.len(),
        forall|i: int| 0 <= i < r.0@.len() ==> (#[trigger] r.0@[i])@.wf(),
{
    let ghost view_of = |n: Note| n@;
    let mut out: Vec<Note> = Vec::new();
    let mut rest = docs;
    let ghost all = rest@;
    let total = rest.len();
    proof {
        assert(out@.map_values(view_of) =~= Seq::<NoteV>::empty());
        assert(rest@ =~= all.skip(0));
    }
    while rest.len() > 0
        invariant
            rest.len() <= total,
            rest@ == all.skip(total - rest.len()),
            out@.len() <= total - rest.len(),
            parsed_notes(all) == out@.map_values(view_of) + parsed_notes(rest@),
            forall|i: int| 0 <= i < out@.len() ==> (#[trigger] out@[i])@.wf(),
        decreases rest.len(),
    {
        let ghost rest0 = rest@;
        let doc = rest.remove(0);
        proof {
            assert(rest@ =~= rest0.skip(1));
            assert(rest@ =~= all.skip(total - rest.len()));
        }
        match parse_note(doc.as_str()) {
            Some(n) => {
                let ghost out0 = out@;
                out.push(n);
                proof {
                    assert(out@.map_values(view_of) =~= out0.map_values(view_of) + seq![n@]);
                    assert(out0.map_values(view_of) + (seq![n@] + parsed_notes(rest0.skip(1)))
                        =~= (out0.map_values(view_of) + seq![n@]) + parsed_notes(rest0.skip(1)));
                }
            },
            None => {},
        }
    }
    proof {
        assert(parsed_notes(rest@) =~= Seq::<NoteV>::empty());
        assert(out@.map_values(view_of) + Seq::<NoteV>::empty() =~= out@.map_values(view_of));
        assert(out@.map_values(view_of).len() == out@.len());
    }
    let skipped = total - out.len();
    proof {
        lemma_parsed_notes_len(all);
    }
    (out, skipped)
}

proof fn lemma_parsed_notes_len(docs: Seq<String>)
    ensures
        parsed_notes(docs).len() <= docs.len(),
    decreases docs.len(),
{
    if docs.len() > 0 {
        lemma_parsed_notes_len(docs.skip(1));
    }
}

/// Read every task document of a directory listing, leniently.
#[verifier::loop_isolation(false)]
pub fn load_tasks(docs: Vec<String>) -> (r: (Vec<Task>, usize))
    ensures
        r.0@.map_values(|t: Task| t@) == parsed_tasks(docs@),
        r.1 == docs@.len() - r.0@.len(),
        forall|i: int| 0 <= i < r.0@.len() ==> (#[trigger] r.0@[i])@.wf(),
{
    let ghost view_of = |t: Task| t@;
    let mut out: Vec<Task> = Vec::new();
    let mut rest = docs;
    let ghost all = rest@;
    let total = rest.len();
    proof {
        assert(out@.map_values(view_of) =~= Seq::<TaskV>::empty());
        assert(rest@ =~= all.skip(0));
    }
    while rest.len() > 0
        invariant
            rest.len() <= total,
            rest@ == all.skip(total - rest.len()),
            out@.len() <= total - rest.len(),
            parsed_tasks(all) == out@.map_values(view_of) + parsed_tasks(rest@),
            forall|i: int| 0 <= i < out@.len() ==> (#[trigger] out@[i])@.wf(),
        decreases rest.len(),
    {
        let ghost rest0 = rest@;
        let doc = rest.remove(0);
        proof {
            assert(rest@ =~= rest0.skip(1));
            assert(rest@ =~= all.skip(total - rest.len()));
        }
        match parse_task(doc.as_str()) {
            Some(t) => {
                let ghost out0 = out@;
                out.push(t);
                proof {
                    assert(out@.map_values(view_of) =~= out0.map_values(view_of) + seq![t@]);
                    assert(out0.map_values(view_of) + (seq![t@] + parsed_tasks(rest0.skip(1)))
                        =~= (out0.map_values(view_of) + seq![t@]) + parsed_tasks(rest0.skip(1)));
                }
            },
            None => {},
        }
    }
    proof {
        assert(parsed_tasks(rest@) =~= Seq::<TaskV>::empty());
        assert(out@.map_values(view_of) + Seq::<TaskV>::empty() =~= out@.map_values(view_of));
        assert(out@.map_values(view_of).len() == out@.len());
        lemma_parsed_tasks_len(all);
    }
    let skipped = total - out.len();
    (out, skipped)
}

proof fn lemma_parsed_tasks_len(docs: Seq<String>)
    ensures
        parsed_tasks(docs).len() <= docs.len(),
    decreases docs.len(),
{
    if docs.len() > 0 {
        lemma_parsed_tasks_len(docs.skip(1));
    }
}

/// Read every thread document of a directory listing, leniently.
#[verifier::loop_isolation(false)]
pub fn load_threads(docs: Vec<String>) -> (r: (Vec<Thread>, usize))
    ensures
        r.0@.map_values(|t: Thread| t@) == parsed_threads(docs@),
        r.1 == docs@.len() - r.0@.len(),
        forall|i: int| 0 <= i < r.0@.len() ==> (#[trigger] r.0@[i])@.wf(),
{
    let ghost view_of = |t: Thread| t@;
    let mut out: Vec<Thread> = Vec::new();
    let mut rest = docs;
    let ghost all = rest@;
    let total = rest.len();
    proof {
        assert(out@.map_values(view_of) =~= Seq::<ThreadV>::empty());
        assert(rest@ =~= all.skip(0));
    }
    while rest.len() > 0
        invariant
            rest.len() <= total,
            rest@ == all.skip(total - rest.len()),
            out@.len() <= total - rest.len(),
            parsed_threads(all) == out@.map_values(view_of) + parsed_threads(rest@),
            forall|i: int| 0 <= i < out@.len() ==> (#[trigger] out@[i])@.wf(),
        decreases rest.len(),
    {
        let ghost rest0 = rest@;
        let doc = rest.remove(0);
        proof {
            assert(rest@ =~= rest0.skip(1));
            assert(rest@ =~= all.skip(total - rest.len()));
        }
        match parse_thread(doc.as_str()) {
            Some(t) => {
                let ghost out0 = out@;
                out.push(t);
                proof {
                    assert(out@.map_values(view_of) =~= out0.map_values(view_of) + seq![t@]);
                    assert(out0.map_values(view_of) + (seq![t@] + parsed_threads(rest0.skip(1)))
                        =~= (out0.map_values(view_of) + seq![t@]) + parsed_threads(
                        rest0.skip(1),
                    ));
                }
            },
            None => {},
        }
    }
    proof {
        assert(parsed_threads(rest@) =~= Seq::<ThreadV>::empty());
        assert(out@.map_values(view_of) + Seq::<ThreadV>::empty() =~= out@.map_values(view_of));
        assert(out@.map_values(view_of).len() == out@.len());
        lemma_parsed_threads_len(all);
    }
    let skipped = total - out.len();
    (out, skipped)
}

proof fn lemma_parsed_threads_len(docs: Seq<String>)
    ensures
        parsed_threads(docs).len() <= docs.len(),
    decreases docs.len(),
{
    if docs.len() > 0 {
        lemma_parsed_threads_len(docs.skip(1));
    }
}

} // verus!
