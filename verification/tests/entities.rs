//! The entity model: constructors, conversion, touch, status vocabulary,
//! and the thread reference operations.

use eingang::ident::Uuid;
use eingang::meta::Idable;
use eingang::note::{Note, NoteQuery};
use eingang::requests::{apply_note_update, apply_task_update, create_note, create_task, RequestError};
use eingang::task::{filter_tasks_by_status, Task, TaskQuery, TaskStatus};
use eingang::thread::{project_thread, target_of_query, Thread, ThreadFilter, ThreadResponse, ThreadTarget};

#[test]
fn eingang_create_note_and_cast_to_task() {
    let c = "content".to_string();
    let t = "title".to_string();
    let note = Note::with_title(c.clone(), t.clone());
    assert_eq!(note.content, c);
    assert_eq!(note.title, t);
    let task = Task::from(note);
    assert_eq!(task.status, TaskStatus::Open)
}

#[test]
fn eingang_create_thread() {
    let note = Note::new("note".to_string());
    let task = Task::new("task".to_string());
    let mut thread = Thread::new();
    thread.add_note(note.get_uuid());
    thread.add_task(task.get_uuid());
    assert_eq!(thread.tasks[0], task.get_uuid());
    assert_eq!(thread.notes[0], note.get_uuid());
}

#[test]
fn note_create_note_and_cast_to_task() {
    let c = "content".to_string();
    let t = "title".to_string();
    let note = Note::with_title(c.clone(), t.clone());
    assert_eq!(note.content, c);
    assert_eq!(note.title, t);
    let task = Task::from(note);
    assert_eq!(task.status, TaskStatus::Open)
}

#[test]
fn note_create_thread() {
    let note = Note::new("note".to_string());
    let task = Task::new("task".to_string());
    let mut thread = Thread::new();
    thread.add_note(note.get_uuid());
    thread.add_task(task.get_uuid());
    assert_eq!(thread.tasks[0], task.get_uuid());
    assert_eq!(thread.notes[0], note.get_uuid());
}

#[test]
fn conversion_keeps_uuid_and_fields() {
    let note = Note::with_title("body".to_string(), "head".to_string());
    let id = note.get_uuid();
    let task = Task::from(note);
    assert_eq!(task.get_uuid(), id);
    assert_eq!(task.title, "head".to_string());
    assert_eq!(task.content, "body".to_string());
}

#[test]
fn status_normalization_accepts_the_synonym_table() {
    for (word, expected) in [
        ("closed", TaskStatus::Closed),
        ("done", TaskStatus::Closed),
        ("deactivated", TaskStatus::Deactivated),
        ("expired", TaskStatus::Deactivated),
        ("open", TaskStatus::Open),
        ("waiting", TaskStatus::Waiting),
        ("delegated", TaskStatus::Waiting),
        ("scheduled", TaskStatus::Waiting),
    ] {
        assert_eq!(TaskStatus::from(word.to_string()), Some(expected));
        assert_eq!(TaskStatus::from(word.to_uppercase()), Some(expected));
        let mut mixed = String::new();
        for (i, ch) in word.chars().enumerate() {
            if i % 2 == 0 {
                mixed.extend(ch.to_uppercase());
            } else {
                mixed.push(ch);
            }
        }
        assert_eq!(TaskStatus::from(mixed), Some(expected));
    }
}

#[test]
fn status_normalization_rejects_everything_else() {
    for word in ["", "bogus", "opened", "done ", " done", "closedd", "Done!"] {
        assert_eq!(TaskStatus::from(word.to_string()), None);
    }
}

#[test]
fn status_canonical_name_parses_back() {
    for st in [
        TaskStatus::Open,
        TaskStatus::Waiting,
        TaskStatus::Closed,
        TaskStatus::Deactivated,
    ] {
        assert_eq!(TaskStatus::from(st.name().to_string()), Some(st));
    }
}

#[test]
fn touch_never_moves_backward() {
    let mut note = Note::new("x".to_string());
    let created = note.created_at();
    let before = note.last_modified_at();
    note.update_modified_date();
    let after = note.last_modified_at();
    assert!(before.le(&after));
    assert_eq!(note.created_at(), created);

    let mut task = Task::new("x".to_string());
    let created = task.created_at();
    let before = task.last_modified_at();
    task.update_modified_date();
    assert!(before.le(&task.last_modified_at()));
    assert_eq!(task.created_at(), created);

    let mut thread = Thread::new();
    let created = thread.created_at();
    let before = thread.last_modified_at();
    thread.update_modified_date();
    assert!(before.le(&thread.last_modified_at()));
    assert_eq!(thread.created_at(), created);
}

#[test]
fn update_note_applies_present_fields_and_touches() {
    let mut note = Note::with_title("old content".to_string(), "old title".to_string());
    let created = note.get_uuid();
    let before = note.last_modified_at();
    let q = NoteQuery { title: None, content: Some("new content".to_string()) };
    let changed = apply_note_update(&mut note, q);
    assert!(changed);
    assert_eq!(note.title, "old title".to_string());
    assert_eq!(note.content, "new content".to_string());
    assert_eq!(note.get_uuid(), created);
    assert!(before.le(&note.last_modified_at()));
}

#[test]
fn update_note_without_fields_is_identity() {
    let mut note = Note::new("keep".to_string());
    let before = note.last_modified_at();
    let changed = apply_note_update(&mut note, NoteQuery::new());
    assert!(!changed);
    assert_eq!(note.content, "keep".to_string());
    assert_eq!(note.last_modified_at(), before);
}

#[test]
fn update_task_rejects_unknown_status() {
    let mut task = Task::new("x".to_string());
    let q = TaskQuery {
        title: None,
        content: None,
        status: Some("nonsense".to_string()),
    };
    let r = apply_task_update(&mut task, q);
    assert_eq!(r, Err(RequestError::UnknownStatus));
    assert_eq!(task.status, TaskStatus::Open);
}

#[test]
fn update_task_applies_status() {
    let mut task = Task::new("x".to_string());
    let q = TaskQuery {
        title: None,
        content: None,
        status: Some("DONE".to_string()),
    };
    let r = apply_task_update(&mut task, q);
    assert_eq!(r, Ok(true));
    assert_eq!(task.status, TaskStatus::Closed);
}

#[test]
fn create_note_requires_content() {
    let r = create_note(NoteQuery { title: Some("t".to_string()), content: None });
    assert_eq!(r.unwrap_err(), RequestError::MissingContent);
    assert_eq!(
        RequestError::MissingContent.message(),
        "Field 'content' is missing".to_string()
    );
}

#[test]
fn create_task_scenario_bogus_then_delegated() {
    let bogus = create_task(TaskQuery {
        title: None,
        content: Some("x".to_string()),
        status: Some("bogus".to_string()),
    });
    let e = bogus.unwrap_err();
    assert_eq!(e, RequestError::UnknownStatus);
    assert_eq!(e.message(), "Unknown status".to_string());
    let ok = create_task(TaskQuery {
        title: None,
        content: Some("x".to_string()),
        status: Some("delegated".to_string()),
    });
    let task = ok.unwrap();
    assert_eq!(task.status, TaskStatus::Waiting);
    assert_eq!(task.content, "x".to_string());
}

#[test]
fn status_filter_is_lenient() {
    let open_task = Task::new("a".to_string());
    let done = create_task(TaskQuery {
        title: None,
        content: Some("b".to_string()),
        status: Some("done".to_string()),
    })
    .unwrap();
    let done_id = done.get_uuid();
    let kept = filter_tasks_by_status(vec![open_task, done], Some("closed".to_string()));
    assert_eq!(kept.len(), 1);
    assert_eq!(kept[0].get_uuid(), done_id);

    let open_task = Task::new("a".to_string());
    let done = create_task(TaskQuery {
        title: None,
        content: Some("b".to_string()),
        status: Some("done".to_string()),
    })
    .unwrap();
    let all = filter_tasks_by_status(vec![open_task, done], Some("nonsense".to_string()));
    assert_eq!(all.len(), 2);

    let open_task = Task::new("a".to_string());
    let unfiltered = filter_tasks_by_status(vec![open_task], None);
    assert_eq!(unfiltered.len(), 1);
}

#[test]
fn thread_remove_by_uuid() {
    let u1 = Uuid { hi: 1, lo: 1 };
    let u2 = Uuid { hi: 2, lo: 2 };
    let mut thread = Thread::with_tasks(vec![u1, u2]);
    let removed = thread.remove_task_by_uuid(u1.to_text().as_str());
    assert!(removed);
    assert_eq!(thread.tasks, vec![u2]);
    let missing = thread.remove_task_by_uuid(u1.to_text().as_str());
    assert!(!missing);
    assert_eq!(thread.tasks, vec![u2]);
    let mut thread = Thread::with_notes(vec![u1]);
    assert!(thread.remove_note_by_uuid(u1.to_text().as_str()));
    assert!(thread.notes.is_empty());
}

#[test]
fn thread_projection() {
    let u1 = Uuid { hi: 7, lo: 8 };
    let thread = Thread::with_tasks(vec![u1]);
    match project_thread(thread, Some(ThreadFilter::Tasks)) {
        ThreadResponse::Tasks(ts) => assert_eq!(ts, vec![u1]),
        _ => panic!("expected the task references"),
    }
    let thread = Thread::with_notes(vec![u1]);
    match project_thread(thread, Some(ThreadFilter::Notes)) {
        ThreadResponse::Notes(ns) => assert_eq!(ns, vec![u1]),
        _ => panic!("expected the note references"),
    }
    let thread = Thread::with_notes(vec![u1]);
    match project_thread(thread, None) {
        ThreadResponse::Threads(t) => assert_eq!(t.notes, vec![u1]),
        _ => panic!("expected the whole thread"),
    }
}

#[test]
fn thread_edit_target_selection() {
    match target_of_query(Some("a".to_string()), Some("b".to_string())) {
        ThreadTarget::Both => {},
        _ => panic!("expected both"),
    }
    match target_of_query(Some("a".to_string()), None) {
        ThreadTarget::Task(t) => assert_eq!(t, "a".to_string()),
        _ => panic!("expected a task"),
    }
    match target_of_query(None, Some("b".to_string())) {
        ThreadTarget::Note(n) => assert_eq!(n, "b".to_string()),
        _ => panic!("expected a note"),
    }
    match target_of_query(None, None) {
        ThreadTarget::Neither => {},
        _ => panic!("expected neither"),
    }
    assert_eq!(
        RequestError::BothOnDelete.message(),
        "Either remove task or note from Thread".to_string()
    );
    assert_eq!(
        RequestError::BothOnAdd.message(),
        "Either remove task or note".to_string()
    );
    assert_eq!(
        RequestError::NothingToAdd.message(),
        "No task or note given to add".to_string()
    );
    assert_eq!(
        RequestError::TaskNotAssociated.message(),
        "Task UUID is not associated".to_string()
    );
    assert_eq!(
        RequestError::NoteNotAssociated.message(),
        "Note UUID is not associated".to_string()
    );
}
