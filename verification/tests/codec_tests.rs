//! The document codec: canonical rendering, parsing, round trips, paths,
//! and the lenient directory loading.

use eingang::codec::{parse_note, parse_task, parse_thread, render_note, render_task, render_thread};
use eingang::ident::{parse_uuid_str, Uuid};
use eingang::meta::Idable;
use eingang::note::Note;
use eingang::requests::RequestError;
use eingang::store::{load_notes, load_tasks, load_threads, Location};
use eingang::task::{Task, TaskStatus};
use eingang::thread::Thread;

fn sample_note_doc(content: &str, moment: &str, uuid: &str) -> String {
    format!(
        "{{\n  \"title\": \"\",\n  \"content\": \"{}\",\n  \"meta\": {{\n    \"created_on\": \"{}\",\n    \"last_modified\": \"{}\",\n    \"uuid\": \"{}\"\n  }}\n}}",
        content, moment, moment, uuid
    )
}

#[test]
fn uuid_text_is_canonical() {
    let u = Uuid { hi: 0x0000000000000001, lo: 0x0000000000000002 };
    assert_eq!(u.to_text(), "00000000-0000-0001-0000-000000000002".to_string());
    let u = Uuid { hi: 0xa1a2a3a4b1b2c1c2, lo: 0xd1d2d3d4d5d6d7d8 };
    assert_eq!(u.to_text(), "a1a2a3a4-b1b2-c1c2-d1d2-d3d4d5d6d7d8".to_string());
}

#[test]
fn uuid_text_parses_back() {
    let u = Uuid { hi: 0xdeadbeef01020304, lo: 0x05060708090a0b0c };
    assert_eq!(parse_uuid_str(u.to_text().as_str()), Some(u));
    assert_eq!(parse_uuid_str("not-a-uuid"), None);
    assert_eq!(parse_uuid_str("A1A2A3A4-B1B2-C1C2-D1D2-D3D4D5D6D7D8"), None);
}

#[test]
fn note_round_trip_preserves_every_field() {
    let note = Note::with_title("some body".to_string(), "a title".to_string());
    let id = note.get_uuid();
    let lm = note.last_modified_at();
    let doc = render_note(&note);
    let back = parse_note(doc.as_str()).expect("canonical document must parse");
    assert_eq!(back.title, note.title);
    assert_eq!(back.content, note.content);
    assert_eq!(back.get_uuid(), id);
    assert_eq!(back.last_modified_at(), lm);
}

#[test]
fn note_round_trip_with_escapes() {
    let wild = "quote \" backslash \\ newline \n tab \t bell \u{7} end".to_string();
    let note = Note::with_title(wild.clone(), "\"\\".to_string());
    let doc = render_note(&note);
    let back = parse_note(doc.as_str()).expect("escaped document must parse");
    assert_eq!(back.content, wild);
    assert_eq!(back.title, "\"\\".to_string());
}

#[test]
fn note_round_trip_with_unicode_text() {
    let text = "grüße 日本語 🙂".to_string();
    let note = Note::new(text.clone());
    let back = parse_note(render_note(&note).as_str()).expect("unicode text must survive");
    assert_eq!(back.content, text);
}

#[test]
fn task_round_trip_preserves_status() {
    let task = Task::with_title_and_status(
        "c".to_string(),
        "t".to_string(),
        TaskStatus::Deactivated,
    );
    let id = task.get_uuid();
    let doc = render_task(&task);
    let back = parse_task(doc.as_str()).expect("canonical document must parse");
    assert_eq!(back.status, TaskStatus::Deactivated);
    assert_eq!(back.get_uuid(), id);
    assert_eq!(back.title, "t".to_string());
    assert_eq!(back.content, "c".to_string());
}

#[test]
fn thread_round_trip_keeps_references_only() {
    let task_uuid = Uuid { hi: 0x1111, lo: 0x2222 };
    let note_uuid = Uuid { hi: 0x3333, lo: 0x4444 };
    let thread = Thread::with_tasks_and_notes(vec![task_uuid], vec![note_uuid]);
    let doc = render_thread(&thread);
    assert!(doc.contains(task_uuid.to_text().as_str()));
    assert!(!doc.contains("\"content\""));
    let back = parse_thread(doc.as_str()).expect("canonical document must parse");
    assert_eq!(back.tasks, vec![task_uuid]);
    assert_eq!(back.notes, vec![note_uuid]);
    assert_eq!(back.get_uuid(), thread.get_uuid());
}

#[test]
fn thread_round_trip_with_many_references() {
    let ids: Vec<Uuid> = (0u64..5).map(|k| Uuid { hi: k, lo: 1000 + k }).collect();
    let thread = Thread::with_tasks_and_notes(ids.clone(), vec![ids[0]]);
    let back = parse_thread(render_thread(&thread).as_str()).expect("must parse");
    assert_eq!(back.tasks, ids);
    assert_eq!(back.notes, vec![ids[0]]);
}

#[test]
fn empty_thread_renders_empty_arrays() {
    let thread = Thread::new();
    let doc = render_thread(&thread);
    assert!(doc.contains("\"notes\": []"));
    assert!(doc.contains("\"tasks\": []"));
    let back = parse_thread(doc.as_str()).expect("canonical document must parse");
    assert!(back.notes.is_empty());
    assert!(back.tasks.is_empty());
}

#[test]
fn rendered_documents_are_valid_json() {
    let note = Note::with_title("line\nbreak \"q\"".to_string(), "t".to_string());
    let doc = render_note(&note);
    let value: serde_json::Value = serde_json::from_str(doc.as_str()).expect("valid JSON");
    assert_eq!(value["title"], serde_json::Value::String("t".to_string()));
    assert_eq!(
        value["content"],
        serde_json::Value::String("line\nbreak \"q\"".to_string())
    );
    assert_eq!(
        value["meta"]["uuid"],
        serde_json::Value::String(note.get_uuid().to_text())
    );

    let task = Task::new("x".to_string());
    let value: serde_json::Value =
        serde_json::from_str(render_task(&task).as_str()).expect("valid JSON");
    assert_eq!(value["status"], serde_json::Value::String("open".to_string()));
}

#[test]
fn parsing_rejects_garbage() {
    assert!(parse_note("").is_none());
    assert!(parse_note("garbage").is_none());
    assert!(parse_note("{\"title\": 3}").is_none());
    assert!(parse_task("{}").is_none());
    assert!(parse_thread("[]").is_none());
    let note = Note::new("x".to_string());
    let doc = render_note(&note);
    let mut truncated = doc.clone();
    truncated.pop();
    assert!(parse_note(truncated.as_str()).is_none());
    let trailing = format!("{} ", doc);
    assert!(parse_note(trailing.as_str()).is_none());
}

#[test]
fn parsing_rejects_inverted_moments() {
    let doc = "{\n  \"title\": \"\",\n  \"content\": \"x\",\n  \"meta\": {\n    \"created_on\": \"2022-01-01T00:00:00.000000000Z\",\n    \"last_modified\": \"2021-01-01T00:00:00.000000000Z\",\n    \"uuid\": \"00000000-0000-0000-0000-000000000001\"\n  }\n}".to_string();
    assert!(parse_note(doc.as_str()).is_none());
}

#[test]
fn parsing_accepts_handwritten_canonical_documents() {
    let doc = sample_note_doc(
        "buy milk",
        "2021-03-06T12:00:00.500000000Z",
        "00000000-0000-0000-0000-00000000000a",
    );
    let note = parse_note(doc.as_str()).expect("canonical document must parse");
    assert_eq!(note.content, "buy milk".to_string());
    assert_eq!(note.title, "".to_string());
    assert_eq!(
        note.get_uuid(),
        parse_uuid_str("00000000-0000-0000-0000-00000000000a").unwrap()
    );
    let lm = note.last_modified_at();
    assert_eq!(lm.secs, 1615032000);
    assert_eq!(lm.nanos, 500000000);
}

#[test]
fn lenient_loading_skips_unreadable_documents() {
    let good = render_note(&Note::new("fine".to_string()));
    let (notes, skipped) = load_notes(vec![
        good.clone(),
        "corrupt".to_string(),
        good.clone(),
    ]);
    assert_eq!(notes.len(), 2);
    assert_eq!(skipped, 1);
    assert_eq!(notes[0].content, "fine".to_string());

    let (tasks, skipped) = load_tasks(vec!["nope".to_string()]);
    assert!(tasks.is_empty());
    assert_eq!(skipped, 1);

    let tdoc = render_thread(&Thread::new());
    let (threads, skipped) = load_threads(vec![tdoc, String::new()]);
    assert_eq!(threads.len(), 1);
    assert_eq!(skipped, 1);
}

#[test]
fn locations_name_the_store_layout() {
    assert_eq!(Location::Note.get_basefolder(), "/tmp/notes".to_string());
    assert_eq!(Location::Task.get_basefolder(), "/tmp/tasks".to_string());
    assert_eq!(Location::Thread.get_basefolder(), "/tmp/threads".to_string());
    let uuid = "0a0b0c0d-0000-0000-0000-000000000001".to_string();
    assert_eq!(
        Location::Task.create_filename(&uuid),
        "/tmp/tasks/0a0b0c0d-0000-0000-0000-000000000001.json".to_string()
    );
}

#[test]
fn note_lifecycle_scenario() {
    // POST /notes/new {"content":"buy milk"} -> a UUID string.
    let created = eingang::requests::create_note(eingang::note::NoteQuery {
        title: None,
        content: Some("buy milk".to_string()),
    })
    .expect("content present");
    let uuid_text = created.get_uuid().to_text();
    assert_eq!(uuid_text.len(), 36);
    // The store holds one document under that identifier.
    let mut stored: Option<String> = Some(render_note(&created));
    // GET /notes/{uuid} -> the note with empty title.
    let fetched = parse_note(stored.clone().unwrap().as_str()).unwrap();
    assert_eq!(fetched.title, "".to_string());
    assert_eq!(fetched.content, "buy milk".to_string());
    assert_eq!(fetched.get_uuid().to_text(), uuid_text);
    // DELETE /notes/{uuid}/delete -> the document is gone.
    stored = None;
    // A later GET finds nothing and serves the not-associated text.
    assert!(stored.is_none());
    assert_eq!(
        RequestError::NotAssociated.message(),
        "UUID is not associated".to_string()
    );
}
