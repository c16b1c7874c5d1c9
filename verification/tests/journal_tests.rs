//! The journal query engine: validation, bounds, periods and the
//! cross-entity aggregation.

use eingang::codec::parse_note;
use eingang::journal::{
    filter_notes, journal_entries, validate_journal_query, JournalError, JournalFilter,
    JournalQuery, JournalResponse, Period,
};
use eingang::time::Timestamp;

fn empty_query() -> JournalQuery {
    JournalQuery { after: None, before: None, during: None, untouched: None, filter: None }
}

fn day_period(days: u32) -> Period {
    Period {
        years: None,
        months: None,
        weeks: None,
        days: Some(days),
        hours: None,
        minutes: None,
        seconds: None,
    }
}

fn note_modified_at(moment: &str, serial: u32) -> eingang::note::Note {
    let doc = format!(
        "{{\n  \"title\": \"\",\n  \"content\": \"n{}\",\n  \"meta\": {{\n    \"created_on\": \"{}\",\n    \"last_modified\": \"{}\",\n    \"uuid\": \"00000000-0000-0000-0000-0000000000{:02x}\"\n  }}\n}}",
        serial, moment, moment, serial
    );
    parse_note(doc.as_str()).expect("handwritten canonical document")
}

#[test]
fn validation_rejects_during_with_untouched() {
    let mut q = empty_query();
    q.during = Some(day_period(1));
    q.untouched = Some(day_period(2));
    q.after = Some("2021-01-01".to_string());
    assert_eq!(
        validate_journal_query(&q),
        Err(JournalError::DuringAndUntouched)
    );
    assert_eq!(
        JournalError::DuringAndUntouched.message(),
        "Either during OR untouched".to_string()
    );
}

#[test]
fn validation_rejects_period_mixed_with_moment() {
    let mut q = empty_query();
    q.during = Some(day_period(1));
    q.before = Some("2021-01-01".to_string());
    assert_eq!(validate_journal_query(&q), Err(JournalError::PeriodAndMoment));
    assert_eq!(
        JournalError::PeriodAndMoment.message(),
        "Either time period OR moment".to_string()
    );
    let mut q = empty_query();
    q.untouched = Some(day_period(1));
    q.after = Some("2021-01-01".to_string());
    assert_eq!(validate_journal_query(&q), Err(JournalError::PeriodAndMoment));
    let mut q = empty_query();
    q.before = Some("2021-01-01".to_string());
    q.after = Some("2020-01-01".to_string());
    assert_eq!(validate_journal_query(&q), Ok(()));
}

#[test]
fn journal_rejects_malformed_requests_whole() {
    let mut q = empty_query();
    q.during = Some(day_period(1));
    q.untouched = Some(day_period(1));
    let now = Timestamp { secs: 1615032000, nanos: 0 };
    let r = journal_entries(&q, vec![], vec![], vec![], now);
    assert!(matches!(r, Err(JournalError::DuringAndUntouched)));
}

#[test]
fn date_bounds_resolve_to_day_edges() {
    let mut q = empty_query();
    q.after = Some("2021-03-04".to_string());
    q.before = Some("2021-03-09".to_string());
    let a = q.after_to_timestamp().unwrap();
    assert_eq!(a.secs, 1614902399); // 2021-03-04T23:59:59Z
    assert_eq!(a.nanos, 0);
    let b = q.before_to_timestamp().unwrap();
    assert_eq!(b.secs, 1615248001); // 2021-03-09T00:00:01Z
    let mut q = empty_query();
    q.after = Some("not a date".to_string());
    assert_eq!(q.after_to_timestamp(), None);
    q.before = Some("2021-13-01".to_string());
    assert_eq!(q.before_to_timestamp(), None);
}

#[test]
fn period_counts_back_from_now() {
    let p = day_period(2);
    assert_eq!(p.to_duration_secs(), 172800);
    let now = Timestamp { secs: 200000, nanos: 7 };
    let b = p.to_timestamp_from(now);
    assert_eq!(b.secs, 27200);
    assert_eq!(b.nanos, 7);
    let huge = Period {
        years: Some(4000000),
        months: None,
        weeks: None,
        days: None,
        hours: None,
        minutes: None,
        seconds: None,
    };
    let clamped = huge.to_timestamp_from(now);
    assert_eq!(clamped.secs, 0);
}

#[test]
fn open_interval_keeps_exactly_the_middle_note() {
    // Last modified ten, five and one day before 2021-03-11.
    let n10 = note_modified_at("2021-03-01T12:00:00.000000000Z", 1);
    let n5 = note_modified_at("2021-03-06T12:00:00.000000000Z", 2);
    let n1 = note_modified_at("2021-03-10T12:00:00.000000000Z", 3);
    let mut q = empty_query();
    q.after = Some("2021-03-04".to_string());
    q.before = Some("2021-03-09".to_string());
    q.filter = Some(JournalFilter::Notes);
    let now = Timestamp { secs: 1615464000, nanos: 0 }; // 2021-03-11T12:00:00Z
    let r = journal_entries(&q, vec![n10, n5, n1], vec![], vec![], now).unwrap();
    assert_eq!(r.len(), 1);
    match &r[0] {
        JournalResponse::Note(n) => assert_eq!(n.content, "n2".to_string()),
        _ => panic!("expected a note entry"),
    }
}

#[test]
fn interval_bounds_are_exclusive() {
    let edge = note_modified_at("2021-03-04T23:59:59.000000000Z", 4);
    let q_after = {
        let mut q = empty_query();
        q.after = Some("2021-03-04".to_string());
        q
    };
    let kept = filter_notes(vec![edge], None, q_after.after_to_timestamp());
    assert!(kept.is_empty());
    let edge = note_modified_at("2021-03-09T00:00:01.000000000Z", 5);
    let q_before = {
        let mut q = empty_query();
        q.before = Some("2021-03-09".to_string());
        q
    };
    let kept = filter_notes(vec![edge], q_before.before_to_timestamp(), None);
    assert!(kept.is_empty());
}

#[test]
fn journal_all_concatenates_notes_tasks_threads() {
    let note = note_modified_at("2021-03-06T12:00:00.000000000Z", 6);
    let task = eingang::task::Task::new("t".to_string());
    let thread = eingang::thread::Thread::new();
    let q = empty_query();
    let now = Timestamp { secs: 1615464000, nanos: 0 };
    let r = journal_entries(&q, vec![note], vec![task], vec![thread], now).unwrap();
    assert_eq!(r.len(), 3);
    assert!(matches!(r[0], JournalResponse::Note(_)));
    assert!(matches!(r[1], JournalResponse::Task(_)));
    assert!(matches!(r[2], JournalResponse::Thread(_)));
}

#[test]
fn during_and_untouched_split_by_the_boundary() {
    let old_note = note_modified_at("2021-03-01T12:00:00.000000000Z", 7);
    let new_note = note_modified_at("2021-03-10T12:00:00.000000000Z", 8);
    let now = Timestamp { secs: 1615464000, nanos: 0 }; // 2021-03-11T12:00:00Z
    let mut q = empty_query();
    q.during = Some(day_period(3));
    q.filter = Some(JournalFilter::Notes);
    let r = journal_entries(&q, vec![old_note, new_note], vec![], vec![], now).unwrap();
    assert_eq!(r.len(), 1);
    match &r[0] {
        JournalResponse::Note(n) => assert_eq!(n.content, "n8".to_string()),
        _ => panic!("expected a note entry"),
    }
    let old_note = note_modified_at("2021-03-01T12:00:00.000000000Z", 7);
    let new_note = note_modified_at("2021-03-10T12:00:00.000000000Z", 8);
    let mut q = empty_query();
    q.untouched = Some(day_period(3));
    q.filter = Some(JournalFilter::Notes);
    let r = journal_entries(&q, vec![old_note, new_note], vec![], vec![], now).unwrap();
    assert_eq!(r.len(), 1);
    match &r[0] {
        JournalResponse::Note(n) => assert_eq!(n.content, "n7".to_string()),
        _ => panic!("expected a note entry"),
    }
}

#[test]
fn period_components_sum_calendar_naively() {
    let p = Period {
        years: Some(1),
        months: Some(2),
        weeks: Some(3),
        days: Some(4),
        hours: Some(5),
        minutes: Some(6),
        seconds: Some(7),
    };
    let expected = 1u64 * 365 * 86400 + 2 * 30 * 86400 + 3 * 7 * 86400 + 4 * 86400 + 5 * 3600
        + 6 * 60 + 7;
    assert_eq!(p.to_duration_secs(), expected);
}

#[test]
fn journal_kind_selection_restricts_to_one_collection() {
    let note = note_modified_at("2021-03-06T12:00:00.000000000Z", 9);
    let task = eingang::task::Task::new("t".to_string());
    let thread = eingang::thread::Thread::new();
    let mut q = empty_query();
    q.filter = Some(JournalFilter::Threads);
    let now = Timestamp { secs: 1615464000, nanos: 0 };
    let r = journal_entries(&q, vec![note], vec![task], vec![thread], now).unwrap();
    assert_eq!(r.len(), 1);
    assert!(matches!(r[0], JournalResponse::Thread(_)));
}
