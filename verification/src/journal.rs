//! The journal query engine: relative periods, absolute date bounds, the
//! rules for combining them, and the time-filtered aggregation of notes,
//! tasks and threads into one response sequence.

use vstd::prelude::*;
use crate::note::Note;
use crate::task::Task;
use crate::thread::Thread;
use crate::text::{lemma_pow_values, read_digits, str_chars};
use crate::time::{
    days_from_civil, month_len, now_timestamp, sp_date, valid_ymd, day_number,
    lemma_day_number_bounds, Timestamp, MAX_SECS,
};

verus! {

/// A relative time span: every component optional, an absent one counting
/// as zero.  The sum is calendar-naive: a year is 365 days and a month 30,
/// deliberately approximate.
#[derive(Clone, Copy, Debug)]
pub struct Period {
    pub years: Option<u32>,
    pub months: Option<u32>,
    pub weeks: Option<u32>,
    pub days: Option<u32>,
    pub hours: Option<u32>,
    pub minutes: Option<u32>,
    pub seconds: Option<u32>,
}

pub open spec fn opt_component(x: Option<u32>) -> int {
    match x {
        Some(v) => v as int,
        None => 0,
    }
}

/// The span of a period in seconds: years as 365 days, months as 30 days,
/// weeks as 7 days, plus days, hours, minutes and seconds.
pub open spec fn period_secs(p: Period) -> int {
    opt_component(p.years) * 31536000 + opt_component(p.months) * 2592000 + opt_component(p.weeks)
        * 604800 + opt_component(p.days) * 86400 + opt_component(p.hours) * 3600 + opt_component(
        p.minutes,
    ) * 60 + opt_component(p.seconds)
}

/// The moment `d` seconds before `t`, clamped at the epoch.
pub open spec fn minus_secs_spec(t: Timestamp, d: int) -> Timestamp {
    if t.secs - d >= 0 {
        Timestamp { secs: (t.secs - d) as i64, nanos: t.nanos }
    } else {
        Timestamp { secs: 0, nanos: t.nanos }
    }
}

impl Period {
    /// An empty period: every component absent, so the span is zero.
    pub fn new() -> (r: Period)
        ensures
            period_secs(r) == 0,
    {
        Period {
            years: None,
            months: None,
            weeks: None,
            days: None,
            hours: None,
            minutes: None,
            seconds: None,
        }
    }

    /// The span of this period in whole seconds.
    #[verifier::rlimit(30)]
    pub fn to_duration_secs(&self) -> (r: u64)
        ensures
            r == period_secs(*self),
    {
        let years: u64 = match self.years {
            Some(v) => v as u64,
            None => 0,
        };
        let months: u64 = match self.months {
            Some(v) => v as u64,
            None => 0,
        };
        let weeks: u64 = match self.weeks {
            Some(v) => v as u64,
            None => 0,
        };
        let days: u64 = match self.days {
            Some(v) => v as u64,
            None => 0,
        };
        let hours: u64 = match self.hours {
            Some(v) => v as u64,
            None => 0,
        };
        let minutes: u64 = match self.minutes {
            Some(v) => v as u64,
            None => 0,
        };
        let seconds: u64 = match self.seconds {
            Some(v) => v as u64,
            None => 0,
        };
        years * 31536000 + months * 2592000 + weeks * 604800 + days * 86400 + hours * 3600
            + minutes * 60 + seconds
    }

    /// The boundary this period denotes, counting back from `now`.
    pub fn to_timestamp_from(&self, now: Timestamp) -> (r: Timestamp)
        requires
            now.wf(),
        ensures
            r == minus_secs_spec(now, period_secs(*self)),
            r.wf(),
    {
        let d = self.to_duration_secs();
        if d <= now.secs as u64 {
            Timestamp { secs: now.secs - d as i64, nanos: now.nanos }
        } else {
            Timestamp { secs: 0, nanos: now.nanos }
        }
    }

    /// The boundary this period denotes, counting back from the clock's
    /// current moment.
    pub fn to_timestamp(&self) -> (r: Timestamp)
        ensures
            r.wf(),
    {
        let now = now_timestamp();
        self.to_timestamp_from(now)
    }
}

impl Default for Period {
    fn default() -> (r: Period)
        ensures
            period_secs(r) == 0,
    {
        Period::new()
    }
}

/// Which entity kinds a journal request covers.
#[derive(Clone, Copy, PartialEq, Eq, Structural, Debug)]
pub enum JournalFilter {
    Threads,
    Notes,
    Tasks,
    All,
}

impl Default for JournalFilter {
    fn default() -> (r: JournalFilter)
        ensures
            r == JournalFilter::All,
    {
        JournalFilter::All
    }
}

/// A journal request: absolute date bounds, relative periods, and the kind
/// selection.  `during` and `untouched` exclude each other and both exclude
/// the absolute bounds.
#[derive(Clone, Debug)]
pub struct JournalQuery {
    pub after: Option<String>,
    pub before: Option<String>,
    pub during: Option<Period>,
    pub untouched: Option<Period>,
    pub filter: Option<JournalFilter>,
}

/// One surviving journal entry, tagged with its kind.
#[derive(Debug)]
pub enum JournalResponse {
    Thread(Thread),
    Note(Note),
    Task(Task),
}

/// The ways a journal request can be malformed.
#[derive(Clone, Copy, PartialEq, Eq, Structural, Debug)]
pub enum JournalError {
    /// Both `during` and `untouched` were given.
    DuringAndUntouched,
    /// A relative period was mixed with an absolute bound.
    PeriodAndMoment,
}

impl JournalError {
    /// The human-readable request error text.
    pub fn message(&self) -> (r: String)
        ensures
            (*self == JournalError::DuringAndUntouched ==> r@ == "Either during OR untouched"@),
            (*self == JournalError::PeriodAndMoment ==> r@ == "Either time period OR moment"@),
    {
        match self {
            JournalError::DuringAndUntouched => String::from_str("Either during OR untouched"),
            JournalError::PeriodAndMoment => String::from_str("Either time period OR moment"),
        }
    }
}

/// What validation yields: `during` with `untouched` is rejected first,
/// then any relative period mixed with an absolute bound; everything else
/// passes.
pub open spec fn validate_spec(q: JournalQuery) -> Result<(), JournalError> {
    if q.during is Some && q.untouched is Some {
        Err(JournalError::DuringAndUntouched)
    } else if (q.during is Some || q.untouched is Some) && (q.before is Some
        || q.after is Some) {
        Err(JournalError::PeriodAndMoment)
    } else {
        Ok(())
    }
}

/// Check the filter-composition rules of a journal request.
pub fn validate_journal_query(q: &JournalQuery) -> (r: Result<(), JournalError>)
    ensures
        r == validate_spec(*q),
{
    if q.during.is_some() && q.untouched.is_some() {
        Err(JournalError::DuringAndUntouched)
    } else if (q.during.is_some() || q.untouched.is_some()) && (q.before.is_some()
        || q.after.is_some()) {
        Err(JournalError::PeriodAndMoment)
    } else {
        Ok(())
    }
}

// ---------------------------------------------------------------------------
// Absolute date bounds
// ---------------------------------------------------------------------------

/// The moment a date denotes at the given second of its day.
pub open spec fn moment_of_date(y: int, m: int, d: int, sod: int) -> Timestamp {
    Timestamp { secs: (day_number(y, m, d) * 86400 + sod) as i64, nanos: 0 }
}

/// The `after` bound of a request: the end (23:59:59) of the named day, or
/// nothing when the field is absent or not a valid date.
pub open spec fn after_bound_spec(q: JournalQuery) -> Option<Timestamp> {
    match q.after {
        None => None,
        Some(s) => match sp_date(s@) {
            None => None,
            Some((y, m, d)) => Some(moment_of_date(y, m, d, 86399)),
        },
    }
}

/// The `before` bound of a request: just past midnight (00:00:01) of the
/// named day, or nothing when the field is absent or not a valid date.
pub open spec fn before_bound_spec(q: JournalQuery) -> Option<Timestamp> {
    match q.before {
        None => None,
        Some(s) => match sp_date(s@) {
            None => None,
            Some((y, m, d)) => Some(moment_of_date(y, m, d, 1)),
        },
    }
}

/// Read a `YYYY-MM-DD` date string, exactly as `sp_date` describes it.
fn parse_date_str(s: &str) -> (r: Option<(i64, i64, i64)>)
    ensures
        match r {
            Some((y, m, d)) => sp_date(s@) == Some((y as int, m as int, d as int)),
            None => sp_date(s@) is None,
        },
{
    proof {
        lemma_pow_values();
    }
    let v = str_chars(s);
    if v.len() != 10 {
        return None;
    }
    if v[4] != '-' || v[7] != '-' {
        return None;
    }
    proof {
        assert(v@.skip(0) =~= s@);
        assert(v@.skip(0).take(4) =~= s@.subrange(0, 4));
        assert(v@.skip(5).take(2) =~= s@.subrange(5, 7));
        assert(v@.skip(8).take(2) =~= s@.subrange(8, 10));
        assert(v@.skip(5)[0] == s@[5] && v@.skip(5)[1] == s@[6]);
        assert(v@.skip(8)[0] == s@[8] && v@.skip(8)[1] == s@[9]);
    }
    let y = match read_digits(&v, 0, 10, 4) {
        None => {
            return None;
        },
        Some((y, _)) => y as i64,
    };
    let m = match read_digits(&v, 5, 10, 2) {
        None => {
            return None;
        },
        Some((m, _)) => m as i64,
    };
    let d = match read_digits(&v, 8, 10, 2) {
        None => {
            return None;
        },
        Some((d, _)) => d as i64,
    };
    if 1970 <= y && y <= 9999 && 1 <= m && m <= 12 && 1 <= d && d <= month_len(y, m) {
        Some((y, m, d))
    } else {
        None
    }
}

/// A valid date denotes a representable moment at any second of its day.
proof fn lemma_moment_wf(y: int, m: int, d: int, sod: int)
    requires
        valid_ymd(y, m, d),
        0 <= sod < 86400,
    ensures
        moment_of_date(y, m, d, sod).wf(),
{
    lemma_day_number_bounds(y, m, d);
    assert(day_number(y, m, d) * 86400 + sod < MAX_SECS) by (nonlinear_arith)
        requires
            day_number(y, m, d) <= 2932896,
            0 <= sod < 86400,
            MAX_SECS == 253402300800,
    ;
    assert(day_number(y, m, d) * 86400 >= 0) by (nonlinear_arith)
        requires
            day_number(y, m, d) >= 0,
    ;
}

impl JournalQuery {
    /// The `after` bound of this request, as `after_bound_spec` gives it.
    pub fn after_to_timestamp(&self) -> (r: Option<Timestamp>)
        ensures
            r == after_bound_spec(*self),
            r matches Some(t) ==> t.wf(),
    {
        let s = match &self.after {
            None => {
                return None;
            },
            Some(s) => s,
        };
        let (y, m, d) = match parse_date_str(s.as_str()) {
            None => {
                return None;
            },
            Some(x) => x,
        };
        proof {
            lemma_moment_wf(y as int, m as int, d as int, 86399);
        }
        let days = days_from_civil(y, m, d);
        Some(Timestamp { secs: days * 86400 + 86399, nanos: 0 })
    }

    /// The `before` bound of this request, as `before_bound_spec` gives it.
    pub fn before_to_timestamp(&self) -> (r: Option<Timestamp>)
        ensures
            r == before_bound_spec(*self),
            r matches Some(t) ==> t.wf(),
    {
        let s = match &self.before {
            None => {
                return None;
            },
            Some(s) => s,
        };
        let (y, m, d) = match parse_date_str(s.as_str()) {
            None => {
                return None;
            },
            Some(x) => x,
        };
        proof {
            lemma_moment_wf(y as int, m as int, d as int, 1);
        }
        let days = days_from_civil(y, m, d);
        Some(Timestamp { secs: days * 86400 + 1, nanos: 0 })
    }
}

// ---------------------------------------------------------------------------
// Windows and filtering
// ---------------------------------------------------------------------------

/// The resolved time window of a request.
#[derive(Clone, Copy, Debug)]
pub enum Window {
    /// Keep what was modified at or after the boundary.
    During(Timestamp),
    /// Keep what was last modified strictly before the boundary.
    Untouched(Timestamp),
    /// Keep what lies strictly between the bounds (an open interval); an
    /// absent bound does not constrain that side.
    Moments(Option<Timestamp>, Option<Timestamp>),
}

/// Whether a last-modified moment survives a window.
pub open spec fn keeps(w: Window, lm: Timestamp) -> bool {
    match w {
        Window::During(b) => b.le_spec(lm),
        Window::Untouched(b) => lm.lt_spec(b),
        Window::Moments(before, after) => (match after {
            Some(a) => a.lt_spec(lm),
            None => true,
        }) && (match before {
            Some(b) => lm.lt_spec(b),
            None => true,
        }),
    }
}

/// The window a request resolves to against the moment `now`: `during`
/// first, then `untouched`, otherwise the absolute bounds.
pub open spec fn window_spec(q: JournalQuery, now: Timestamp) -> Window {
    match q.during {
        Some(p) => Window::During(minus_secs_spec(now, period_secs(p))),
        None => match q.untouched {
            Some(p) => Window::Untouched(minus_secs_spec(now, period_secs(p))),
            None => Window::Moments(before_bound_spec(q), after_bound_spec(q)),
        },
    }
}

/// Resolve the window of a request against the moment `now`.
pub fn resolve_window(q: &JournalQuery, now: Timestamp) -> (r: Window)
    requires
        now.wf(),
    ensures
        r == window_spec(*q, now),
{
    match &q.during {
        Some(p) => Window::During(p.to_timestamp_from(now)),
        None => match &q.untouched {
            Some(p) => Window::Untouched(p.to_timestamp_from(now)),
            None => Window::Moments(q.before_to_timestamp(), q.after_to_timestamp()),
        },
    }
}

/// Whether a last-modified moment survives the window, executably.
fn window_keeps(w: &Window, lm: &Timestamp) -> (r: bool)
    ensures
        r == keeps(*w, *lm),
{
    match w {
        Window::During(b) => b.le(lm),
        Window::Untouched(b) => lm.lt(b),
        Window::Moments(before, after) => {
            let after_ok = match after {
                Some(a) => a.lt(lm),
                None => true,
            };
            let before_ok = match before {
                Some(b) => lm.lt(b),
                None => true,
            };
            after_ok && before_ok
        },
    }
}

/// Keep exactly the notes whose last-modified moment survives the window.
#[verifier::loop_isolation(false)]
pub fn filter_notes_window(notes: Vec<Note>, w: Window) -> (r: Vec<Note>)
    ensures
        r@ == notes@.filter(|n: Note| keeps(w, n@.meta.last_modified)),
{
    broadcast use Seq::lemma_filter_push;

    let ghost pred = |n: Note| keeps(w, n@.meta.last_modified);
    let mut out: Vec<Note> = Vec::new();
    let mut rest = notes;
    let ghost all = rest@;
    let total = rest.len();
    let mut k: usize = 0;
    proof {
        assert(all.take(0).filter(pred) =~= Seq::<Note>::empty()) by {
            reveal(Seq::filter);
        }
        assert(rest@ =~= all.skip(0));
    }
    while rest.len() > 0
        invariant
            k + rest.len() == total,
            rest@ == all.skip(k as int),
            out@ == all.take(k as int).filter(pred),
        decreases rest.len(),
    {
        let n = rest.remove(0);
        proof {
            assert(n == all[k as int]);
            assert(rest@ =~= all.skip(k + 1 as int));
            assert(all.take(k + 1 as int) =~= all.take(k as int).push(all[k as int]));
            all.take(k as int).lemma_filter_push(all[k as int], pred);
        }
        let lm = n.last_modified_at();
        if window_keeps(&w, &lm) {
            out.push(n);
        }
        k += 1;
    }
    proof {
        assert(all.take(k as int) =~= all);
    }
    out
}

/// Keep exactly the tasks whose last-modified moment survives the window.
#[verifier::loop_isolation(false)]
pub fn filter_tasks_window(tasks: Vec<Task>, w: Window) -> (r: Vec<Task>)
    ensures
        r@ == tasks@.filter(|t: Task| keeps(w, t@.meta.last_modified)),
{
    broadcast use Seq::lemma_filter_push;

    let ghost pred = |t: Task| keeps(w, t@.meta.last_modified);
    let mut out: Vec<Task> = Vec::new();
    let mut rest = tasks;
    let ghost all = rest@;
    let total = rest.len();
    let mut k: usize = 0;
    proof {
        assert(all.take(0).filter(pred) =~= Seq::<Task>::empty()) by {
            reveal(Seq::filter);
        }
        assert(rest@ =~= all.skip(0));
    }
    while rest.len() > 0
        invariant
            k + rest.len() == total,
            rest@ == all.skip(k as int),
            out@ == all.take(k as int).filter(pred),
        decreases rest.len(),
    {
        let t = rest.remove(0);
        proof {
            assert(t == all[k as int]);
            assert(rest@ =~= all.skip(k + 1 as int));
            assert(all.take(k + 1 as int) =~= all.take(k as int).push(all[k as int]));
            all.take(k as int).lemma_filter_push(all[k as int], pred);
        }
        let lm = t.last_modified_at();
        if window_keeps(&w, &lm) {
            out.push(t);
        }
        k += 1;
    }
    proof {
        assert(all.take(k as int) =~= all);
    }
    out
}

/// Keep exactly the threads whose last-modified moment survives the window.
#[verifier::loop_isolation(false)]
pub fn filter_threads_window(threads: Vec<Thread>, w: Window) -> (r: Vec<Thread>)
    ensures
        r@ == threads@.filter(|t: Thread| keeps(w, t@.meta.last_modified)),
{
    broadcast use Seq::lemma_filter_push;

    let ghost pred = |t: Thread| keeps(w, t@.meta.last_modified);
    let mut out: Vec<Thread> = Vec::new();
    let mut rest = threads;
    let ghost all = rest@;
    let total = rest.len();
    let mut k: usize = 0;
    proof {
        assert(all.take(0).filter(pred) =~= Seq::<Thread>::empty()) by {
            reveal(Seq::filter);
        }
        assert(rest@ =~= all.skip(0));
    }
    while rest.len() > 0
        invariant
            k + rest.len() == total,
            rest@ == all.skip(k as int),
            out@ == all.take(k as int).filter(pred),
        decreases rest.len(),
    {
        let t = rest.remove(0);
        proof {
            assert(t == all[k as int]);
            assert(rest@ =~= all.skip(k + 1 as int));
            assert(all.take(k + 1 as int) =~= all.take(k as int).push(all[k as int]));
            all.take(k as int).lemma_filter_push(all[k as int], pred);
        }
        let lm = t.last_modified_at();
        if window_keeps(&w, &lm) {
            out.push(t);
        }
        k += 1;
    }
    proof {
        assert(all.take(k as int) =~= all);
    }
    out
}

/// Keep the notes that fall strictly between the bounds: after `after`,
/// before `before`, either bound optional.
pub fn filter_notes(notes: Vec<Note>, before: Option<Timestamp>, after: Option<Timestamp>) -> (r:
    Vec<Note>)
    ensures
        r@ == notes@.filter(
            |n: Note| keeps(Window::Moments(before, after), n@.meta.last_modified),
        ),
{
    filter_notes_window(notes, Window::Moments(before, after))
}

/// Keep the tasks that fall strictly between the bounds.
pub fn filter_tasks(tasks: Vec<Task>, before: Option<Timestamp>, after: Option<Timestamp>) -> (r:
    Vec<Task>)
    ensures
        r@ == tasks@.filter(
            |t: Task| keeps(Window::Moments(before, after), t@.meta.last_modified),
        ),
{
    filter_tasks_window(tasks, Window::Moments(before, after))
}

/// Keep the threads that fall strictly between the bounds.
pub fn filter_threads(threads: Vec<Thread>, before: Option<Timestamp>, after: Option<
    Timestamp,
>) -> (r: Vec<Thread>)
    ensures
        r@ == threads@.filter(
            |t: Thread| keeps(Window::Moments(before, after), t@.meta.last_modified),
        ),
{
    filter_threads_window(threads, Window::Moments(before, after))
}

// ---------------------------------------------------------------------------
// Aggregation
// ---------------------------------------------------------------------------

/// What the journal serves for a valid request: the surviving notes, then
/// the surviving tasks, then the surviving threads, each included only when
/// the kind selection covers it (`All` covers everything, and an absent
/// selection means `All`).
pub open spec fn journal_spec(
    q: JournalQuery,
    notes: Seq<Note>,
    tasks: Seq<Task>,
    threads: Seq<Thread>,
    now: Timestamp,
) -> Seq<JournalResponse> {
    let w = window_spec(q, now);
    let kind = match q.filter {
        None => JournalFilter::All,
        Some(k) => k,
    };
    (if kind == JournalFilter::All || kind == JournalFilter::Notes {
        notes.filter(|n: Note| keeps(w, n@.meta.last_modified)).map_values(
            |n: Note| JournalResponse::Note(n),
        )
    } else {
        Seq::empty()
    }) + (if kind == JournalFilter::All || kind == JournalFilter::Tasks {
        tasks.filter(|t: Task| keeps(w, t@.meta.last_modified)).map_values(
            |t: Task| JournalResponse::Task(t),
        )
    } else {
        Seq::empty()
    }) + (if kind == JournalFilter::All || kind == JournalFilter::Threads {
        threads.filter(|t: Thread| keeps(w, t@.meta.last_modified)).map_values(
            |t: Thread| JournalResponse::Thread(t),
        )
    } else {
        Seq::empty()
    })
}

/// Serve a journal request over the given collections: reject a malformed
/// request exactly as `validate_spec` says, otherwise aggregate exactly as
/// `journal_spec` says.
#[verifier::loop_isolation(false)]
pub fn journal_entries(
    q: &JournalQuery,
    notes: Vec<Note>,
    tasks: Vec<Task>,
    threads: Vec<Thread>,
    now: Timestamp,
) -> (r: Result<Vec<JournalResponse>, JournalError>)
    requires
        now.wf(),
    ensures
        match r {
            Err(e) => validate_spec(*q) == Err::<(), JournalError>(e),
            Ok(v) => validate_spec(*q) == Ok::<(), JournalError>(()) && v@ == journal_spec(
                *q,
                notes@,
                tasks@,
                threads@,
                now,
            ),
        },
{
    if let Err(e) = validate_journal_query(q) {
        return Err(e);
    }
    let w = resolve_window(q, now);
    let kind = match q.filter {
        None => JournalFilter::All,
        Some(k) => k,
    };
    let ghost wv = w;
    let mut out: Vec<JournalResponse> = Vec::new();
    let ghost note_part = if kind == JournalFilter::All || kind == JournalFilter::Notes {
        notes@.filter(|n: Note| keeps(wv, n@.meta.last_modified)).map_values(
            |n: Note| JournalResponse::Note(n),
        )
    } else {
        Seq::<JournalResponse>::empty()
    };
    let ghost task_part = if kind == JournalFilter::All || kind == JournalFilter::Tasks {
        tasks@.filter(|t: Task| keeps(wv, t@.meta.last_modified)).map_values(
            |t: Task| JournalResponse::Task(t),
        )
    } else {
        Seq::<JournalResponse>::empty()
    };
    let ghost thread_part = if kind == JournalFilter::All || kind == JournalFilter::Threads {
        threads@.filter(|t: Thread| keeps(wv, t@.meta.last_modified)).map_values(
            |t: Thread| JournalResponse::Thread(t),
        )
    } else {
        Seq::<JournalResponse>::empty()
    };
    if kind == JournalFilter::All || kind == JournalFilter::Notes {
        let kept = filter_notes_window(notes, w);
        push_notes(&mut out, kept);
        proof {
            assert(out@ =~= note_part);
        }
    }
    if kind == JournalFilter::All || kind == JournalFilter::Tasks {
        let kept = filter_tasks_window(tasks, w);
        push_tasks(&mut out, kept);
    }
    proof {
        assert(out@ =~= note_part + task_part);
    }
    if kind == JournalFilter::All || kind == JournalFilter::Threads {
        let kept = filter_threads_window(threads, w);
        push_threads(&mut out, kept);
    }
    proof {
        assert(out@ =~= note_part + task_part + thread_part);
        assert(out@ =~= journal_spec(*q, notes@, tasks@, threads@, now));
    }
    Ok(out)
}

/// Append the notes, each tagged as a note entry.
#[verifier::loop_isolation(false)]
fn push_notes(out: &mut Vec<JournalResponse>, notes: Vec<Note>)
    ensures
        final(out)@ == old(out)@ + notes@.map_values(|n: Note| JournalResponse::Note(n)),
{
    let ghost f = |n: Note| JournalResponse::Note(n);
    let mut rest = notes;
    let ghost all = rest@;
    let total = rest.len();
    let mut k: usize = 0;
    proof {
        assert(out@ =~= old(out)@ + all.take(0).map_values(f));
        assert(rest@ =~= all.skip(0));
    }
    while rest.len() > 0
        invariant
            k + rest.len() == total,
            rest@ == all.skip(k as int),
            out@ == old(out)@ + all.take(k as int).map_values(f),
        decreases rest.len(),
    {
        let n = rest.remove(0);
        proof {
            assert(n == all[k as int]);
            assert(rest@ =~= all.skip(k + 1 as int));
            assert(all.take(k + 1 as int).map_values(f) =~= all.take(k as int).map_values(f).push(
                f(all[k as int]),
            ));
        }
        out.push(JournalResponse::Note(n));
        k += 1;
    }
    proof {
        assert(all.take(k as int) =~= all);
    }
}

/// Append the tasks, each tagged as a task entry.
#[verifier::loop_isolation(false)]
fn push_tasks(out: &mut Vec<JournalResponse>, tasks: Vec<Task>)
    ensures
        final(out)@ == old(out)@ + tasks@.map_values(|t: Task| JournalResponse::Task(t)),
{
    let ghost f = |t: Task| JournalResponse::Task(t);
    let mut rest = tasks;
    let ghost all = rest@;
    let total = rest.len();
    let mut k: usize = 0;
    proof {
        assert(out@ =~= old(out)@ + all.take(0).map_values(f));
        assert(rest@ =~= all.skip(0));
    }
    while rest.len() > 0
        invariant
            k + rest.len() == total,
            rest@ == all.skip(k as int),
            out@ == old(out)@ + all.take(k as int).map_values(f),
        decreases rest.len(),
    {
        let t = rest.remove(0);
        proof {
            assert(t == all[k as int]);
            assert(rest@ =~= all.skip(k + 1 as int));
            assert(all.take(k + 1 as int).map_values(f) =~= all.take(k as int).map_values(f).push(
                f(all[k as int]),
            ));
        }
        out.push(JournalResponse::Task(t));
        k += 1;
    }
    proof {
        assert(all.take(k as int) =~= all);
    }
}

/// Append the threads, each tagged as a thread entry.
#[verifier::loop_isolation(false)]
fn push_threads(out: &mut Vec<JournalResponse>, threads: Vec<Thread>)
    ensures
        final(out)@ == old(out)@ + threads@.map_values(|t: Thread| JournalResponse::Thread(t)),
{
    let ghost f = |t: Thread| JournalResponse::Thread(t);
    let mut rest = threads;
    let ghost all = rest@;
    let total = rest.len();
    let mut k: usize = 0;
    proof {
        assert(out@ =~= old(out)@ + all.take(0).map_values(f));
        assert(rest@ =~= all.skip(0));
    }
    while rest.len() > 0
        invariant
            k + rest.len() == total,
            rest@ == all.skip(k as int),
            out@ == old(out)@ + all.take(k as int).map_values(f),
        decreases rest.len(),
    {
        let t = rest.remove(0);
        proof {
            assert(t == all[k as int]);
            assert(rest@ =~= all.skip(k + 1 as int));
            assert(all.take(k + 1 as int).map_values(f) =~= all.take(k as int).map_values(f).push(
                f(all[k as int]),
            ));
        }
        out.push(JournalResponse::Thread(t));
        k += 1;
    }
    proof {
        assert(all.take(k as int) =~= all);
    }
}

} // verus!
