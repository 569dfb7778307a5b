//! The workers' decisions: what a worker does with each job it pops, from
//! the hooks' outcomes to the writes that record them, and the retry
//! policy.

use vstd::prelude::*;
use vstd::string::*;
use crate::queue::{job_key, key_for};
use crate::utils::constants::{
    COUNTER_FAILED, COUNTER_SUCCESS, COUNTER_TOTAL_JOBS, DELAYED_JOBS_KEY, FAILED_JOBS_LIST,
    FAILED_LIST_PREFIX, LOGS_PREFIX, MAX_RETRIES, PREFIX_JOB, RETRY_LIST_PREFIX,
    STATS_JOBS_FAILED_PREFIX, STATS_JOBS_PREFIX, SUCCESS_LIST_PREFIX,
};

verus! {

/// When a job that has failed `retries` times runs again: `10 * retries`
/// seconds after `now` while `retries` is at most [`MAX_RETRIES`], and not
/// at all after that.
pub fn retry_at(retries: i64, now: i64) -> (r: Option<i64>)
    requires
        retries <= MAX_RETRIES ==> i64::MIN <= now + 10 * retries <= i64::MAX,
        retries <= MAX_RETRIES ==> i64::MIN <= 10 * retries,
    ensures
        retries <= MAX_RETRIES ==> r == Some((now + 10 * retries) as i64),
        retries > MAX_RETRIES ==> r is None,
{
    if retries <= MAX_RETRIES as i64 {
        let backoff = 10 * retries;
        Some(now + backoff)
    } else {
        None
    }
}

/// A write to the job store.
pub enum StoreWrite {
    /// Set the fields of a hash, in order.
    HashSet { key: String, fields: Vec<(String, String)> },
    /// Add one to a counter.
    Incr { key: String },
    /// Append to a list.
    RPush { key: String, value: String },
    /// Prepend to a list.
    LPush { key: String, value: String },
    /// Keep only the items `start..=stop` of a list.
    LTrim { key: String, start: i64, stop: i64 },
    /// Put a member into a sorted set with a score.
    ZAdd { key: String, member: String, score: i64 },
    /// Put a member into a set.
    SAdd { key: String, member: String },
    /// Take a member out of a sorted set.
    ZRem { key: String, member: String },
    /// Take the items equal to `value` out of a list (`count` 0: all).
    LRem { key: String, count: i64, value: String },
    /// Take fields out of a hash.
    HDel { key: String, fields: Vec<String> },
    /// Delete a key.
    Del { key: String },
}

/// What the worker does next, in order: a store write, a hook of the job,
/// or a pause (milliseconds).
pub enum WorkerAction {
    Write(StoreWrite),
    CallAfter,
    CallOnError,
    CallAlways,
    Sleep(u64),
}

/// Where a worker is with its current job.
#[derive(Debug, Clone, Copy, PartialEq, Eq)]
pub enum WorkerStage {
    /// Waiting to pop the next job id.
    Idle,
    /// Waiting for the job's payload and the registered handlers.
    Fetching,
    /// Waiting for the handler `next` (of `count`) to decode the payload.
    Decoding { next: usize, count: usize },
    /// Waiting for the job's `before` hook.
    Before,
    /// Waiting for the job's `perform`.
    Performing,
    /// Waiting for the job's retry count after a failure.
    Retrying,
}

/// A worker of one queue: its stage, the job it holds, the name of the
/// first registered handler, and the last decoding error it saw (kept from
/// job to job).
pub struct WorkerState {
    pub stage: WorkerStage,
    pub job_id: String,
    pub first_name: Option<String>,
    pub error: Option<String>,
}

/// What the worker learnt from the store or from the job.
pub enum WorkerEvent {
    /// The id popped from the queue, if any.
    Popped(Option<String>),
    /// How many handlers are registered, and the name of the first one.
    Fetched { handlers: usize, first_name: Option<String> },
    /// The current handler decoded the payload.
    Decoded,
    /// The current handler refused the payload, with this message.
    DecodeFailed(String),
    /// The `before` hook passed (true) or refused the job.
    BeforeDone(bool),
    /// `perform` succeeded (true) or failed.
    PerformDone(bool),
    /// The job's retry count after one more failure.
    RetriesNow(i64),
}

/// The time of a step: the second, its RFC 3339 text, the text of log
/// lines, and the date (`YYYY-MM-DD`) of the worker's daily counters.
pub struct WorkerClock {
    pub secs: i64,
    pub rfc3339: String,
    pub log_time: String,
    pub today: String,
}

/// A store write, over plain values.
pub ghost enum WriteView {
    HashSet(Seq<char>, Seq<(Seq<char>, Seq<char>)>),
    Incr(Seq<char>),
    RPush(Seq<char>, Seq<char>),
    LPush(Seq<char>, Seq<char>),
    LTrim(Seq<char>, i64, i64),
    ZAdd(Seq<char>, Seq<char>, i64),
    SAdd(Seq<char>, Seq<char>),
    ZRem(Seq<char>, Seq<char>),
    LRem(Seq<char>, i64, Seq<char>),
    HDel(Seq<char>, Seq<Seq<char>>),
    Del(Seq<char>),
}

/// A worker action, over plain values.
pub ghost enum ActionView {
    Write(WriteView),
    CallAfter,
    CallOnError,
    CallAlways,
    Sleep(u64),
}

/// A worker's state, over plain values.
pub ghost struct StateView {
    pub stage: WorkerStage,
    pub job_id: Seq<char>,
    pub first_name: Option<Seq<char>>,
    pub error: Option<Seq<char>>,
}

/// An event, over plain values.
pub ghost enum EventView {
    Popped(Option<Seq<char>>),
    Fetched(usize, Option<Seq<char>>),
    Decoded,
    DecodeFailed(Seq<char>),
    BeforeDone(bool),
    PerformDone(bool),
    RetriesNow(i64),
}

/// A clock, over plain values.
pub ghost struct ClockView {
    pub secs: i64,
    pub rfc3339: Seq<char>,
    pub log_time: Seq<char>,
    pub today: Seq<char>,
}

pub open spec fn opt_view(o: Option<String>) -> Option<Seq<char>> {
    match o {
        Some(s) => Some(s@),
        None => None,
    }
}

pub open spec fn pairs_view(v: Seq<(String, String)>) -> Seq<(Seq<char>, Seq<char>)> {
    v.map_values(|p: (String, String)| (p.0@, p.1@))
}

impl StoreWrite {
    pub open spec fn view(&self) -> WriteView {
        match self {
            StoreWrite::HashSet { key, fields } => WriteView::HashSet(key@, pairs_view(fields@)),
            StoreWrite::Incr { key } => WriteView::Incr(key@),
            StoreWrite::RPush { key, value } => WriteView::RPush(key@, value@),
            StoreWrite::LPush { key, value } => WriteView::LPush(key@, value@),
            StoreWrite::LTrim { key, start, stop } => WriteView::LTrim(key@, *start, *stop),
            StoreWrite::ZAdd { key, member, score } => WriteView::ZAdd(key@, member@, *score),
            StoreWrite::SAdd { key, member } => WriteView::SAdd(key@, member@),
            StoreWrite::ZRem { key, member } => WriteView::ZRem(key@, member@),
            StoreWrite::LRem { key, count, value } => WriteView::LRem(key@, *count, value@),
            StoreWrite::HDel { key, fields } => WriteView::HDel(key@, strings_view(fields@)),
            StoreWrite::Del { key } => WriteView::Del(key@),
        }
    }
}

impl WorkerAction {
    pub open spec fn view(&self) -> ActionView {
        match self {
            WorkerAction::Write(w) => ActionView::Write(w.view()),
            WorkerAction::CallAfter => ActionView::CallAfter,
            WorkerAction::CallOnError => ActionView::CallOnError,
            WorkerAction::CallAlways => ActionView::CallAlways,
            WorkerAction::Sleep(ms) => ActionView::Sleep(*ms),
        }
    }
}

pub open spec fn strings_view(v: Seq<String>) -> Seq<Seq<char>> {
    v.map_values(|x: String| x@)
}

pub open spec fn writes_view(v: Seq<StoreWrite>) -> Seq<WriteView> {
    v.map_values(|w: StoreWrite| w.view())
}

pub open spec fn actions_view(v: Seq<WorkerAction>) -> Seq<ActionView> {
    v.map_values(|a: WorkerAction| a.view())
}

impl WorkerState {
    pub open spec fn view(&self) -> StateView {
        StateView {
            stage: self.stage,
            job_id: self.job_id@,
            first_name: opt_view(self.first_name),
            error: opt_view(self.error),
        }
    }
}

impl WorkerEvent {
    pub open spec fn view(&self) -> EventView {
        match self {
            WorkerEvent::Popped(id) => EventView::Popped(opt_view(*id)),
            WorkerEvent::Fetched { handlers, first_name } => EventView::Fetched(
                *handlers,
                opt_view(*first_name),
            ),
            WorkerEvent::Decoded => EventView::Decoded,
            WorkerEvent::DecodeFailed(m) => EventView::DecodeFailed(m@),
            WorkerEvent::BeforeDone(b) => EventView::BeforeDone(*b),
            WorkerEvent::PerformDone(b) => EventView::PerformDone(*b),
            WorkerEvent::RetriesNow(n) => EventView::RetriesNow(*n),
        }
    }
}

impl WorkerClock {
    pub open spec fn view(&self) -> ClockView {
        ClockView {
            secs: self.secs,
            rfc3339: self.rfc3339@,
            log_time: self.log_time@,
            today: self.today@,
        }
    }
}

/// `prefix:name`.
pub open spec fn key_of(prefix: Seq<char>, name: Seq<char>) -> Seq<char> {
    prefix + seq![':'] + name
}

/// How long a worker pauses between two jobs, and when its queue is empty.
pub const WORKER_PAUSE_MS: u64 = 500;

/// How many log lines of a queue are kept.
pub const LOG_KEEP: i64 = 99;

/// The writes that record a job that no handler ran: the daily failure
/// counter, the job's status (with the last decoding error, if any), a log
/// line, the list of failed jobs, the job's name, the queue's failed list
/// and the failure counter; then a pause.
pub open spec fn failed_actions(
    queue: Seq<char>,
    id: Seq<char>,
    first_name: Option<Seq<char>>,
    error: Option<Seq<char>>,
    clock: ClockView,
) -> Seq<ActionView> {
    let jk = key_of(PREFIX_JOB@, id);
    let logs = key_of(LOGS_PREFIX@, queue);
    let status = seq![
        ("status"@, "failed"@),
        ("failed_at"@, clock.rfc3339),
        ("queue"@, queue),
        ("failed_at"@, clock.rfc3339),
    ] + match error {
        Some(m) => seq![("error"@, m)],
        None => Seq::<(Seq<char>, Seq<char>)>::empty(),
    };
    let name = match first_name {
        Some(n) => n,
        None => "unknown"@,
    };
    seq![
        ActionView::Write(
            WriteView::Incr(key_of(STATS_JOBS_FAILED_PREFIX@, clock.today) + ":failed"@),
        ),
        ActionView::Write(WriteView::HashSet(jk, status)),
        ActionView::Write(
            WriteView::LPush(logs, "["@ + clock.log_time + "] ❌ Job "@ + id + " failed"@),
        ),
        ActionView::Write(WriteView::LTrim(logs, 0, LOG_KEEP)),
        ActionView::Write(WriteView::RPush(FAILED_JOBS_LIST@, id)),
        ActionView::Write(WriteView::HashSet(jk, seq![("job_name"@, name)])),
        ActionView::Write(WriteView::RPush(key_of(FAILED_LIST_PREFIX@, queue), id)),
        ActionView::Write(WriteView::Incr(COUNTER_FAILED@)),
        ActionView::Sleep(WORKER_PAUSE_MS),
    ]
}

/// The writes after a successful `perform`: `after` runs, the job is marked
/// a success, the counters and the queue's success list grow, `always`
/// runs; then a pause.
pub open spec fn success_actions(queue: Seq<char>, id: Seq<char>, clock: ClockView) -> Seq<
    ActionView,
> {
    seq![
        ActionView::CallAfter,
        ActionView::Write(
            WriteView::HashSet(
                key_of(PREFIX_JOB@, id),
                seq![("status"@, "success"@), ("completed_at"@, clock.rfc3339)],
            ),
        ),
        ActionView::Write(WriteView::Incr(COUNTER_SUCCESS@)),
        ActionView::Write(WriteView::RPush(key_of(SUCCESS_LIST_PREFIX@, queue), id)),
        ActionView::Write(WriteView::Incr(key_of(STATS_JOBS_PREFIX@, clock.today))),
        ActionView::Write(WriteView::Incr(COUNTER_TOTAL_JOBS@)),
        ActionView::CallAlways,
        ActionView::Sleep(WORKER_PAUSE_MS),
    ]
}

/// The writes after a failed `perform` once the retry count is `n`: the
/// job goes on the queue's retry list and, while `n` is at most
/// [`MAX_RETRIES`], into the delayed jobs, due `10 * n` seconds from now;
/// `always` runs; then a pause.
pub open spec fn retry_actions(queue: Seq<char>, id: Seq<char>, n: i64, clock: ClockView) -> Seq<
    ActionView,
> {
    seq![ActionView::Write(WriteView::RPush(key_of(RETRY_LIST_PREFIX@, queue), id))] + (if n
        <= MAX_RETRIES {
        seq![ActionView::Write(WriteView::ZAdd(DELAYED_JOBS_KEY@, id, (clock.secs + 10 * n) as i64))]
    } else {
        Seq::<ActionView>::empty()
    }) + seq![ActionView::CallAlways, ActionView::Sleep(WORKER_PAUSE_MS)]
}

/// `s` back to waiting for a job, with the decoding error `error`.
pub open spec fn idle(s: StateView, error: Option<Seq<char>>) -> StateView {
    StateView { stage: WorkerStage::Idle, error, ..s }
}

/// One step of a worker of `queue`: from its state and what it learnt, its
/// next state and what it does. Events that do not fit the stage change
/// nothing.
pub open spec fn worker_step_spec(s: StateView, e: EventView, queue: Seq<char>, clock: ClockView) -> (
    StateView,
    Seq<ActionView>,
) {
    match (s.stage, e) {
        (WorkerStage::Idle, EventView::Popped(None)) => (s, seq![ActionView::Sleep(WORKER_PAUSE_MS)]),
        (WorkerStage::Idle, EventView::Popped(Some(id))) => (
            StateView { stage: WorkerStage::Fetching, job_id: id, ..s },
            seq![],
        ),
        (WorkerStage::Fetching, EventView::Fetched(n, first)) => if n == 0 {
            (
                idle(StateView { first_name: first, ..s }, s.error),
                failed_actions(queue, s.job_id, first, s.error, clock),
            )
        } else {
            (
                StateView {
                    stage: WorkerStage::Decoding { next: 0, count: n },
                    first_name: first,
                    ..s
                },
                seq![],
            )
        },
        (WorkerStage::Decoding { next, count }, EventView::Decoded) => (
            StateView { stage: WorkerStage::Before, ..s },
            seq![],
        ),
        (WorkerStage::Decoding { next, count }, EventView::DecodeFailed(m)) => if next + 1 < count {
            (
                StateView {
                    stage: WorkerStage::Decoding { next: (next + 1) as usize, count },
                    error: Some(m),
                    ..s
                },
                seq![],
            )
        } else {
            (idle(s, Some(m)), failed_actions(queue, s.job_id, s.first_name, Some(m), clock))
        },
        (WorkerStage::Before, EventView::BeforeDone(true)) => (
            StateView { stage: WorkerStage::Performing, ..s },
            seq![],
        ),
        (WorkerStage::Before, EventView::BeforeDone(false)) => (
            idle(s, s.error),
            seq![
                ActionView::Write(
                    WriteView::HashSet(
                        key_of(PREFIX_JOB@, s.job_id),
                        seq![("status"@, "skipped"@), ("skipped_at"@, clock.rfc3339)],
                    ),
                ),
            ] + failed_actions(queue, s.job_id, s.first_name, s.error, clock),
        ),
        (WorkerStage::Performing, EventView::PerformDone(true)) => (
            idle(s, s.error),
            success_actions(queue, s.job_id, clock),
        ),
        (WorkerStage::Performing, EventView::PerformDone(false)) => (
            StateView { stage: WorkerStage::Retrying, ..s },
            seq![ActionView::CallOnError],
        ),
        (WorkerStage::Retrying, EventView::RetriesNow(n)) => (
            idle(s, s.error),
            retry_actions(queue, s.job_id, n, clock),
        ),
        _ => (s, seq![]),
    }
}

/// A job whose `perform` failed is rescheduled whenever it may still be
/// retried: after its `n`-th failure, `n` at most [`MAX_RETRIES`], the step
/// of the retrying worker puts the job into the delayed jobs due `10 * n`
/// seconds from now (what [`retry_at`] gives); past that it is put into the
/// delayed jobs at no time.
pub proof fn law_failed_job_is_rescheduled(s: StateView, n: i64, queue: Seq<char>, clock: ClockView)
    requires
        s.stage == WorkerStage::Retrying,
    ensures
        n <= MAX_RETRIES ==> worker_step_spec(s, EventView::RetriesNow(n), queue, clock).1.contains(
            ActionView::Write(WriteView::ZAdd(DELAYED_JOBS_KEY@, s.job_id, (clock.secs + 10 * n) as i64)),
        ),
        n > MAX_RETRIES ==> forall|i: int|
            0 <= i < worker_step_spec(s, EventView::RetriesNow(n), queue, clock).1.len() ==> !(
            #[trigger] worker_step_spec(s, EventView::RetriesNow(n), queue, clock).1[i] matches ActionView::Write(
                WriteView::ZAdd(_, _, _),
            )),
{
    let acts = worker_step_spec(s, EventView::RetriesNow(n), queue, clock).1;
    assert(acts == retry_actions(queue, s.job_id, n, clock));
    if n <= MAX_RETRIES {
        assert(acts[1] == ActionView::Write(
            WriteView::ZAdd(DELAYED_JOBS_KEY@, s.job_id, (clock.secs + 10 * n) as i64),
        ));
    } else {
        assert(acts =~= seq![
            ActionView::Write(WriteView::RPush(key_of(RETRY_LIST_PREFIX@, queue), s.job_id)),
            ActionView::CallAlways,
            ActionView::Sleep(WORKER_PAUSE_MS),
        ]);
    }
}

/// A retry count that the step can schedule without overflow.
pub open spec fn retry_fits(n: i64, now: i64) -> bool {
    n <= MAX_RETRIES ==> i64::MIN <= now + 10 * n <= i64::MAX && i64::MIN <= 10 * n
}

fn text(s: &str) -> (r: String)
    ensures
        r@ == s@,
{
    s.to_owned()
}

fn job_key_string(id: &String) -> (r: String)
    ensures
        r@ == key_of(PREFIX_JOB@, id@),
{
    job_key(id.as_str())
}

fn write(w: StoreWrite) -> (a: WorkerAction)
    ensures
        a.view() == ActionView::Write(w.view()),
{
    WorkerAction::Write(w)
}

fn hash_set(key: String, fields: Vec<(String, String)>) -> (a: WorkerAction)
    ensures
        a.view() == ActionView::Write(WriteView::HashSet(key@, pairs_view(fields@))),
{
    WorkerAction::Write(StoreWrite::HashSet { key, fields })
}

fn pair(a: &str, b: String) -> (p: (String, String))
    ensures
        p.0@ == a@,
        p.1@ == b@,
{
    (text(a), b)
}

/// The actions of [`failed_actions`].
fn failed_writes(
    queue: &str,
    id: &String,
    first_name: &Option<String>,
    error: &Option<String>,
    clock: &WorkerClock,
) -> (r: Vec<WorkerAction>)
    ensures
        actions_view(r@) == failed_actions(
            queue@,
            id@,
            opt_view(*first_name),
            opt_view(*error),
            clock.view(),
        ),
{
    let mut daily = key_for(STATS_JOBS_FAILED_PREFIX, clock.today.as_str());
    daily.append(":failed");
    let mut status: Vec<(String, String)> = Vec::new();
    status.push(pair("status", text("failed")));
    status.push(pair("failed_at", clock.rfc3339.clone()));
    status.push(pair("queue", text(queue)));
    status.push(pair("failed_at", clock.rfc3339.clone()));
    let ghost base = pairs_view(status@);
    match error {
        Some(m) => {
            status.push(pair("error", m.clone()));
        },
        None => {},
    }
    let logs = key_for(LOGS_PREFIX, queue);
    let mut line = text("[");
    line.append(clock.log_time.as_str());
    line.append("] ❌ Job ");
    line.append(id.as_str());
    line.append(" failed");
    let name = match first_name {
        Some(n) => n.clone(),
        None => text("unknown"),
    };
    let mut names: Vec<(String, String)> = Vec::new();
    names.push(pair("job_name", name));
    let mut r: Vec<WorkerAction> = Vec::new();
    r.push(write(StoreWrite::Incr { key: daily }));
    r.push(hash_set(job_key_string(id), status));
    r.push(write(StoreWrite::LPush { key: logs, value: line }));
    r.push(write(StoreWrite::LTrim { key: key_for(LOGS_PREFIX, queue), start: 0, stop: LOG_KEEP }));
    r.push(write(StoreWrite::RPush { key: text(FAILED_JOBS_LIST), value: id.clone() }));
    r.push(hash_set(job_key_string(id), names));
    r.push(write(StoreWrite::RPush { key: key_for(FAILED_LIST_PREFIX, queue), value: id.clone() }));
    r.push(write(StoreWrite::Incr { key: text(COUNTER_FAILED) }));
    r.push(WorkerAction::Sleep(WORKER_PAUSE_MS));
    proof {
        let expected = failed_actions(
            queue@,
            id@,
            opt_view(*first_name),
            opt_view(*error),
            clock.view(),
        );
        assert(pairs_view(status@) =~= expected[1]->Write_0->HashSet_1);
        assert(pairs_view(names@) =~= seq![("job_name"@, name@)]);
        assert(actions_view(r@)[0] == expected[0]);
        assert(actions_view(r@)[1] == expected[1]);
        assert(actions_view(r@)[2] == expected[2]);
        assert(actions_view(r@)[3] == expected[3]);
        assert(actions_view(r@)[4] == expected[4]);
        assert(actions_view(r@)[5] == expected[5]);
        assert(actions_view(r@)[6] == expected[6]);
        assert(actions_view(r@)[7] == expected[7]);
        assert(actions_view(r@)[8] == expected[8]);
        assert(actions_view(r@) =~= expected);
    }
    r
}

/// One step of a worker of `queue`; see [`worker_step_spec`].
pub fn worker_step(s: WorkerState, e: WorkerEvent, queue: &str, clock: &WorkerClock) -> (r: (
    WorkerState,
    Vec<WorkerAction>,
))
    requires
        e matches WorkerEvent::RetriesNow(n) ==> retry_fits(n, clock.secs),
    ensures
        (r.0.view(), actions_view(r.1@)) == worker_step_spec(s.view(), e.view(), queue@, clock.view()),
{
    let mut s = s;
    match (s.stage, e) {
        (WorkerStage::Idle, WorkerEvent::Popped(None)) => {
            let mut v: Vec<WorkerAction> = Vec::new();
            v.push(WorkerAction::Sleep(WORKER_PAUSE_MS));
            assert(actions_view(v@) =~= seq![ActionView::Sleep(WORKER_PAUSE_MS)]);
            (s, v)
        },
        (WorkerStage::Idle, WorkerEvent::Popped(Some(id))) => {
            s.stage = WorkerStage::Fetching;
            s.job_id = id;
            let v: Vec<WorkerAction> = Vec::new();
            assert(actions_view(v@) =~= Seq::<ActionView>::empty());
            (s, v)
        },
        (WorkerStage::Fetching, WorkerEvent::Fetched { handlers, first_name }) => {
            if handlers == 0 {
                let v = failed_writes(queue, &s.job_id, &first_name, &s.error, clock);
                s.stage = WorkerStage::Idle;
                s.first_name = first_name;
            (s, v)
            } else {
                s.stage = WorkerStage::Decoding { next: 0, count: handlers };
                s.first_name = first_name;
                let v: Vec<WorkerAction> = Vec::new();
                assert(actions_view(v@) =~= Seq::<ActionView>::empty());
            (s, v)
            }
        },
        (WorkerStage::Decoding { next, count }, WorkerEvent::Decoded) => {
            s.stage = WorkerStage::Before;
            let v: Vec<WorkerAction> = Vec::new();
            assert(actions_view(v@) =~= Seq::<ActionView>::empty());
            (s, v)
        },
        (WorkerStage::Decoding { next, count }, WorkerEvent::DecodeFailed(m)) => {
            if next < usize::MAX && next + 1 < count {
                s.stage = WorkerStage::Decoding { next: next + 1, count };
                s.error = Some(m);
                let v: Vec<WorkerAction> = Vec::new();
                assert(actions_view(v@) =~= Seq::<ActionView>::empty());
            (s, v)
            } else {
                let err = Some(m);
                let v = failed_writes(queue, &s.job_id, &s.first_name, &err, clock);
                s.stage = WorkerStage::Idle;
                s.error = err;
            (s, v)
            }
        },
        (WorkerStage::Before, WorkerEvent::BeforeDone(true)) => {
            s.stage = WorkerStage::Performing;
            let v: Vec<WorkerAction> = Vec::new();
            assert(actions_view(v@) =~= Seq::<ActionView>::empty());
            (s, v)
        },
        (WorkerStage::Before, WorkerEvent::BeforeDone(false)) => {
            let mut fields: Vec<(String, String)> = Vec::new();
            fields.push(pair("status", text("skipped")));
            fields.push(pair("skipped_at", clock.rfc3339.clone()));
            let mut v: Vec<WorkerAction> = Vec::new();
            v.push(hash_set(job_key_string(&s.job_id), fields));
            let ghost head = actions_view(v@);
            assert(pairs_view(fields@) =~= seq![("status"@, "skipped"@), ("skipped_at"@, clock.rfc3339@)]);
            assert(head =~= seq![
                ActionView::Write(
                    WriteView::HashSet(
                        key_of(PREFIX_JOB@, s.job_id@),
                        seq![("status"@, "skipped"@), ("skipped_at"@, clock.rfc3339@)],
                    ),
                ),
            ]);
            let mut rest = failed_writes(queue, &s.job_id, &s.first_name, &s.error, clock);
            let ghost tail = actions_view(rest@);
            v.append(&mut rest);
            assert(actions_view(v@) =~= head + tail);
            s.stage = WorkerStage::Idle;
            (s, v)
        },
        (WorkerStage::Performing, WorkerEvent::PerformDone(true)) => {
            let mut fields: Vec<(String, String)> = Vec::new();
            fields.push(pair("status", text("success")));
            fields.push(pair("completed_at", clock.rfc3339.clone()));
            let mut v: Vec<WorkerAction> = Vec::new();
            v.push(WorkerAction::CallAfter);
            v.push(hash_set(job_key_string(&s.job_id), fields));
            v.push(write(StoreWrite::Incr { key: text(COUNTER_SUCCESS) }));
            v.push(
                write(
                    StoreWrite::RPush {
                        key: key_for(SUCCESS_LIST_PREFIX, queue),
                        value: s.job_id.clone(),
                    },
                ),
            );
            v.push(write(StoreWrite::Incr { key: key_for(STATS_JOBS_PREFIX, clock.today.as_str()) }));
            v.push(write(StoreWrite::Incr { key: text(COUNTER_TOTAL_JOBS) }));
            v.push(WorkerAction::CallAlways);
            v.push(WorkerAction::Sleep(WORKER_PAUSE_MS));
            proof {
                let expected = success_actions(queue@, s.job_id@, clock.view());
                assert(pairs_view(fields@) =~= expected[1]->Write_0->HashSet_1);
                assert(actions_view(v@)[1] == expected[1]);
                assert(actions_view(v@) =~= expected);
            }
            s.stage = WorkerStage::Idle;
            (s, v)
        },
        (WorkerStage::Performing, WorkerEvent::PerformDone(false)) => {
            s.stage = WorkerStage::Retrying;
            let mut v: Vec<WorkerAction> = Vec::new();
            v.push(WorkerAction::CallOnError);
            assert(actions_view(v@) =~= seq![ActionView::CallOnError]);
            (s, v)
        },
        (WorkerStage::Retrying, WorkerEvent::RetriesNow(n)) => {
            let mut v: Vec<WorkerAction> = Vec::new();
            v.push(
                write(
                    StoreWrite::RPush {
                        key: key_for(RETRY_LIST_PREFIX, queue),
                        value: s.job_id.clone(),
                    },
                ),
            );
            if let Some(at) = retry_at(n, clock.secs) {
                v.push(
                    write(
                        StoreWrite::ZAdd {
                            key: text(DELAYED_JOBS_KEY),
                            member: s.job_id.clone(),
                            score: at,
                        },
                    ),
                );
            }
            v.push(WorkerAction::CallAlways);
            v.push(WorkerAction::Sleep(WORKER_PAUSE_MS));
            assert(actions_view(v@) =~= retry_actions(queue@, s.job_id@, n, clock.view()));
            s.stage = WorkerStage::Idle;
            (s, v)
        },
        (stage, e) => {
            let v: Vec<WorkerAction> = Vec::new();
            assert(actions_view(v@) =~= Seq::<ActionView>::empty());
            (s, v)
        },
    }
}

} // verus!
