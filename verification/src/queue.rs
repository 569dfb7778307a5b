//! Storage keys of queues and jobs.

use vstd::prelude::*;
use crate::services::runner_service::{writes_view, StoreWrite, WriteView};
use crate::text::{chars_of, int_text, push_char, push_int, string_from_chars};
use crate::utils::constants::{DELAYED_JOBS_KEY, PREFIX_JOB, PREFIX_QUEUE, QUEUES_SET};

verus! {

/// `prefix:id`.
pub fn key_for(prefix: &str, id: &str) -> (k: String)
    ensures
        k@ == prefix@ + seq![':'] + id@,
{
    let p = chars_of(prefix);
    let q = chars_of(id);
    let mut k = String::new();
    let mut i: usize = 0;
    while i < p.len()
        invariant
            i <= p.len(),
            k@ == p@.take(i as int),
        decreases p.len() - i,
    {
        push_char(&mut k, p[i]);
        i = i + 1;
        assert(k@ =~= p@.take(i as int));
    }
    assert(p@.take(p.len() as int) =~= p@);
    push_char(&mut k, ':');
    let mut j: usize = 0;
    while j < q.len()
        invariant
            j <= q.len(),
            k@ == p@ + seq![':'] + q@.take(j as int),
        decreases q.len() - j,
    {
        push_char(&mut k, q[j]);
        j = j + 1;
        assert(k@ =~= p@ + seq![':'] + q@.take(j as int));
    }
    assert(q@.take(q.len() as int) =~= q@);
    k
}

/// The key of the list of pending job ids of `queue`.
pub fn queue_key(queue: &str) -> (k: String)
    ensures
        k@ == PREFIX_QUEUE@ + seq![':'] + queue@,
{
    key_for(PREFIX_QUEUE, queue)
}

/// The key of the hash that holds the job `job_id`.
pub fn job_key(job_id: &str) -> (k: String)
    ensures
        k@ == PREFIX_JOB@ + seq![':'] + job_id@,
{
    key_for(PREFIX_JOB, job_id)
}

/// The store writes that put the job `job_id` on `queue` now: its hash
/// (queue, status `pending`, payload, creation time), its id at the end of
/// the queue's list, and the queue's name in the set of queues.
pub open spec fn enqueue_plan(
    queue: Seq<char>,
    job_id: Seq<char>,
    payload: Seq<char>,
    created_at: Seq<char>,
) -> Seq<WriteView> {
    seq![
        WriteView::HashSet(
            PREFIX_JOB@ + seq![':'] + job_id,
            seq![
                ("queue"@, queue),
                ("status"@, "pending"@),
                ("payload"@, payload),
                ("created_at"@, created_at),
            ],
        ),
        WriteView::RPush(PREFIX_QUEUE@ + seq![':'] + queue, job_id),
        WriteView::SAdd(QUEUES_SET@, queue),
    ]
}

/// The store writes that put the job `job_id` off until `run_at`: its hash
/// (queue, status `delayed`, payload, creation time, run time in decimal),
/// its id in the delayed set scored by `run_at`, and the queue's name in
/// the set of queues.
pub open spec fn delayed_enqueue_plan(
    queue: Seq<char>,
    job_id: Seq<char>,
    payload: Seq<char>,
    created_at: Seq<char>,
    run_at: i64,
) -> Seq<WriteView> {
    seq![
        WriteView::HashSet(
            PREFIX_JOB@ + seq![':'] + job_id,
            seq![
                ("queue"@, queue),
                ("status"@, "delayed"@),
                ("payload"@, payload),
                ("created_at"@, created_at),
                ("run_at"@, int_text(run_at as int)),
            ],
        ),
        WriteView::ZAdd(DELAYED_JOBS_KEY@, job_id, run_at),
        WriteView::SAdd(QUEUES_SET@, queue),
    ]
}

/// The writes of enqueueing the job `job_id` on `queue`; see
/// [`enqueue_plan`].
pub fn enqueue_writes(queue: &str, job_id: &str, payload: &str, created_at: &str) -> (w: Vec<
    StoreWrite,
>)
    ensures
        writes_view(w@) == enqueue_plan(queue@, job_id@, payload@, created_at@),
{
    let fields: Vec<(String, String)> = vec![
        ("queue".to_owned(), queue.to_owned()),
        ("status".to_owned(), "pending".to_owned()),
        ("payload".to_owned(), payload.to_owned()),
        ("created_at".to_owned(), created_at.to_owned()),
    ];
    let ghost fv = fields@;
    let w: Vec<StoreWrite> = vec![
        StoreWrite::HashSet { key: job_key(job_id), fields },
        StoreWrite::RPush { key: queue_key(queue), value: job_id.to_owned() },
        StoreWrite::SAdd { key: QUEUES_SET.to_owned(), member: queue.to_owned() },
    ];
    proof {
        assert(crate::services::runner_service::pairs_view(fv) =~= seq![
            ("queue"@, queue@),
            ("status"@, "pending"@),
            ("payload"@, payload@),
            ("created_at"@, created_at@),
        ]);
        assert(writes_view(w@) =~= enqueue_plan(queue@, job_id@, payload@, created_at@));
    }
    w
}

/// The writes of putting the job `job_id` of `queue` off by `delay_secs`
/// seconds from the second `now_secs`; see [`delayed_enqueue_plan`].
pub fn delayed_enqueue_writes(
    queue: &str,
    job_id: &str,
    payload: &str,
    created_at: &str,
    now_secs: i64,
    delay_secs: u64,
) -> (w: Vec<StoreWrite>)
    requires
        now_secs + delay_secs <= i64::MAX,
    ensures
        writes_view(w@) == delayed_enqueue_plan(
            queue@,
            job_id@,
            payload@,
            created_at@,
            (now_secs + delay_secs) as i64,
        ),
{
    let run_at: i64 = if now_secs >= 0 {
        now_secs + (delay_secs as i64)
    } else {
        let d: i128 = now_secs as i128 + delay_secs as i128;
        d as i64
    };
    let mut digits: Vec<char> = Vec::new();
    push_int(&mut digits, run_at);
    let fields: Vec<(String, String)> = vec![
        ("queue".to_owned(), queue.to_owned()),
        ("status".to_owned(), "delayed".to_owned()),
        ("payload".to_owned(), payload.to_owned()),
        ("created_at".to_owned(), created_at.to_owned()),
        ("run_at".to_owned(), string_from_chars(&digits)),
    ];
    let ghost fv = fields@;
    let w: Vec<StoreWrite> = vec![
        StoreWrite::HashSet { key: job_key(job_id), fields },
        StoreWrite::ZAdd { key: DELAYED_JOBS_KEY.to_owned(), member: job_id.to_owned(), score: run_at },
        StoreWrite::SAdd { key: QUEUES_SET.to_owned(), member: queue.to_owned() },
    ];
    proof {
        assert(crate::services::runner_service::pairs_view(fv) =~= seq![
            ("queue"@, queue@),
            ("status"@, "delayed"@),
            ("payload"@, payload@),
            ("created_at"@, created_at@),
            ("run_at"@, int_text(run_at as int)),
        ]);
        assert(writes_view(w@) =~= delayed_enqueue_plan(
            queue@,
            job_id@,
            payload@,
            created_at@,
            run_at,
        ));
    }
    w
}

} // verus!
