//! The computations behind the dashboard's listings.

use vstd::prelude::*;
use crate::text::{
    chars_of, contains_chars, contains_seq, str_eq, strip_prefix, strip_prefix_spec,
};
use crate::utils::pagination::PaginationQuery;
use crate::queue::{job_key, key_for, queue_key};
use crate::services::runner_service::{
    key_of, pairs_view, strings_view, writes_view, StoreWrite, WriteView, LOG_KEEP,
};
use crate::utils::constants::{DELAYED_JOBS_KEY, LOGS_PREFIX, PREFIX_JOB, PREFIX_QUEUE};

verus! {

/// The query of the queue listing: a search text and a page.
#[derive(Debug, Clone)]
pub struct MetricsQuery {
    pub search: Option<String>,
    pub page: Option<usize>,
    pub limit: Option<usize>,
}

impl MetricsQuery {
    /// The page that the query asks for.
    pub fn pagination_query(&self) -> (q: PaginationQuery)
        ensures
            q.page == self.page,
            q.limit == self.limit,
    {
        PaginationQuery { page: self.page, limit: self.limit }
    }
}

/// `base` followed by the items of `items` that are new, each once, in the
/// order of their first appearance.
pub open spec fn append_new(base: Seq<Seq<char>>, items: Seq<Seq<char>>) -> Seq<Seq<char>>
    decreases items.len(),
{
    if items.len() == 0 {
        base
    } else {
        let r = append_new(base, items.drop_last());
        if r.contains(items.last()) {
            r
        } else {
            r.push(items.last())
        }
    }
}

/// The listing that [`merge_queues`] and [`dedupe_ids`] build keeps `base`
/// in front unchanged, holds exactly the strings of `base` and `items`, and
/// repeats none when `base` repeats none.
pub proof fn law_append_new(base: Seq<Seq<char>>, items: Seq<Seq<char>>)
    ensures
        append_new(base, items).len() >= base.len(),
        append_new(base, items).take(base.len() as int) == base,
        forall|x: Seq<char>|
            append_new(base, items).contains(x) <==> (base.contains(x) || items.contains(x)),
        base.no_duplicates() ==> append_new(base, items).no_duplicates(),
    decreases items.len(),
{
    if items.len() == 0 {
        assert(base.take(base.len() as int) =~= base);
    } else {
        let r = append_new(base, items.drop_last());
        law_append_new(base, items.drop_last());
        let last = items.last();
        assert forall|x: Seq<char>| items.contains(x) <==> (items.drop_last().contains(x) || x
            == last) by {
            if items.contains(x) {
                let k = choose|k: int| 0 <= k < items.len() && items[k] == x;
                if k < items.len() - 1 {
                    assert(items.drop_last()[k] == x);
                }
            }
            if items.drop_last().contains(x) {
                let k = choose|k: int| 0 <= k < items.drop_last().len() && items.drop_last()[k] == x;
                assert(items[k] == x);
            }
            if x == last {
                assert(items[items.len() - 1] == x);
            }
        }
        if !r.contains(last) {
            let r2 = r.push(last);
            assert(r2.take(base.len() as int) =~= r.take(base.len() as int));
            assert forall|x: Seq<char>| r2.contains(x) <==> (r.contains(x) || x == last) by {
                if r2.contains(x) {
                    let k = choose|k: int| 0 <= k < r2.len() && r2[k] == x;
                    if k < r.len() {
                        assert(r[k] == x);
                    }
                }
                if r.contains(x) {
                    let k = choose|k: int| 0 <= k < r.len() && r[k] == x;
                    assert(r2[k] == x);
                }
                if x == last {
                    assert(r2[r.len() as int] == x);
                }
            }
            if base.no_duplicates() {
                assert forall|i: int, j: int| 0 <= i < r2.len() && 0 <= j < r2.len() && i != j
                    implies r2[i] != r2[j] by {
                    if i == r.len() && j < r.len() {
                        assert(r.contains(r2[j]));
                    } else if j == r.len() && i < r.len() {
                        assert(r.contains(r2[i]));
                    }
                }
            }
        }
    }
}

/// Whether `v` holds a string equal to `s`.
fn vec_has(v: &Vec<String>, s: &String) -> (r: bool)
    ensures
        r == v.deep_view().contains(s@),
{
    let mut i: usize = 0;
    while i < v.len()
        invariant
            i <= v.len(),
            forall|k: int| 0 <= k < i ==> v.deep_view()[k] != s@,
        decreases v.len() - i,
    {
        if v[i] == *s {
            assert(v.deep_view()[i as int] == s@);
            return true;
        }
        i = i + 1;
    }
    false
}

/// Appends to `base` the items of `items` that it does not hold yet.
fn append_new_items(base: Vec<String>, items: &Vec<String>) -> (r: Vec<String>)
    ensures
        r.deep_view() == append_new(base.deep_view(), items.deep_view()),
{
    let mut all = base;
    let ghost b = all.deep_view();
    let mut i: usize = 0;
    while i < items.len()
        invariant
            i <= items.len(),
            all.deep_view() == append_new(b, items.deep_view().take(i as int)),
        decreases items.len() - i,
    {
        let ghost before = all.deep_view();
        assert(items.deep_view().take(i + 1).drop_last() =~= items.deep_view().take(i as int));
        if !vec_has(&all, &items[i]) {
            all.push(items[i].clone());
            assert(all.deep_view() =~= before.push(items.deep_view()[i as int]));
        }
        i = i + 1;
    }
    assert(items.deep_view().take(items.len() as int) =~= items.deep_view());
    all
}

/// The queues to list: the configured ones, then the active ones not
/// configured, each once.
pub fn merge_queues(configured: Vec<String>, active: Vec<String>) -> (r: Vec<String>)
    ensures
        r.deep_view() == append_new(configured.deep_view(), active.deep_view()),
{
    append_new_items(configured, &active)
}

/// The ids without repeats, each where it first appears.
pub fn dedupe_ids(ids: Vec<String>) -> (r: Vec<String>)
    ensures
        r.deep_view() == append_new(Seq::empty(), ids.deep_view()),
{
    let empty: Vec<String> = Vec::new();
    assert(empty.deep_view() =~= Seq::<Seq<char>>::empty());
    append_new_items(empty, &ids)
}

/// The queue names in configuration keys: each key that starts with
/// `prefix`, without it, in order; other keys are left out.
pub open spec fn names_after_prefix(keys: Seq<Seq<char>>, prefix: Seq<char>) -> Seq<Seq<char>>
    decreases keys.len(),
{
    if keys.len() == 0 {
        seq![]
    } else {
        let r = names_after_prefix(keys.drop_last(), prefix);
        match strip_prefix_spec(keys.last(), prefix) {
            Some(name) => r.push(name),
            None => r,
        }
    }
}

/// The names of the configured queues, from their configuration keys.
pub fn config_queue_names(keys: &Vec<String>, prefix: &str) -> (r: Vec<String>)
    ensures
        r.deep_view() == names_after_prefix(keys.deep_view(), prefix@),
{
    let mut out: Vec<String> = Vec::new();
    let mut i: usize = 0;
    assert(keys.deep_view().take(0) =~= Seq::<Seq<char>>::empty());
    assert(out.deep_view() =~= Seq::<Seq<char>>::empty());
    while i < keys.len()
        invariant
            i <= keys.len(),
            out.deep_view() == names_after_prefix(keys.deep_view().take(i as int), prefix@),
        decreases keys.len() - i,
    {
        let ghost before = out.deep_view();
        assert(keys.deep_view().take(i + 1).drop_last() =~= keys.deep_view().take(i as int));
        match strip_prefix(keys[i].as_str(), prefix) {
            Some(name) => {
                out.push(name);
                assert(out.deep_view() =~= before.push(
                    strip_prefix_spec(keys.deep_view()[i as int], prefix@)->0,
                ));
            },
            None => {},
        }
        i = i + 1;
    }
    assert(keys.deep_view().take(keys.len() as int) =~= keys.deep_view());
    out
}

/// What `str::to_lowercase` makes of `s` (full Unicode lower case).
pub uninterp spec fn lowercase(s: Seq<char>) -> Seq<char>;

/// Lower-cases with `str::to_lowercase`. Claimed: the result is the named
/// `lowercase` of the input.
#[verifier::external_body]
fn to_lowercase(s: &str) -> (r: String)
    ensures
        r@ == lowercase(s@),
{
    s.to_lowercase()
}

/// The items of `s` whose lower case contains `needle`, in order.
pub open spec fn matching(s: Seq<Seq<char>>, needle: Seq<char>) -> Seq<Seq<char>>
    decreases s.len(),
{
    if s.len() == 0 {
        seq![]
    } else {
        let r = matching(s.drop_last(), needle);
        if contains_seq(lowercase(s.last()), needle) {
            r.push(s.last())
        } else {
            r
        }
    }
}

/// The queues whose names contain `search`, ignoring case.
pub fn filter_queues(queues: Vec<String>, search: &str) -> (r: Vec<String>)
    ensures
        r.deep_view() == matching(queues.deep_view(), lowercase(search@)),
{
    let needle_s = to_lowercase(search);
    let needle = chars_of(needle_s.as_str());
    let mut out: Vec<String> = Vec::new();
    let mut i: usize = 0;
    assert(queues.deep_view().take(0) =~= Seq::<Seq<char>>::empty());
    assert(out.deep_view() =~= Seq::<Seq<char>>::empty());
    while i < queues.len()
        invariant
            i <= queues.len(),
            needle@ == lowercase(search@),
            out.deep_view() == matching(queues.deep_view().take(i as int), needle@),
        decreases queues.len() - i,
    {
        let ghost before = out.deep_view();
        assert(queues.deep_view().take(i + 1).drop_last() =~= queues.deep_view().take(i as int));
        let lower = to_lowercase(queues[i].as_str());
        let hay = chars_of(lower.as_str());
        if contains_chars(&hay, &needle) {
            out.push(queues[i].clone());
            assert(out.deep_view() =~= before.push(queues.deep_view()[i as int]));
        }
        i = i + 1;
    }
    assert(queues.deep_view().take(queues.len() as int) =~= queues.deep_view());
    out
}

/// What a job action request asks for.
#[derive(Debug, Clone, Copy, PartialEq, Eq)]
pub enum JobAction {
    /// Delete the job.
    Delete,
    /// Put the job back on its queue (`retry` or `queue`).
    Requeue,
    /// An action that is not known.
    Invalid,
}

/// The job action named `action`.
pub open spec fn job_action_spec(action: Seq<char>) -> JobAction {
    if action == "delete"@ {
        JobAction::Delete
    } else if action == "retry"@ || action == "queue"@ {
        JobAction::Requeue
    } else {
        JobAction::Invalid
    }
}

/// The job action named `action`; see [`job_action_spec`].
pub fn job_action_of(action: &str) -> (a: JobAction)
    ensures
        a == job_action_spec(action@),
{
    if str_eq(action, "delete") {
        JobAction::Delete
    } else if str_eq(action, "retry") || str_eq(action, "queue") {
        JobAction::Requeue
    } else {
        JobAction::Invalid
    }
}

/// The writes of deleting the job `job_id`, which the store holds: its
/// hash goes, and a line at `log_time` goes to the front of the default
/// queue's log, of which the newest lines are kept.
pub open spec fn delete_plan(job_id: Seq<char>, log_time: Seq<char>) -> Seq<WriteView> {
    let logs = key_of(LOGS_PREFIX@, "default"@);
    seq![
        WriteView::Del(key_of(PREFIX_JOB@, job_id)),
        WriteView::LPush(logs, "["@ + log_time + "] 🗑️ Job "@ + job_id + " deleted"@),
        WriteView::LTrim(logs, 0, LOG_KEEP),
    ]
}

/// The writes of putting the job `job_id`, which the store holds on
/// `queue`, back at the end of that queue at `now`: it leaves the delayed
/// set and the queue's list (so that it is there once), is appended to the
/// list, is marked `queued` with `now` as its retry time, and loses its
/// failure, completion and run times.
pub open spec fn requeue_plan(job_id: Seq<char>, queue: Seq<char>, now: Seq<char>) -> Seq<WriteView> {
    let qk = key_of(PREFIX_QUEUE@, queue);
    let jk = key_of(PREFIX_JOB@, job_id);
    seq![
        WriteView::ZRem(DELAYED_JOBS_KEY@, job_id),
        WriteView::LRem(qk, 0, job_id),
        WriteView::RPush(qk, job_id),
        WriteView::HashSet(jk, seq![("status"@, "queued"@), ("retry_at"@, now)]),
        WriteView::HDel(jk, seq!["failed_at"@, "completed_at"@, "run_at"@]),
    ]
}

/// The writes of deleting a job; see [`delete_plan`].
pub fn delete_writes(job_id: &str, log_time: &str) -> (w: Vec<StoreWrite>)
    ensures
        writes_view(w@) == delete_plan(job_id@, log_time@),
{
    let mut line: Vec<char> = Vec::new();
    crate::text::push_str(&mut line, "[");
    crate::text::push_str(&mut line, log_time);
    crate::text::push_str(&mut line, "] 🗑️ Job ");
    crate::text::push_str(&mut line, job_id);
    crate::text::push_str(&mut line, " deleted");
    let w: Vec<StoreWrite> = vec![
        StoreWrite::Del { key: job_key(job_id) },
        StoreWrite::LPush { key: key_for(LOGS_PREFIX, "default"), value: crate::text::string_from_chars(&line) },
        StoreWrite::LTrim { key: key_for(LOGS_PREFIX, "default"), start: 0, stop: LOG_KEEP },
    ];
    proof {
        assert(line@ =~= "["@ + log_time@ + "] 🗑️ Job "@ + job_id@ + " deleted"@);
        assert(writes_view(w@) =~= delete_plan(job_id@, log_time@));
    }
    w
}

/// The writes of putting a job back on its queue; see [`requeue_plan`].
pub fn requeue_writes(job_id: &str, queue: &str, now: &str) -> (w: Vec<StoreWrite>)
    ensures
        writes_view(w@) == requeue_plan(job_id@, queue@, now@),
{
    let fields: Vec<(String, String)> = vec![
        ("status".to_owned(), "queued".to_owned()),
        ("retry_at".to_owned(), now.to_owned()),
    ];
    let gone: Vec<String> = vec!["failed_at".to_owned(), "completed_at".to_owned(), "run_at".to_owned()];
    let ghost (fv, gv) = (fields@, gone@);
    let w: Vec<StoreWrite> = vec![
        StoreWrite::ZRem { key: DELAYED_JOBS_KEY.to_owned(), member: job_id.to_owned() },
        StoreWrite::LRem { key: queue_key(queue), count: 0, value: job_id.to_owned() },
        StoreWrite::RPush { key: queue_key(queue), value: job_id.to_owned() },
        StoreWrite::HashSet { key: job_key(job_id), fields },
        StoreWrite::HDel { key: job_key(job_id), fields: gone },
    ];
    proof {
        assert(pairs_view(fv) =~= seq![("status"@, "queued"@), ("retry_at"@, now@)]);
        assert(strings_view(gv) =~= seq!["failed_at"@, "completed_at"@, "run_at"@]);
        assert(writes_view(w@) =~= requeue_plan(job_id@, queue@, now@));
    }
    w
}

} // verus!
